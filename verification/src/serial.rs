//! The canonical text form of an error: a single-line JSON object with the
//! keys `code`, `message` and `errors`. Writing and reading that form is the
//! library's own logic, specified here character by character.

use vstd::prelude::*;

verus! {

use crate::chars::{chars_to_string, str_to_chars};
use vstd::string::StrSliceExecFns;
use crate::dec_digits;
use crate::digit_char;
use crate::push_dec_digits;
use crate::ordered::{entries_of, map_get_index, map_len, unique_keys};

/// A decimal digit character.
pub open spec fn is_digit(c: char) -> bool {
    48 <= c as u32 <= 57
}

/// The numeric value of a decimal digit character.
pub open spec fn digit_val(c: char) -> nat {
    (c as u32 - 48) as nat
}

/// A hexadecimal digit character, either case.
pub open spec fn is_hex_digit(c: char) -> bool {
    is_digit(c) || 97 <= c as u32 <= 102 || 65 <= c as u32 <= 70
}

/// The numeric value of a hexadecimal digit character.
pub open spec fn hex_val(c: char) -> nat {
    if is_digit(c) {
        digit_val(c)
    } else if 97 <= c as u32 <= 102 {
        (c as u32 - 87) as nat
    } else {
        (c as u32 - 55) as nat
    }
}

/// The lower-case hexadecimal character for a digit value.
pub open spec fn hex_char(d: nat) -> char {
    if d < 10 {
        digit_char(d)
    } else if d == 10 {
        'a'
    } else if d == 11 {
        'b'
    } else if d == 12 {
        'c'
    } else if d == 13 {
        'd'
    } else if d == 14 {
        'e'
    } else {
        'f'
    }
}

/// How one character is written inside a JSON string: quotes and backslashes
/// are escaped, control characters take the four-digit form, and every other
/// character stands as itself.
pub open spec fn escape_char(c: char) -> Seq<char> {
    if c == '"' {
        seq!['\\', '"']
    } else if c == '\\' {
        seq!['\\', '\\']
    } else if (c as u32) < 32 {
        seq!['\\', 'u', '0', '0', hex_char((c as u32 / 16) as nat), hex_char((c as u32 % 16) as nat)]
    } else {
        seq![c]
    }
}

/// A character sequence written with every character escaped as needed.
pub open spec fn escape_seq(s: Seq<char>) -> Seq<char>
    decreases s.len(),
{
    if s.len() == 0 {
        Seq::empty()
    } else {
        escape_char(s[0]) + escape_seq(s.skip(1))
    }
}

/// A quoted JSON string.
pub open spec fn json_string(s: Seq<char>) -> Seq<char> {
    seq!['"'] + escape_seq(s) + seq!['"']
}

/// One field-error entry: quoted key, colon, quoted value.
pub open spec fn entry_text(e: (Seq<char>, Seq<char>)) -> Seq<char> {
    json_string(e.0) + seq![':'] + json_string(e.1)
}

/// Every entry after the first, each preceded by a comma.
pub open spec fn entries_tail_text(es: Seq<(Seq<char>, Seq<char>)>) -> Seq<char>
    decreases es.len(),
{
    if es.len() == 0 {
        Seq::empty()
    } else {
        seq![','] + entry_text(es[0]) + entries_tail_text(es.skip(1))
    }
}

/// The JSON value written for the field-error map: an object of string
/// values, or `null` when there is none.
pub open spec fn errors_text(errs: Option<Seq<(Seq<char>, Seq<char>)>>) -> Seq<char> {
    match errs {
        None => "null"@,
        Some(es) => if es.len() == 0 {
            seq!['{', '}']
        } else {
            seq!['{'] + entry_text(es[0]) + entries_tail_text(es.skip(1)) + seq!['}']
        },
    }
}

/// The canonical serialized text of an error: one compact JSON object with
/// the keys `code`, `message` and `errors`, in that order.
pub open spec fn json_of(
    code: u16,
    message: Seq<char>,
    errs: Option<Seq<(Seq<char>, Seq<char>)>>,
) -> Seq<char> {
    seq!['{'] + (json_string("code"@) + (seq![':'] + (dec_digits(code as nat) + (seq![','] + (
    json_string("message"@) + (seq![':'] + (json_string(message) + (seq![','] + (json_string(
        "errors"@,
    ) + (seq![':'] + (errors_text(errs) + seq!['}'])))))))))))
}

/// Escaping distributes over concatenation.
pub proof fn lemma_escape_append(a: Seq<char>, b: Seq<char>)
    ensures
        escape_seq(a + b) == escape_seq(a) + escape_seq(b),
    decreases a.len(),
{
    if a.len() == 0 {
        assert(a + b =~= b);
        assert(escape_seq(a) + escape_seq(b) =~= escape_seq(b));
    } else {
        assert((a + b).skip(1) =~= a.skip(1) + b);
        lemma_escape_append(a.skip(1), b);
        assert(escape_seq(a + b) =~= escape_seq(a) + escape_seq(b));
    }
}

/// The tail text of one more entry.
pub proof fn lemma_tail_push(es: Seq<(Seq<char>, Seq<char>)>, e: (Seq<char>, Seq<char>))
    ensures
        entries_tail_text(es.push(e)) == entries_tail_text(es) + seq![','] + entry_text(e),
    decreases es.len(),
{
    if es.len() == 0 {
        assert(es.push(e)[0] == e);
        assert(es.push(e).skip(1) =~= Seq::<(Seq<char>, Seq<char>)>::empty());
        assert(entries_tail_text(Seq::<(Seq<char>, Seq<char>)>::empty())
            =~= Seq::<char>::empty());
        assert(es =~= Seq::<(Seq<char>, Seq<char>)>::empty());
        assert(entries_tail_text(es.push(e)) =~= entries_tail_text(es) + seq![','] + entry_text(e));
    } else {
        assert(es.push(e)[0] == es[0]);
        assert(es.push(e).skip(1) =~= es.skip(1).push(e));
        lemma_tail_push(es.skip(1), e);
        assert(entries_tail_text(es.push(e)) =~= entries_tail_text(es) + seq![','] + entry_text(e));
    }
}

/// The lower-case hexadecimal character for a digit value.
fn hex_to_char(d: u32) -> (r: char)
    requires
        d < 16,
    ensures
        r == hex_char(d as nat),
{
    if d < 10 {
        crate::digit_to_char(d as u16)
    } else if d == 10 {
        'a'
    } else if d == 11 {
        'b'
    } else if d == 12 {
        'c'
    } else if d == 13 {
        'd'
    } else if d == 14 {
        'e'
    } else {
        'f'
    }
}

/// Appends the characters of `s` to `out`.
pub fn push_str_chars(out: &mut Vec<char>, s: &str)
    ensures
        final(out)@ == old(out)@ + s@,
{
    let n: usize = s.unicode_len();
    let mut i: usize = 0;
    while i < n
        invariant
            n == s@.len(),
            i <= n,
            out@ == old(out)@ + s@.subrange(0, i as int),
        decreases n - i,
    {
        out.push(s.get_char(i));
        assert(out@ =~= old(out)@ + s@.subrange(0, i + 1));
        i += 1;
    }
    assert(out@ =~= old(out)@ + s@);
}

/// Appends the quoted, escaped JSON form of `s` to `out`.
fn push_json_string(out: &mut Vec<char>, s: &Vec<char>)
    ensures
        final(out)@ == old(out)@ + json_string(s@),
{
    out.push('"');
    let mut i: usize = 0;
    while i < s.len()
        invariant
            i <= s@.len(),
            out@ == old(out)@ + seq!['"'] + escape_seq(s@.take(i as int)),
        decreases s@.len() - i,
    {
        let c = s[i];
        if c == '"' {
            out.push('\\');
            out.push('"');
        } else if c == '\\' {
            out.push('\\');
            out.push('\\');
        } else if (c as u32) < 32 {
            out.push('\\');
            out.push('u');
            out.push('0');
            out.push('0');
            out.push(hex_to_char((c as u32) / 16));
            out.push(hex_to_char((c as u32) % 16));
        } else {
            out.push(c);
        }
        proof {
            assert(s@.take(i + 1) =~= s@.take(i as int) + seq![s@[i as int]]);
            lemma_escape_append(s@.take(i as int), seq![s@[i as int]]);
            let e1 = seq![s@[i as int]];
            assert(e1.skip(1) =~= Seq::<char>::empty());
            assert(escape_seq(e1.skip(1)) =~= Seq::<char>::empty());
            assert(escape_seq(e1) =~= escape_char(s@[i as int]));
            assert(out@ =~= old(out)@ + seq!['"'] + escape_seq(s@.take(i + 1)));
        }
        i += 1;
    }
    out.push('"');
    proof {
        assert(s@.take(s@.len() as int) =~= s@);
        assert(out@ =~= old(out)@ + json_string(s@));
    }
}

/// Appends the quoted JSON form of a literal to `out`.
fn push_json_str(out: &mut Vec<char>, s: &str)
    ensures
        final(out)@ == old(out)@ + json_string(s@),
{
    let cs = str_to_chars(s);
    push_json_string(out, &cs);
}

/// The serialized text of the given parts, as characters.
#[verifier::rlimit(100)]
pub fn json_chars_of(
    code: u16,
    message: &str,
    errors: Option<&indexmap::IndexMap<String, String>>,
) -> (r: Vec<char>)
    ensures
        r@ == json_of(
            code,
            message@,
            match errors {
                Some(m) => Some(entries_of(*m)),
                None => None,
            },
        ),
{
    let mut out: Vec<char> = Vec::new();
    out.push('{');
    push_json_str(&mut out, "code");
    out.push(':');
    push_dec_digits(&mut out, code);
    out.push(',');
    push_json_str(&mut out, "message");
    out.push(':');
    let msg_chars = str_to_chars(message);
    push_json_string(&mut out, &msg_chars);
    out.push(',');
    push_json_str(&mut out, "errors");
    out.push(':');
    match errors {
        None => {
            push_str_chars(&mut out, "null");
        },
        Some(m) => {
            let ghost es = entries_of(*m);
            let n = map_len(m);
            out.push('{');
            if n > 0 {
                let (k, v) = map_get_index(m, 0);
                let kc = str_to_chars(k.as_str());
                let vc = str_to_chars(v.as_str());
                push_json_string(&mut out, &kc);
                out.push(':');
                push_json_string(&mut out, &vc);
                let ghost base = out@;
                let mut i: usize = 1;
                while i < n
                    invariant
                        n == es.len(),
                        1 <= i <= n,
                        es == entries_of(*m),
                        out@ == base + entries_tail_text(es.take(i as int).skip(1)),
                    decreases n - i,
                {
                    let (k, v) = map_get_index(m, i);
                    let kc = str_to_chars(k.as_str());
                    let vc = str_to_chars(v.as_str());
                    out.push(',');
                    push_json_string(&mut out, &kc);
                    out.push(':');
                    push_json_string(&mut out, &vc);
                    proof {
                        let pre = es.take(i as int).skip(1);
                        assert(es.take(i + 1) =~= es.take(i as int).push(es[i as int]));
                        assert(es.take(i + 1).skip(1) =~= pre.push(es[i as int]));
                        lemma_tail_push(pre, es[i as int]);
                        assert(out@ =~= base + entries_tail_text(es.take(i + 1).skip(1)));
                    }
                    i += 1;
                }
                proof {
                    assert(es.take(n as int) =~= es);
                }
            }
            out.push('}');
        },
    }
    out.push('}');
    proof {
        let spec_errs: Option<Seq<(Seq<char>, Seq<char>)>> = match errors {
            Some(m) => Some(entries_of(*m)),
            None => None,
        };
        assert(out@ =~= json_of(code, message@, spec_errs));
    }
    out
}


/// The wire projection of an error: code, message, and the field-error
/// map. Purely a carrier for the text form; not retained.
pub struct ErrorSerializable {
    pub code: u16,
    pub message: String,
    pub errors: Option<indexmap::IndexMap<String, String>>,
}

impl ErrorSerializable {
    /// What the record holds, mathematically.
    pub open spec fn record(&self) -> (u16, Seq<char>, Option<Seq<(Seq<char>, Seq<char>)>>) {
        (
            self.code,
            self.message@,
            match self.errors {
                Some(m) => Some(entries_of(m)),
                None => None,
            },
        )
    }

    /// The projection of an error.
    pub fn from_error(e: &crate::error::Error) -> (r: Self)
        requires
            e.wf(),
        ensures
            r.record() == (e@.code, e@.message, e@.errors),
    {
        let errors = match e.errors() {
            Some(m) => Some(crate::ordered::rebuilt_map(m)),
            None => None,
        };
        proof {
            match e@.errors {
                Some(es) => crate::ordered::lemma_dedup_identity(es),
                None => (),
            }
        }
        ErrorSerializable { code: e.code(), message: e.message().to_owned(), errors }
    }

    /// The canonical single-line JSON text of this record.
    pub fn to_json_string(&self) -> (r: String)
        ensures
            r@ == json_of(self.record().0, self.record().1, self.record().2),
    {
        let chars = json_chars_of(self.code, self.message.as_str(), self.errors.as_ref());
        chars_to_string(&chars)
    }

    /// The canonical serialized text of an error.
    pub fn error_string(e: &crate::error::Error) -> (r: String)
        ensures
            r@ == json_of(e@.code, e@.message, e@.errors),
    {
        let chars = json_chars_of(e.code(), e.message(), e.errors());
        chars_to_string(&chars)
    }

    /// Reads a record back from its text; any text that is not a
    /// well-formed record gives nothing.
    pub fn from_json_str(s: &str) -> (r: Option<Self>)
        ensures
            match r {
                Some(rec) => crate::parse::parse_record(s@) == Some(rec.record())
                    && rec.wf_errors(),
                None => crate::parse::parse_record(s@) is None,
            },
    {
        let chars = str_to_chars(s);
        match crate::parse::p_record(&chars) {
            Some((code, msg_chars, errors)) => {
                proof {
                    crate::parse::lemma_parse_record_unique(s@);
                }
                let message = chars_to_string(&msg_chars);
                Some(ErrorSerializable { code, message, errors })
            },
            None => None,
        }
    }

    /// Present field errors never repeat a key.
    pub open spec fn wf_errors(&self) -> bool {
        match self.record().2 {
            Some(es) => unique_keys(es),
            None => true,
        }
    }
}

} // verus!
