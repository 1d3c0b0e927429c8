//! Reading the canonical serialized text back: a small JSON reader for the
//! exact shape the library writes — an object with a numeric `code`, a
//! string `message`, and an `errors` member that is `null` or an object
//! whose values are all strings. Anything else fails, and the caller
//! degrades to a message-only error.
//!
//! The reader is specified first as mathematical functions over character
//! sequences; the executable reader is proved to return exactly what they
//! say.

use vstd::prelude::*;

verus! {

use crate::ordered::{has_key, unique_keys};
use vstd::string::StrSliceExecFns;
use crate::serial::{digit_val, hex_val, is_digit, is_hex_digit};

/// Whether `pat` occurs in `s` at position `i`.
pub open spec fn matches_at(s: Seq<char>, i: int, pat: Seq<char>) -> bool {
    0 <= i && i + pat.len() <= s.len() && s.subrange(i, i + pat.len()) == pat
}

/// The character written by a one-letter escape, if the letter is one.
pub open spec fn simple_escape(e: char) -> Option<char> {
    if e == '"' {
        Some('"')
    } else if e == '\\' {
        Some('\\')
    } else if e == '/' {
        Some('/')
    } else if e == 'b' {
        Some('\u{8}')
    } else if e == 'f' {
        Some('\u{c}')
    } else if e == 'n' {
        Some('\n')
    } else if e == 'r' {
        Some('\r')
    } else if e == 't' {
        Some('\t')
    } else {
        None
    }
}

/// The character written by a four-digit escape whose first two digits are
/// zero.
pub open spec fn esc_u_char(h1: char, h2: char) -> char {
    ((16 * hex_val(h1) + hex_val(h2)) as u8) as char
}

/// `c` put on the front of a parse result's content.
pub open spec fn cons_parsed(c: char, r: Option<(Seq<char>, int)>) -> Option<(Seq<char>, int)> {
    match r {
        Some((cs, j)) => Some((seq![c] + cs, j)),
        None => None,
    }
}

/// Reads string content up to and including the closing quote, starting
/// just after the opening quote.
pub open spec fn parse_string_body(s: Seq<char>, i: int) -> Option<(Seq<char>, int)>
    decreases s.len() - i,
{
    if i < 0 || i >= s.len() {
        None
    } else if s[i] == '"' {
        Some((Seq::empty(), i + 1))
    } else if s[i] == '\\' {
        if i + 2 <= s.len() {
            if s[i + 1] == 'u' {
                if i + 6 <= s.len() && s[i + 2] == '0' && s[i + 3] == '0' && is_hex_digit(s[i + 4])
                    && is_hex_digit(s[i + 5]) {
                    cons_parsed(esc_u_char(s[i + 4], s[i + 5]), parse_string_body(s, i + 6))
                } else {
                    None
                }
            } else {
                match simple_escape(s[i + 1]) {
                    Some(c) => cons_parsed(c, parse_string_body(s, i + 2)),
                    None => None,
                }
            }
        } else {
            None
        }
    } else if (s[i] as u32) < 32 {
        None
    } else {
        cons_parsed(s[i], parse_string_body(s, i + 1))
    }
}

/// Reads a quoted string at `i`: its content and the position after it.
pub open spec fn parse_string(s: Seq<char>, i: int) -> Option<(Seq<char>, int)> {
    if 0 <= i < s.len() && s[i] == '"' {
        parse_string_body(s, i + 1)
    } else {
        None
    }
}

pub proof fn lemma_string_body_advances(s: Seq<char>, i: int)
    ensures
        parse_string_body(s, i) matches Some(p) ==> i + 1 <= p.1 <= s.len(),
    decreases s.len() - i,
{
    if 0 <= i < s.len() {
        if s[i] == '"' {
        } else if s[i] == '\\' {
            if i + 2 <= s.len() {
                if s[i + 1] == 'u' {
                    if i + 6 <= s.len() {
                        lemma_string_body_advances(s, i + 6);
                    }
                } else {
                    lemma_string_body_advances(s, i + 2);
                }
            }
        } else {
            lemma_string_body_advances(s, i + 1);
        }
    }
}

pub proof fn lemma_string_advances(s: Seq<char>, i: int)
    ensures
        parse_string(s, i) matches Some(p) ==> i + 2 <= p.1 <= s.len(),
{
    lemma_string_body_advances(s, i + 1);
}

/// Accumulates decimal digits left to right, failing past the largest code.
pub open spec fn parse_num(s: Seq<char>, i: int, acc: nat) -> Option<(u16, int)>
    decreases s.len() - i,
{
    if 0 <= i < s.len() && is_digit(s[i]) {
        if acc * 10 + digit_val(s[i]) > 65535 {
            None
        } else {
            parse_num(s, i + 1, acc * 10 + digit_val(s[i]))
        }
    } else {
        Some((acc as u16, i))
    }
}

/// Reads an unsigned decimal number at `i`, with no leading zero.
pub open spec fn parse_u16(s: Seq<char>, i: int) -> Option<(u16, int)> {
    if 0 <= i < s.len() && is_digit(s[i]) {
        if s[i] == '0' {
            if i + 1 < s.len() && is_digit(s[i + 1]) {
                None
            } else {
                Some((0, i + 1))
            }
        } else {
            parse_num(s, i, 0)
        }
    } else {
        None
    }
}

/// Reads the members of a non-empty field-error object, starting at the
/// first key, up to and including the closing brace. A repeated key or a
/// value that is not a string fails the whole read.
pub open spec fn parse_entries(
    s: Seq<char>,
    i: int,
    acc: Seq<(Seq<char>, Seq<char>)>,
) -> Option<(Seq<(Seq<char>, Seq<char>)>, int)>
    decreases s.len() - i,
    when i >= 0
    via parse_entries_decreases
{
    match parse_string(s, i) {
        None => None,
        Some((k, j)) => {
            if has_key(acc, k) {
                None
            } else if j < s.len() && s[j] == ':' {
                match parse_string(s, j + 1) {
                    None => None,
                    Some((v, j2)) => {
                        if j2 < s.len() && s[j2] == ',' {
                            parse_entries(s, j2 + 1, acc.push((k, v)))
                        } else if j2 < s.len() && s[j2] == '}' {
                            Some((acc.push((k, v)), j2 + 1))
                        } else {
                            None
                        }
                    },
                }
            } else {
                None
            }
        },
    }
}

#[via_fn]
proof fn parse_entries_decreases(s: Seq<char>, i: int, acc: Seq<(Seq<char>, Seq<char>)>) {
    lemma_string_advances(s, i);
    match parse_string(s, i) {
        Some((k, j)) => lemma_string_advances(s, j + 1),
        None => (),
    }
}

/// Keys read so far stay pairwise distinct.
pub proof fn lemma_parse_entries_unique(s: Seq<char>, i: int, acc: Seq<(Seq<char>, Seq<char>)>)
    requires
        i >= 0,
        unique_keys(acc),
    ensures
        parse_entries(s, i, acc) matches Some(p) ==> unique_keys(p.0),
    decreases s.len() - i,
{
    lemma_string_advances(s, i);
    match parse_string(s, i) {
        None => {},
        Some((k, j)) => {
            lemma_string_advances(s, j + 1);
            if !has_key(acc, k) && j < s.len() && s[j] == ':' {
                match parse_string(s, j + 1) {
                    None => {},
                    Some((v, j2)) => {
                        assert(unique_keys(acc.push((k, v)))) by {
                            let acc2 = acc.push((k, v));
                            assert forall|a: int, b: int| 0 <= a < b < acc2.len() implies acc2[a].0
                                != acc2[b].0 by {
                                if b == acc.len() {
                                    if acc2[a].0 == acc2[b].0 {
                                        assert(has_key(acc, k));
                                    }
                                }
                            }
                        }
                        if j2 < s.len() && s[j2] == ',' {
                            lemma_parse_entries_unique(s, j2 + 1, acc.push((k, v)));
                        }
                    },
                }
            }
        },
    }
}

/// What has been read of the three members so far.
#[verifier::ext_equal]
pub ghost struct PartialView {
    pub code: Option<u16>,
    pub message: Option<Seq<char>>,
    pub errors: Option<Option<Seq<(Seq<char>, Seq<char>)>>>,
}

/// Reads the `errors` member's value: `null` or an empty object give no
/// field errors; a non-empty object gives its entries.
pub open spec fn parse_errors_value(s: Seq<char>, i: int) -> Option<
    (Option<Seq<(Seq<char>, Seq<char>)>>, int),
> {
    if matches_at(s, i, "null"@) {
        Some((None, i + "null"@.len()))
    } else if 0 <= i < s.len() && s[i] == '{' {
        if i + 1 < s.len() && s[i + 1] == '}' {
            Some((None, i + 2))
        } else {
            match parse_entries(s, i + 1, Seq::empty()) {
                None => None,
                Some((es, j)) => Some((Some(es), j)),
            }
        }
    } else {
        None
    }
}

/// Reads one `key:value` member at `i` into the partial record; a key that
/// is unknown or already present fails.
pub open spec fn parse_member(s: Seq<char>, i: int, st: PartialView) -> Option<(PartialView, int)> {
    match parse_string(s, i) {
        None => None,
        Some((k, j)) => {
            if !(j < s.len() && s[j] == ':') {
                None
            } else if k == "code"@ && st.code is None {
                match parse_u16(s, j + 1) {
                    None => None,
                    Some((c, j2)) => Some((PartialView { code: Some(c), ..st }, j2)),
                }
            } else if k == "message"@ && st.message is None {
                match parse_string(s, j + 1) {
                    None => None,
                    Some((m, j2)) => Some((PartialView { message: Some(m), ..st }, j2)),
                }
            } else if k == "errors"@ && st.errors is None {
                match parse_errors_value(s, j + 1) {
                    None => None,
                    Some((e, j2)) => Some((PartialView { errors: Some(e), ..st }, j2)),
                }
            } else {
                None
            }
        },
    }
}

/// The finished record, provided the text ended and the required members
/// are present; a missing or empty `errors` member means no field errors.
pub open spec fn finish_record(s: Seq<char>, st: PartialView, end: int) -> Option<
    (u16, Seq<char>, Option<Seq<(Seq<char>, Seq<char>)>>),
> {
    if end == s.len() && st.code is Some && st.message is Some {
        Some(
            (
                st.code->0,
                st.message->0,
                match st.errors {
                    None => None,
                    Some(e) => e,
                },
            ),
        )
    } else {
        None
    }
}

/// Reads a whole serialized record: an object of two or three members, in
/// any order, covering the entire text.
pub open spec fn parse_record(s: Seq<char>) -> Option<
    (u16, Seq<char>, Option<Seq<(Seq<char>, Seq<char>)>>),
> {
    let st0 = PartialView { code: None, message: None, errors: None };
    if s.len() >= 1 && s[0] == '{' {
        match parse_member(s, 1, st0) {
            None => None,
            Some((st1, j1)) => {
                if j1 < s.len() && s[j1] == '}' {
                    finish_record(s, st1, j1 + 1)
                } else if j1 < s.len() && s[j1] == ',' {
                    match parse_member(s, j1 + 1, st1) {
                        None => None,
                        Some((st2, j2)) => {
                            if j2 < s.len() && s[j2] == '}' {
                                finish_record(s, st2, j2 + 1)
                            } else if j2 < s.len() && s[j2] == ',' {
                                match parse_member(s, j2 + 1, st2) {
                                    None => None,
                                    Some((st3, j3)) => {
                                        if j3 < s.len() && s[j3] == '}' {
                                            finish_record(s, st3, j3 + 1)
                                        } else {
                                            None
                                        }
                                    },
                                }
                            } else {
                                None
                            }
                        },
                    }
                } else {
                    None
                }
            },
        }
    } else {
        None
    }
}

/// A record read from anywhere never carries repeated field-error keys.
pub proof fn lemma_parse_record_unique(s: Seq<char>)
    ensures
        parse_record(s) matches Some(p) ==> match p.2 {
            Some(es) => unique_keys(es),
            None => true,
        },
{
    let st0 = PartialView { code: None, message: None, errors: None };
    if s.len() >= 1 && s[0] == '{' {
        lemma_member_errors_unique(s, 1, st0);
        match parse_member(s, 1, st0) {
            None => {},
            Some((st1, j1)) => {
                if j1 < s.len() && s[j1] == ',' {
                    lemma_member_errors_unique(s, j1 + 1, st1);
                    match parse_member(s, j1 + 1, st1) {
                        None => {},
                        Some((st2, j2)) => {
                            if j2 < s.len() && s[j2] == ',' {
                                lemma_member_errors_unique(s, j2 + 1, st2);
                            }
                        },
                    }
                }
            },
        }
    }
}

proof fn lemma_member_errors_unique(s: Seq<char>, i: int, st: PartialView)
    requires
        match st.errors {
            Some(Some(es)) => unique_keys(es),
            _ => true,
        },
    ensures
        parse_member(s, i, st) matches Some(q) ==> match q.0.errors {
            Some(Some(es)) => unique_keys(es),
            _ => true,
        },
{
    match parse_string(s, i) {
        None => {},
        Some((k, j)) => {
            lemma_string_advances(s, i);
            if j < s.len() && s[j] == ':' && k == "errors"@ && st.errors is None {
                if 0 <= j + 1 < s.len() && s[j + 1] == '{' {
                    lemma_parse_entries_unique(s, j + 2, Seq::empty());
                }
            }
        },
    }
}


/// A parse result's content put after an already-read prefix.
pub open spec fn glue(pre: Seq<char>, r: Option<(Seq<char>, int)>) -> Option<(Seq<char>, int)> {
    match r {
        Some((cs, j)) => Some((pre + cs, j)),
        None => None,
    }
}

proof fn lemma_glue_cons(pre: Seq<char>, c: char, r: Option<(Seq<char>, int)>)
    ensures
        glue(pre, cons_parsed(c, r)) == glue(pre.push(c), r),
{
    match r {
        Some((cs, j)) => {
            assert(pre + (seq![c] + cs) =~= pre.push(c) + cs);
        },
        None => {},
    }
}

/// The value of a hexadecimal digit character, if it is one.
fn hex_digit_of(c: char) -> (r: Option<u32>)
    ensures
        match r {
            Some(x) => is_hex_digit(c) && x == hex_val(c) && x < 16,
            None => !is_hex_digit(c),
        },
{
    let u = c as u32;
    if 48 <= u && u <= 57 {
        Some(u - 48)
    } else if 97 <= u && u <= 102 {
        Some(u - 87)
    } else if 65 <= u && u <= 70 {
        Some(u - 55)
    } else {
        None
    }
}

/// The value of a decimal digit character, if it is one.
fn dec_digit_of(c: char) -> (r: Option<u32>)
    ensures
        match r {
            Some(x) => is_digit(c) && x == digit_val(c) && x < 10,
            None => !is_digit(c),
        },
{
    let u = c as u32;
    if 48 <= u && u <= 57 {
        Some(u - 48)
    } else {
        None
    }
}

/// Whether the characters of `v` read exactly as `s`.
fn chars_eq_str(v: &Vec<char>, s: &str) -> (r: bool)
    ensures
        r == (v@ == s@),
{
    let n: usize = s.unicode_len();
    if v.len() != n {
        proof {
            if v@ == s@ {
                assert(false);
            }
        }
        return false;
    }
    let mut i: usize = 0;
    while i < n
        invariant
            n == s@.len(),
            n == v@.len(),
            i <= n,
            forall|k: int| 0 <= k < i ==> v@[k] == s@[k],
        decreases n - i,
    {
        if v[i] != s.get_char(i) {
            proof {
                if v@ == s@ {
                    assert(v@[i as int] == s@[i as int]);
                    assert(false);
                }
            }
            return false;
        }
        i += 1;
    }
    proof {
        assert(v@ =~= s@);
    }
    true
}

/// Reads a quoted string at `i`, returning its content and the position
/// after the closing quote.
fn p_string(v: &Vec<char>, i: usize) -> (r: Option<(Vec<char>, usize)>)
    ensures
        ({
            let sp = parse_string(v@, i as int);
            match r {
                Some((c, j)) => sp matches Some(p) && p.0 == c@ && p.1 == j as int && i + 2 <= j
                    <= v.len(),
                None => sp is None,
            }
        }),
{
    if !(i < v.len()) {
        return None;
    }
    if v[i] != '"' {
        return None;
    }
    let mut j: usize = i + 1;
    let mut content: Vec<char> = Vec::new();
    proof {
        match parse_string_body(v@, i + 1) {
            Some((cs, jj)) => {
                assert(Seq::<char>::empty() + cs =~= cs);
            },
            None => {},
        }
    }
    loop
        invariant
            i < v@.len(),
            v@[i as int] == '"',
            i + 1 <= j <= v.len(),
            parse_string_body(v@, i + 1) == glue(content@, parse_string_body(v@, j as int)),
        decreases v@.len() - j,
    {
        if j >= v.len() {
            return None;
        }
        let c = v[j];
        if c == '"' {
            proof {
                assert(content@ + Seq::<char>::empty() =~= content@);
            }
            return Some((content, j + 1));
        } else if c == '\\' {
            if j + 1 >= v.len() {
                return None;
            }
            let e = v[j + 1];
            if e == 'u' {
                if v.len() - j < 6 {
                    return None;
                }
                if v[j + 2] != '0' || v[j + 3] != '0' {
                    return None;
                }
                let h1 = match hex_digit_of(v[j + 4]) {
                    Some(x) => x,
                    None => {
                        return None;
                    },
                };
                let h2 = match hex_digit_of(v[j + 5]) {
                    Some(x) => x,
                    None => {
                        return None;
                    },
                };
                let code = 16 * h1 + h2;
                let c0 = (code as u8) as char;
                proof {
                    assert(c0 == esc_u_char(v@[j + 4], v@[j + 5]));
                    lemma_glue_cons(content@, c0, parse_string_body(v@, j + 6));
                }
                content.push(c0);
                j += 6;
            } else {
                let sc: Option<char> = if e == '"' {
                    Some('"')
                } else if e == '\\' {
                    Some('\\')
                } else if e == '/' {
                    Some('/')
                } else if e == 'b' {
                    Some('\u{8}')
                } else if e == 'f' {
                    Some('\u{c}')
                } else if e == 'n' {
                    Some('\n')
                } else if e == 'r' {
                    Some('\r')
                } else if e == 't' {
                    Some('\t')
                } else {
                    None
                };
                proof {
                    assert(sc == simple_escape(v@[j + 1]));
                }
                match sc {
                    Some(c0) => {
                        proof {
                            lemma_glue_cons(content@, c0, parse_string_body(v@, j + 2));
                        }
                        content.push(c0);
                        j += 2;
                    },
                    None => {
                        return None;
                    },
                }
            }
        } else if (c as u32) < 32 {
            return None;
        } else {
            proof {
                lemma_glue_cons(content@, c, parse_string_body(v@, j + 1));
            }
            content.push(c);
            j += 1;
        }
    }
}

/// Reads an unsigned decimal number at `i`.
fn p_u16(v: &Vec<char>, i: usize) -> (r: Option<(u16, usize)>)
    ensures
        ({
            let sp = parse_u16(v@, i as int);
            match r {
                Some((c, j)) => sp matches Some(p) && p.0 == c && p.1 == j as int && i < j
                    <= v.len(),
                None => sp is None,
            }
        }),
{
    if !(i < v.len()) {
        return None;
    }
    match dec_digit_of(v[i]) {
        Some(_) => {},
        None => {
            return None;
        },
    }
    if v[i] == '0' {
        if i + 1 < v.len() {
            match dec_digit_of(v[i + 1]) {
                Some(_) => {
                    return None;
                },
                None => {},
            }
        }
        return Some((0, i + 1));
    }
    let mut j: usize = i;
    let mut acc: u32 = 0;
    loop
        invariant
            i <= j <= v.len(),
            acc <= 65535,
            i < v@.len() && is_digit(v@[i as int]) && v@[i as int] != '0',
            parse_num(v@, i as int, 0) == parse_num(v@, j as int, acc as nat),
        decreases v@.len() - j,
    {
        if j < v.len() {
            match dec_digit_of(v[j]) {
                Some(d) => {
                    let acc2 = acc * 10 + d;
                    if acc2 > 65535 {
                        return None;
                    }
                    acc = acc2;
                    j += 1;
                },
                None => {
                    return Some((acc as u16, j));
                },
            }
        } else {
            return Some((acc as u16, j));
        }
    }
}

/// Reads the members of a non-empty field-error object into a map.
fn p_entries(v: &Vec<char>, i: usize, acc: indexmap::IndexMap<String, String>) -> (r: Option<
    (indexmap::IndexMap<String, String>, usize),
>)
    requires
        i <= v.len(),
    ensures
        ({
            let sp = parse_entries(v@, i as int, crate::ordered::entries_of(acc));
            match r {
                Some((m, j)) => sp matches Some(p) && p.0 == crate::ordered::entries_of(m) && p.1
                    == j as int && i < j <= v.len(),
                None => sp is None,
            }
        }),
    decreases v@.len() - i,
{
    let (kc, j) = match p_string(v, i) {
        Some(x) => x,
        None => {
            return None;
        },
    };
    let kstr = crate::chars::chars_to_string(&kc);
    if crate::ordered::map_contains_key(&acc, &kstr) {
        return None;
    }
    if !(j < v.len()) {
        return None;
    }
    if v[j] != ':' {
        return None;
    }
    let (vc, j2) = match p_string(v, j + 1) {
        Some(x) => x,
        None => {
            return None;
        },
    };
    let vstr = crate::chars::chars_to_string(&vc);
    let ghost acc_entries = crate::ordered::entries_of(acc);
    let mut acc2 = acc;
    crate::ordered::map_insert(&mut acc2, kstr, vstr);
    proof {
        assert(crate::ordered::entries_of(acc2) == acc_entries.push((kc@, vc@)));
    }
    if j2 < v.len() {
        let t = v[j2];
        if t == ',' {
            p_entries(v, j2 + 1, acc2)
        } else if t == '}' {
            Some((acc2, j2 + 1))
        } else {
            None
        }
    } else {
        None
    }
}

/// What has been read of the three members so far, as values.
pub struct PartialRec {
    pub code: Option<u16>,
    pub message: Option<Vec<char>>,
    pub errors: Option<Option<indexmap::IndexMap<String, String>>>,
}

impl View for PartialRec {
    type V = PartialView;

    open spec fn view(&self) -> PartialView {
        PartialView {
            code: self.code,
            message: match self.message {
                Some(m) => Some(m@),
                None => None,
            },
            errors: match self.errors {
                Some(Some(m)) => Some(Some(crate::ordered::entries_of(m))),
                Some(None) => Some(None),
                None => None,
            },
        }
    }
}

/// Reads the `errors` member value at `i`.
fn p_errors_value(v: &Vec<char>, i: usize) -> (r: Option<
    (Option<indexmap::IndexMap<String, String>>, usize),
>)
    ensures
        ({
            let sp = parse_errors_value(v@, i as int);
            match r {
                Some((e, j)) => sp matches Some(p) && p.1 == j as int && j <= v.len() && i < j && (
                match e {
                    Some(m) => p.0 == Some(crate::ordered::entries_of(m)),
                    None => p.0 is None,
                }),
                None => sp is None,
            }
        }),
{
    proof {
        reveal_strlit("null");
    }
    if i < v.len() && v.len() - i >= 4 && v[i] == 'n' && v[i + 1] == 'u' && v[i + 2] == 'l' && v[i
        + 3] == 'l' {
        proof {
            assert(v@.subrange(i as int, i + 4) =~= "null"@);
            assert(matches_at(v@, i as int, "null"@));
        }
        return Some((None, i + 4));
    }
    proof {
        if matches_at(v@, i as int, "null"@) {
            assert(v@.subrange(i as int, i + 4)[0] == v@[i as int]);
            assert(v@.subrange(i as int, i + 4)[1] == v@[i + 1]);
            assert(v@.subrange(i as int, i + 4)[2] == v@[i + 2]);
            assert(v@.subrange(i as int, i + 4)[3] == v@[i + 3]);
            assert(false);
        }
    }
    if !(i < v.len()) {
        return None;
    }
    if v[i] != '{' {
        return None;
    }
    if i + 1 < v.len() && v[i + 1] == '}' {
        return Some((None, i + 2));
    }
    match p_entries(v, i + 1, crate::ordered::map_new()) {
        Some((m, j)) => Some((Some(m), j)),
        None => None,
    }
}

/// Reads one `key:value` member at `i` into the partial record.
fn p_member(v: &Vec<char>, i: usize, st: PartialRec) -> (r: Option<(PartialRec, usize)>)
    ensures
        ({
            let sp = parse_member(v@, i as int, st@);
            match r {
                Some((st2, j)) => sp matches Some(p) && p.0 == st2@ && p.1 == j as int && i < j
                    <= v.len(),
                None => sp is None,
            }
        }),
{
    let (kc, j) = match p_string(v, i) {
        Some(x) => x,
        None => {
            return None;
        },
    };
    if !(j < v.len()) {
        return None;
    }
    if v[j] != ':' {
        return None;
    }
    if chars_eq_str(&kc, "code") && st.code.is_none() {
        match p_u16(v, j + 1) {
            Some((c, j2)) => {
                let st2 = PartialRec { code: Some(c), message: st.message, errors: st.errors };
                proof {
                    assert(st2@ =~= PartialView { code: Some(c), ..st@ });
                }
                Some((st2, j2))
            },
            None => None,
        }
    } else if chars_eq_str(&kc, "message") && st.message.is_none() {
        match p_string(v, j + 1) {
            Some((m, j2)) => {
                let ghost mseq = m@;
                let st2 = PartialRec { code: st.code, message: Some(m), errors: st.errors };
                proof {
                    assert(st2@ =~= PartialView { message: Some(mseq), ..st@ });
                }
                Some((st2, j2))
            },
            None => None,
        }
    } else if chars_eq_str(&kc, "errors") && st.errors.is_none() {
        match p_errors_value(v, j + 1) {
            Some((e, j2)) => {
                let ghost ev = match &e {
                    Some(m) => Some(crate::ordered::entries_of(*m)),
                    None => None,
                };
                let st2 = PartialRec { code: st.code, message: st.message, errors: Some(e) };
                proof {
                    assert(st2@ =~= PartialView { errors: Some(ev), ..st@ });
                }
                Some((st2, j2))
            },
            None => None,
        }
    } else {
        None
    }
}

/// The finished record, once the text has ended.
fn finish_exec(v: &Vec<char>, st: PartialRec, end: usize) -> (r: Option<
    (u16, Vec<char>, Option<indexmap::IndexMap<String, String>>),
>)
    ensures
        ({
            let sp = finish_record(v@, st@, end as int);
            match r {
                Some((c, m, e)) => sp matches Some(p) && p.0 == c && p.1 == m@ && (match e {
                    Some(em) => p.2 == Some(crate::ordered::entries_of(em)),
                    None => p.2 is None,
                }),
                None => sp is None,
            }
        }),
{
    if end != v.len() {
        return None;
    }
    let code = match st.code {
        Some(c) => c,
        None => {
            return None;
        },
    };
    let message = match st.message {
        Some(m) => m,
        None => {
            return None;
        },
    };
    let errors = match st.errors {
        Some(e) => e,
        None => None,
    };
    Some((code, message, errors))
}

/// Reads a whole serialized record from the characters of `v`.
pub fn p_record(v: &Vec<char>) -> (r: Option<
    (u16, Vec<char>, Option<indexmap::IndexMap<String, String>>),
>)
    ensures
        ({
            let sp = parse_record(v@);
            match r {
                Some((c, m, e)) => sp matches Some(p) && p.0 == c && p.1 == m@ && (match e {
                    Some(em) => p.2 == Some(crate::ordered::entries_of(em)),
                    None => p.2 is None,
                }),
                None => sp is None,
            }
        }),
{
    if !(v.len() >= 1) {
        return None;
    }
    if v[0] != '{' {
        return None;
    }
    let st0 = PartialRec { code: None, message: None, errors: None };
    proof {
        assert(st0@ =~= PartialView { code: None, message: None, errors: None });
    }
    let (st1, j1) = match p_member(v, 1, st0) {
        Some(x) => x,
        None => {
            return None;
        },
    };
    if !(j1 < v.len()) {
        return None;
    }
    if v[j1] == '}' {
        return finish_exec(v, st1, j1 + 1);
    }
    if v[j1] != ',' {
        return None;
    }
    let (st2, j2) = match p_member(v, j1 + 1, st1) {
        Some(x) => x,
        None => {
            return None;
        },
    };
    if !(j2 < v.len()) {
        return None;
    }
    if v[j2] == '}' {
        return finish_exec(v, st2, j2 + 1);
    }
    if v[j2] != ',' {
        return None;
    }
    let (st3, j3) = match p_member(v, j2 + 1, st2) {
        Some(x) => x,
        None => {
            return None;
        },
    };
    if !(j3 < v.len()) {
        return None;
    }
    if v[j3] == '}' {
        return finish_exec(v, st3, j3 + 1);
    }
    None
}

} // verus!
