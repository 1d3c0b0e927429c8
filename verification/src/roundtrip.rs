//! The bridge's round-trip law: decoding what encoding produced gives back
//! the same code, message and field errors, with the fresh exception
//! attached as the payload. The proof walks the serialized text member by
//! member and shows the reader recovers exactly what the writer laid down.

use vstd::prelude::*;

verus! {

use crate::bridge::{decoded, encoded_reason, sentinel_body};
use crate::dec_digits;
use crate::digit_char;
use crate::error::ErrorView;
use crate::native::{ExceptionKind, NativeExceptionView};
use crate::ordered::{has_key, unique_keys};
use crate::parse::{
    cons_parsed, esc_u_char, finish_record, matches_at, parse_entries, parse_errors_value,
    parse_member, parse_num, parse_record, parse_string, parse_string_body, parse_u16, PartialView,
};
use crate::serial::{
    digit_val, entries_tail_text, entry_text, errors_text, escape_char, escape_seq, hex_char,
    hex_val, is_digit, is_hex_digit, json_of, json_string,
};

/// A pattern match at `i` splits over concatenation.
proof fn lemma_matches_split(s: Seq<char>, i: int, a: Seq<char>, b: Seq<char>)
    requires
        matches_at(s, i, a + b),
    ensures
        matches_at(s, i, a),
        matches_at(s, i + a.len(), b),
{
    let ab = a + b;
    assert forall|k: int| 0 <= k < a.len() implies s.subrange(i, i + a.len() as int)[k]
        == a[k] by {
        assert(s.subrange(i, i + ab.len() as int)[k] == s[i + k]);
        assert(ab[k] == a[k]);
    }
    assert(s.subrange(i, i + a.len()) =~= a);
    assert forall|k: int| 0 <= k < b.len() implies s.subrange(
        i + a.len(),
        i + a.len() + b.len(),
    )[k] == b[k] by {
        assert(s.subrange(i, i + ab.len() as int)[a.len() + k] == s[i + a.len() + k]);
        assert(ab[a.len() + k] == b[k]);
    }
    assert(s.subrange(i + a.len(), i + a.len() + b.len()) =~= b);
}

/// Each matched character stands in `s` where the pattern puts it.
proof fn lemma_matches_index(s: Seq<char>, i: int, p: Seq<char>, k: int)
    requires
        matches_at(s, i, p),
        0 <= k < p.len(),
    ensures
        s[i + k] == p[k],
{
    assert(s.subrange(i, i + p.len() as int)[k] == s[i + k]);
}

/// Escaped string content reads back as itself.
proof fn lemma_parse_body_of(s: Seq<char>, i: int, content: Seq<char>)
    requires
        matches_at(s, i, escape_seq(content) + seq!['"']),
    ensures
        parse_string_body(s, i) == Some(
            (content, i + escape_seq(content).len() + 1),
        ),
    decreases content.len(),
{
    if content.len() == 0 {
        assert(escape_seq(content) + seq!['"'] =~= seq!['"']);
        lemma_matches_index(s, i, seq!['"'], 0);
    } else {
        let c0 = content[0];
        let rest = content.skip(1);
        let e0 = escape_char(c0);
        assert(escape_seq(content) == e0 + escape_seq(rest));
        assert(escape_seq(content) + seq!['"'] =~= e0 + (escape_seq(rest) + seq!['"']));
        lemma_matches_split(s, i, e0, escape_seq(rest) + seq!['"']);
        let i2 = i + e0.len();
        lemma_parse_body_of(s, i2, rest);
        assert(seq![c0] + rest =~= content);
        if c0 == '"' {
            lemma_matches_index(s, i, e0, 0);
            lemma_matches_index(s, i, e0, 1);
            assert(parse_string_body(s, i) == cons_parsed('"', parse_string_body(s, i + 2)));
        } else if c0 == '\\' {
            lemma_matches_index(s, i, e0, 0);
            lemma_matches_index(s, i, e0, 1);
            assert(parse_string_body(s, i) == cons_parsed('\\', parse_string_body(s, i + 2)));
        } else if (c0 as u32) < 32 {
            lemma_matches_index(s, i, e0, 0);
            lemma_matches_index(s, i, e0, 1);
            lemma_matches_index(s, i, e0, 2);
            lemma_matches_index(s, i, e0, 3);
            lemma_matches_index(s, i, e0, 4);
            lemma_matches_index(s, i, e0, 5);
            let u = c0 as u32;
            assert(u / 16 < 16 && u % 16 < 16);
            let hi = (u / 16) as nat;
            let lo = (u % 16) as nat;
            lemma_hex_round(hi);
            lemma_hex_round(lo);
            assert(esc_u_char(hex_char(hi), hex_char(lo)) == c0) by {
                assert(16 * hex_val(hex_char(hi)) + hex_val(hex_char(lo)) == u);
                assert(((u as u8) as char) == c0) by {
                    vstd::utf8::char_u32_cast(c0, u);
                }
            }
            assert(s[i] == '\\' && s[i + 1] == 'u' && s[i + 2] == '0' && s[i + 3] == '0');
            assert(parse_string_body(s, i) == cons_parsed(c0, parse_string_body(s, i + 6)));
        } else {
            lemma_matches_index(s, i, e0, 0);
            assert(s[i] == c0);
            assert(parse_string_body(s, i) == cons_parsed(c0, parse_string_body(s, i + 1)));
        }
    }
}

/// A hexadecimal digit character carries its own value.
proof fn lemma_hex_round(d: nat)
    requires
        d < 16,
    ensures
        is_hex_digit(hex_char(d)),
        hex_val(hex_char(d)) == d,
        (hex_char(d) as u32) < 128,
{
}

/// A quoted, escaped string reads back as its content.
proof fn lemma_parse_string_of(s: Seq<char>, i: int, content: Seq<char>)
    requires
        matches_at(s, i, json_string(content)),
    ensures
        parse_string(s, i) == Some((content, i + json_string(content).len())),
{
    assert(json_string(content) =~= seq!['"'] + (escape_seq(content) + seq!['"']));
    lemma_matches_split(s, i, seq!['"'], escape_seq(content) + seq!['"']);
    lemma_matches_index(s, i, seq!['"'], 0);
    lemma_parse_body_of(s, i + 1, content);
}

/// Ten to the `k`.
pub open spec fn pow10(k: nat) -> nat
    decreases k,
{
    if k == 0 {
        1
    } else {
        10 * pow10((k - 1) as nat)
    }
}

proof fn lemma_pow10_pos(k: nat)
    ensures
        pow10(k) >= 1,
    decreases k,
{
    if k > 0 {
        lemma_pow10_pos((k - 1) as nat);
    }
}

/// Every character of `ds` is a decimal digit.
pub open spec fn all_digits(ds: Seq<char>) -> bool {
    forall|k: int| 0 <= k < ds.len() ==> is_digit(ds[k])
}

/// The number a digit sequence denotes, most significant digit first.
pub open spec fn digits_val(ds: Seq<char>) -> nat
    decreases ds.len(),
{
    if ds.len() == 0 {
        0
    } else {
        digits_val(ds.drop_last()) * 10 + digit_val(ds.last())
    }
}

proof fn lemma_digits_val_front(ds: Seq<char>)
    requires
        ds.len() >= 1,
    ensures
        digits_val(ds) == digit_val(ds[0]) * pow10((ds.len() - 1) as nat) + digits_val(ds.skip(1)),
    decreases ds.len(),
{
    if ds.len() == 1 {
        assert(ds.drop_last() =~= Seq::<char>::empty());
        assert(ds.skip(1) =~= Seq::<char>::empty());
        assert(digits_val(Seq::<char>::empty()) == 0);
        assert(digits_val(ds) == digit_val(ds[0]));
        assert(pow10(0) == 1);
    } else {
        let front = ds.drop_last();
        lemma_digits_val_front(front);
        assert(ds.skip(1).drop_last() =~= front.skip(1));
        assert(ds.skip(1).last() == ds.last());
        assert(digits_val(ds.skip(1)) == digits_val(front.skip(1)) * 10 + digit_val(ds.last()));
        assert(digits_val(ds) == digits_val(front) * 10 + digit_val(ds.last()));
        assert(pow10((ds.len() - 1) as nat) == 10 * pow10((ds.len() - 2) as nat));
        let k = (ds.len() - 2) as nat;
        assert(digits_val(ds) == digit_val(ds[0]) * pow10(k + 1) + digits_val(ds.skip(1))) by (nonlinear_arith)
            requires
                digits_val(ds) == digits_val(front) * 10 + digit_val(ds.last()),
                digits_val(front) == digit_val(ds[0]) * pow10(k) + digits_val(front.skip(1)),
                digits_val(ds.skip(1)) == digits_val(front.skip(1)) * 10 + digit_val(ds.last()),
                pow10(k + 1) == 10 * pow10(k),
        {}
    }
}

/// Reading a run of digits accumulates its value.
#[verifier::rlimit(100)]
#[verifier::spinoff_prover]
proof fn lemma_parse_digits(s: Seq<char>, i: int, ds: Seq<char>, acc: nat)
    requires
        matches_at(s, i, ds),
        all_digits(ds),
        i + ds.len() == s.len() || !is_digit(s[i + ds.len()]),
        acc * pow10(ds.len()) + digits_val(ds) <= 65535,
    ensures
        parse_num(s, i, acc) == Some(
            ((acc * pow10(ds.len()) + digits_val(ds)) as u16, i + ds.len()),
        ),
    decreases ds.len(),
{
    if ds.len() == 0 {
        assert(pow10(0) == 1);
        assert(digits_val(ds) == 0);
        assert(pow10(ds.len()) == 1);
        assert(acc * pow10(ds.len()) + digits_val(ds) == acc) by (nonlinear_arith)
            requires
                pow10(ds.len()) == 1,
                digits_val(ds) == 0,
        {}
        assert(!(0 <= i < s.len() && is_digit(s[i])));
        assert(parse_num(s, i, acc) == Some((acc as u16, i)));
        assert(parse_num(s, i, acc) == Some(
            ((acc * pow10(ds.len()) + digits_val(ds)) as u16, i + ds.len()),
        ));
    } else {
        lemma_matches_index(s, i, ds, 0);
        assert(s[i] == ds[0]);
        assert(is_digit(s[i]));
        lemma_digits_val_front(ds);
        let acc2 = acc * 10 + digit_val(ds[0]);
        let k = (ds.len() - 1) as nat;
        lemma_pow10_pos(k);
        assert(acc2 * pow10(k) + digits_val(ds.skip(1)) == acc * pow10(ds.len()) + digits_val(ds))
            by (nonlinear_arith)
            requires
                acc2 == acc * 10 + digit_val(ds[0]),
                pow10(ds.len() as nat) == 10 * pow10(k),
                ds.len() >= 1,
                digits_val(ds) == digit_val(ds[0]) * pow10(k) + digits_val(ds.skip(1)),
        {}
        assert(acc2 <= acc2 * pow10(k)) by (nonlinear_arith)
            requires
                pow10(k) >= 1,
                acc2 >= 0,
        {}
        assert(matches_at(s, i + 1, ds.skip(1))) by {
            assert(ds =~= seq![ds[0]] + ds.skip(1));
            lemma_matches_split(s, i, seq![ds[0]], ds.skip(1));
        }
        assert(digits_val(ds.skip(1)) >= 0);
        assert(acc2 <= 65535);
        assert(parse_num(s, i, acc) == parse_num(s, i + 1, acc2 as nat));
        lemma_parse_digits(s, i + 1, ds.skip(1), acc2);
        assert(parse_num(s, i + 1, acc2) == Some(
            ((acc2 * pow10((ds.len() - 1) as nat) + digits_val(ds.skip(1))) as u16, i + ds.len()),
        ));
        assert((acc2 * pow10(k) + digits_val(ds.skip(1))) as u16 == (acc * pow10(ds.len())
            + digits_val(ds)) as u16);
        assert(parse_num(s, i, acc) == Some(
            ((acc * pow10(ds.len()) + digits_val(ds)) as u16, i + ds.len()),
        ));
    }
}

/// The decimal rendering of a number below ten is that digit, and so on.
proof fn lemma_dec_digits_facts(n: nat)
    ensures
        all_digits(dec_digits(n)),
        digits_val(dec_digits(n)) == n,
        dec_digits(n).len() >= 1,
        n >= 10 ==> dec_digits(n)[0] != '0',
        n >= 1 ==> dec_digits(n)[0] != '0',
    decreases n,
{
    if n < 10 {
        assert(dec_digits(n) =~= seq![digit_char(n)]);
        assert(dec_digits(n).drop_last() =~= Seq::<char>::empty());
        assert(digits_val(Seq::<char>::empty()) == 0);
        assert(is_digit(digit_char(n)) && digit_val(digit_char(n)) == n);
    } else {
        lemma_dec_digits_facts(n / 10);
        let d = dec_digits(n / 10);
        assert(dec_digits(n) == d.push(digit_char(n % 10)));
        assert(dec_digits(n).drop_last() =~= d);
        assert(dec_digits(n).last() == digit_char(n % 10));
        assert(is_digit(digit_char(n % 10)) && digit_val(digit_char(n % 10)) == n % 10);
        assert(digits_val(dec_digits(n)) == digits_val(d) * 10 + digit_val(digit_char(n % 10)));
        assert(digits_val(dec_digits(n)) == (n / 10) * 10 + n % 10);
        assert(dec_digits(n)[0] == d[0]);
    }
}

/// The decimal rendering of a code reads back as the code.
proof fn lemma_parse_u16_of(s: Seq<char>, i: int, n: u16)
    requires
        matches_at(s, i, dec_digits(n as nat)),
        i + dec_digits(n as nat).len() == s.len() || !is_digit(s[i + dec_digits(n as nat).len()]),
    ensures
        parse_u16(s, i) == Some((n, i + dec_digits(n as nat).len())),
{
    let ds = dec_digits(n as nat);
    lemma_dec_digits_facts(n as nat);
    lemma_matches_index(s, i, ds, 0);
    if n == 0 {
        assert(ds =~= seq![digit_char(0)]);
        assert(s[i] == '0');
        if i + 1 < s.len() && is_digit(s[i + 1]) {
            assert(false);
        }
    } else {
        assert(s[i] == ds[0]);
        assert(ds[0] != '0');
        lemma_pow10_pos(ds.len() as nat);
        lemma_parse_digits(s, i, ds, 0);
    }
}

/// A written field-error object reads back as its entries.
proof fn lemma_parse_entries_of(
    s: Seq<char>,
    i: int,
    acc: Seq<(Seq<char>, Seq<char>)>,
    ts: Seq<(Seq<char>, Seq<char>)>,
)
    requires
        ts.len() >= 1,
        unique_keys(acc + ts),
        matches_at(s, i, entry_text(ts[0]) + entries_tail_text(ts.skip(1)) + seq!['}']),
    ensures
        parse_entries(s, i, acc) == Some(
            (
                acc + ts,
                i + (entry_text(ts[0]) + entries_tail_text(ts.skip(1))).len() + 1,
            ),
        ),
    decreases ts.len(),
{
    let e0 = ts[0];
    let whole = entry_text(e0) + entries_tail_text(ts.skip(1)) + seq!['}'];
    assert(whole =~= json_string(e0.0) + (seq![':'] + (json_string(e0.1) + (entries_tail_text(
        ts.skip(1),
    ) + seq!['}']))));
    lemma_matches_split(
        s,
        i,
        json_string(e0.0),
        seq![':'] + (json_string(e0.1) + (entries_tail_text(ts.skip(1)) + seq!['}'])),
    );
    lemma_parse_string_of(s, i, e0.0);
    let j1 = i + json_string(e0.0).len();
    lemma_matches_split(
        s,
        j1,
        seq![':'],
        json_string(e0.1) + (entries_tail_text(ts.skip(1)) + seq!['}']),
    );
    lemma_matches_index(s, j1, seq![':'], 0);
    lemma_matches_split(
        s,
        j1 + 1,
        json_string(e0.1),
        entries_tail_text(ts.skip(1)) + seq!['}'],
    );
    lemma_parse_string_of(s, j1 + 1, e0.1);
    let j2 = j1 + 1 + json_string(e0.1).len();
    assert(!has_key(acc, e0.0)) by {
        if has_key(acc, e0.0) {
            let w = choose|w: int| 0 <= w < acc.len() && acc[w].0 == e0.0;
            assert((acc + ts)[w] == acc[w]);
            assert((acc + ts)[acc.len() as int] == e0);
        }
    }
    if ts.len() == 1 {
        assert(ts.skip(1) =~= Seq::<(Seq<char>, Seq<char>)>::empty());
        assert(entries_tail_text(ts.skip(1)) =~= Seq::<char>::empty());
        assert(entries_tail_text(ts.skip(1)) + seq!['}'] =~= seq!['}']);
        lemma_matches_index(s, j2, seq!['}'], 0);
        assert(acc.push((e0.0, e0.1)) =~= acc + ts);
        assert(parse_entries(s, i, acc) == Some((acc.push((e0.0, e0.1)), j2 + 1)));
    } else {
        let tail = ts.skip(1);
        assert(entries_tail_text(tail) == seq![','] + entry_text(tail[0]) + entries_tail_text(
            tail.skip(1),
        ));
        assert(entries_tail_text(tail) + seq!['}'] =~= seq![','] + (entry_text(tail[0])
            + entries_tail_text(tail.skip(1)) + seq!['}']));
        lemma_matches_split(
            s,
            j2,
            seq![','],
            entry_text(tail[0]) + entries_tail_text(tail.skip(1)) + seq!['}'],
        );
        lemma_matches_index(s, j2, seq![','], 0);
        assert(acc.push((e0.0, e0.1)) + tail =~= acc + ts);
        lemma_parse_entries_of(s, j2 + 1, acc.push((e0.0, e0.1)), tail);
        assert(parse_entries(s, i, acc) == parse_entries(s, j2 + 1, acc.push((e0.0, e0.1))));
    }
}

/// A written `errors` value reads back as the same option of entries,
/// provided present entries are at least one.
proof fn lemma_parse_errors_of(s: Seq<char>, i: int, errs: Option<Seq<(Seq<char>, Seq<char>)>>)
    requires
        matches_at(s, i, errors_text(errs)),
        match errs {
            Some(es) => unique_keys(es) && es.len() >= 1,
            None => true,
        },
    ensures
        parse_errors_value(s, i) == Some((errs, i + errors_text(errs).len())),
{
    reveal_strlit("null");
    match errs {
        None => {
            assert(matches_at(s, i, "null"@));
            assert("null"@.len() == 4);
        },
        Some(es) => {
            let body = entry_text(es[0]) + entries_tail_text(es.skip(1));
            assert(errors_text(errs) =~= seq!['{'] + (body + seq!['}']));
            lemma_matches_split(s, i, seq!['{'], body + seq!['}']);
            lemma_matches_index(s, i, seq!['{'], 0);
            assert(s[i] == '{');
            assert(!matches_at(s, i, "null"@)) by {
                if matches_at(s, i, "null"@) {
                    lemma_matches_index(s, i, "null"@, 0);
                }
            }
            assert(body =~= json_string(es[0].0) + (seq![':'] + json_string(es[0].1)
                + entries_tail_text(es.skip(1))));
            lemma_matches_split(s, i + 1, body, seq!['}']);
            lemma_matches_split(
                s,
                i + 1,
                json_string(es[0].0),
                seq![':'] + json_string(es[0].1) + entries_tail_text(es.skip(1)),
            );
            lemma_matches_index(s, i + 1, json_string(es[0].0), 0);
            assert(s[i + 1] == '"');
            assert(Seq::<(Seq<char>, Seq<char>)>::empty() + es =~= es);
            assert(matches_at(s, i + 1, entry_text(es[0]) + entries_tail_text(es.skip(1)) + seq![
                '}',
            ])) by {
                assert(errors_text(errs) =~= seq!['{'] + (entry_text(es[0]) + entries_tail_text(
                    es.skip(1),
                ) + seq!['}']));
                lemma_matches_split(
                    s,
                    i,
                    seq!['{'],
                    entry_text(es[0]) + entries_tail_text(es.skip(1)) + seq!['}'],
                );
            }
            lemma_parse_entries_of(s, i + 1, Seq::empty(), es);
            assert(parse_errors_value(s, i) == Some((Some(es), i + errors_text(errs).len())));
        },
    }
}


/// A `"code":<number>` member reads into the partial record.
proof fn lemma_member_code(s: Seq<char>, i: int, code: u16, st: PartialView)
    requires
        st.code is None,
        matches_at(s, i, json_string("code"@)),
        i + json_string("code"@).len() < s.len(),
        s[i + json_string("code"@).len()] == ':',
        matches_at(s, i + json_string("code"@).len() + 1, dec_digits(code as nat)),
        i + json_string("code"@).len() + 1 + dec_digits(code as nat).len() == s.len() || !is_digit(
            s[i + json_string("code"@).len() + 1 + dec_digits(code as nat).len()],
        ),
    ensures
        parse_member(s, i, st) == Some(
            (
                PartialView { code: Some(code), ..st },
                i + json_string("code"@).len() + 1 + dec_digits(code as nat).len(),
            ),
        ),
{
    let j = i + json_string("code"@).len();
    lemma_parse_string_of(s, i, "code"@);
    lemma_parse_u16_of(s, j + 1, code);
}

/// A `"message":<string>` member reads into the partial record.
proof fn lemma_member_message(s: Seq<char>, i: int, message: Seq<char>, st: PartialView)
    requires
        st.message is None,
        matches_at(s, i, json_string("message"@)),
        i + json_string("message"@).len() < s.len(),
        s[i + json_string("message"@).len()] == ':',
        matches_at(s, i + json_string("message"@).len() + 1, json_string(message)),
    ensures
        parse_member(s, i, st) == Some(
            (
                PartialView { message: Some(message), ..st },
                i + json_string("message"@).len() + 1 + json_string(message).len(),
            ),
        ),
{
    reveal_strlit("code");
    reveal_strlit("message");
    assert("message"@.len() == 7 && "code"@.len() == 4);
    assert("message"@ != "code"@);
    let j = i + json_string("message"@).len();
    lemma_parse_string_of(s, i, "message"@);
    lemma_parse_string_of(s, j + 1, message);
}

/// An `"errors":<value>` member reads into the partial record.
proof fn lemma_member_errors(
    s: Seq<char>,
    i: int,
    errs: Option<Seq<(Seq<char>, Seq<char>)>>,
    st: PartialView,
)
    requires
        st.errors is None,
        match errs {
            Some(es) => unique_keys(es) && es.len() >= 1,
            None => true,
        },
        matches_at(s, i, json_string("errors"@)),
        i + json_string("errors"@).len() < s.len(),
        s[i + json_string("errors"@).len()] == ':',
        matches_at(s, i + json_string("errors"@).len() + 1, errors_text(errs)),
    ensures
        parse_member(s, i, st) == Some(
            (
                PartialView { errors: Some(errs), ..st },
                i + json_string("errors"@).len() + 1 + errors_text(errs).len(),
            ),
        ),
{
    reveal_strlit("code");
    reveal_strlit("message");
    reveal_strlit("errors");
    assert("message"@.len() == 7 && "code"@.len() == 4 && "errors"@.len() == 6);
    assert("errors"@ != "code"@ && "errors"@ != "message"@);
    let j = i + json_string("errors"@).len();
    lemma_parse_string_of(s, i, "errors"@);
    lemma_parse_errors_of(s, j + 1, errs);
}


/// Where each piece of the serialized record stands in the text.
#[verifier::rlimit(100)]
#[verifier::spinoff_prover]
proof fn lemma_record_layout(
    code: u16,
    message: Seq<char>,
    errs: Option<Seq<(Seq<char>, Seq<char>)>>,
)
    ensures
        ({
            let s = json_of(code, message, errs);
            let ds = dec_digits(code as nat);
            let k_code = json_string("code"@);
            let k_msg = json_string("message"@);
            let k_err = json_string("errors"@);
            let m_str = json_string(message);
            let e_txt = errors_text(errs);
            let i1: int = 1;
            let i2 = i1 + k_code.len();
            let i3 = i2 + 1;
            let i4 = i3 + ds.len();
            let i5 = i4 + 1;
            let i6 = i5 + k_msg.len();
            let i7 = i6 + 1;
            let i8 = i7 + m_str.len();
            let i9 = i8 + 1;
            let i10 = i9 + k_err.len();
            let i11 = i10 + 1;
            let i12 = i11 + e_txt.len();
            &&& s.len() >= 1
            &&& s[0] == '{'
            &&& matches_at(s, i1, k_code)
            &&& s[i2] == ':'
            &&& matches_at(s, i3, ds)
            &&& s[i4] == ','
            &&& !is_digit(s[i4])
            &&& matches_at(s, i5, k_msg)
            &&& s[i6] == ':'
            &&& matches_at(s, i7, m_str)
            &&& s[i8] == ','
            &&& matches_at(s, i9, k_err)
            &&& s[i10] == ':'
            &&& matches_at(s, i11, e_txt)
            &&& s[i12] == '}'
            &&& i12 + 1 == s.len()
        }),
{
    let s = json_of(code, message, errs);
    let ds = dec_digits(code as nat);
    let k_code = json_string("code"@);
    let k_msg = json_string("message"@);
    let k_err = json_string("errors"@);
    let m_str = json_string(message);
    let e_txt = errors_text(errs);
    assert(matches_at(s, 0, s)) by {
        assert(s.subrange(0, s.len() as int) =~= s);
    }
    lemma_matches_split(s, 0, seq!['{'], k_code + (seq![':'] + (ds + (seq![','] + (k_msg + (seq![
        ':',
    ] + (m_str + (seq![','] + (k_err + (seq![':'] + (e_txt + seq!['}'])))))))))));
    lemma_matches_index(s, 0, seq!['{'], 0);
    let i1: int = 1;
    lemma_matches_split(s, i1, k_code, seq![':'] + (ds + (seq![','] + (k_msg + (seq![':'] + (m_str
        + (seq![','] + (k_err + (seq![':'] + (e_txt + seq!['}']))))))))));
    let i2 = i1 + k_code.len();
    lemma_matches_split(s, i2, seq![':'], ds + (seq![','] + (k_msg + (seq![':'] + (m_str + (seq![
        ',',
    ] + (k_err + (seq![':'] + (e_txt + seq!['}'])))))))));
    lemma_matches_index(s, i2, seq![':'], 0);
    let i3 = i2 + 1;
    lemma_matches_split(s, i3, ds, seq![','] + (k_msg + (seq![':'] + (m_str + (seq![','] + (k_err
        + (seq![':'] + (e_txt + seq!['}']))))))));
    let i4 = i3 + ds.len();
    lemma_matches_split(s, i4, seq![','], k_msg + (seq![':'] + (m_str + (seq![','] + (k_err + (seq![
        ':',
    ] + (e_txt + seq!['}'])))))));
    lemma_matches_index(s, i4, seq![','], 0);
    let i5 = i4 + 1;
    lemma_matches_split(s, i5, k_msg, seq![':'] + (m_str + (seq![','] + (k_err + (seq![':'] + (e_txt
        + seq!['}']))))));
    let i6 = i5 + k_msg.len();
    lemma_matches_split(s, i6, seq![':'], m_str + (seq![','] + (k_err + (seq![':'] + (e_txt + seq![
        '}',
    ])))));
    lemma_matches_index(s, i6, seq![':'], 0);
    let i7 = i6 + 1;
    lemma_matches_split(s, i7, m_str, seq![','] + (k_err + (seq![':'] + (e_txt + seq!['}']))));
    let i8 = i7 + m_str.len();
    lemma_matches_split(s, i8, seq![','], k_err + (seq![':'] + (e_txt + seq!['}'])));
    lemma_matches_index(s, i8, seq![','], 0);
    let i9 = i8 + 1;
    lemma_matches_split(s, i9, k_err, seq![':'] + (e_txt + seq!['}']));
    let i10 = i9 + k_err.len();
    lemma_matches_split(s, i10, seq![':'], e_txt + seq!['}']);
    lemma_matches_index(s, i10, seq![':'], 0);
    let i11 = i10 + 1;
    lemma_matches_split(s, i11, e_txt, seq!['}']);
    let i12 = i11 + e_txt.len();
    lemma_matches_index(s, i12, seq!['}'], 0);
}

/// The serialized record reads back as its parts.
#[verifier::rlimit(100)]
#[verifier::spinoff_prover]
pub proof fn lemma_parse_record_of(
    code: u16,
    message: Seq<char>,
    errs: Option<Seq<(Seq<char>, Seq<char>)>>,
)
    requires
        match errs {
            Some(es) => unique_keys(es) && es.len() >= 1,
            None => true,
        },
    ensures
        parse_record(json_of(code, message, errs)) == Some((code, message, errs)),
{
    let s = json_of(code, message, errs);
    let ds = dec_digits(code as nat);
    let k_code = json_string("code"@);
    let k_msg = json_string("message"@);
    let k_err = json_string("errors"@);
    let m_str = json_string(message);
    let e_txt = errors_text(errs);
    lemma_dec_digits_facts(code as nat);
    lemma_record_layout(code, message, errs);
    let i1: int = 1;
    let i2 = i1 + k_code.len();
    let i3 = i2 + 1;
    let i4 = i3 + ds.len();
    let i5 = i4 + 1;
    let i6 = i5 + k_msg.len();
    let i7 = i6 + 1;
    let i8 = i7 + m_str.len();
    let i9 = i8 + 1;
    let i10 = i9 + k_err.len();
    let i11 = i10 + 1;
    let i12 = i11 + e_txt.len();

    // member one: code
    let st0 = PartialView { code: None, message: None, errors: None };
    assert(s[i4] == ',' && !is_digit(s[i4]));
    lemma_member_code(s, i1, code, st0);
    let st1 = PartialView { code: Some(code), ..st0 };
    assert(parse_member(s, i1, st0) == Some((st1, i4)));

    // member two: message
    lemma_member_message(s, i5, message, st1);
    let st2 = PartialView { message: Some(message), ..st1 };
    assert(parse_member(s, i5, st1) == Some((st2, i8)));

    // member three: errors
    lemma_member_errors(s, i9, errs, st2);
    let st3 = PartialView { errors: Some(errs), ..st2 };
    assert(parse_member(s, i9, st2) == Some((st3, i12)));

    assert(s[i12] == '}');
    assert(finish_record(s, st3, i12 + 1) == Some((code, message, errs)));
    assert(parse_record(s) == Some((code, message, errs)));
}

/// Round-trip identity: encoding an error that has no native payload and
/// decoding the fresh exception reproduces its code, message and field
/// errors, and attaches that exception as the payload.
pub proof fn lemma_round_trip(e: ErrorView)
    requires
        e.payload is None,
        match e.errors {
            Some(es) => unique_keys(es) && es.len() >= 1,
            None => true,
        },
    ensures
        ({
            let x = NativeExceptionView {
                kind: ExceptionKind::GenericFailure,
                reason: encoded_reason(e),
            };
            decoded(x) == (ErrorView {
                code: e.code,
                message: e.message,
                errors: e.errors,
                payload: Some(x),
            })
        }),
{
    reveal_strlit("TeoError: ");
    reveal_strlit("Error: TeoError: ");
    let x = NativeExceptionView { kind: ExceptionKind::GenericFailure, reason: encoded_reason(e) };
    let body = json_of(e.code, e.message, e.errors);
    assert(x.reason =~= "TeoError: "@ + body);
    assert(matches_at(x.reason, 0, "TeoError: "@ + body)) by {
        assert(x.reason.subrange(0, x.reason.len() as int) =~= x.reason);
    }
    lemma_matches_split(x.reason, 0, "TeoError: "@, body);
    assert(!matches_at(x.reason, 0, "Error: TeoError: "@)) by {
        if matches_at(x.reason, 0, "Error: TeoError: "@) {
            lemma_matches_index(x.reason, 0, "Error: TeoError: "@, 0);
            lemma_matches_index(x.reason, 0, "TeoError: "@, 0);
        }
    }
    assert(x.reason.skip("TeoError: "@.len() as int) =~= body);
    assert(sentinel_body(x) == Some(body));
    lemma_parse_record_of(e.code, e.message, e.errors);
    assert(decoded(x) =~= ErrorView {
        code: e.code,
        message: e.message,
        errors: e.errors,
        payload: Some(x),
    });
}

} // verus!
