//! The bridge between structured errors and a foreign runtime's string-only
//! exception channel. Encoding embeds the serialized record behind a fixed
//! sentinel prefix; decoding recognizes the sentinel, recovers the
//! structure, and degrades to a message-only error for anything else.

use vstd::prelude::*;

verus! {

use crate::chars::{chars_to_string, str_to_chars};
use crate::error::{Error, ErrorView};
use crate::native::{ExceptionKind, NativeException, NativeExceptionView};
use crate::ordered::unique_keys;
use crate::parse::{lemma_parse_record_unique, matches_at, p_record, parse_record};
use crate::serial::json_of;
use vstd::string::StrSliceExecFns;

/// The carried text of a bridge-made exception: the sentinel, then the
/// serialized record.
pub open spec fn encoded_reason(e: ErrorView) -> Seq<char> {
    "TeoError: "@ + json_of(e.code, e.message, e.errors)
}

/// The serialized remainder of an exception's text, if the exception is a
/// generic failure carrying one of the two recognized sentinels; the
/// longer, rethrown form wins.
pub open spec fn sentinel_body(x: NativeExceptionView) -> Option<Seq<char>> {
    if x.kind != ExceptionKind::GenericFailure {
        None
    } else if matches_at(x.reason, 0, "Error: TeoError: "@) {
        Some(x.reason.skip("Error: TeoError: "@.len() as int))
    } else if matches_at(x.reason, 0, "TeoError: "@) {
        Some(x.reason.skip("TeoError: "@.len() as int))
    } else {
        None
    }
}

/// The message-only reading of an exception.
pub open spec fn plain_decoded(x: NativeExceptionView) -> ErrorView {
    ErrorView { code: 500, message: x.reason, errors: None, payload: Some(x) }
}

/// What decoding an exception yields: the reconstructed record where the
/// sentinel and a well-formed serialized record are found, and the
/// message-only reading otherwise. The exception itself is attached as the
/// payload either way.
pub open spec fn decoded(x: NativeExceptionView) -> ErrorView {
    match sentinel_body(x) {
        Some(body) => match parse_record(body) {
            Some(p) => ErrorView { code: p.0, message: p.1, errors: p.2, payload: Some(x) },
            None => plain_decoded(x),
        },
        None => plain_decoded(x),
    }
}

/// Whether the characters of `v` begin with the characters of `pat`.
fn chars_begin_with(v: &Vec<char>, pat: &str) -> (r: bool)
    ensures
        r == matches_at(v@, 0, pat@),
{
    let n: usize = pat.unicode_len();
    if v.len() < n {
        return false;
    }
    let mut i: usize = 0;
    while i < n
        invariant
            n == pat@.len(),
            n <= v@.len(),
            i <= n,
            forall|k: int| 0 <= k < i ==> v@[k] == pat@[k],
        decreases n - i,
    {
        if v[i] != pat.get_char(i) {
            proof {
                if matches_at(v@, 0, pat@) {
                    assert(v@.subrange(0, n as int)[i as int] == v@[i as int]);
                    assert(false);
                }
            }
            return false;
        }
        i += 1;
    }
    proof {
        assert(v@.subrange(0, n as int) =~= pat@);
    }
    true
}

/// The characters of `v` from `start` on.
fn chars_from(v: &Vec<char>, start: usize) -> (r: Vec<char>)
    requires
        start <= v.len(),
    ensures
        r@ == v@.skip(start as int),
{
    let mut r: Vec<char> = Vec::new();
    let mut i: usize = start;
    while i < v.len()
        invariant
            start <= i <= v@.len(),
            r@ == v@.subrange(start as int, i as int),
        decreases v@.len() - i,
    {
        r.push(v[i]);
        assert(r@ =~= v@.subrange(start as int, i + 1));
        i += 1;
    }
    assert(r@ =~= v@.skip(start as int));
    r
}

/// Appends the characters of `more` to `out`.
fn push_all(out: &mut Vec<char>, more: &Vec<char>)
    ensures
        final(out)@ == old(out)@ + more@,
{
    let mut i: usize = 0;
    while i < more.len()
        invariant
            i <= more@.len(),
            out@ == old(out)@ + more@.subrange(0, i as int),
        decreases more@.len() - i,
    {
        out.push(more[i]);
        assert(out@ =~= old(out)@ + more@.subrange(0, i + 1));
        i += 1;
    }
    assert(out@ =~= old(out)@ + more@);
}

/// Converts an error into a native exception. An error that already holds
/// a native exception gives back that very exception; any other error is
/// serialized behind the sentinel into a fresh generic failure.
pub fn encode(e: Error) -> (r: NativeException)
    requires
        e.wf(),
    ensures
        match e@.payload {
            Some(x) => r@ == x,
            None => r@ == (NativeExceptionView {
                kind: ExceptionKind::GenericFailure,
                reason: encoded_reason(e@),
            }),
        },
{
    match e.platform_native_object {
        Some(x) => x,
        None => {
            let body = crate::serial::json_chars_of(e.code, e.message.as_str(), e.errors.as_ref());
            let mut out = str_to_chars("TeoError: ");
            push_all(&mut out, &body);
            let reason = chars_to_string(&out);
            let r = NativeException { kind: ExceptionKind::GenericFailure, reason };
            proof {
                assert(r@ =~= NativeExceptionView {
                    kind: ExceptionKind::GenericFailure,
                    reason: encoded_reason(e@),
                });
            }
            r
        },
    }
}

/// Converts a native exception into an error. This never fails: an
/// exception that does not carry a well-formed sentinel-prefixed record
/// comes back as a message-only error, and the original exception is
/// attached as the payload in every case.
pub fn decode(exc: NativeException) -> (r: Error)
    ensures
        r.wf(),
        r@ == decoded(exc@),
{
    let ghost xv = exc@;
    let reason_chars = str_to_chars(exc.reason());
    let is_generic = match exc.kind {
        ExceptionKind::GenericFailure => true,
        ExceptionKind::Other => false,
    };
    let stripped: Option<Vec<char>> = if !is_generic {
        None
    } else if chars_begin_with(&reason_chars, "Error: TeoError: ") {
        let n: usize = "Error: TeoError: ".unicode_len();
        Some(chars_from(&reason_chars, n))
    } else if chars_begin_with(&reason_chars, "TeoError: ") {
        let n: usize = "TeoError: ".unicode_len();
        Some(chars_from(&reason_chars, n))
    } else {
        None
    };
    match stripped {
        Some(body) => {
            match p_record(&body) {
                Some((code, msg_chars, errors_map)) => {
                    proof {
                        lemma_parse_record_unique(body@);
                    }
                    let message = chars_to_string(&msg_chars);
                    let r = Error {
                        code,
                        message,
                        errors: errors_map,
                        platform_native_object: Some(exc),
                    };
                    proof {
                        assert(r@ =~= decoded(xv));
                    }
                    r
                },
                None => {
                    let message = chars_to_string(&reason_chars);
                    let r = Error {
                        code: 500,
                        message,
                        errors: None,
                        platform_native_object: Some(exc),
                    };
                    proof {
                        assert(r@ =~= decoded(xv));
                    }
                    r
                },
            }
        },
        None => {
            let message = chars_to_string(&reason_chars);
            let r = Error { code: 500, message, errors: None, platform_native_object: Some(exc) };
            proof {
                assert(r@ =~= decoded(xv));
            }
            r
        },
    }
}


/// Graceful degradation: an exception whose text starts with neither
/// sentinel decodes to the message-only error carrying its text, whatever
/// its classification.
pub proof fn lemma_graceful_degradation(x: NativeExceptionView)
    requires
        !matches_at(x.reason, 0, "TeoError: "@),
        !matches_at(x.reason, 0, "Error: TeoError: "@),
    ensures
        decoded(x) == plain_decoded(x),
{
}

/// Sentinel precedence: on a generic failure whose text carries the
/// rethrown form, the longer prefix is the one stripped.
pub proof fn lemma_sentinel_precedence(x: NativeExceptionView)
    requires
        x.kind == ExceptionKind::GenericFailure,
        matches_at(x.reason, 0, "Error: TeoError: "@),
    ensures
        sentinel_body(x) == Some(x.reason.skip("Error: TeoError: "@.len() as int)),
{
}

} // verus!
