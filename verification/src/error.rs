//! The structured error value: a numeric classification code, a message, an
//! optional ordered map of field-path errors, and an optional handle to the
//! native exception the error came from.

use vstd::prelude::*;

verus! {

use crate::chars::{chars_to_string, str_to_chars};
use crate::native::{NativeException, NativeExceptionView};
use crate::ordered::{
    dedup_entries, entries_of, has_key, insert_entry, lemma_insert_entry_unique, map_get_index,
    map_insert, map_len, map_new, rebuilt_map, unique_keys,
};
use crate::{dec_digits, push_dec_digits};

/// The mathematical value of an [`Error`].
#[verifier::ext_equal]
pub ghost struct ErrorView {
    pub code: u16,
    pub message: Seq<char>,
    pub errors: Option<Seq<(Seq<char>, Seq<char>)>>,
    pub payload: Option<NativeExceptionView>,
}

/// The structured error value.
#[derive(Debug)]
pub struct Error {
    pub code: u16,
    pub message: String,
    pub errors: Option<indexmap::IndexMap<String, String>>,
    pub platform_native_object: Option<NativeException>,
}

impl View for Error {
    type V = ErrorView;

    open spec fn view(&self) -> ErrorView {
        ErrorView {
            code: self.code,
            message: self.message@,
            errors: match self.errors {
                Some(m) => Some(entries_of(m)),
                None => None,
            },
            payload: match self.platform_native_object {
                Some(x) => Some(x@),
                None => None,
            },
        }
    }
}

/// `message` prefixed with `prefix` and a separating colon.
pub open spec fn prefixed_message(prefix: Seq<char>, message: Seq<char>) -> Seq<char> {
    prefix + ": "@ + message
}

/// Every value prefixed with `prefix` and a separating colon; keys kept.
pub open spec fn prefixed_values(
    es: Seq<(Seq<char>, Seq<char>)>,
    prefix: Seq<char>,
) -> Seq<(Seq<char>, Seq<char>)> {
    Seq::new(es.len(), |i: int| (es[i].0, prefixed_message(prefix, es[i].1)))
}

/// Every key rewritten to `prefix`, a dot, and the old key; values kept.
pub open spec fn prefixed_paths(
    es: Seq<(Seq<char>, Seq<char>)>,
    prefix: Seq<char>,
) -> Seq<(Seq<char>, Seq<char>)> {
    Seq::new(es.len(), |i: int| (prefix + "."@ + es[i].0, es[i].1))
}

/// Whether `mapper` can take a key reading `k` to one reading `nk`.
pub open spec fn key_mapped<F: Fn(&str) -> String>(mapper: F, k: Seq<char>, nk: Seq<char>) -> bool {
    exists|kr: &str, vr: String|
        kr@ == k && #[trigger] mapper.ensures((kr,), vr) && vr@ == nk
}

/// The entries obtained by inserting, in order, each old entry under its
/// replacement key from `ks`.
pub open spec fn remapped_entries(
    es: Seq<(Seq<char>, Seq<char>)>,
    ks: Seq<Seq<char>>,
) -> Seq<(Seq<char>, Seq<char>)>
    decreases es.len(),
{
    if es.len() == 0 {
        Seq::empty()
    } else {
        insert_entry(remapped_entries(es.drop_last(), ks.drop_last()), ks.last(), es.last().1)
    }
}

pub proof fn lemma_remapped_unique(es: Seq<(Seq<char>, Seq<char>)>, ks: Seq<Seq<char>>)
    ensures
        unique_keys(remapped_entries(es, ks)),
    decreases es.len(),
{
    if es.len() == 0 {
    } else {
        lemma_remapped_unique(es.drop_last(), ks.drop_last());
        lemma_insert_entry_unique(
            remapped_entries(es.drop_last(), ks.drop_last()),
            ks.last(),
            es.last().1,
        );
    }
}

/// Cancelling a shared prefix of two equal concatenations.
pub proof fn lemma_concat_cancel(x: Seq<char>, a: Seq<char>, b: Seq<char>)
    requires
        x + a == x + b,
    ensures
        a == b,
{
    assert(a =~= (x + a).skip(x.len() as int));
    assert(b =~= (x + b).skip(x.len() as int));
}

/// `prefix`, then `sep`, then `rest`, as one string.
fn concat3(prefix: &str, sep: &str, rest: &str) -> (r: String)
    ensures
        r@ == prefix@ + sep@ + rest@,
{
    let mut s = prefix.to_owned();
    s.append(sep);
    s.append(rest);
    proof {
        assert(s@ =~= prefix@ + sep@ + rest@);
    }
    s
}

impl Error {
    /// Entry keys never repeat: what holds of every map the library builds.
    pub open spec fn wf(&self) -> bool {
        match self@.errors {
            Some(es) => unique_keys(es),
            None => true,
        }
    }

    /// A message-only error of the internal-error class.
    pub fn new(message: &str) -> (r: Self)
        ensures
            r.wf(),
            r@ == (ErrorView {
                code: 500,
                message: message@,
                errors: None,
                payload: None,
            }),
    {
        let r = Error {
            code: 500,
            message: message.to_owned(),
            errors: None,
            platform_native_object: None,
        };
        proof {
            assert(r@ =~= ErrorView { code: 500, message: message@, errors: None, payload: None });
        }
        r
    }

    /// A message-only error with the given classification code.
    pub fn new_with_code(message: &str, code: u16) -> (r: Self)
        ensures
            r.wf(),
            r@ == (ErrorView { code, message: message@, errors: None, payload: None }),
    {
        let r = Error {
            code,
            message: message.to_owned(),
            errors: None,
            platform_native_object: None,
        };
        proof {
            assert(r@ =~= ErrorView { code, message: message@, errors: None, payload: None });
        }
        r
    }

    /// An error carrying field-level detail. The given map's entries are
    /// taken in their insertion order.
    pub fn new_with_code_errors(
        message: &str,
        code: u16,
        errors: indexmap::IndexMap<String, String>,
    ) -> (r: Self)
        ensures
            r.wf(),
            r@ == (ErrorView {
                code,
                message: message@,
                errors: Some(dedup_entries(entries_of(errors))),
                payload: None,
            }),
    {
        let rebuilt = rebuilt_map(&errors);
        let r = Error {
            code,
            message: message.to_owned(),
            errors: Some(rebuilt),
            platform_native_object: None,
        };
        proof {
            assert(r@ =~= ErrorView {
                code,
                message: message@,
                errors: Some(dedup_entries(entries_of(errors))),
                payload: None,
            });
        }
        r
    }

    /// An error carrying a single field-level entry.
    pub fn new_pathed(message: &str, code: u16, key: &str, value: &str) -> (r: Self)
        ensures
            r.wf(),
            r@ == (ErrorView {
                code,
                message: message@,
                errors: Some(seq![(key@, value@)]),
                payload: None,
            }),
    {
        let mut m = map_new();
        map_insert(&mut m, key.to_owned(), value.to_owned());
        proof {
            assert(entries_of(m) =~= seq![(key@, value@)]);
        }
        let r = Error {
            code,
            message: message.to_owned(),
            errors: Some(m),
            platform_native_object: None,
        };
        proof {
            assert(r@ =~= ErrorView {
                code,
                message: message@,
                errors: Some(seq![(key@, value@)]),
                payload: None,
            });
        }
        r
    }

    /// The classification code.
    pub fn code(&self) -> (r: u16)
        ensures
            r == self@.code,
    {
        self.code
    }

    /// The primary message.
    pub fn message(&self) -> (r: &str)
        ensures
            r@ == self@.message,
    {
        self.message.as_str()
    }

    /// The field-error map, if any.
    pub fn errors(&self) -> (r: Option<&indexmap::IndexMap<String, String>>)
        ensures
            match r {
                Some(m) => self@.errors == Some(entries_of(*m)),
                None => self@.errors is None,
            },
    {
        self.errors.as_ref()
    }

    /// Replaces the native payload with the given exception.
    pub fn assign_platform_native_object(&mut self, val: NativeException)
        ensures
            final(self)@ == (ErrorView { payload: Some(val@), ..old(self)@ }),
            final(self).wf() == old(self).wf(),
    {
        self.platform_native_object = Some(val);
        proof {
            assert(self@ =~= ErrorView { payload: Some(val@), ..old(self)@ });
        }
    }

    /// The native payload, if one was attached.
    pub fn platform_native_object(&self) -> (r: Option<&NativeException>)
        ensures
            match r {
                Some(x) => self@.payload == Some(x@),
                None => self@.payload is None,
            },
    {
        self.platform_native_object.as_ref()
    }

    /// The payload, cloned, for carrying over into a derived error.
    fn cloned_payload(&self) -> (r: Option<NativeException>)
        ensures
            match r {
                Some(x) => self@.payload == Some(x@),
                None => self@.payload is None,
            },
    {
        match self.platform_native_object.as_ref() {
            Some(x) => Some(x.clone()),
            None => None,
        }
    }

    /// A new error with every field-error message prefixed; without field
    /// detail, the main message is prefixed instead. Field detail, when
    /// present, is the primary carrier of meaning, so the main message is
    /// then left alone.
    pub fn message_prefixed(&self, prefix: &str) -> (r: Self)
        requires
            self.wf(),
        ensures
            r.wf(),
            r@.code == self@.code,
            r@.payload == self@.payload,
            match self@.errors {
                None => r@.errors is None && r@.message == prefixed_message(prefix@, self@.message),
                Some(es) => r@.message == self@.message && r@.errors == Some(
                    prefixed_values(es, prefix@),
                ),
            },
    {
        match self.errors.as_ref() {
            None => {
                let r = Error {
                    code: self.code,
                    message: concat3(prefix, ": ", self.message.as_str()),
                    errors: None,
                    platform_native_object: self.cloned_payload(),
                };
                r
            },
            Some(m) => {
                let ghost es = entries_of(*m);
                let n = map_len(m);
                let mut out = map_new();
                let mut i: usize = 0;
                while i < n
                    invariant
                        n == es.len(),
                        i <= n,
                        es == entries_of(*m),
                        unique_keys(es),
                        entries_of(out) == prefixed_values(es, prefix@).take(i as int),
                    decreases n - i,
                {
                    let (k, v) = map_get_index(m, i);
                    let nv = concat3(prefix, ": ", v.as_str());
                    proof {
                        if has_key(entries_of(out), k@) {
                            let j = choose|j: int|
                                0 <= j < entries_of(out).len() && entries_of(out)[j].0 == k@;
                            assert(entries_of(out)[j].0 == es[j].0);
                            assert(false);
                        }
                    }
                    map_insert(&mut out, k, nv);
                    proof {
                        assert(entries_of(out) =~= prefixed_values(es, prefix@).take(i + 1));
                    }
                    i += 1;
                }
                proof {
                    assert(prefixed_values(es, prefix@).take(n as int) =~= prefixed_values(
                        es,
                        prefix@,
                    ));
                    assert(forall|i: int, j: int|
                        0 <= i < j < es.len() ==> prefixed_values(es, prefix@)[i].0
                            != prefixed_values(es, prefix@)[j].0);
                }
                let r = Error {
                    code: self.code,
                    message: self.message.clone(),
                    errors: Some(out),
                    platform_native_object: self.cloned_payload(),
                };
                r
            },
        }
    }

    /// A new error with every field-error key rewritten to sit under
    /// `prefix`, dotted; no-op without field detail.
    pub fn path_prefixed(&self, prefix: &str) -> (r: Self)
        requires
            self.wf(),
        ensures
            r.wf(),
            r@.code == self@.code,
            r@.message == self@.message,
            r@.payload == self@.payload,
            match self@.errors {
                None => r@.errors is None,
                Some(es) => r@.errors == Some(prefixed_paths(es, prefix@)),
            },
    {
        match self.errors.as_ref() {
            None => {
                let r = Error {
                    code: self.code,
                    message: self.message.clone(),
                    errors: None,
                    platform_native_object: self.cloned_payload(),
                };
                r
            },
            Some(m) => {
                let ghost es = entries_of(*m);
                let n = map_len(m);
                let mut out = map_new();
                let mut i: usize = 0;
                while i < n
                    invariant
                        n == es.len(),
                        i <= n,
                        es == entries_of(*m),
                        unique_keys(es),
                        entries_of(out) == prefixed_paths(es, prefix@).take(i as int),
                    decreases n - i,
                {
                    let (k, v) = map_get_index(m, i);
                    let nk = concat3(prefix, ".", k.as_str());
                    proof {
                        if has_key(entries_of(out), nk@) {
                            let j = choose|j: int|
                                0 <= j < entries_of(out).len() && entries_of(out)[j].0 == nk@;
                            assert(entries_of(out)[j].0 == prefix@ + "."@ + es[j].0);
                            lemma_concat_cancel(prefix@ + "."@, es[j].0, es[i as int].0);
                            assert(false);
                        }
                    }
                    map_insert(&mut out, nk, v);
                    proof {
                        assert(entries_of(out) =~= prefixed_paths(es, prefix@).take(i + 1));
                    }
                    i += 1;
                }
                proof {
                    assert(prefixed_paths(es, prefix@).take(n as int) =~= prefixed_paths(
                        es,
                        prefix@,
                    ));
                    assert forall|i: int, j: int| 0 <= i < j < es.len() implies prefixed_paths(
                        es,
                        prefix@,
                    )[i].0 != prefixed_paths(es, prefix@)[j].0 by {
                        if prefixed_paths(es, prefix@)[i].0 == prefixed_paths(es, prefix@)[j].0 {
                            lemma_concat_cancel(prefix@ + "."@, es[i].0, es[j].0);
                        }
                    }
                }
                let r = Error {
                    code: self.code,
                    message: self.message.clone(),
                    errors: Some(out),
                    platform_native_object: self.cloned_payload(),
                };
                r
            },
        }
    }

    /// A new error with every field-error key rewritten by `mapper`; values,
    /// message, code and payload are kept. Entries are re-inserted in order,
    /// so two keys mapped to one key collapse to the first one's place with
    /// the later value.
    pub fn map_path<F: Fn(&str) -> String>(&self, mapper: F) -> (r: Self)
        requires
            self.wf(),
            forall|k: &str| #[trigger] mapper.requires((k,)),
        ensures
            r.wf(),
            r@.code == self@.code,
            r@.message == self@.message,
            r@.payload == self@.payload,
            match self@.errors {
                None => r@.errors is None,
                Some(es) => exists|ks: Seq<Seq<char>>|
                    ks.len() == es.len() && (forall|i: int|
                        0 <= i < es.len() ==> #[trigger] key_mapped(mapper, es[i].0, ks[i]))
                        && r@.errors == Some(remapped_entries(es, ks)),
            },
    {
        match self.errors.as_ref() {
            None => {
                let r = Error {
                    code: self.code,
                    message: self.message.clone(),
                    errors: None,
                    platform_native_object: self.cloned_payload(),
                };
                r
            },
            Some(m) => {
                let ghost es = entries_of(*m);
                let n = map_len(m);
                let mut out = map_new();
                let ghost mut ks: Seq<Seq<char>> = Seq::empty();
                let mut i: usize = 0;
                while i < n
                    invariant
                        n == es.len(),
                        i <= n,
                        es == entries_of(*m),
                        forall|k: &str| #[trigger] mapper.requires((k,)),
                        ks.len() == i,
                        forall|j: int|
                            0 <= j < i ==> #[trigger] key_mapped(mapper, es[j].0, ks[j]),
                        entries_of(out) == remapped_entries(es.take(i as int), ks),
                    decreases n - i,
                {
                    let (k, v) = map_get_index(m, i);
                    let k_str = k.as_str();
                    let nk = mapper(k_str);
                    proof {
                        let ks2 = ks.push(nk@);
                        assert(es.take(i + 1).drop_last() =~= es.take(i as int));
                        assert(ks2.drop_last() =~= ks);
                        assert(key_mapped(mapper, es[i as int].0, ks2[i as int])) by {
                            assert(k_str@ == es[i as int].0 && mapper.ensures((k_str,), nk) && nk@
                                == ks2[i as int]);
                        }
                        assert(forall|j: int|
                            0 <= j < i ==> ks2[j] == ks[j] && #[trigger] key_mapped(
                                mapper,
                                es[j].0,
                                ks2[j],
                            ));
                        ks = ks2;
                    }
                    map_insert(&mut out, nk, v);
                    i += 1;
                }
                proof {
                    assert(es.take(n as int) =~= es);
                    lemma_remapped_unique(es, ks);
                }
                let r = Error {
                    code: self.code,
                    message: self.message.clone(),
                    errors: Some(out),
                    platform_native_object: self.cloned_payload(),
                };
                r
            },
        }
    }

    /// A new error with the classification code overridden; all else kept.
    pub fn with_code(&self, code: u16) -> (r: Self)
        requires
            self.wf(),
        ensures
            r.wf(),
            r@ == (ErrorView { code, ..self@ }),
    {
        let errors = match self.errors.as_ref() {
            Some(m) => Some(rebuilt_map(m)),
            None => None,
        };
        proof {
            match self@.errors {
                Some(es) => crate::ordered::lemma_dedup_identity(es),
                None => (),
            }
        }
        let r = Error {
            code,
            message: self.message.clone(),
            errors,
            platform_native_object: self.cloned_payload(),
        };
        proof {
            assert(r@ =~= ErrorView { code, ..self@ });
        }
        r
    }
}

/// The canonical title for a classification code; codes outside the
/// standard table render as `ServerError(<code>)`.
pub open spec fn title_of(code: u16) -> Seq<char> {
    if code == 100 {
        "Continue"@
    } else if code == 101 {
        "SwitchingProtocols"@
    } else if code == 102 {
        "Processing"@
    } else if code == 103 {
        "EarlyHints"@
    } else if code == 200 {
        "OK"@
    } else if code == 201 {
        "Created"@
    } else if code == 202 {
        "Accepted"@
    } else if code == 203 {
        "NonAuthoritativeInformation"@
    } else if code == 204 {
        "NoContent"@
    } else if code == 205 {
        "ResetContent"@
    } else if code == 206 {
        "PartialContent"@
    } else if code == 207 {
        "MultiStatus"@
    } else if code == 208 {
        "AlreadyReported"@
    } else if code == 226 {
        "IMUsed"@
    } else if code == 300 {
        "MultipleChoices"@
    } else if code == 301 {
        "MovedPermanently"@
    } else if code == 302 {
        "Found"@
    } else if code == 303 {
        "SeeOther"@
    } else if code == 304 {
        "NotModified"@
    } else if code == 307 {
        "TemporaryRedirect"@
    } else if code == 308 {
        "PermanentRedirect"@
    } else if code == 400 {
        "BadRequest"@
    } else if code == 401 {
        "Unauthorized"@
    } else if code == 402 {
        "PaymentRequired"@
    } else if code == 403 {
        "Forbidden"@
    } else if code == 404 {
        "NotFound"@
    } else if code == 405 {
        "MethodNotAllowed"@
    } else if code == 406 {
        "NotAcceptable"@
    } else if code == 407 {
        "ProxyAuthenticationRequired"@
    } else if code == 408 {
        "RequestTimeout"@
    } else if code == 409 {
        "Conflict"@
    } else if code == 410 {
        "Gone"@
    } else if code == 411 {
        "LengthRequired"@
    } else if code == 412 {
        "PreconditionFailed"@
    } else if code == 413 {
        "PayloadTooLarge"@
    } else if code == 414 {
        "URITooLong"@
    } else if code == 415 {
        "UnsupportedMediaType"@
    } else if code == 416 {
        "RangeNotSatisfiable"@
    } else if code == 417 {
        "ExpectationFailed"@
    } else if code == 418 {
        "ImATeapot"@
    } else if code == 421 {
        "MisdirectedRequest"@
    } else if code == 422 {
        "UnprocessableContent"@
    } else if code == 423 {
        "Locked"@
    } else if code == 424 {
        "FailedDependency"@
    } else if code == 425 {
        "TooEarly"@
    } else if code == 426 {
        "UpgradeRequired"@
    } else if code == 428 {
        "PreconditionRequired"@
    } else if code == 429 {
        "TooManyRequests"@
    } else if code == 431 {
        "RequestHeaderFieldsTooLarge"@
    } else if code == 451 {
        "UnavailableForLegalReasons"@
    } else if code == 500 {
        "InternalServerError"@
    } else if code == 501 {
        "NotImplemented"@
    } else if code == 502 {
        "BadGateway"@
    } else if code == 503 {
        "ServiceUnavailable"@
    } else if code == 504 {
        "GatewayTimeout"@
    } else if code == 505 {
        "HTTPVersionNotSupported"@
    } else if code == 506 {
        "VariantAlsoNegotiates"@
    } else if code == 507 {
        "InsufficientStorage"@
    } else if code == 508 {
        "LoopDetected"@
    } else if code == 510 {
        "NotExtended"@
    } else if code == 511 {
        "NetworkAuthenticationRequired"@
    } else {
        "ServerError("@ + crate::dec_digits(code as nat) + ")"@
    }
}

impl Error {
    /// The human-readable title inferred from the classification code.
    pub fn inferred_title(&self) -> (r: String)
        ensures
            r@ == title_of(self@.code),
    {
        let code = self.code;
        if code == 100 {
            "Continue".to_owned()
        } else if code == 101 {
            "SwitchingProtocols".to_owned()
        } else if code == 102 {
            "Processing".to_owned()
        } else if code == 103 {
            "EarlyHints".to_owned()
        } else if code == 200 {
            "OK".to_owned()
        } else if code == 201 {
            "Created".to_owned()
        } else if code == 202 {
            "Accepted".to_owned()
        } else if code == 203 {
            "NonAuthoritativeInformation".to_owned()
        } else if code == 204 {
            "NoContent".to_owned()
        } else if code == 205 {
            "ResetContent".to_owned()
        } else if code == 206 {
            "PartialContent".to_owned()
        } else if code == 207 {
            "MultiStatus".to_owned()
        } else if code == 208 {
            "AlreadyReported".to_owned()
        } else if code == 226 {
            "IMUsed".to_owned()
        } else if code == 300 {
            "MultipleChoices".to_owned()
        } else if code == 301 {
            "MovedPermanently".to_owned()
        } else if code == 302 {
            "Found".to_owned()
        } else if code == 303 {
            "SeeOther".to_owned()
        } else if code == 304 {
            "NotModified".to_owned()
        } else if code == 307 {
            "TemporaryRedirect".to_owned()
        } else if code == 308 {
            "PermanentRedirect".to_owned()
        } else if code == 400 {
            "BadRequest".to_owned()
        } else if code == 401 {
            "Unauthorized".to_owned()
        } else if code == 402 {
            "PaymentRequired".to_owned()
        } else if code == 403 {
            "Forbidden".to_owned()
        } else if code == 404 {
            "NotFound".to_owned()
        } else if code == 405 {
            "MethodNotAllowed".to_owned()
        } else if code == 406 {
            "NotAcceptable".to_owned()
        } else if code == 407 {
            "ProxyAuthenticationRequired".to_owned()
        } else if code == 408 {
            "RequestTimeout".to_owned()
        } else if code == 409 {
            "Conflict".to_owned()
        } else if code == 410 {
            "Gone".to_owned()
        } else if code == 411 {
            "LengthRequired".to_owned()
        } else if code == 412 {
            "PreconditionFailed".to_owned()
        } else if code == 413 {
            "PayloadTooLarge".to_owned()
        } else if code == 414 {
            "URITooLong".to_owned()
        } else if code == 415 {
            "UnsupportedMediaType".to_owned()
        } else if code == 416 {
            "RangeNotSatisfiable".to_owned()
        } else if code == 417 {
            "ExpectationFailed".to_owned()
        } else if code == 418 {
            "ImATeapot".to_owned()
        } else if code == 421 {
            "MisdirectedRequest".to_owned()
        } else if code == 422 {
            "UnprocessableContent".to_owned()
        } else if code == 423 {
            "Locked".to_owned()
        } else if code == 424 {
            "FailedDependency".to_owned()
        } else if code == 425 {
            "TooEarly".to_owned()
        } else if code == 426 {
            "UpgradeRequired".to_owned()
        } else if code == 428 {
            "PreconditionRequired".to_owned()
        } else if code == 429 {
            "TooManyRequests".to_owned()
        } else if code == 431 {
            "RequestHeaderFieldsTooLarge".to_owned()
        } else if code == 451 {
            "UnavailableForLegalReasons".to_owned()
        } else if code == 500 {
            "InternalServerError".to_owned()
        } else if code == 501 {
            "NotImplemented".to_owned()
        } else if code == 502 {
            "BadGateway".to_owned()
        } else if code == 503 {
            "ServiceUnavailable".to_owned()
        } else if code == 504 {
            "GatewayTimeout".to_owned()
        } else if code == 505 {
            "HTTPVersionNotSupported".to_owned()
        } else if code == 506 {
            "VariantAlsoNegotiates".to_owned()
        } else if code == 507 {
            "InsufficientStorage".to_owned()
        } else if code == 508 {
            "LoopDetected".to_owned()
        } else if code == 510 {
            "NotExtended".to_owned()
        } else if code == 511 {
            "NetworkAuthenticationRequired".to_owned()
        } else {
            let mut v = str_to_chars("ServerError(");
            push_dec_digits(&mut v, code);
            v.push(')');
            let s = chars_to_string(&v);
            proof {
                reveal_strlit(")");
                assert(")"@ =~= seq![')']);
                assert(s@ =~= "ServerError("@ + dec_digits(code as nat) + ")"@);
            }
            s
        }
    }

    /// A message-only not-found error.
    pub fn not_found() -> (r: Self)
        ensures
            r.wf(),
            r@ == (ErrorView { code: 404, message: "not found"@, errors: None, payload: None }),
    {
        Error::new_with_code("not found", 404)
    }

    /// A message-only invalid-value error.
    pub fn invalid_request() -> (r: Self)
        ensures
            r.wf(),
            r@ == (ErrorView {
                code: 400,
                message: "value is invalid"@,
                errors: None,
                payload: None,
            }),
    {
        Error::new_with_code("value is invalid", 400)
    }

    /// A message-only internal error.
    pub fn internal_server_error() -> (r: Self)
        ensures
            r.wf(),
            r@ == (ErrorView {
                code: 500,
                message: "internal server error"@,
                errors: None,
                payload: None,
            }),
    {
        Error::new_with_code("internal server error", 500)
    }

    /// A message-only unauthorized error.
    pub fn unauthorized() -> (r: Self)
        ensures
            r.wf(),
            r@ == (ErrorView {
                code: 401,
                message: "unauthorized"@,
                errors: None,
                payload: None,
            }),
    {
        Error::new_with_code("unauthorized", 401)
    }
}

} // verus!
