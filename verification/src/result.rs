//! Annotating a result's error as it propagates up a call chain: each
//! operation leaves a success alone and derives a new error from a failure.

use vstd::prelude::*;

verus! {

use crate::error::{Error, ErrorView, prefixed_message, prefixed_paths, prefixed_values};

/// Operations that rewrite the error of a result, leaving successes alone.
pub trait ResultExt<T>: Sized {
    /// What must hold of the receiver before prefixing.
    spec fn prefix_req(&self) -> bool;

    /// How the result after message prefixing relates to the one before.
    spec fn message_prefixed_ens(self, prefix: Seq<char>, r: Self) -> bool;

    /// How the result after path prefixing relates to the one before.
    spec fn path_prefixed_ens(self, prefix: Seq<char>, r: Self) -> bool;

    /// How the result after a code override relates to the one before.
    spec fn altered_code_ens(self, code: u16, r: Self) -> bool;

    /// A success unchanged; a failure with its message, or its field-error
    /// messages, prefixed.
    fn error_message_prefixed(self, prefix: &str) -> (r: Self)
        requires
            self.prefix_req(),
        ensures
            self.message_prefixed_ens(prefix@, r),
    ;

    /// A success unchanged; a failure with its field-error keys put under
    /// the prefix.
    fn error_path_prefixed(self, prefix: &str) -> (r: Self)
        requires
            self.prefix_req(),
        ensures
            self.path_prefixed_ens(prefix@, r),
    ;

    /// A success unchanged; a failure with its classification overridden.
    fn alter_error_code(self, code: u16) -> (r: Self)
        requires
            self.prefix_req(),
        ensures
            self.altered_code_ens(code, r),
    ;
}

impl<T> ResultExt<T> for Result<T, Error> {
    open spec fn prefix_req(&self) -> bool {
        match self {
            Ok(_) => true,
            Err(e) => e.wf(),
        }
    }

    open spec fn message_prefixed_ens(self, prefix: Seq<char>, r: Self) -> bool {
        match (self, r) {
            (Ok(t), Ok(t2)) => t == t2,
            (Err(e), Err(e2)) => e2.wf() && e2@.code == e@.code && e2@.payload == e@.payload
                && match e@.errors {
                None => e2@.errors is None && e2@.message == prefixed_message(prefix, e@.message),
                Some(es) => e2@.message == e@.message && e2@.errors == Some(
                    prefixed_values(es, prefix),
                ),
            },
            _ => false,
        }
    }

    open spec fn path_prefixed_ens(self, prefix: Seq<char>, r: Self) -> bool {
        match (self, r) {
            (Ok(t), Ok(t2)) => t == t2,
            (Err(e), Err(e2)) => e2.wf() && e2@.code == e@.code && e2@.message == e@.message
                && e2@.payload == e@.payload && match e@.errors {
                None => e2@.errors is None,
                Some(es) => e2@.errors == Some(prefixed_paths(es, prefix)),
            },
            _ => false,
        }
    }

    open spec fn altered_code_ens(self, code: u16, r: Self) -> bool {
        match (self, r) {
            (Ok(t), Ok(t2)) => t == t2,
            (Err(e), Err(e2)) => e2.wf() && e2@ == (ErrorView { code, ..e@ }),
            _ => false,
        }
    }

    fn error_message_prefixed(self, prefix: &str) -> (r: Self) {
        match self {
            Ok(t) => Ok(t),
            Err(e) => Err(e.message_prefixed(prefix)),
        }
    }

    fn error_path_prefixed(self, prefix: &str) -> (r: Self) {
        match self {
            Ok(t) => Ok(t),
            Err(e) => Err(e.path_prefixed(prefix)),
        }
    }

    fn alter_error_code(self, code: u16) -> (r: Self) {
        match self {
            Ok(t) => Ok(t),
            Err(e) => Err(e.with_code(code)),
        }
    }
}

} // verus!
