//! The library's model of a foreign runtime's native exception: the bridge
//! only ever reads an exception's classification and its carried text, so a
//! native exception is held here as exactly those two capabilities.

use vstd::prelude::*;

verus! {

/// The classification a foreign runtime gives one of its exceptions. The
/// bridge constructs generic failures and recognizes only that kind when it
/// looks for embedded structure.
#[derive(Clone, Copy, PartialEq, Eq, Structural, Debug)]
pub enum ExceptionKind {
    GenericFailure,
    Other,
}

/// A foreign runtime's exception, reduced to what the bridge reads of it.
#[derive(Debug)]
pub struct NativeException {
    pub kind: ExceptionKind,
    pub reason: String,
}

/// The mathematical value of a native exception.
#[verifier::ext_equal]
pub ghost struct NativeExceptionView {
    pub kind: ExceptionKind,
    pub reason: Seq<char>,
}

impl View for NativeException {
    type V = NativeExceptionView;

    open spec fn view(&self) -> NativeExceptionView {
        NativeExceptionView { kind: self.kind, reason: self.reason@ }
    }
}

impl Clone for NativeException {
    fn clone(&self) -> (r: Self)
        ensures
            r@ == self@,
    {
        let r = NativeException { kind: self.kind, reason: self.reason.clone() };
        proof {
            assert(r@ =~= self@);
        }
        r
    }
}

impl NativeException {
    /// A fresh exception with the given classification and carried text.
    pub fn new(kind: ExceptionKind, reason: &str) -> (r: Self)
        ensures
            r@.kind == kind,
            r@.reason == reason@,
    {
        NativeException { kind, reason: reason.to_owned() }
    }

    /// The carried text.
    pub fn reason(&self) -> (r: &str)
        ensures
            r@ == self@.reason,
    {
        self.reason.as_str()
    }
}

} // verus!
