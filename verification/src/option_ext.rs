use vstd::prelude::*;

verus! {

/// Extension for explicitly ignoring an optional value.
pub trait OptionExt {
    fn discard(&self);
}

impl<T> OptionExt for &Option<T> {
    fn discard(&self) {
    }
}

impl<T> OptionExt for Option<T> {
    fn discard(&self) {
    }
}

} // verus!
