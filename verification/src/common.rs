//! Conversion traits shared across the node types. The trait methods
//! carry no contracts of their own; each implementation delegates to
//! a contracted function of the implementing module, which verified
//! callers use directly.

use vstd::prelude::*;

verus! {

pub trait ConvertToString {
    fn convert_to_string(&self) -> String;
}

pub trait FromString: Sized {
    fn from_string(string: &str) -> Self;
}

} // verus!
