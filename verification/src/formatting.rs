//! What the standard library offers to write text about a value.

use std::fmt::{DebugStruct, Formatter};
use vstd::prelude::*;

verus! {

/// `std::fmt::Formatter`: where text is written to. It is only passed on.
#[verifier::external_type_specification]
#[verifier::external_body]
pub struct ExFormatter<'f>(Formatter<'f>);

/// `std::fmt::DebugStruct`: the text about a struct in the making. It is only passed on.
#[verifier::external_type_specification]
#[verifier::external_body]
pub struct ExDebugStruct<'b, 'f: 'b>(DebugStruct<'b, 'f>);

/// `std::fmt::Error`: that text could not be written. It is only passed on.
#[verifier::external_type_specification]
#[verifier::external_body]
pub struct ExFormatError(std::fmt::Error);

/// `std::fmt::Formatter::debug_struct`, which begins the text about a struct of the given name.
/// Nothing is claimed of the text.
pub assume_specification<'f, 'b>[ Formatter::<'f>::debug_struct ](
    formatter: &'b mut Formatter<'f>,
    name: &str,
) -> (text: DebugStruct<'b, 'f>);

/// `std::fmt::DebugStruct::finish_non_exhaustive`, which ends the text and marks that there are
/// fields that are not shown. Nothing is claimed of the text, nor of whether it could be written.
pub assume_specification<'b, 'f: 'b>[ DebugStruct::<'b, 'f>::finish_non_exhaustive ](
    text: &mut DebugStruct<'b, 'f>,
) -> (written: Result<(), std::fmt::Error>);

} // verus!
