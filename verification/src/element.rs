//! Element types that a kernel can read and write.
use vstd::prelude::*;

use crate::types::ScalarType;

verus! {

/// A plain scalar with an identical, explicitly known Metal representation.
pub trait MetalElement: Copy + Send + Sync + 'static {
    /// The name of the type in the Metal Shading Language.
    const MSL_NAME: &'static str;
}

impl MetalElement for u8 {
    const MSL_NAME: &'static str = "uchar";
}

impl MetalElement for u16 {
    const MSL_NAME: &'static str = "ushort";
}

impl MetalElement for u32 {
    const MSL_NAME: &'static str = "uint";
}

impl MetalElement for u64 {
    const MSL_NAME: &'static str = "ulong";
}

impl MetalElement for i8 {
    const MSL_NAME: &'static str = "char";
}

impl MetalElement for i16 {
    const MSL_NAME: &'static str = "short";
}

impl MetalElement for i32 {
    const MSL_NAME: &'static str = "int";
}

impl MetalElement for i64 {
    const MSL_NAME: &'static str = "long";
}

/// A kernel declares the buffers and scalars of an element type under the name that the element
/// type gives itself.
pub proof fn law_elements_agree_with_the_device_language()
    ensures
        <u8 as MetalElement>::MSL_NAME@ == ScalarType::U8.msl_text(),
        <u16 as MetalElement>::MSL_NAME@ == ScalarType::U16.msl_text(),
        <u32 as MetalElement>::MSL_NAME@ == ScalarType::U32.msl_text(),
        <u64 as MetalElement>::MSL_NAME@ == ScalarType::U64.msl_text(),
        <i8 as MetalElement>::MSL_NAME@ == ScalarType::I8.msl_text(),
        <i16 as MetalElement>::MSL_NAME@ == ScalarType::I16.msl_text(),
        <i32 as MetalElement>::MSL_NAME@ == ScalarType::I32.msl_text(),
        <i64 as MetalElement>::MSL_NAME@ == ScalarType::I64.msl_text(),
{
}

} // verus!
