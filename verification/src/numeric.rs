//! Numbers of the widths that an index stores.
use vstd::prelude::*;

verus! {

/// A number of one of the stored widths, or none.
///
/// `Float` and `Double` hold the IEEE 754 bit pattern of the value.
#[derive(Debug, Clone, Copy, PartialEq, Eq, Structural)]
pub enum Numeric {
    Null,
    Byte(i8),
    Short(i16),
    Int(i32),
    Long(i64),
    Float(u32),
    Double(u64),
}

impl Numeric {
    /// Whether there is no number.
    pub fn is_null(&self) -> (null: bool)
        ensures
            null == (*self is Null),
    {
        match self {
            Numeric::Null => true,
            _ => false,
        }
    }
}

} // verus!
