//! Field values from plain values.
use crate::numeric::Numeric;
use crate::variant_value::{VariantValue, VariantView};
use vstd::prelude::*;
use vstd::slice::slice_to_vec;
use vstd::std_specs::convert::FromSpecImpl;

verus! {

impl From<bool> for VariantValue {
    fn from(val: bool) -> (r: VariantValue) {
        VariantValue::Bool(val)
    }
}

impl FromSpecImpl<bool> for VariantValue {
    open spec fn obeys_from_spec() -> bool {
        true
    }

    open spec fn from_spec(val: bool) -> VariantValue {
        VariantValue::Bool(val)
    }
}

impl From<char> for VariantValue {
    fn from(val: char) -> (r: VariantValue) {
        VariantValue::Char(val)
    }
}

impl FromSpecImpl<char> for VariantValue {
    open spec fn obeys_from_spec() -> bool {
        true
    }

    open spec fn from_spec(val: char) -> VariantValue {
        VariantValue::Char(val)
    }
}

impl From<i16> for VariantValue {
    fn from(val: i16) -> (r: VariantValue) {
        VariantValue::Short(val)
    }
}

impl FromSpecImpl<i16> for VariantValue {
    open spec fn obeys_from_spec() -> bool {
        true
    }

    open spec fn from_spec(val: i16) -> VariantValue {
        VariantValue::Short(val)
    }
}

impl From<i32> for VariantValue {
    fn from(val: i32) -> (r: VariantValue) {
        VariantValue::Int(val)
    }
}

impl FromSpecImpl<i32> for VariantValue {
    open spec fn obeys_from_spec() -> bool {
        true
    }

    open spec fn from_spec(val: i32) -> VariantValue {
        VariantValue::Int(val)
    }
}

impl From<i64> for VariantValue {
    fn from(val: i64) -> (r: VariantValue) {
        VariantValue::Long(val)
    }
}

impl FromSpecImpl<i64> for VariantValue {
    open spec fn obeys_from_spec() -> bool {
        true
    }

    open spec fn from_spec(val: i64) -> VariantValue {
        VariantValue::Long(val)
    }
}

impl<'a> From<&'a str> for VariantValue {
    /// A `VString` with the text of `val`.
    fn from(val: &'a str) -> (r: VariantValue)
        ensures
            r@ == VariantView::VString(val@),
    {
        VariantValue::VString(val.to_owned())
    }
}

impl<'a> FromSpecImpl<&'a str> for VariantValue {
    /// The result is told by its view alone.
    open spec fn obeys_from_spec() -> bool {
        false
    }

    open spec fn from_spec(val: &'a str) -> VariantValue {
        choose|r: VariantValue| r@ == VariantView::VString(val@)
    }
}

impl<'a> From<&'a [u8]> for VariantValue {
    /// A `Binary` with the bytes of `val`.
    fn from(val: &'a [u8]) -> (r: VariantValue)
        ensures
            r@ == VariantView::Binary(val@),
    {
        VariantValue::Binary(slice_to_vec(val))
    }
}

impl<'a> FromSpecImpl<&'a [u8]> for VariantValue {
    /// The result is told by its view alone.
    open spec fn obeys_from_spec() -> bool {
        false
    }

    open spec fn from_spec(val: &'a [u8]) -> VariantValue {
        choose|r: VariantValue| r@ == VariantView::Binary(val@)
    }
}

/// The character with the code point `byte`.
pub open spec fn latin1(byte: int) -> char {
    (byte as u8) as char
}

impl VariantValue {
    /// The value of the kind that holds the number `val`: a `Byte` becomes
    /// the `Char` whose code point is the byte read as unsigned, every other
    /// width the kind of its name. There must be a number.
    pub fn from_numeric(val: Numeric) -> (r: VariantValue)
        requires
            !(val is Null),
        ensures
            match val {
                Numeric::Byte(b) => r == VariantValue::Char(
                    latin1(
                        if b < 0 {
                            b + 256
                        } else {
                            b as int
                        },
                    ),
                ),
                Numeric::Short(n) => r == VariantValue::Short(n),
                Numeric::Int(n) => r == VariantValue::Int(n),
                Numeric::Long(n) => r == VariantValue::Long(n),
                Numeric::Float(bits) => r == VariantValue::Float(bits),
                Numeric::Double(bits) => r == VariantValue::Double(bits),
                Numeric::Null => false,
            },
    {
        match val {
            Numeric::Byte(b) => {
                let unsigned: u8 = if b < 0 {
                    (b as i16 + 256) as u8
                } else {
                    b as u8
                };
                VariantValue::Char(unsigned as char)
            },
            Numeric::Short(s) => VariantValue::Short(s),
            Numeric::Int(i) => VariantValue::Int(i),
            Numeric::Long(v) => VariantValue::Long(v),
            Numeric::Float(v) => VariantValue::Float(v),
            Numeric::Double(v) => VariantValue::Double(v),
            Numeric::Null => VariantValue::Bool(false),
        }
    }
}

} // verus!
