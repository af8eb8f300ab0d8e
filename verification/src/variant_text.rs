//! Field values as text.
use crate::variant_value::{VariantValue, VariantView};
use vstd::prelude::*;
use vstd::string::StringExecFns;

verus! {

/// The character of the decimal digit `d`.
pub open spec fn digit(d: int) -> char {
    ((48 + d) as u8) as char
}

/// The decimal digits of `n`, without leading zeros.
pub open spec fn digits(n: nat) -> Seq<char>
    decreases n,
{
    if n < 10 {
        seq![digit(n as int)]
    } else {
        digits(n / 10).push(digit((n % 10) as int))
    }
}

/// `n` in decimal, with a minus sign before a negative number.
pub open spec fn decimal(n: int) -> Seq<char> {
    if n < 0 {
        seq!['-'] + digits((-n) as nat)
    } else {
        digits(n as nat)
    }
}

/// The text of a value that has one: `true` or `false`, the character
/// itself, a number in decimal (a `Short` with an `s` after it), the text
/// itself, and a fixed word for bytes. A floating-point number, a list and a
/// map have none: their text needs floating-point formatting.
pub open spec fn text_of(value: VariantView) -> Option<Seq<char>> {
    match value {
        VariantView::Bool(b) => Some(
            if b {
                "true"@
            } else {
                "false"@
            },
        ),
        VariantView::Char(c) => Some(seq![c]),
        VariantView::Short(n) => Some(decimal(n as int).push('s')),
        VariantView::Int(n) => Some(decimal(n as int)),
        VariantView::Long(n) => Some(decimal(n as int)),
        VariantView::VString(text) => Some(text),
        VariantView::Binary(_) => Some("Binary(unprintable)"@),
        _ => None,
    }
}

/// `char::to_string`: the text that consists of `c`.
#[verifier::external_body]
fn char_to_string(c: char) -> (s: String)
    ensures
        s@ == seq![c],
{
    c.to_string()
}

/// The decimal digit `d` as text.
fn digit_text(d: u8) -> (s: &'static str)
    requires
        d < 10,
    ensures
        s@ == seq![digit(d as int)],
{
    proof {
        reveal_strlit("0");
        reveal_strlit("1");
        reveal_strlit("2");
        reveal_strlit("3");
        reveal_strlit("4");
        reveal_strlit("5");
        reveal_strlit("6");
        reveal_strlit("7");
        reveal_strlit("8");
        reveal_strlit("9");
    }
    let s = match d {
        0 => "0",
        1 => "1",
        2 => "2",
        3 => "3",
        4 => "4",
        5 => "5",
        6 => "6",
        7 => "7",
        8 => "8",
        _ => "9",
    };
    assert(s@ =~= seq![digit(d as int)]);
    s
}

/// Appends the decimal digits of `n` to `text`.
fn append_digits(text: &mut String, n: u64)
    ensures
        final(text)@ == old(text)@ + digits(n as nat),
    decreases n,
{
    if n >= 10 {
        append_digits(text, n / 10);
    }
    text.append(digit_text((n % 10) as u8));
    assert(text@ =~= old(text)@ + digits(n as nat));
}

/// `n` in decimal.
pub fn decimal_text(n: i64) -> (text: String)
    ensures
        text@ == decimal(n as int),
{
    let mut text = String::new();
    if n < 0 {
        proof {
            reveal_strlit("-");
        }
        text.append("-");
        append_digits(&mut text, (-(n as i128)) as u64);
        assert(text@ =~= decimal(n as int));
    } else {
        append_digits(&mut text, n as u64);
        assert(text@ =~= decimal(n as int));
    }
    text
}

impl VariantValue {
    /// The text of this value, where it has one without formatting a
    /// floating-point number.
    pub fn text(&self) -> (r: Option<String>)
        ensures
            match text_of(self@) {
                Some(text) => r matches Some(s) && s@ == text,
                None => r is None,
            },
    {
        match self {
            VariantValue::Bool(b) => Some(
                if *b {
                    "true".to_owned()
                } else {
                    "false".to_owned()
                },
            ),
            VariantValue::Char(c) => Some(char_to_string(*c)),
            VariantValue::Short(n) => {
                let mut text = decimal_text(*n as i64);
                proof {
                    reveal_strlit("s");
                }
                text.append("s");
                assert(text@ =~= decimal(*n as int).push('s'));
                Some(text)
            },
            VariantValue::Int(n) => Some(decimal_text(*n as i64)),
            VariantValue::Long(n) => Some(decimal_text(*n)),
            VariantValue::VString(text) => Some(text.clone()),
            VariantValue::Binary(_) => Some("Binary(unprintable)".to_owned()),
            _ => None,
        }
    }
}

} // verus!
