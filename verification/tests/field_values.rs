use rucene::float_bits::{
    double_magnitude_of, double_rank_of, single_magnitude_of, single_rank_of, widen_single,
};
use rucene::numeric::Numeric;
use rucene::order::{order_bytes, order_double, order_i128, order_single, order_text, Order};
use rucene::text::{same_bytes, same_text};
use rucene::variant_value::{VariantMap, VariantValue};
use std::cmp::Ordering;
use std::hash::{DefaultHasher, Hash, Hasher};

fn single(value: f32) -> VariantValue {
    VariantValue::Float(value.to_bits())
}

fn double(value: f64) -> VariantValue {
    VariantValue::Double(value.to_bits())
}

fn text(value: &str) -> VariantValue {
    VariantValue::VString(String::from(value))
}

fn order_of(ordering: Option<Ordering>) -> Option<Order> {
    ordering.map(|o| match o {
        Ordering::Less => Order::Less,
        Ordering::Equal => Order::Equal,
        Ordering::Greater => Order::Greater,
    })
}

fn one_of_each() -> Vec<VariantValue> {
    vec![
        VariantValue::Bool(true),
        VariantValue::Char('c'),
        VariantValue::Short(-3),
        VariantValue::Int(7),
        VariantValue::Long(1 << 40),
        single(1.5),
        double(-2.5),
        text("text"),
        VariantValue::Binary(vec![1, 2, 3]),
        VariantValue::Vec(vec![VariantValue::Bool(false)]),
        VariantValue::VMap(VariantMap::new()),
    ]
}

#[test]
fn each_accessor_answers_for_its_own_kind_only() {
    let values = one_of_each();
    for (i, value) in values.iter().enumerate() {
        assert_eq!(value.get_bool(), if i == 0 { Some(true) } else { None });
        assert_eq!(value.get_char(), if i == 1 { Some('c') } else { None });
        assert_eq!(value.get_short(), if i == 2 { Some(-3) } else { None });
        assert_eq!(value.get_int(), if i == 3 { Some(7) } else { None });
        assert_eq!(value.get_long(), if i == 4 { Some(1 << 40) } else { None });
        assert_eq!(value.get_float(), if i == 5 { Some(1.5f32.to_bits()) } else { None });
        assert_eq!(value.get_double(), if i == 6 { Some((-2.5f64).to_bits()) } else { None });
        assert_eq!(value.get_string(), if i == 7 { Some("text") } else { None });
        assert_eq!(value.get_binary(), if i == 8 { Some(&[1u8, 2, 3][..]) } else { None });
        assert_eq!(value.get_vec().map(|v| v.len()), if i == 9 { Some(1) } else { None });
        assert_eq!(value.get_map().map(|m| m.len()), if i == 10 { Some(0) } else { None });
    }
}

#[test]
fn the_numeric_kinds_give_their_number_in_its_width() {
    let values = one_of_each();
    let expected = [
        None,
        None,
        Some(Numeric::Short(-3)),
        Some(Numeric::Int(7)),
        Some(Numeric::Long(1 << 40)),
        Some(Numeric::Float(1.5f32.to_bits())),
        Some(Numeric::Double((-2.5f64).to_bits())),
        None,
        None,
        None,
        None,
    ];
    for (value, expected) in values.iter().zip(expected) {
        assert_eq!(value.get_numeric(), expected);
    }
}

#[test]
fn a_number_becomes_the_value_of_its_kind() {
    assert_eq!(VariantValue::from_numeric(Numeric::Short(5)).get_short(), Some(5));
    assert_eq!(VariantValue::from_numeric(Numeric::Int(-5)).get_int(), Some(-5));
    assert_eq!(VariantValue::from_numeric(Numeric::Long(55)).get_long(), Some(55));
    assert_eq!(VariantValue::from_numeric(Numeric::Float(9)).get_float(), Some(9));
    assert_eq!(VariantValue::from_numeric(Numeric::Double(99)).get_double(), Some(99));
    assert_eq!(VariantValue::from_numeric(Numeric::Byte(65)).get_char(), Some('A'));
    assert_eq!(VariantValue::from_numeric(Numeric::Byte(0)).get_char(), Some('\0'));
    assert_eq!(VariantValue::from_numeric(Numeric::Byte(127)).get_char(), Some('\u{7f}'));
    assert_eq!(VariantValue::from_numeric(Numeric::Byte(-1)).get_char(), Some('\u{ff}'));
    assert_eq!(VariantValue::from_numeric(Numeric::Byte(-128)).get_char(), Some('\u{80}'));
    for byte in i8::MIN..=i8::MAX {
        let expected = byte as u8 as char;
        assert_eq!(VariantValue::from_numeric(Numeric::Byte(byte)).get_char(), Some(expected));
    }
    assert!(Numeric::Null.is_null());
    assert!(!Numeric::Byte(0).is_null());
}

#[test]
fn plain_values_become_the_value_of_their_kind() {
    assert_eq!(VariantValue::from(true).get_bool(), Some(true));
    assert_eq!(VariantValue::from('x').get_char(), Some('x'));
    assert_eq!(VariantValue::from(-2i16).get_short(), Some(-2));
    assert_eq!(VariantValue::from(-2i32).get_int(), Some(-2));
    assert_eq!(VariantValue::from(-2i64).get_long(), Some(-2));
    assert_eq!(VariantValue::from("héllo").get_string(), Some("héllo"));
    assert_eq!(VariantValue::from(&[0u8, 255][..]).get_binary(), Some(&[0u8, 255][..]));
}

#[test]
fn zero_is_told_for_the_numbers_that_have_the_test() {
    assert!(VariantValue::Int(0).is_zero());
    assert!(!VariantValue::Int(-1).is_zero());
    assert!(VariantValue::Long(0).is_zero());
    assert!(!VariantValue::Long(i64::MIN).is_zero());
    assert!(single(0.0).is_zero());
    assert!(single(-0.0).is_zero());
    assert!(!single(f32::from_bits(1)).is_zero());
    assert!(!single(f32::NAN).is_zero());
    assert!(double(0.0).is_zero());
    assert!(double(-0.0).is_zero());
    assert!(!double(-f64::MIN_POSITIVE).is_zero());
    assert!(!double(f64::INFINITY).is_zero());
}

#[test]
fn bytes_give_their_text_only_where_they_are_utf8() {
    assert_eq!(text("plain").get_utf8_string(), Some(String::from("plain")));
    let bytes = "您好 Hello".as_bytes().to_vec();
    assert_eq!(VariantValue::Binary(bytes).get_utf8_string(), Some(String::from("您好 Hello")));
    assert_eq!(VariantValue::Binary(vec![]).get_utf8_string(), Some(String::new()));
    assert_eq!(VariantValue::Binary(vec![0x80]).get_utf8_string(), None);
    assert_eq!(VariantValue::Binary(vec![0xe4, 0xbd]).get_utf8_string(), None);
    assert_eq!(VariantValue::Binary(vec![0xed, 0xa0, 0x80]).get_utf8_string(), None);
    assert_eq!(VariantValue::Long(3).get_utf8_string(), None);
}

#[test]
fn values_are_equal_within_a_kind_and_never_across() {
    let values = one_of_each();
    for (i, a) in values.iter().enumerate() {
        for (j, b) in values.iter().enumerate() {
            assert_eq!(a == b, i == j && i < 9, "{i} {j}");
            assert_eq!(a.equals(b), i == j && i < 9);
        }
    }
    assert!(VariantValue::Long(3) != VariantValue::Int(3));
    assert!(text("a") != text("b"));
    assert!(text("") == text(""));
    assert!(VariantValue::Binary(vec![1]) != VariantValue::Binary(vec![1, 0]));
}

#[test]
fn floating_point_values_are_equal_as_ieee_has_it() {
    assert!(single(0.0) == single(-0.0));
    assert!(double(0.0) == double(-0.0));
    assert!(single(f32::NAN) != single(f32::NAN));
    assert!(double(f64::NAN) != double(f64::NAN));
    assert!(single(1.0) != single(f32::NAN));
    assert!(single(f32::INFINITY) == single(f32::INFINITY));
    assert!(double(f64::INFINITY) != double(f64::NEG_INFINITY));
}

const SINGLES: [f32; 16] = [
    0.0,
    -0.0,
    1.0,
    -1.0,
    3.141_593,
    2.141_593,
    4.141_593,
    f32::MIN_POSITIVE,
    -f32::MIN_POSITIVE,
    f32::MAX,
    f32::MIN,
    f32::INFINITY,
    f32::NEG_INFINITY,
    f32::NAN,
    1e-45,
    -1e-45,
];

const DOUBLES: [f64; 16] = [
    0.0,
    -0.0,
    1.0,
    -1.0,
    3.141_592_653_5,
    345679084.78213,
    -345679084.78213,
    f64::MIN_POSITIVE,
    -f64::MIN_POSITIVE,
    f64::MAX,
    f64::MIN,
    f64::INFINITY,
    f64::NEG_INFINITY,
    f64::NAN,
    5e-324,
    -5e-324,
];

#[test]
fn single_patterns_are_ordered_as_their_values() {
    for a in SINGLES {
        for b in SINGLES {
            let expected = order_of(a.partial_cmp(&b));
            assert_eq!(order_single(a.to_bits(), b.to_bits()), expected, "{a} {b}");
            assert_eq!(single(a).order(&single(b)), expected);
            assert_eq!(single(a).partial_cmp(&single(b)), a.partial_cmp(&b));
            assert_eq!(single(a) == single(b), a == b);
        }
        assert_eq!(single_magnitude_of(a.to_bits()), a.abs().to_bits());
        if !a.is_nan() {
            let rank = single_rank_of(a.to_bits());
            assert_eq!(rank < 0, a < 0.0);
            assert_eq!(rank == 0, a == 0.0);
        }
    }
    let negated_nan = f32::from_bits(f32::NAN.to_bits() | 0x8000_0000);
    assert_eq!(order_single(negated_nan.to_bits(), 0), None);
}

#[test]
fn double_patterns_are_ordered_as_their_values() {
    for a in DOUBLES {
        for b in DOUBLES {
            let expected = order_of(a.partial_cmp(&b));
            assert_eq!(order_double(a.to_bits(), b.to_bits()), expected, "{a} {b}");
            assert_eq!(double(a).order(&double(b)), expected);
            assert_eq!(double(a) == double(b), a == b);
        }
        assert_eq!(double_magnitude_of(a.to_bits()), a.abs().to_bits());
        if !a.is_nan() {
            let rank = double_rank_of(a.to_bits());
            assert_eq!(rank < 0, a < 0.0);
            assert_eq!(rank == 0, a == 0.0);
        }
    }
}

#[test]
fn a_finite_single_widens_to_the_double_of_its_amount() {
    for a in SINGLES {
        if a.is_finite() {
            assert_eq!(widen_single(a.to_bits()), (a as f64).to_bits(), "{a}");
        }
    }
    let mut bits: u32 = 0;
    while bits < 0x7f80_0000 {
        let value = f32::from_bits(bits);
        assert_eq!(widen_single(bits), (value as f64).to_bits(), "{bits:#x}");
        assert_eq!(widen_single(bits | 0x8000_0000), (-value as f64).to_bits(), "-{bits:#x}");
        bits += 0x0000_3001;
    }
    assert_eq!(widen_single(1.0f32.to_bits()), 0x3ff0_0000_0000_0000);
    assert_eq!(widen_single(1), 0x36a0_0000_0000_0000);
}

#[test]
fn numbers_are_ordered_by_amount() {
    assert_eq!(order_i128(-1, 0), Order::Less);
    assert_eq!(order_i128(5, 5), Order::Equal);
    assert_eq!(order_i128(i128::MAX, i128::MIN), Order::Greater);
    assert_eq!(VariantValue::Short(-5).order(&VariantValue::Short(4)), Some(Order::Less));
    assert_eq!(VariantValue::Int(4).order(&VariantValue::Int(4)), Some(Order::Equal));
    assert_eq!(
        VariantValue::Long(i64::MAX).order(&VariantValue::Long(i64::MIN)),
        Some(Order::Greater)
    );
    assert_eq!(VariantValue::Bool(false).order(&VariantValue::Bool(true)), Some(Order::Less));
    assert_eq!(VariantValue::Bool(true).order(&VariantValue::Bool(true)), Some(Order::Equal));
    assert_eq!(VariantValue::Bool(true).order(&VariantValue::Bool(false)), Some(Order::Greater));
    assert_eq!(VariantValue::Char('a').order(&VariantValue::Char('b')), Some(Order::Less));
    assert_eq!(
        VariantValue::Char('\u{10000}').order(&VariantValue::Char('\u{ffff}')),
        Some(Order::Greater)
    );
}

#[test]
fn byte_strings_are_ordered_by_the_first_difference() {
    let samples: [&[u8]; 8] =
        [&[], &[0], &[0, 0], &[0, 1], &[1], &[1, 0], &[255], &[0, 255, 3]];
    for a in samples {
        for b in samples {
            let expected = order_of(Some(a.cmp(b))).unwrap();
            assert_eq!(order_bytes(a, b), expected, "{a:?} {b:?}");
            assert_eq!(same_bytes(a, b), a == b);
            assert_eq!(
                VariantValue::Binary(a.to_vec()).order(&VariantValue::Binary(b.to_vec())),
                Some(expected)
            );
        }
    }
}

#[test]
fn texts_are_ordered_as_strings_are() {
    let samples = ["", "a", "ab", "b", "é", "z", "您好", "\u{ffff}", "\u{10000}", "Z"];
    for a in samples {
        for b in samples {
            let expected = order_of(Some(a.cmp(b))).unwrap();
            assert_eq!(order_text(a, b), expected, "{a:?} {b:?}");
            assert_eq!(same_text(a, b), a == b);
            assert_eq!(text(a).order(&text(b)), Some(expected));
            assert_eq!(text(a).cmp(&text(b)), a.cmp(b));
        }
    }
}

#[test]
fn values_of_different_kinds_and_lists_and_maps_have_no_order() {
    let values = one_of_each();
    for (i, a) in values.iter().enumerate() {
        for (j, b) in values.iter().enumerate() {
            assert_eq!(a.order(b).is_some(), i == j && i < 9, "{i} {j}");
            assert_eq!(a.partial_cmp(b).is_some(), i == j && i < 9);
        }
    }
    assert_eq!(single(f32::NAN).partial_cmp(&single(1.0)), None);
    assert!(!(single(f32::NAN) < single(1.0)));
    assert!(single(0.5) < single(1.0));
    assert!(text("a") <= text("a"));
}

#[test]
fn a_map_names_each_value_once() {
    let mut map = VariantMap::new();
    assert!(map.is_empty());
    assert_eq!(map.len(), 0);
    assert!(map.get("a").is_none());
    assert!(map.insert(String::from("a"), VariantValue::Long(1)).is_none());
    assert!(map.insert(String::from("b"), VariantValue::Long(2)).is_none());
    assert!(map.insert(String::from(""), VariantValue::Long(3)).is_none());
    assert_eq!(map.len(), 3);
    assert!(!map.is_empty());
    let replaced = map.insert(String::from("a"), VariantValue::Long(4));
    assert_eq!(replaced.and_then(|v| v.get_long()), Some(1));
    assert_eq!(map.len(), 3);
    assert_eq!(map.get("a").and_then(|v| v.get_long()), Some(4));
    assert_eq!(map.get("b").and_then(|v| v.get_long()), Some(2));
    assert_eq!(map.get("").and_then(|v| v.get_long()), Some(3));
    assert!(map.get("c").is_none());
    assert!(map.contains_key("b"));
    assert!(!map.contains_key("B"));
    let names: Vec<&str> = map.entries().iter().map(|(name, _)| name.as_str()).collect();
    assert_eq!(names, vec!["a", "b", ""]);
}

#[test]
fn a_clone_has_the_same_content() {
    let mut map = VariantMap::new();
    map.insert(String::from("list"), VariantValue::Vec(one_of_each()));
    map.insert(String::from("n"), single(2.5));
    let value = VariantValue::VMap(map);
    let copy = value.clone();
    let copied = copy.get_map().unwrap();
    assert_eq!(copied.len(), 2);
    assert_eq!(copied.get("n").unwrap().get_float(), Some(2.5f32.to_bits()));
    let list = copied.get("list").unwrap().get_vec().unwrap();
    let source = one_of_each();
    assert_eq!(list.len(), source.len());
    for (a, b) in list.iter().zip(source.iter()).take(9) {
        assert!(a == b);
    }
    assert_eq!(list[9].get_vec().unwrap()[0].get_bool(), Some(false));
    assert!(list[10].get_map().unwrap().is_empty());
}

fn hash_of(value: &VariantValue) -> u64 {
    let mut hasher = DefaultHasher::new();
    value.hash(&mut hasher);
    hasher.finish()
}

#[test]
fn values_with_the_same_kind_and_content_hash_alike() {
    for (a, b) in one_of_each().iter().zip(one_of_each().iter()) {
        assert_eq!(hash_of(a), hash_of(b));
    }
    assert_ne!(hash_of(&single(1.0)), hash_of(&single(2.0)));
    assert_ne!(hash_of(&text("a")), hash_of(&text("b")));
    assert_ne!(hash_of(&VariantValue::Int(1)), hash_of(&VariantValue::Int(2)));
}
