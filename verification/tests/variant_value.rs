use rucene::json::{JsonNumber, JsonValue};
use rucene::variant_json::ConvertError;
use rucene::variant_text::decimal_text;
use rucene::variant_value::{VariantMap, VariantValue};
use serde_json::{Number, Value};
use std::cmp::Ordering;

/// The document of `serde_json` with the content of `json`.
fn to_serde(json: JsonValue) -> Value {
    match json {
        JsonValue::Null => Value::Null,
        JsonValue::Bool(b) => Value::Bool(b),
        JsonValue::Number(JsonNumber::PosInt(n)) => Value::Number(Number::from(n)),
        JsonValue::Number(JsonNumber::NegInt(n)) => Value::Number(Number::from(n)),
        JsonValue::Number(JsonNumber::Float(bits)) => {
            Value::Number(Number::from_f64(f64::from_bits(bits)).unwrap())
        }
        JsonValue::String(text) => Value::String(text),
        JsonValue::Array(items) => Value::Array(items.into_iter().map(to_serde).collect()),
        JsonValue::Object(members) => {
            Value::Object(members.into_iter().map(|(name, value)| (name, to_serde(value))).collect())
        }
    }
}

#[test]
fn variant_bool_test() {
    let b = VariantValue::Bool(true);
    let expr = b.text().unwrap();
    assert_eq!(expr, "true");
}

#[test]
fn variant_char_test() {
    let c = VariantValue::Char('Z');
    let expr = c.text().unwrap();
    assert_eq!(expr, "Z");
}

#[test]
fn variant_short_test() {
    let s = VariantValue::Short(30);
    let expr = s.text().unwrap();
    assert_eq!(expr, "30s");
}

#[test]
fn variant_int_test() {
    let ival = VariantValue::Int(287);
    let expr = ival.text().unwrap();
    assert_eq!(expr, "287");
}

#[test]
fn variant_long_test() {
    let ival = VariantValue::Long(28_754_383);
    let expr = ival.text().unwrap();
    assert_eq!(expr, "28754383");
}

#[test]
fn variant_double_test() {
    let dval = VariantValue::Double(3.141_592_653_5f64.to_bits());
    assert_eq!(dval.text(), None);
    let expr = format!("{:.6}", f64::from_bits(dval.get_double().unwrap()));
    assert_eq!(expr, "3.141593");
}

#[test]
fn variant_string_test() {
    let strval = VariantValue::VString(String::from("hello world"));
    let expr = strval.text().unwrap();
    assert_eq!(expr, "hello world");
}

#[test]
fn variant_float_test() {
    let fval = VariantValue::Float(3.141_593f32.to_bits());
    assert_eq!(fval.text(), None);
    let expr = format!("{:.3}f", f32::from_bits(fval.get_float().unwrap()));
    assert_eq!(expr, "3.142f");

    {
        let fval2 = VariantValue::Float(3.141_593f32.to_bits());
        assert_eq!(fval.cmp(&fval2), Ordering::Equal);
    }

    {
        let fval2 = VariantValue::Float(2.141_593f32.to_bits());
        assert_eq!(fval.cmp(&fval2), Ordering::Greater);
    }

    {
        let fval2 = VariantValue::Float(4.141_593f32.to_bits());
        assert_eq!(fval.cmp(&fval2), Ordering::Less);
    }

    {
        let fval2 = VariantValue::Float(4.141_593f32.to_bits());
        assert_eq!(fval.partial_cmp(&fval2), Some(Ordering::Less));
    }
}

#[test]
fn variant_binary_test() {
    let bval = VariantValue::Binary(vec![65u8, 66u8, 67u8]);
    let expr = bval.text().unwrap();
    assert_eq!(expr, "Binary(unprintable)");

    if let VariantValue::Binary(ref bvec) = bval {
        for (i, val) in bvec.iter().enumerate() {
            assert_eq!(*val, b'A' + i as u8);
        }
    } else {
        panic!("not a Binary");
    }
}

#[test]
fn test_from_json_value() {
    let jval = serde_json::from_str::<Value>(
        r#"{
            "fld_bool": true,
            "fld_double": 3.907,
            "fld_long": -78203,
            "fld_ulong": 45678062,
            "fld_string": "Hi Runcene!",
            "fld_array": [{
                "ary_fld_string": "val1",
                "ary_fld_double": 0.123
            },{
                "ary_fld_string": "val2",
                "ary_fld_double": 9.8765
            }],
            "fld_object": {
                "obj_fld_ulong": 23456789,
                "obj_fld_bool": false,
                "obj_fld_array": ["val1","val2"]
            }
        }"#,
    )
    .unwrap();
    let vval = VariantValue::try_from(&jval).unwrap();
    let map = match vval {
        VariantValue::VMap(map) => map,
        _ => panic!("not a map"),
    };
    assert!(!map.is_empty());
    assert!(map.get("fld_bool").is_some_and(|val| val.get_bool().unwrap() == true));
    assert!(map
        .get("fld_double")
        .is_some_and(|val| f64::from_bits(val.get_double().unwrap()) == 3.907f64));
    assert!(map.get("fld_long").is_some_and(|val| val.get_long().unwrap() == -78203i64));
    assert!(map.get("fld_ulong").is_some_and(|val| val.get_long().unwrap() == 45678062i64));
    assert!(map
        .get("fld_string")
        .is_some_and(|val| val.get_string().unwrap().eq("Hi Runcene!")));
    assert!(map.get("fld_noexists").is_none());
    let fld_ary = map.get("fld_array").unwrap();
    let fld_obj = map.get("fld_object").unwrap();
    let (ary, obj) = match (fld_ary, fld_obj) {
        (VariantValue::Vec(ary), VariantValue::VMap(obj)) => (ary, obj),
        _ => panic!("not an array and an object"),
    };
    assert!(ary.len() == 2 && obj.len() == 3);
    assert!(ary
        .get(0)
        .unwrap()
        .get_map()
        .unwrap()
        .get("ary_fld_double")
        .is_some_and(|val| f64::from_bits(val.get_double().unwrap()) == 0.123f64));
    assert!(obj.get("obj_fld_ulong").is_some_and(|val| val.get_long().unwrap() == 23456789));
    assert!(obj.get("obj_fld_bool").is_some_and(|val| val.get_bool().unwrap() == false));
    assert!(obj.get("obj_fld_array").is_some_and(|val| val.get_vec().unwrap().len() == 2));
}

#[test]
fn test_into_json_value() {
    let var_val = VariantValue::Bool(true);
    let jsn_val: Value = to_serde(var_val.try_into().unwrap());
    assert!(jsn_val.is_boolean() && jsn_val.as_bool().unwrap());
    let var_val = VariantValue::Char('^');
    let jsn_val: Value = to_serde(var_val.try_into().unwrap());
    assert!(jsn_val.is_number() && jsn_val.is_u64() && jsn_val.as_i64().unwrap() == ('^' as i64));
    let var_val = VariantValue::Short(82i16);
    let jsn_val: Value = to_serde(var_val.try_into().unwrap());
    assert!(jsn_val.is_number() && jsn_val.is_i64() && jsn_val.as_i64().unwrap() == 82i64);
    let var_val = VariantValue::Int(6321i32);
    let jsn_val: Value = to_serde(var_val.try_into().unwrap());
    assert!(jsn_val.is_number() && jsn_val.is_i64() && jsn_val.as_i64().unwrap() == 6321i64);
    let var_val = VariantValue::Long(-56783974i64);
    let jsn_val: Value = to_serde(var_val.try_into().unwrap());
    assert!(jsn_val.is_number() && jsn_val.is_i64() && jsn_val.as_i64().unwrap() == -56783974i64);
    let var_val = VariantValue::Float((-32.7458932f32).to_bits());
    let jsn_val: Value = to_serde(var_val.try_into().unwrap());
    assert!(
        jsn_val.is_number()
            && jsn_val.is_f64()
            && (jsn_val.as_f64().unwrap() + 32.745f64).abs() <= 0.001
    );
    let var_val = VariantValue::Double(345679084.78213f64.to_bits());
    let jsn_val: Value = to_serde(var_val.try_into().unwrap());
    assert!(
        jsn_val.is_number()
            && jsn_val.is_f64()
            && (jsn_val.as_f64().unwrap() - 345679084.782f64).abs() <= 0.001
    );
    let var_val = VariantValue::VString(String::from("auxhfcmzk_ dsjf udf3432120+(#QR98"));
    let jsn_val: Value = to_serde(var_val.try_into().unwrap());
    assert!(jsn_val.is_string() && jsn_val.as_str().unwrap().eq("auxhfcmzk_ dsjf udf3432120+(#QR98"));
    let var_val = VariantValue::Binary("您好！👋Hello Rucene!頑張って".as_bytes().to_vec());
    let jsn_val: Value = to_serde(var_val.try_into().unwrap());
    assert!(jsn_val.is_string() && jsn_val.as_str().unwrap().eq("您好！👋Hello Rucene!頑張って"));
    let var_val = VariantValue::Vec(vec![
        VariantValue::VString("成都大运会欢迎您！".into()),
        VariantValue::VString("女子足球世界杯-中国队1:0海地".into()),
        VariantValue::VString("がんばって".into()),
        VariantValue::VString("Let's go hunting!".into()),
    ]);
    let jsn_val: Value = to_serde(var_val.try_into().unwrap());
    assert!(jsn_val.is_array());
    let jsn_ary = jsn_val.as_array().unwrap();
    assert!(
        jsn_ary.len() == 4
            && jsn_ary[0].is_string()
            && jsn_ary[0].as_str().unwrap().eq("成都大运会欢迎您！")
            && jsn_ary[3].is_string()
            && jsn_ary[3].as_str().unwrap().eq("Let's go hunting!")
    );
    let mut entries = VariantMap::new();
    entries.insert(String::from("seq_no"), VariantValue::Long(901_245));
    entries.insert(String::from("len_km"), VariantValue::Long(45_678_018));
    let var_val = VariantValue::VMap(entries);
    let jsn_val: Value = to_serde(var_val.try_into().unwrap());
    assert!(jsn_val.is_object());
    let jsn_obj = jsn_val.as_object().unwrap();
    assert!(jsn_obj.len() == 2 && jsn_obj.contains_key("seq_no") && jsn_obj.contains_key("len_km"));
    let len_km = jsn_obj.get("len_km").unwrap();
    assert!(len_km.is_number() && len_km.is_i64() && len_km.as_i64().unwrap() == 45_678_018i64);
}

#[test]
fn numbers_are_written_in_decimal() {
    for n in [0i64, 1, 9, 10, 11, 99, 100, 12345, -1, -9, -10, -100, i64::MAX, i64::MIN] {
        assert_eq!(decimal_text(n), n.to_string());
    }
    assert_eq!(VariantValue::Bool(false).text().unwrap(), "false");
    assert_eq!(VariantValue::Short(-7).text().unwrap(), "-7s");
    assert_eq!(VariantValue::Short(i16::MIN).text().unwrap(), "-32768s");
    assert_eq!(VariantValue::Int(i32::MIN).text().unwrap(), "-2147483648");
    assert_eq!(VariantValue::Long(i64::MIN).text().unwrap(), "-9223372036854775808");
    assert_eq!(VariantValue::Char('您').text().unwrap(), "您");
    assert_eq!(VariantValue::VString(String::new()).text().unwrap(), "");
}

#[test]
fn values_that_need_floating_point_formatting_have_no_text() {
    assert_eq!(VariantValue::Float(1.0f32.to_bits()).text(), None);
    assert_eq!(VariantValue::Double(1.0f64.to_bits()).text(), None);
    assert_eq!(VariantValue::Vec(vec![]).text(), None);
    assert_eq!(VariantValue::VMap(VariantMap::new()).text(), None);
}

#[test]
fn a_null_has_no_field_value_alone_or_within() {
    let alone = serde_json::from_str::<Value>("null").unwrap();
    assert_eq!(VariantValue::try_from(&alone).err(), Some(ConvertError::InvalidValue));
    let within = serde_json::from_str::<Value>(r#"{"a": [1, {"b": null}], "c": 2}"#).unwrap();
    assert_eq!(VariantValue::try_from(&within).err(), Some(ConvertError::InvalidValue));
    assert_eq!(ConvertError::InvalidValue.message(), "invald value");
}

#[test]
fn an_integer_above_the_greatest_long_wraps_round() {
    let top = serde_json::from_str::<Value>("18446744073709551615").unwrap();
    assert_eq!(VariantValue::try_from(&top).unwrap().get_long(), Some(-1));
    let edge = serde_json::from_str::<Value>("9223372036854775808").unwrap();
    assert_eq!(VariantValue::try_from(&edge).unwrap().get_long(), Some(i64::MIN));
    let fits = serde_json::from_str::<Value>("9223372036854775807").unwrap();
    assert_eq!(VariantValue::try_from(&fits).unwrap().get_long(), Some(i64::MAX));
}

#[test]
fn a_document_is_read_kind_by_kind() {
    let doc = serde_json::from_str::<Value>(r#"[true, 7, -7, 1.5, "x", [], {}, null]"#).unwrap();
    let read = JsonValue::from_serde(&doc);
    let items = match read {
        JsonValue::Array(items) => items,
        _ => panic!("not an array"),
    };
    assert_eq!(items.len(), 8);
    assert!(matches!(items[0], JsonValue::Bool(true)));
    assert!(matches!(items[1], JsonValue::Number(JsonNumber::PosInt(7))));
    assert!(matches!(items[2], JsonValue::Number(JsonNumber::NegInt(-7))));
    assert!(matches!(items[3], JsonValue::Number(JsonNumber::Float(bits)) if bits == 1.5f64.to_bits()));
    assert!(matches!(&items[4], JsonValue::String(text) if text == "x"));
    assert!(matches!(&items[5], JsonValue::Array(inner) if inner.is_empty()));
    assert!(matches!(&items[6], JsonValue::Object(inner) if inner.is_empty()));
    assert!(matches!(items[7], JsonValue::Null));
}

#[test]
fn the_members_of_an_object_are_read_with_their_names() {
    let doc = serde_json::from_str::<Value>(r#"{"one": 1, "two": [2]}"#).unwrap();
    let members = match JsonValue::from_serde(&doc) {
        JsonValue::Object(members) => members,
        _ => panic!("not an object"),
    };
    assert_eq!(members.len(), 2);
    let one = members.iter().find(|(name, _)| name == "one").unwrap();
    assert!(matches!(one.1, JsonValue::Number(JsonNumber::PosInt(1))));
    let two = members.iter().find(|(name, _)| name == "two").unwrap();
    assert!(matches!(&two.1, JsonValue::Array(items) if items.len() == 1));
}

#[test]
fn of_two_members_with_one_name_the_second_takes_the_place_of_the_first() {
    let json = JsonValue::Object(vec![
        (String::from("a"), JsonValue::Bool(true)),
        (String::from("b"), JsonValue::Bool(true)),
        (String::from("a"), JsonValue::Bool(false)),
    ]);
    let map = match VariantValue::try_from_json(&json).unwrap() {
        VariantValue::VMap(map) => map,
        _ => panic!("not a map"),
    };
    assert_eq!(map.len(), 2);
    assert_eq!(map.entries()[0].0, "a");
    assert_eq!(map.entries()[0].1.get_bool(), Some(false));
    assert_eq!(map.entries()[1].0, "b");
}

#[test]
fn a_value_that_is_not_finite_has_no_json_number() {
    for bits in [f32::NAN.to_bits(), f32::INFINITY.to_bits(), f32::NEG_INFINITY.to_bits()] {
        let r = VariantValue::Float(bits).to_json();
        assert_eq!(r.err(), Some(ConvertError::NotJsonNumber));
    }
    for bits in [f64::NAN.to_bits(), f64::INFINITY.to_bits(), f64::NEG_INFINITY.to_bits()] {
        let r = VariantValue::Double(bits).to_json();
        assert_eq!(r.err(), Some(ConvertError::NotJsonNumber));
    }
    assert_eq!(ConvertError::NotJsonNumber.message(), "not a json number");
    assert!(VariantValue::Double(f64::MAX.to_bits()).to_json().is_ok());
    assert!(VariantValue::Float(f32::MIN.to_bits()).to_json().is_ok());
}

#[test]
fn bytes_that_are_no_utf8_have_no_json_string() {
    let r = VariantValue::Binary(vec![0x66, 0xff, 0x6f]).to_json();
    assert_eq!(r.err(), Some(ConvertError::NotUtf8));
    assert_eq!(ConvertError::NotUtf8.message(), "the binary array is not utf-8 string");
}

#[test]
fn the_first_failure_in_order_is_returned() {
    let bytes_first = VariantValue::Vec(vec![
        VariantValue::Long(1),
        VariantValue::Binary(vec![0xc0]),
        VariantValue::Double(f64::NAN.to_bits()),
    ]);
    assert_eq!(bytes_first.to_json().err(), Some(ConvertError::NotUtf8));
    let mut map = VariantMap::new();
    map.insert(String::from("z"), VariantValue::Float(f32::INFINITY.to_bits()));
    map.insert(String::from("a"), VariantValue::Binary(vec![0xc0]));
    assert_eq!(VariantValue::VMap(map).to_json().err(), Some(ConvertError::NotJsonNumber));
}

#[test]
fn a_character_becomes_the_number_of_its_lowest_eight_bits() {
    let json = VariantValue::Char('\u{141}').to_json().unwrap();
    assert!(matches!(json, JsonValue::Number(JsonNumber::PosInt(0x41))));
    let json = VariantValue::Char('\u{ff}').to_json().unwrap();
    assert!(matches!(json, JsonValue::Number(JsonNumber::PosInt(255))));
}

#[test]
fn a_single_becomes_the_double_of_the_same_amount() {
    let samples = [
        0.0f32,
        -0.0,
        1.0,
        -1.0,
        0.1,
        -32.745_895,
        3.141_593,
        f32::MAX,
        f32::MIN,
        f32::MIN_POSITIVE,
        f32::EPSILON,
        f32::from_bits(1),
        f32::from_bits(0x8000_0001),
        f32::from_bits(0x007f_ffff),
        f32::from_bits(0x0040_0000),
        f32::from_bits(0x0000_0100),
        f32::from_bits(0x7f7f_ffff),
    ];
    for single in samples {
        let json = VariantValue::Float(single.to_bits()).to_json().unwrap();
        match json {
            JsonValue::Number(JsonNumber::Float(bits)) => {
                assert_eq!(bits, (single as f64).to_bits(), "{single:e}")
            }
            _ => panic!("not a floating-point number"),
        }
    }
}

#[test]
fn there_and_back_keeps_what_json_can_hold() {
    let mut map = VariantMap::new();
    map.insert(String::from("n"), VariantValue::Long(-3));
    map.insert(String::from("d"), VariantValue::Double(2.5f64.to_bits()));
    map.insert(
        String::from("l"),
        VariantValue::Vec(vec![VariantValue::Bool(false), VariantValue::VString("t".into())]),
    );
    let value = VariantValue::VMap(map);
    let back = VariantValue::try_from_json(&value.to_json().unwrap()).unwrap();
    let back = back.get_map().unwrap();
    assert_eq!(back.len(), 3);
    assert_eq!(back.get("n").unwrap().get_long(), Some(-3));
    assert_eq!(back.get("d").unwrap().get_double(), Some(2.5f64.to_bits()));
    let list = back.get("l").unwrap().get_vec().unwrap();
    assert_eq!(list[0].get_bool(), Some(false));
    assert_eq!(list[1].get_string(), Some("t"));
}
