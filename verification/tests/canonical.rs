use rustev::canonical::{sorted_keys, tagged_digest};

#[test]
fn keys_are_sorted_whatever_the_iteration_order() {
    let (b, a, upper) = ("b".to_string(), "a".to_string(), "B".to_string());
    let keys = sorted_keys(vec![&b, &a, &upper]);
    assert_eq!(keys, vec![&upper, &a, &b]);
}

#[test]
fn a_tagged_digest_hashes_the_tag_a_zero_byte_and_the_bytes() {
    assert_eq!(
        tagged_digest("x", b""),
        "sha256:14f825b2bbc32dd8d196367fa8776873069c12a8954d8da7513aa7704ddd09eb"
    );
    assert_ne!(tagged_digest("x", b""), tagged_digest("y", b""));
    assert_ne!(tagged_digest("x", b"a"), tagged_digest("x", b""));
}

#[test]
fn equal_keys_stay_side_by_side() {
    let (a1, a2, z) = ("a".to_string(), "a".to_string(), "z".to_string());
    let keys = sorted_keys(vec![&z, &a1, &a2]);
    assert_eq!(keys, vec![&a1, &a2, &z]);
}

use rustev::canonical::{canonical_value_bytes, record_value_bytes, CanonicalError, Json};

fn obj(members: Vec<(&str, Json)>) -> Json {
    Json::Object(members.into_iter().map(|(k, v)| (k.to_string(), v)).collect())
}

#[test]
fn keys_are_sorted_by_bytes_and_whitespace_removed() {
    let v = obj(vec![
        ("b", Json::Int(1)),
        ("a", Json::Array(vec![Json::Bool(true), Json::Null, Json::Str("x".into())])),
        ("B", obj(vec![("z", Json::Int(-2)), ("y", Json::UInt(18446744073709551615))])),
    ]);
    assert_eq!(
        canonical_value_bytes(&v).unwrap(),
        br#"{"B":{"y":18446744073709551615,"z":-2},"a":[true,null,"x"],"b":1}"#
    );
}

#[test]
fn a_fractional_number_is_refused_with_its_path() {
    let v = obj(vec![("a", Json::Array(vec![Json::Int(1), Json::Fractional { record: b"2.5".to_vec() }]))]);
    assert_eq!(
        canonical_value_bytes(&v),
        Err(CanonicalError::FractionalNumber { path: "/a/1".into() })
    );
    // Negative control: the same document with an integer passes.
    let ok = obj(vec![("a", Json::Array(vec![Json::Int(1), Json::Int(2)]))]);
    assert!(canonical_value_bytes(&ok).is_ok());
    // The record form writes the number's record text.
    assert_eq!(record_value_bytes(&v).unwrap(), br#"{"a":[1,2.5]}"#);
    assert_eq!(
        canonical_value_bytes(&Json::Fractional { record: b"0.5".to_vec() }),
        Err(CanonicalError::FractionalNumber { path: "/".into() })
    );
}

#[test]
fn strings_are_escaped_as_json_escapes_them() {
    let v = Json::Str("\u{1}\"\\\n\t\u{8}\u{c}\r\u{1f}é\u{7f}".into());
    assert_eq!(
        String::from_utf8(canonical_value_bytes(&v).unwrap()).unwrap(),
        "\"\\u0001\\\"\\\\\\n\\t\\b\\f\\r\\u001fé\u{7f}\""
    );
    assert_eq!(canonical_value_bytes(&Json::Int(i64::MIN)).unwrap(), b"-9223372036854775808");
    assert_eq!(canonical_value_bytes(&obj(vec![])).unwrap(), b"{}");
    assert_eq!(canonical_value_bytes(&Json::Array(vec![])).unwrap(), b"[]");
    assert_eq!(canonical_value_bytes(&Json::Bool(false)).unwrap(), b"false");
}
