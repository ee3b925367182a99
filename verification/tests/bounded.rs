use rustev::bounded::{scan, BoundError, ParseLimits, ScanStats};


const WIDE: ParseLimits = ParseLimits {
    max_bytes: 1 << 20,
    max_depth: 64,
    max_string_bytes: 1 << 16,
    max_collection_len: 1 << 16,
    max_total_values: 1 << 20,
    max_number_bytes: 64,
    allow_fractional_numbers: true,
};

fn ok(s: &str, l: &ParseLimits) -> ScanStats {
    scan(s.as_bytes(), l).unwrap_or_else(|e| panic!("{s:?}: {}", e.message()))
}

fn err(s: &str, l: &ParseLimits) -> BoundError {
    scan(s.as_bytes(), l).expect_err(s)
}

#[test]
fn accepts_valid_documents() {
    for s in [
        "0",
        "-0",
        "1.5e-3",
        "-12E+4",
        "true",
        "false",
        "null",
        "\"\"",
        "\"a\\n\\u00e9\\ud83d\\ude00\"",
        "\"é😀\"",
        " [ ] ",
        "{}",
        "{\"a\":[1,{\"b\":null}],\"c\":\"d\"}",
        "\r\n\t[1 , 2]\n",
    ] {
        ok(s, &WIDE);
    }
}

#[test]
fn stats() {
    let s = ok("{\"a\":[1,2,{}],\"b\":\"x\"}", &WIDE);
    assert_eq!(s.max_depth_seen, 3);
    // object, array, 1, 2, {}, "x"
    assert_eq!(s.values, 6);
    assert_eq!(ok("7", &WIDE).max_depth_seen, 0);
}

#[test]
fn syntax_errors() {
    for s in [
        "[1,]",
        "[1 2]",
        "{\"a\" 1}",
        "{\"a\":}",
        "{1:2}",
        "{\"a\":1,}",
        "tru",
        "nul",
        "01x",
        "[01]",
        "-",
        "1.",
        "1e",
        "1e+",
        ".5",
        "+1",
        "\"abc",
        "\"\\x\"",
        "\"\\u12G4\"",
        "[",
        "{",
        "'a'",
        "\"a\tb\"",
        "\"\u{1}\"",
    ] {
        let e = err(s, &WIDE);
        assert!(
            matches!(
                e,
                BoundError::Syntax { .. } | BoundError::TrailingData { .. }
            ),
            "{s:?}: {e:?}"
        );
    }
}

#[test]
fn empty_and_trailing() {
    assert_eq!(err("", &WIDE), BoundError::Empty);
    assert_eq!(err(" \n\t ", &WIDE), BoundError::Empty);
    assert_eq!(err("1 2", &WIDE), BoundError::TrailingData { offset: 2 });
    assert_eq!(err("{} {}", &WIDE), BoundError::TrailingData { offset: 3 });
    assert_eq!(err("01", &WIDE), BoundError::TrailingData { offset: 1 });
}

#[test]
fn too_large_checked_first() {
    let l = ParseLimits {
        max_bytes: 4,
        ..WIDE
    };
    ok("[12]", &l);
    // Invalid content but over the limit: size is reported, not syntax.
    assert_eq!(
        err("#####", &l),
        BoundError::TooLarge {
            limit: 4,
            actual: 5
        }
    );
    let zero = ParseLimits {
        max_bytes: 0,
        ..WIDE
    };
    assert_eq!(err("", &zero), BoundError::Empty);
}

#[test]
fn depth_limit() {
    let l = ParseLimits {
        max_depth: 3,
        ..WIDE
    };
    assert_eq!(ok("[[[1]]]", &l).max_depth_seen, 3);
    assert_eq!(ok("{\"a\":{\"b\":[]}}", &l).max_depth_seen, 3);
    assert_eq!(
        err("[[[[1]]]]", &l),
        BoundError::TooDeep {
            limit: 3,
            offset: 3
        }
    );
    let flat = ParseLimits {
        max_depth: 0,
        ..WIDE
    };
    ok("\"scalar\"", &flat);
    assert!(matches!(err("[]", &flat), BoundError::TooDeep { .. }));
}

#[test]
fn deep_nesting_is_refused_without_recursion() {
    let n = 10_000;
    let s = "[".repeat(n) + &"]".repeat(n);
    assert!(matches!(
        err(&s, &WIDE),
        BoundError::TooDeep { limit: 64, .. }
    ));
    let deep = ParseLimits {
        max_depth: n,
        ..WIDE
    };
    assert_eq!(ok(&s, &deep).max_depth_seen, n);
    let obj = "{\"a\":".repeat(n) + "1" + &"}".repeat(n);
    assert_eq!(ok(&obj, &deep).max_depth_seen, n);
}

#[test]
fn string_limit() {
    let l = ParseLimits {
        max_string_bytes: 3,
        ..WIDE
    };
    ok("\"abc\"", &l);
    ok("{\"abc\":\"xyz\"}", &l);
    // Escapes count by raw length: "\n" is 2 raw bytes.
    ok("\"a\\n\"", &l);
    assert_eq!(
        err("\"abcd\"", &l),
        BoundError::StringTooLong {
            limit: 3,
            offset: 0
        }
    );
    assert!(matches!(
        err("{\"abcd\":1}", &l),
        BoundError::StringTooLong { .. }
    ));
    assert!(matches!(
        err("\"\\u0041\"", &l),
        BoundError::StringTooLong { .. }
    ));
    // Multi-byte characters count their bytes: "é" is 2 bytes, "éé" is 4.
    ok("\"é\"", &l);
    assert!(matches!(
        err("\"éé\"", &l),
        BoundError::StringTooLong { .. }
    ));
}

#[test]
fn string_limit_fires_before_end_of_input() {
    let l = ParseLimits {
        max_string_bytes: 3,
        ..WIDE
    };
    // Unterminated: an unbounded scan would report a syntax error at the end.
    assert!(matches!(
        err("\"abcdefgh", &l),
        BoundError::StringTooLong { .. }
    ));
}

#[test]
fn collection_limit() {
    let l = ParseLimits {
        max_collection_len: 2,
        ..WIDE
    };
    ok("[1,2]", &l);
    ok("{\"a\":1,\"b\":2}", &l);
    assert_eq!(
        err("[1,2,3]", &l),
        BoundError::CollectionTooLong {
            limit: 2,
            offset: 5
        }
    );
    assert!(matches!(
        err("{\"a\":1,\"b\":2,\"c\":3}", &l),
        BoundError::CollectionTooLong { .. }
    ));
    // Incremental: refused before the malformed tail is reached.
    assert!(matches!(
        err("[1,2,3,#", &l),
        BoundError::CollectionTooLong { .. }
    ));
}

#[test]
fn total_value_limit() {
    let l = ParseLimits {
        max_total_values: 3,
        ..WIDE
    };
    ok("[1,2]", &l);
    ok("{\"a\":1,\"b\":2}", &l);
    assert_eq!(
        err("[1,2,3]", &l),
        BoundError::TooManyValues {
            limit: 3,
            offset: 5
        }
    );
    assert!(matches!(
        err("[[],[],[]]", &l),
        BoundError::TooManyValues { .. }
    ));
}

#[test]
fn number_limit() {
    let l = ParseLimits {
        max_number_bytes: 4,
        ..WIDE
    };
    ok("1234", &l);
    ok("-123", &l);
    ok("1.25", &l);
    assert_eq!(
        err("12345", &l),
        BoundError::NumberTooLong {
            limit: 4,
            offset: 0
        }
    );
    assert!(matches!(
        err("[-1234]", &l),
        BoundError::NumberTooLong { offset: 1, .. }
    ));
    assert!(matches!(err("1.234", &l), BoundError::NumberTooLong { .. }));
    assert!(matches!(err("1e+10", &l), BoundError::NumberTooLong { .. }));
}

#[test]
fn fractional_numbers() {
    let l = ParseLimits {
        allow_fractional_numbers: false,
        ..WIDE
    };
    ok("-42", &l);
    ok("[0,1,2]", &l);
    assert_eq!(err("1.5", &l), BoundError::FractionalNumber { offset: 1 });
    assert_eq!(err("[1e3]", &l), BoundError::FractionalNumber { offset: 2 });
    assert_eq!(err("2E-1", &l), BoundError::FractionalNumber { offset: 1 });
    ok("1.5", &WIDE);
    ok("1e3", &WIDE);
}

#[test]
fn duplicate_keys() {
    assert_eq!(
        err("{\"a\":1,\"a\":2}", &WIDE),
        BoundError::DuplicateKey {
            key: "a".into(),
            offset: 7
        }
    );
    // Compared after decoding escapes.
    assert!(matches!(
        err("{\"a\":1,\"\\u0061\":2}", &WIDE),
        BoundError::DuplicateKey { .. }
    ));
    assert!(matches!(
        err("{\"\\/\":1,\"/\":2}", &WIDE),
        BoundError::DuplicateKey { .. }
    ));
    // Same key in sibling and nested objects is fine.
    ok("{\"a\":{\"a\":1},\"b\":[{\"a\":1},{\"a\":2}]}", &WIDE);
    // Duplicate only in an inner object is still refused.
    assert!(matches!(
        err("{\"x\":{\"a\":1,\"a\":2}}", &WIDE),
        BoundError::DuplicateKey { .. }
    ));
    // Reported key is truncated to 64 characters.
    let long = "k".repeat(100);
    let s = format!("{{\"{long}\":1,\"{long}\":2}}");
    match err(&s, &WIDE) {
        BoundError::DuplicateKey { key, .. } => assert_eq!(key.chars().count(), 64),
        e => panic!("{e:?}"),
    }
}

#[test]
fn surrogates() {
    ok("\"\\ud83d\\ude00\"", &WIDE);
    ok("\"\\uD83D\\uDE00\"", &WIDE);
    for s in [
        "\"\\ud83d\"",
        "\"\\ud83dx\"",
        "\"\\ud83d\\u0041\"",
        "\"\\ude00\"",
        "\"\\ude00\\ud83d\"",
        "\"\\ud83d\\n\"",
    ] {
        assert!(matches!(err(s, &WIDE), BoundError::Syntax { .. }), "{s}");
    }
    // Decoded pair participates in duplicate detection.
    assert!(matches!(
        err("{\"😀\":1,\"\\ud83d\\ude00\":2}", &WIDE),
        BoundError::DuplicateKey { .. }
    ));
}

#[test]
fn invalid_utf8() {
    let cases: [&[u8]; 6] = [
        b"\"\xff\"",
        b"\"\xc0\xaf\"",
        b"\"\xe0\x80\xaf\"",
        b"\"\xed\xa0\x80\"",
        b"\"\xf5\x80\x80\x80\"",
        b"\"\xc3",
    ];
    for c in cases {
        assert_eq!(
            scan(c, &WIDE),
            Err(BoundError::InvalidUtf8 { offset: 1 }),
            "{c:?}"
        );
    }
}

#[test]
fn display_is_informative() {
    let e = BoundError::TooLarge {
        limit: 1,
        actual: 2,
    };
    assert_eq!(e.message(), "input is 2 bytes, limit 1");
}
