use font_resolver::normalize::FontNormalizer;

#[test]
fn test_normalizer_comprehensive() {
    let normalizer = FontNormalizer;

    let test_cases = vec![
        ("ABCDEE+OpenSans-Bold", "opensans", 700, false),
        ("ArialMT", "arial", 400, false),
        ("TimesNewRomanPS-BoldItalic", "times-new-roman", 700, true),
        ("Calibri-Light-Identity-H", "calibri", 300, false),
        ("Helvetica-Neue-Light", "helvetica-neue", 300, false),
        ("CourierNewPSMT", "courier-new", 400, false),
        ("Wingdings-Regular", "wingdings", 400, false),
        ("SymbolMT", "symbol", 400, false),
    ];

    for (input, expected_family, expected_weight, expected_italic) in test_cases {
        let result = normalizer.normalize(input).unwrap();
        assert_eq!(result.family, expected_family, "Failed for: {}", input);
        assert_eq!(result.weight, expected_weight, "Failed weight for: {}", input);
        assert_eq!(result.italic, expected_italic, "Failed italic for: {}", input);
    }
}

#[test]
fn test_normalizer_rejects_empty_family() {
    let normalizer = FontNormalizer;
    assert!(normalizer.normalize("").is_err());
    assert!(normalizer.normalize("Bold").is_err());
    assert!(normalizer.normalize("++--__").is_err());
}

#[test]
fn test_normalizer_family_shape() {
    let normalizer = FontNormalizer;
    let samples = [
        "ABCDEE+OpenSans-Bold",
        "  Weird__Name--With Spaces  ",
        "Font#With$Junk%Chars",
        "A1B2C3",
        "TimesNewRomanPS-BoldItalic",
    ];
    for s in samples {
        if let Ok(req) = normalizer.normalize(s) {
            assert!(!req.family.is_empty());
            assert!(!req.family.starts_with('-'), "family {:?}", req.family);
            assert!(!req.family.ends_with('-'), "family {:?}", req.family);
            assert!(!req.family.contains("--"), "family {:?}", req.family);
            assert!(
                req.family.chars().all(|c| c.is_ascii_lowercase() || c.is_ascii_digit() || c == '-'),
                "family {:?}",
                req.family
            );
        }
    }
}

#[test]
fn test_subset_prefix_stripped_once() {
    let normalizer = FontNormalizer;
    // the subset marker disappears and never reaches the family
    let a = normalizer.normalize("ABCDEE+Verdana").unwrap();
    let b = normalizer.normalize("Verdana").unwrap();
    assert_eq!(a.family, b.family);
    assert_eq!(a.family, "verdana");
}

#[test]
fn test_monospace_detection() {
    let normalizer = FontNormalizer;
    let req = normalizer.normalize("CourierNewPSMT").unwrap();
    assert!(req.monospaced);
    let req2 = normalizer.normalize("ArialMT").unwrap();
    assert!(!req2.monospaced);
    let req3 = normalizer.normalize("DejaVu Sans Mono").unwrap();
    assert!(req3.monospaced);
}

#[test]
fn test_weight_and_style_extraction() {
    let normalizer = FontNormalizer;
    let cases = [
        ("Foo-Thin", 100, false),
        ("Foo-ExtraLight", 200, false),
        ("Foo-Light", 300, false),
        ("Foo-Medium", 500, false),
        ("Foo-SemiBold", 600, false),
        ("Foo-Bold", 700, false),
        ("Foo-Black", 900, false),
        ("Foo-BoldItalic", 700, true),
        ("Foo-Oblique", 400, false),
        ("Foo", 400, false),
    ];
    for (input, weight, italic) in cases {
        let req = normalizer.normalize(input).unwrap();
        assert_eq!(req.weight, weight, "weight for {}", input);
        assert_eq!(req.italic, italic, "italic for {}", input);
    }
}
