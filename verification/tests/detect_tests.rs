use pii_filter::build;
use pii_filter::detection_value;
use pii_filter::Category;
use pii_filter::CharClass;
use pii_filter::CustomPattern;
use pii_filter::Detector;
use pii_filter::MaskStrategy;
use pii_filter::Options;
use pii_filter::PatItem;

fn detector_for(categories: Vec<Category>) -> Detector {
    let mut opts = Options::new();
    opts.enabled = categories;
    Detector::compile(build(&opts).unwrap())
}

#[test]
fn ssn_positive_and_negative() {
    let det = detector_for(vec![Category::Ssn]);
    let text = b"123-45-6789".to_vec();
    let dets = det.detect(&text);
    assert_eq!(dets.len(), 1);
    assert_eq!(dets[0].category, Category::Ssn);
    assert_eq!((dets[0].start, dets[0].end), (0, 11));
    assert_eq!(dets[0].confidence, 100);

    let none = det.detect(&b"123-4-6789 and 1234-56-789".to_vec());
    assert_eq!(none.len(), 0);
}

#[test]
fn credit_card_positive_and_negative() {
    let det = detector_for(vec![Category::CreditCard]);
    let spaced = det.detect(&b"4111 1111 1111 1111".to_vec());
    assert_eq!(spaced.len(), 1);
    assert_eq!((spaced[0].start, spaced[0].end), (0, 19));
    assert_eq!(spaced[0].confidence, 100);

    let dashed = det.detect(&b"pay 4111-1111-1111-1111 now".to_vec());
    assert_eq!(dashed.len(), 1);
    assert_eq!((dashed[0].start, dashed[0].end), (4, 23));

    let none = det.detect(&b"4111 1111 1111".to_vec());
    assert_eq!(none.len(), 0);
}

#[test]
fn email_positive_and_negative() {
    let det = detector_for(vec![Category::Email]);
    let text = b"mail bob.smith@corp.io.".to_vec();
    let dets = det.detect(&text);
    assert_eq!(dets.len(), 1);
    assert_eq!((dets[0].start, dets[0].end), (5, 22));
    assert_eq!(detection_value(&text, &dets[0]), b"bob.smith@corp.io".to_vec());

    let none = det.detect(&b"user@localhost or just text".to_vec());
    assert_eq!(none.len(), 0);
}

#[test]
fn phone_positive_and_negative() {
    let det = detector_for(vec![Category::Phone]);
    for text in [&b"555-867-5309"[..], &b"555.867.5309"[..], &b"555 867 5309"[..]] {
        let dets = det.detect(&text.to_vec());
        assert_eq!(dets.len(), 1);
        assert_eq!((dets[0].start, dets[0].end), (0, 12));
    }
    let none = det.detect(&b"5558675309".to_vec());
    assert_eq!(none.len(), 0);
}

#[test]
fn ip_address_positive_and_negative() {
    let det = detector_for(vec![Category::IpAddress]);
    let dets = det.detect(&b"host 10.0.0.255 up".to_vec());
    assert_eq!(dets.len(), 1);
    assert_eq!((dets[0].start, dets[0].end), (5, 15));

    let none = det.detect(&b"300.400.500.600".to_vec());
    assert_eq!(none.len(), 0);
}

#[test]
fn custom_pattern_positive_and_negative() {
    let mut opts = Options::new();
    opts.enabled = vec![Category::Custom(0)];
    opts.custom_patterns = vec![CustomPattern {
        name: b"code".to_vec(),
        items: vec![
            PatItem { class: CharClass::Alpha, count: 2 },
            PatItem { class: CharClass::Digit, count: 3 },
        ],
        strategy: MaskStrategy::Redact,
    }];
    let det = Detector::compile(build(&opts).unwrap());
    let dets = det.detect(&b"id AB123 ok".to_vec());
    assert_eq!(dets.len(), 1);
    assert_eq!(dets[0].category, Category::Custom(0));
    assert_eq!((dets[0].start, dets[0].end), (3, 8));

    assert_eq!(det.detect(&b"A123 12345".to_vec()).len(), 0);
}

#[test]
fn custom_pattern_exact_byte() {
    let mut opts = Options::new();
    opts.enabled = vec![Category::Custom(0)];
    opts.custom_patterns = vec![CustomPattern {
        name: b"pair".to_vec(),
        items: vec![
            PatItem { class: CharClass::Digit, count: 2 },
            PatItem { class: CharClass::Exact(b'-'), count: 1 },
            PatItem { class: CharClass::Digit, count: 2 },
        ],
        strategy: MaskStrategy::Redact,
    }];
    let det = Detector::compile(build(&opts).unwrap());
    let dets = det.detect(&b"at 12-34 end".to_vec());
    assert_eq!(dets.len(), 1);
    assert_eq!((dets[0].start, dets[0].end), (3, 8));
    assert_eq!(det.detect(&b"12x34".to_vec()).len(), 0);
}

#[test]
fn detect_is_deterministic() {
    let det = detector_for(vec![
        Category::Ssn,
        Category::CreditCard,
        Category::Email,
        Category::Phone,
        Category::IpAddress,
    ]);
    let text = b"bob@corp.io 123-45-6789 10.0.0.1 555-867-5309".to_vec();
    let first = det.detect(&text);
    let second = det.detect(&text);
    assert_eq!(first, second);
    assert!(first.len() >= 4);
}

#[test]
fn empty_text_yields_no_detections() {
    let det = detector_for(vec![Category::Ssn, Category::CreditCard]);
    assert_eq!(det.detect(&Vec::new()).len(), 0);
}

#[test]
fn span_round_trip_matches_value() {
    let det = detector_for(vec![Category::Ssn, Category::Email]);
    let text = b"reach me at eve@corp.io or 987-65-4321 today".to_vec();
    let dets = det.detect(&text);
    assert_eq!(dets.len(), 2);
    for d in &dets {
        let value = detection_value(&text, d);
        assert_eq!(value, text[d.start..d.end].to_vec());
    }
    assert_eq!(detection_value(&text, &dets[0]), b"eve@corp.io".to_vec());
    assert_eq!(detection_value(&text, &dets[1]), b"987-65-4321".to_vec());
}

#[test]
fn low_confidence_candidate_excluded() {
    // a malformed card-shaped number fails the Luhn check and scores 50,
    // below a floor of 90
    let mut opts = Options::new();
    opts.enabled = vec![Category::CreditCard];
    opts.minimum_confidence = 90;
    let det = Detector::compile(build(&opts).unwrap());
    assert_eq!(det.detect(&b"4111 1111 1111 1112".to_vec()).len(), 0);

    // the same text passes with no floor, at downgraded confidence
    let mut opts2 = Options::new();
    opts2.enabled = vec![Category::CreditCard];
    let det2 = Detector::compile(build(&opts2).unwrap());
    let dets = det2.detect(&b"4111 1111 1111 1112".to_vec());
    assert_eq!(dets.len(), 1);
    assert_eq!(dets[0].confidence, 50);
}

#[test]
fn overlap_keeps_higher_priority() {
    // a generic custom digit pattern overlaps the ssn span; the ssn rule
    // (priority 10) wins over the custom rule (priority 1)
    let mut opts = Options::new();
    opts.enabled = vec![Category::Ssn, Category::Custom(0)];
    opts.custom_patterns = vec![CustomPattern {
        name: b"digits3".to_vec(),
        items: vec![PatItem { class: CharClass::Digit, count: 3 }],
        strategy: MaskStrategy::Redact,
    }];
    let det = Detector::compile(build(&opts).unwrap());
    let dets = det.detect(&b"123-45-6789".to_vec());
    assert_eq!(dets.len(), 1);
    assert_eq!(dets[0].category, Category::Ssn);
    assert_eq!((dets[0].start, dets[0].end), (0, 11));
}

#[test]
fn overlap_tie_prefers_longer_then_earlier() {
    // two custom rules of equal priority: the longer match wins
    let mut opts = Options::new();
    opts.enabled = vec![Category::Custom(0), Category::Custom(1)];
    opts.custom_patterns = vec![
        CustomPattern {
            name: b"two".to_vec(),
            items: vec![PatItem { class: CharClass::Digit, count: 2 }],
            strategy: MaskStrategy::Redact,
        },
        CustomPattern {
            name: b"four".to_vec(),
            items: vec![PatItem { class: CharClass::Digit, count: 4 }],
            strategy: MaskStrategy::Redact,
        },
    ];
    let det = Detector::compile(build(&opts).unwrap());
    let dets = det.detect(&b"x 1234 y".to_vec());
    assert_eq!(dets.len(), 1);
    assert_eq!(dets[0].category, Category::Custom(1));
    assert_eq!((dets[0].start, dets[0].end), (2, 6));
}

#[test]
fn disabled_category_never_matches() {
    let det = detector_for(vec![Category::Email]);
    assert_eq!(det.detect(&b"123-45-6789".to_vec()).len(), 0);
}

#[test]
fn output_sorted_by_start() {
    let det = detector_for(vec![Category::Ssn, Category::Email]);
    let text = b"111-22-3333 then a@b.io then 444-55-6666".to_vec();
    let dets = det.detect(&text);
    assert_eq!(dets.len(), 3);
    for w in dets.windows(2) {
        assert!(w[0].start < w[1].start);
        assert!(w[0].end <= w[1].start);
    }
}
