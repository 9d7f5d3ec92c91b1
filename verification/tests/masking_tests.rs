use pii_filter::build;
use pii_filter::mask;
use pii_filter::Category;
use pii_filter::Detection;
use pii_filter::Detector;
use pii_filter::MaskStrategy;
use pii_filter::Options;
use pii_filter::PiiError;
use pii_filter::StrategyOverride;

fn redact_detector(categories: Vec<Category>) -> Detector {
    let mut opts = Options::new();
    opts.enabled = categories;
    Detector::compile(build(&opts).unwrap())
}

#[test]
fn redact_ssn_and_card() {
    let det = redact_detector(vec![Category::Ssn, Category::CreditCard]);
    let text = b"Contact: 123-45-6789, card 4111 1111 1111 1111".to_vec();
    let dets = det.detect(&text);
    assert_eq!(dets.len(), 2);
    assert_eq!(dets[0].category, Category::Ssn);
    assert_eq!((dets[0].start, dets[0].end), (9, 20));
    assert_eq!(dets[1].category, Category::CreditCard);
    assert_eq!((dets[1].start, dets[1].end), (27, 46));
    let masked = mask(&det.config, &text, &dets).unwrap();
    assert_eq!(masked, b"Contact: [REDACTED], card [REDACTED]".to_vec());
}

#[test]
fn mask_with_no_detections_is_identity() {
    let det = redact_detector(vec![Category::Ssn]);
    let text = b"nothing sensitive here".to_vec();
    let masked = mask(&det.config, &text, &Vec::new()).unwrap();
    assert_eq!(masked, text);
}

#[test]
fn redact_masking_is_idempotent() {
    let det = redact_detector(vec![Category::Ssn, Category::CreditCard]);
    let text = b"Contact: 123-45-6789, card 4111 1111 1111 1111".to_vec();
    let once = mask(&det.config, &text, &det.detect(&text)).unwrap();
    let again = mask(&det.config, &once, &det.detect(&once)).unwrap();
    assert_eq!(once, again);
}

#[test]
fn partial_mask_keeps_prefix_and_suffix() {
    let mut opts = Options::new();
    opts.enabled = vec![Category::Ssn];
    opts.overrides = vec![StrategyOverride {
        category: Category::Ssn,
        strategy: MaskStrategy::Partial { prefix: 2, suffix: 2 },
    }];
    let det = Detector::compile(build(&opts).unwrap());
    let text = b"123-45-6789".to_vec();
    let masked = mask(&det.config, &text, &det.detect(&text)).unwrap();
    assert_eq!(masked, b"12*******89".to_vec());
}

#[test]
fn partial_mask_short_value_fully_masked() {
    let mut opts = Options::new();
    opts.enabled = vec![Category::Ssn];
    opts.overrides = vec![StrategyOverride {
        category: Category::Ssn,
        strategy: MaskStrategy::Partial { prefix: 8, suffix: 8 },
    }];
    let det = Detector::compile(build(&opts).unwrap());
    let text = b"123-45-6789".to_vec();
    let masked = mask(&det.config, &text, &det.detect(&text)).unwrap();
    assert_eq!(masked, b"***********".to_vec());
}

#[test]
fn hash_mask_is_deterministic_per_salt_and_value() {
    let mut opts = Options::new();
    opts.enabled = vec![Category::Ssn];
    opts.default_strategy = MaskStrategy::Hash;
    opts.hash_salt = b"s1".to_vec();
    let det = Detector::compile(build(&opts).unwrap());
    let t1 = b"a 123-45-6789".to_vec();
    let t2 = b"b 123-45-6789".to_vec();
    let m1 = mask(&det.config, &t1, &det.detect(&t1)).unwrap();
    let m2 = mask(&det.config, &t2, &det.detect(&t2)).unwrap();
    // same (value, salt) pair, same digest
    assert_eq!(m1[2..], m2[2..]);
    assert_eq!(m1.len(), 2 + 23);
    // FNV-1a, 64-bit, over salt then value
    assert_eq!(&m1[2..], b"[HASH:55f78b98f3dacc48]");
}

#[test]
fn tokenize_mask_unique_per_detection() {
    let mut opts = Options::new();
    opts.enabled = vec![Category::Ssn];
    opts.default_strategy = MaskStrategy::Tokenize;
    let det = Detector::compile(build(&opts).unwrap());
    let text = b"111-22-3333 444-55-6666".to_vec();
    let masked = mask(&det.config, &text, &det.detect(&text)).unwrap();
    assert_eq!(masked, b"[TOKEN-0] [TOKEN-1]".to_vec());
}

#[test]
fn remove_mask_absorbs_one_dangling_separator() {
    let mut opts = Options::new();
    opts.enabled = vec![Category::Ssn];
    opts.default_strategy = MaskStrategy::Remove;
    let det = Detector::compile(build(&opts).unwrap());

    // separator only on the right: absorbed
    let t1 = b"id:123-45-6789, x".to_vec();
    let m1 = mask(&det.config, &t1, &det.detect(&t1)).unwrap();
    assert_eq!(m1, b"id: x".to_vec());

    // separator only on the left: absorbed
    let t2 = b"call 123-45-6789".to_vec();
    let m2 = mask(&det.config, &t2, &det.detect(&t2)).unwrap();
    assert_eq!(m2, b"call".to_vec());

    // separators on both sides: neither absorbed
    let t3 = b"a 123-45-6789, b".to_vec();
    let m3 = mask(&det.config, &t3, &det.detect(&t3)).unwrap();
    assert_eq!(m3, b"a , b".to_vec());
}

#[test]
fn remove_masking_is_idempotent() {
    let mut opts = Options::new();
    opts.enabled = vec![Category::Ssn];
    opts.default_strategy = MaskStrategy::Remove;
    let det = Detector::compile(build(&opts).unwrap());
    let text = b"a 123-45-6789, b".to_vec();
    let once = mask(&det.config, &text, &det.detect(&text)).unwrap();
    let again = mask(&det.config, &once, &det.detect(&once)).unwrap();
    assert_eq!(once, again);
}

#[test]
fn overlapping_external_detections_rejected() {
    let det = redact_detector(vec![Category::Ssn]);
    let text = b"0123456789".to_vec();
    let bad = vec![
        Detection { category: Category::Ssn, start: 0, end: 5, confidence: 100 },
        Detection { category: Category::Ssn, start: 4, end: 8, confidence: 100 },
    ];
    assert_eq!(mask(&det.config, &text, &bad), Err(PiiError::OverlappingDetections));

    let inverted = vec![Detection { category: Category::Ssn, start: 5, end: 3, confidence: 100 }];
    assert_eq!(mask(&det.config, &text, &inverted), Err(PiiError::OverlappingDetections));

    let out_of_bounds = vec![Detection {
        category: Category::Ssn,
        start: 5,
        end: 99,
        confidence: 100,
    }];
    assert_eq!(mask(&det.config, &text, &out_of_bounds), Err(PiiError::OverlappingDetections));
}

#[test]
fn unknown_category_masked_with_default() {
    // a detection whose category has no compiled rule falls back to the
    // configuration default strategy
    let mut opts = Options::new();
    opts.enabled = vec![Category::Ssn];
    opts.default_strategy = MaskStrategy::Redact;
    let det = Detector::compile(build(&opts).unwrap());
    let text = b"abcdef".to_vec();
    let dets = vec![Detection { category: Category::Email, start: 0, end: 3, confidence: 100 }];
    let masked = mask(&det.config, &text, &dets).unwrap();
    assert_eq!(masked, b"[REDACTED]def".to_vec());
}
