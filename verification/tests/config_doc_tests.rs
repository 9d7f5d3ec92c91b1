use pii_filter::build;
use pii_filter::detect_document;
use pii_filter::mask_document;
use pii_filter::Category;
use pii_filter::CharClass;
use pii_filter::ConfigIssue;
use pii_filter::CustomPattern;
use pii_filter::Detector;
use pii_filter::DocEntry;
use pii_filter::DocNode;
use pii_filter::MaskStrategy;
use pii_filter::Options;
use pii_filter::PatItem;
use pii_filter::PiiError;
use pii_filter::Registry;
use pii_filter::StrategyOverride;

#[test]
fn default_options_build() {
    let opts = Options::new();
    let cfg = build(&opts).unwrap();
    assert_eq!(cfg.rules.len(), 5);
    assert_eq!(cfg.minimum_confidence, 0);
    assert_eq!(cfg.effective_strategy(Category::Ssn), MaskStrategy::Redact);
}

#[test]
fn effective_strategy_resolves_override_or_default() {
    let mut opts = Options::new();
    opts.enabled = vec![Category::Ssn, Category::Email];
    opts.default_strategy = MaskStrategy::Hash;
    opts.overrides = vec![StrategyOverride {
        category: Category::Email,
        strategy: MaskStrategy::Remove,
    }];
    let cfg = build(&opts).unwrap();
    assert_eq!(cfg.effective_strategy(Category::Email), MaskStrategy::Remove);
    assert_eq!(cfg.effective_strategy(Category::Ssn), MaskStrategy::Hash);
    // a category without a compiled rule resolves to the default
    assert_eq!(cfg.effective_strategy(Category::Phone), MaskStrategy::Hash);
}

#[test]
fn custom_pattern_strategy_used_without_override() {
    let mut opts = Options::new();
    opts.enabled = vec![Category::Custom(0)];
    opts.default_strategy = MaskStrategy::Redact;
    opts.custom_patterns = vec![CustomPattern {
        name: b"pin".to_vec(),
        items: vec![PatItem { class: CharClass::Digit, count: 4 }],
        strategy: MaskStrategy::Remove,
    }];
    let cfg = build(&opts).unwrap();
    assert_eq!(cfg.effective_strategy(Category::Custom(0)), MaskStrategy::Remove);
}

#[test]
fn confidence_out_of_range_rejected() {
    let mut opts = Options::new();
    opts.minimum_confidence = 150;
    assert_eq!(build(&opts).unwrap_err(), vec![ConfigIssue::ConfidenceOutOfRange]);
}

#[test]
fn unknown_enabled_category_rejected() {
    let mut opts = Options::new();
    opts.enabled = vec![Category::Ssn, Category::Custom(0)];
    assert_eq!(
        build(&opts).unwrap_err(),
        vec![ConfigIssue::UnknownEnabledCategory(Category::Custom(0))]
    );
}

#[test]
fn unknown_override_category_rejected() {
    let mut opts = Options::new();
    opts.overrides = vec![StrategyOverride {
        category: Category::Custom(3),
        strategy: MaskStrategy::Redact,
    }];
    assert_eq!(
        build(&opts).unwrap_err(),
        vec![ConfigIssue::UnknownOverrideCategory(Category::Custom(3))]
    );
}

#[test]
fn violations_are_aggregated() {
    let mut opts = Options::new();
    opts.minimum_confidence = 101;
    opts.custom_patterns = vec![CustomPattern {
        name: Vec::new(),
        items: Vec::new(),
        strategy: MaskStrategy::Redact,
    }];
    assert_eq!(
        build(&opts).unwrap_err(),
        vec![
            ConfigIssue::ConfidenceOutOfRange,
            ConfigIssue::EmptyCustomName(0),
            ConfigIssue::EmptyCustomPattern(0),
        ]
    );
}

#[test]
fn zero_count_custom_item_rejected() {
    let mut opts = Options::new();
    opts.custom_patterns = vec![CustomPattern {
        name: b"bad".to_vec(),
        items: vec![PatItem { class: CharClass::Digit, count: 0 }],
        strategy: MaskStrategy::Redact,
    }];
    assert_eq!(build(&opts).unwrap_err(), vec![ConfigIssue::EmptyCustomPattern(0)]);
}

#[test]
fn registry_lookup_and_duplicate() {
    let mut reg = Registry::builtin();
    let ssn = reg.get(Category::Ssn).unwrap();
    assert_eq!(ssn.category, Category::Ssn);
    assert_eq!(ssn.priority, 10);
    assert_eq!(
        reg.get(Category::Custom(0)).unwrap_err(),
        PiiError::UnknownCategory(Category::Custom(0))
    );

    let rule = reg.get(Category::Email).unwrap();
    let copy = pii_filter::PatternRule {
        category: rule.category,
        matcher: pii_filter::patterns::Matcher::Email,
        validator: rule.validator,
        priority: rule.priority,
        strategy: rule.strategy,
    };
    assert_eq!(
        reg.register(copy),
        Err(PiiError::DuplicateCategory(Category::Email))
    );

    let fresh = pii_filter::PatternRule {
        category: Category::Custom(0),
        matcher: pii_filter::patterns::Matcher::Custom(vec![PatItem {
            class: CharClass::Digit,
            count: 4,
        }]),
        validator: pii_filter::patterns::Validator::Pass,
        priority: 1,
        strategy: MaskStrategy::Redact,
    };
    assert_eq!(reg.register(fresh), Ok(()));
    assert!(reg.get(Category::Custom(0)).is_ok());
}

fn sample_doc() -> DocNode {
    DocNode::Obj(vec![
        DocEntry {
            key: b"user".to_vec(),
            value: DocNode::Obj(vec![
                DocEntry { key: b"email".to_vec(), value: DocNode::Str(b"bob@corp.io".to_vec()) },
                DocEntry { key: b"age".to_vec(), value: DocNode::Int(42) },
            ]),
        },
        DocEntry {
            key: b"ids".to_vec(),
            value: DocNode::Arr(vec![
                DocNode::Str(b"123-45-6789".to_vec()),
                DocNode::Bool(true),
                DocNode::Null,
            ]),
        },
    ])
}

fn full_detector() -> Detector {
    Detector::compile(build(&Options::new()).unwrap())
}

#[test]
fn document_detections_carry_paths() {
    let det = full_detector();
    let doc = sample_doc();
    let found = detect_document(&det, &doc);
    assert_eq!(found.len(), 2);
    assert_eq!(found[0].path, b"user.email".to_vec());
    assert_eq!(found[0].det.category, Category::Email);
    assert_eq!((found[0].det.start, found[0].det.end), (0, 11));
    assert_eq!(found[1].path, b"ids[0]".to_vec());
    assert_eq!(found[1].det.category, Category::Ssn);
    assert_eq!((found[1].det.start, found[1].det.end), (0, 11));
}

#[test]
fn document_masking_preserves_structure() {
    let det = full_detector();
    let doc = sample_doc();
    let masked = mask_document(&det, &doc);
    match masked {
        DocNode::Obj(entries) => {
            assert_eq!(entries.len(), 2);
            assert_eq!(entries[0].key, b"user".to_vec());
            match &entries[0].value {
                DocNode::Obj(user) => {
                    assert_eq!(user.len(), 2);
                    assert_eq!(user[0].key, b"email".to_vec());
                    match &user[0].value {
                        DocNode::Str(s) => assert_eq!(s, &b"[REDACTED]".to_vec()),
                        _ => panic!("email leaf changed kind"),
                    }
                    // a non-string scalar leaf is never scanned nor altered
                    match &user[1].value {
                        DocNode::Int(x) => assert_eq!(*x, 42),
                        _ => panic!("int leaf changed kind"),
                    }
                },
                _ => panic!("user node changed kind"),
            }
            assert_eq!(entries[1].key, b"ids".to_vec());
            match &entries[1].value {
                DocNode::Arr(items) => {
                    assert_eq!(items.len(), 3);
                    match &items[0] {
                        DocNode::Str(s) => assert_eq!(s, &b"[REDACTED]".to_vec()),
                        _ => panic!("ssn leaf changed kind"),
                    }
                    assert!(matches!(items[1], DocNode::Bool(true)));
                    assert!(matches!(items[2], DocNode::Null));
                },
                _ => panic!("ids node changed kind"),
            }
        },
        _ => panic!("root changed kind"),
    }
}

#[test]
fn wide_array_paths_use_decimal_indexes() {
    let det = full_detector();
    let mut items = Vec::new();
    for _ in 0..11 {
        items.push(DocNode::Null);
    }
    items.push(DocNode::Str(b"123-45-6789".to_vec()));
    let doc = DocNode::Arr(items);
    let found = detect_document(&det, &doc);
    assert_eq!(found.len(), 1);
    assert_eq!(found[0].path, b"[11]".to_vec());
}

#[test]
fn nested_array_paths_use_brackets() {
    let det = full_detector();
    let doc = DocNode::Arr(vec![
        DocNode::Arr(vec![DocNode::Str(b"x".to_vec()), DocNode::Str(b"a@b.io".to_vec())]),
    ]);
    let found = detect_document(&det, &doc);
    assert_eq!(found.len(), 1);
    assert_eq!(found[0].path, b"[0][1]".to_vec());
    assert_eq!(found[0].det.category, Category::Email);
}
