//! Configuration: validated, immutable options and the pattern registry.
//!
//! [`build`] checks a caller's [`Options`] once, aggregating every violation
//! it finds, and on success compiles the enabled subset of the registry into
//! an immutable [`Configuration`] whose per-rule strategy is already
//! resolved (override-or-default), so masking never re-derives it.

use vstd::prelude::*;

use crate::errors::ConfigIssue;
use crate::errors::PiiError;
use crate::patterns::builtin_rule;
use crate::patterns::copy_items;
use crate::patterns::rules_view;
use crate::patterns::spec_builtin_rules;
use crate::patterns::wf_rule;
use crate::patterns::Category;
use crate::patterns::MaskStrategy;
use crate::patterns::Matcher;
use crate::patterns::MatcherV;
use crate::patterns::PatItem;
use crate::patterns::PatternRule;
use crate::patterns::RuleV;
use crate::patterns::Validator;
use crate::patterns::BUILTIN_RULE_COUNT;
use crate::patterns::PRIORITY_CUSTOM;

verus! {

/// Most custom patterns a single configuration can carry: `Custom`
/// category identifiers are 32-bit.
pub const MAX_CUSTOM_PATTERNS: usize = 0xFFFF_FFFF;

/// Highest meaningful confidence value (hundredths).
pub const CONFIDENCE_SCALE: u32 = 100;

/// A caller-supplied pattern: a name, a fixed-length matching expression,
/// and the strategy its detections are masked with.
pub struct CustomPattern {
    pub name: Vec<u8>,
    pub items: Vec<PatItem>,
    pub strategy: MaskStrategy,
}

/// Mathematical view of a [`CustomPattern`].
pub struct CustomPatternV {
    pub name: Seq<u8>,
    pub items: Seq<PatItem>,
    pub strategy: MaskStrategy,
}

impl View for CustomPattern {
    type V = CustomPatternV;

    open spec fn view(&self) -> CustomPatternV {
        CustomPatternV { name: self.name@, items: self.items@, strategy: self.strategy }
    }
}

/// A per-category strategy override.
#[derive(Clone, Copy, PartialEq, Eq, Structural, Debug)]
pub struct StrategyOverride {
    pub category: Category,
    pub strategy: MaskStrategy,
}

/// The recognized options a configuration is built from.
pub struct Options {
    /// Categories the detector scans for.
    pub enabled: Vec<Category>,
    /// Per-category strategy overrides; may be partial.
    pub overrides: Vec<StrategyOverride>,
    /// Strategy for any enabled built-in category without an override.
    pub default_strategy: MaskStrategy,
    /// Detections below this confidence (in hundredths) are dropped.
    pub minimum_confidence: u32,
    /// Caller-supplied patterns; `Category::Custom(i)` names the `i`-th.
    pub custom_patterns: Vec<CustomPattern>,
    /// Salt of the `Hash` strategy's digest, fixed per configuration.
    pub hash_salt: Vec<u8>,
}

/// Mathematical view of [`Options`].
pub struct OptionsV {
    pub enabled: Seq<Category>,
    pub overrides: Seq<StrategyOverride>,
    pub default_strategy: MaskStrategy,
    pub minimum_confidence: u32,
    pub custom_patterns: Seq<CustomPatternV>,
    pub hash_salt: Seq<u8>,
}

impl View for Options {
    type V = OptionsV;

    open spec fn view(&self) -> OptionsV {
        OptionsV {
            enabled: self.enabled@,
            overrides: self.overrides@,
            default_strategy: self.default_strategy,
            minimum_confidence: self.minimum_confidence,
            custom_patterns: Seq::new(
                self.custom_patterns@.len(),
                |i: int| self.custom_patterns@[i]@,
            ),
            hash_salt: self.hash_salt@,
        }
    }
}

impl Options {
    /// Fresh options: every built-in category enabled, everything redacted,
    /// no confidence floor, no custom patterns, empty salt.
    pub fn new() -> (r: Options)
        ensures
            r@.enabled == seq![
                Category::Ssn,
                Category::CreditCard,
                Category::Email,
                Category::Phone,
                Category::IpAddress,
            ],
            r@.overrides.len() == 0,
            r@.default_strategy == MaskStrategy::Redact,
            r@.minimum_confidence == 0,
            r@.custom_patterns.len() == 0,
            r@.hash_salt.len() == 0,
    {
        let mut enabled: Vec<Category> = Vec::new();
        enabled.push(Category::Ssn);
        enabled.push(Category::CreditCard);
        enabled.push(Category::Email);
        enabled.push(Category::Phone);
        enabled.push(Category::IpAddress);
        proof {
            assert(enabled@ =~= seq![
                Category::Ssn,
                Category::CreditCard,
                Category::Email,
                Category::Phone,
                Category::IpAddress,
            ]);
        }
        Options {
            enabled,
            overrides: Vec::new(),
            default_strategy: MaskStrategy::Redact,
            minimum_confidence: 0,
            custom_patterns: Vec::new(),
            hash_salt: Vec::new(),
        }
    }
}

/// Whether `cat` exists in the built-in registry or among `ncustom`
/// caller-supplied patterns.
pub open spec fn cat_known(cat: Category, ncustom: int) -> bool {
    match cat {
        Category::Custom(i) => (i as int) < ncustom,
        _ => true,
    }
}

/// A custom expression is unusable when it has no items or an item that
/// demands zero bytes.
pub open spec fn bad_items(items: Seq<PatItem>) -> bool {
    items.len() == 0 || exists|k: int| 0 <= k < items.len() && (#[trigger] items[k]).count == 0
}

pub open spec fn issue_for_custom(o: OptionsV, i: int) -> Seq<ConfigIssue> {
    (if o.custom_patterns[i].name.len() == 0 {
        seq![ConfigIssue::EmptyCustomName(i as usize)]
    } else {
        Seq::empty()
    }) + (if bad_items(o.custom_patterns[i].items) {
        seq![ConfigIssue::EmptyCustomPattern(i as usize)]
    } else {
        Seq::empty()
    })
}

pub open spec fn custom_issues_to(o: OptionsV, n: int) -> Seq<ConfigIssue>
    decreases n,
{
    if n <= 0 {
        Seq::empty()
    } else {
        custom_issues_to(o, n - 1) + issue_for_custom(o, n - 1)
    }
}

pub open spec fn enabled_issues_to(o: OptionsV, n: int) -> Seq<ConfigIssue>
    decreases n,
{
    if n <= 0 {
        Seq::empty()
    } else {
        enabled_issues_to(o, n - 1) + (if cat_known(o.enabled[n - 1], o.custom_patterns.len() as int) {
            Seq::empty()
        } else {
            seq![ConfigIssue::UnknownEnabledCategory(o.enabled[n - 1])]
        })
    }
}

pub open spec fn override_issues_to(o: OptionsV, n: int) -> Seq<ConfigIssue>
    decreases n,
{
    if n <= 0 {
        Seq::empty()
    } else {
        override_issues_to(o, n - 1) + (if cat_known(
            o.overrides[n - 1].category,
            o.custom_patterns.len() as int,
        ) {
            Seq::empty()
        } else {
            seq![ConfigIssue::UnknownOverrideCategory(o.overrides[n - 1].category)]
        })
    }
}

/// Every violation in `o`, in a fixed reporting order.
pub open spec fn spec_issues(o: OptionsV) -> Seq<ConfigIssue> {
    (if o.minimum_confidence > CONFIDENCE_SCALE {
        seq![ConfigIssue::ConfidenceOutOfRange]
    } else {
        Seq::empty()
    }) + (if o.custom_patterns.len() > MAX_CUSTOM_PATTERNS {
        seq![ConfigIssue::TooManyCustomPatterns]
    } else {
        Seq::empty()
    }) + custom_issues_to(o, o.custom_patterns.len() as int) + enabled_issues_to(
        o,
        o.enabled.len() as int,
    ) + override_issues_to(o, o.overrides.len() as int)
}

fn cat_known_exec(cat: Category, ncustom: usize) -> (r: bool)
    ensures
        r == cat_known(cat, ncustom as int),
{
    match cat {
        Category::Custom(i) => (i as usize) < ncustom,
        _ => true,
    }
}

fn bad_items_exec(items: &Vec<PatItem>) -> (r: bool)
    ensures
        r == bad_items(items@),
{
    if items.len() == 0 {
        return true;
    }
    let mut k: usize = 0;
    while k < items.len()
        invariant
            k <= items@.len(),
            forall|q: int| 0 <= q < k ==> (#[trigger] items@[q]).count != 0,
        decreases items@.len() - k,
    {
        if items[k].count == 0 {
            return true;
        }
        k = k + 1;
    }
    false
}

/// Collects every violation in `opts`.
fn collect_issues(opts: &Options) -> (v: Vec<ConfigIssue>)
    ensures
        v@ == spec_issues(opts@),
{
    let ghost o = opts@;
    let mut v: Vec<ConfigIssue> = Vec::new();
    if opts.minimum_confidence > CONFIDENCE_SCALE {
        v.push(ConfigIssue::ConfidenceOutOfRange);
    }
    if opts.custom_patterns.len() > MAX_CUSTOM_PATTERNS {
        v.push(ConfigIssue::TooManyCustomPatterns);
    }
    let ghost head = (if o.minimum_confidence > CONFIDENCE_SCALE {
        seq![ConfigIssue::ConfidenceOutOfRange]
    } else {
        Seq::<ConfigIssue>::empty()
    }) + (if o.custom_patterns.len() > MAX_CUSTOM_PATTERNS {
        seq![ConfigIssue::TooManyCustomPatterns]
    } else {
        Seq::<ConfigIssue>::empty()
    });
    proof {
        assert(v@ =~= head);
    }
    let mut k: usize = 0;
    while k < opts.custom_patterns.len()
        invariant
            k <= o.custom_patterns.len(),
            opts@ == o,
            v@ == head + custom_issues_to(o, k as int),
        decreases opts.custom_patterns@.len() - k,
    {
        let cp = &opts.custom_patterns[k];
        assert(o.custom_patterns[k as int] == cp@);
        if cp.name.len() == 0 {
            v.push(ConfigIssue::EmptyCustomName(k));
        }
        if bad_items_exec(&cp.items) {
            v.push(ConfigIssue::EmptyCustomPattern(k));
        }
        proof {
            assert(v@ =~= head + custom_issues_to(o, k + 1));
        }
        k = k + 1;
    }
    let ghost head2 = head + custom_issues_to(o, o.custom_patterns.len() as int);
    let mut k: usize = 0;
    while k < opts.enabled.len()
        invariant
            k <= o.enabled.len(),
            opts@ == o,
            v@ == head2 + enabled_issues_to(o, k as int),
        decreases opts.enabled@.len() - k,
    {
        let cat = opts.enabled[k];
        if !cat_known_exec(cat, opts.custom_patterns.len()) {
            v.push(ConfigIssue::UnknownEnabledCategory(cat));
        }
        proof {
            assert(v@ =~= head2 + enabled_issues_to(o, k + 1));
        }
        k = k + 1;
    }
    let ghost head3 = head2 + enabled_issues_to(o, o.enabled.len() as int);
    let mut k: usize = 0;
    while k < opts.overrides.len()
        invariant
            k <= o.overrides.len(),
            opts@ == o,
            v@ == head3 + override_issues_to(o, k as int),
        decreases opts.overrides@.len() - k,
    {
        let cat = opts.overrides[k].category;
        if !cat_known_exec(cat, opts.custom_patterns.len()) {
            v.push(ConfigIssue::UnknownOverrideCategory(cat));
        }
        proof {
            assert(v@ =~= head3 + override_issues_to(o, k + 1));
        }
        k = k + 1;
    }
    proof {
        assert(v@ =~= spec_issues(o));
    }
    v
}

/// First index at or after `k` whose override names `cat`, else `-1`.
pub open spec fn find_override_from(ovr: Seq<StrategyOverride>, cat: Category, k: int) -> int
    decreases ovr.len() - k,
{
    if k < 0 || k >= ovr.len() {
        -1
    } else if ovr[k].category == cat {
        k
    } else {
        find_override_from(ovr, cat, k + 1)
    }
}

/// First index at or after `k` whose rule has category `cat`, else `-1`.
pub open spec fn find_rule_from(rules: Seq<RuleV>, cat: Category, k: int) -> int
    decreases rules.len() - k,
{
    if k < 0 || k >= rules.len() {
        -1
    } else if rules[k].category == cat {
        k
    } else {
        find_rule_from(rules, cat, k + 1)
    }
}

/// Whether some rule carries category `cat`.
pub open spec fn has_cat(rules: Seq<RuleV>, cat: Category) -> bool {
    exists|k: int| 0 <= k < rules.len() && (#[trigger] rules[k]).category == cat
}

pub proof fn lemma_find_rule_from(rules: Seq<RuleV>, cat: Category, k: int)
    requires
        0 <= k <= rules.len(),
    ensures
        find_rule_from(rules, cat, k) == -1 ==> forall|q: int|
            k <= q < rules.len() ==> (#[trigger] rules[q]).category != cat,
        find_rule_from(rules, cat, k) >= 0 ==> k <= find_rule_from(rules, cat, k) < rules.len()
            && rules[find_rule_from(rules, cat, k)].category == cat,
    decreases rules.len() - k,
{
    if k < rules.len() && rules[k].category != cat {
        lemma_find_rule_from(rules, cat, k + 1);
    }
}

/// Executable first-match search over a rule list.
pub fn find_rule(rules: &Vec<PatternRule>, cat: Category) -> (r: Option<usize>)
    ensures
        r matches Some(f) ==> find_rule_from(rules_view(rules@), cat, 0) == f as int
            && f < rules@.len(),
        r is None ==> find_rule_from(rules_view(rules@), cat, 0) == -1,
{
    let ghost rv = rules_view(rules@);
    let mut k: usize = 0;
    while k < rules.len()
        invariant
            k <= rules@.len(),
            rv == rules_view(rules@),
            find_rule_from(rv, cat, 0) == find_rule_from(rv, cat, k as int),
        decreases rules@.len() - k,
    {
        if rules[k].category == cat {
            assert(rv[k as int].category == cat);
            return Some(k);
        }
        assert(rv[k as int].category != cat);
        k = k + 1;
    }
    None
}

fn find_override(ovr: &Vec<StrategyOverride>, cat: Category) -> (r: Option<usize>)
    ensures
        r matches Some(f) ==> find_override_from(ovr@, cat, 0) == f as int && f < ovr@.len(),
        r is None ==> find_override_from(ovr@, cat, 0) == -1,
{
    let mut k: usize = 0;
    while k < ovr.len()
        invariant
            k <= ovr@.len(),
            find_override_from(ovr@, cat, 0) == find_override_from(ovr@, cat, k as int),
        decreases ovr@.len() - k,
    {
        if ovr[k].category == cat {
            return Some(k);
        }
        k = k + 1;
    }
    None
}

/// Whether `cat` occurs in the enabled list.
pub open spec fn enabled_contains(en: Seq<Category>, cat: Category) -> bool {
    exists|q: int| 0 <= q < en.len() && en[q] == cat
}

fn contains_cat(en: &Vec<Category>, cat: Category) -> (r: bool)
    ensures
        r == enabled_contains(en@, cat),
{
    let mut k: usize = 0;
    while k < en.len()
        invariant
            k <= en@.len(),
            forall|q: int| 0 <= q < k ==> en@[q] != cat,
        decreases en@.len() - k,
    {
        if en[k] == cat {
            return true;
        }
        k = k + 1;
    }
    false
}

/// The strategy a rule's detections are masked with: the category's override
/// when one exists; else, for a custom rule, the strategy its pattern names;
/// else the configuration default.
pub open spec fn resolve_strategy(o: OptionsV, cat: Category, rule_strategy: MaskStrategy)
    -> MaskStrategy {
    let f = find_override_from(o.overrides, cat, 0);
    if f >= 0 {
        o.overrides[f].strategy
    } else {
        match cat {
            Category::Custom(_) => rule_strategy,
            _ => o.default_strategy,
        }
    }
}

fn resolve_strategy_exec(opts: &Options, cat: Category, rule_strategy: MaskStrategy)
    -> (s: MaskStrategy)
    ensures
        s == resolve_strategy(opts@, cat, rule_strategy),
{
    match find_override(&opts.overrides, cat) {
        Some(f) => opts.overrides[f].strategy,
        None => match cat {
            Category::Custom(_) => rule_strategy,
            _ => opts.default_strategy,
        },
    }
}

/// The view of the `i`-th custom rule of `o` as registered in the session
/// overlay.
pub open spec fn custom_rule_v(o: OptionsV, i: int) -> RuleV {
    RuleV {
        category: Category::Custom(i as u32),
        matcher: MatcherV::Custom(o.custom_patterns[i].items),
        validator: Validator::Pass,
        priority: PRIORITY_CUSTOM,
        strategy: o.custom_patterns[i].strategy,
    }
}

/// The session registry: built-in rules overlaid with the custom rules.
pub open spec fn full_registry(o: OptionsV) -> Seq<RuleV> {
    spec_builtin_rules() + Seq::new(o.custom_patterns.len(), |i: int| custom_rule_v(o, i))
}

/// The enabled rules of the first `n` registry entries, strategies resolved.
pub open spec fn compile_to(reg: Seq<RuleV>, o: OptionsV, n: int) -> Seq<RuleV>
    decreases n,
{
    if n <= 0 {
        Seq::empty()
    } else {
        let pre = compile_to(reg, o, n - 1);
        let r = reg[n - 1];
        if enabled_contains(o.enabled, r.category) {
            pre.push(
                RuleV {
                    category: r.category,
                    matcher: r.matcher,
                    validator: r.validator,
                    priority: r.priority,
                    strategy: resolve_strategy(o, r.category, r.strategy),
                },
            )
        } else {
            pre
        }
    }
}

/// The compiled rule list of a configuration built from `o`.
pub open spec fn spec_compile(o: OptionsV) -> Seq<RuleV> {
    compile_to(full_registry(o), o, full_registry(o).len() as int)
}

/// A validated, immutable configuration.  `rules` holds exactly the enabled
/// rules, in registry order, each with its effective strategy resolved.
#[derive(Debug)]
pub struct Configuration {
    pub rules: Vec<PatternRule>,
    pub default_strategy: MaskStrategy,
    pub minimum_confidence: u32,
    pub salt: Vec<u8>,
}

/// Mathematical view of a [`Configuration`].
pub struct ConfigV {
    pub rules: Seq<RuleV>,
    pub default_strategy: MaskStrategy,
    pub minimum_confidence: u32,
    pub salt: Seq<u8>,
}

impl View for Configuration {
    type V = ConfigV;

    open spec fn view(&self) -> ConfigV {
        ConfigV {
            rules: rules_view(self.rules@),
            default_strategy: self.default_strategy,
            minimum_confidence: self.minimum_confidence,
            salt: self.salt@,
        }
    }
}

/// Every rule of the configuration is well-formed.
pub open spec fn wf_config(c: ConfigV) -> bool {
    forall|k: int| 0 <= k < c.rules.len() ==> wf_rule(#[trigger] c.rules[k])
}

/// The configuration `build` yields from valid options `o`.
pub open spec fn spec_config_of(o: OptionsV) -> ConfigV {
    ConfigV {
        rules: spec_compile(o),
        default_strategy: o.default_strategy,
        minimum_confidence: o.minimum_confidence,
        salt: o.hash_salt,
    }
}

impl Configuration {
    /// The strategy applied to detections of `cat`: the compiled rule's
    /// resolved strategy, or the default for a category without a rule.
    /// Total over all categories, hence over every enabled one.
    pub fn effective_strategy(&self, cat: Category) -> (s: MaskStrategy)
        ensures
            s == spec_effective_strategy(self@, cat),
    {
        match find_rule(&self.rules, cat) {
            Some(f) => self.rules[f].strategy,
            None => self.default_strategy,
        }
    }
}

/// Resolved strategy lookup over a compiled configuration.
pub open spec fn spec_effective_strategy(c: ConfigV, cat: Category) -> MaskStrategy {
    let f = find_rule_from(c.rules, cat, 0);
    if f >= 0 {
        c.rules[f].strategy
    } else {
        c.default_strategy
    }
}

/// With no custom-pattern issues, every custom pattern has a name and a
/// usable expression.
proof fn lemma_customs_ok(o: OptionsV, n: int)
    requires
        0 <= n <= o.custom_patterns.len(),
        custom_issues_to(o, n).len() == 0,
    ensures
        forall|i: int| 0 <= i < n ==> (#[trigger] o.custom_patterns[i]).name.len() > 0
            && !bad_items(o.custom_patterns[i].items),
    decreases n,
{
    if n > 0 {
        lemma_customs_ok(o, n - 1);
    }
}

/// Compiling well-formed registry entries yields well-formed rules.
proof fn lemma_compile_wf(reg: Seq<RuleV>, o: OptionsV, n: int)
    requires
        0 <= n <= reg.len(),
        forall|k: int| 0 <= k < n ==> wf_rule(#[trigger] reg[k]),
    ensures
        forall|q: int| 0 <= q < compile_to(reg, o, n).len()
            ==> wf_rule(#[trigger] compile_to(reg, o, n)[q]),
    decreases n,
{
    if n > 0 {
        lemma_compile_wf(reg, o, n - 1);
        let pre = compile_to(reg, o, n - 1);
        let r = reg[n - 1];
        if enabled_contains(o.enabled, r.category) {
            let pushed = RuleV {
                category: r.category,
                matcher: r.matcher,
                validator: r.validator,
                priority: r.priority,
                strategy: resolve_strategy(o, r.category, r.strategy),
            };
            assert(wf_rule(pushed));
            assert forall|q: int| 0 <= q < compile_to(reg, o, n).len() implies wf_rule(
                compile_to(reg, o, n)[q],
            ) by {
                if q < pre.len() {
                    assert(compile_to(reg, o, n)[q] == pre[q]);
                } else {
                    assert(compile_to(reg, o, n)[q] == pushed);
                }
            }
        }
    }
}

/// Validates `opts` and compiles the enabled rules.
///
/// Fails with the aggregated list of every violation found; on success the
/// configuration is immutable, its rules all well-formed, each carrying its
/// resolved strategy.
pub fn build(opts: &Options) -> (r: Result<Configuration, Vec<ConfigIssue>>)
    ensures
        spec_issues(opts@).len() == 0 ==> (r matches Ok(c) && c@ == spec_config_of(opts@)
            && wf_config(c@)),
        spec_issues(opts@).len() > 0 ==> (r matches Err(e) && e@ == spec_issues(opts@)),
{
    let issues = collect_issues(opts);
    if issues.len() > 0 {
        return Err(issues);
    }
    let ghost o = opts@;
    let ghost reg = full_registry(o);
    proof {
        assert(o.custom_patterns.len() <= MAX_CUSTOM_PATTERNS);
        lemma_customs_ok(o, o.custom_patterns.len() as int);
    }
    let mut rules: Vec<PatternRule> = Vec::new();
    let mut k: usize = 0;
    while k < BUILTIN_RULE_COUNT
        invariant
            k <= BUILTIN_RULE_COUNT,
            opts@ == o,
            reg == full_registry(o),
            rules_view(rules@) == compile_to(reg, o, k as int),
        decreases BUILTIN_RULE_COUNT - k,
    {
        let r = builtin_rule(k);
        proof {
            assert(reg[k as int] == spec_builtin_rules()[k as int]);
        }
        if contains_cat(&opts.enabled, r.category) {
            let s = resolve_strategy_exec(opts, r.category, r.strategy);
            let compiled = PatternRule {
                category: r.category,
                matcher: r.matcher,
                validator: r.validator,
                priority: r.priority,
                strategy: s,
            };
            rules.push(compiled);
            proof {
                assert(rules_view(rules@) =~= compile_to(reg, o, k + 1));
            }
        } else {
            proof {
                assert(rules_view(rules@) =~= compile_to(reg, o, k + 1));
            }
        }
        k = k + 1;
    }
    let mut i: usize = 0;
    while i < opts.custom_patterns.len()
        invariant
            i <= o.custom_patterns.len(),
            o.custom_patterns.len() <= MAX_CUSTOM_PATTERNS,
            opts@ == o,
            reg == full_registry(o),
            rules_view(rules@) == compile_to(reg, o, BUILTIN_RULE_COUNT + i),
        decreases opts.custom_patterns@.len() - i,
    {
        let cp = &opts.custom_patterns[i];
        let cat = Category::Custom(i as u32);
        proof {
            assert(reg[BUILTIN_RULE_COUNT + i] == custom_rule_v(o, i as int));
            assert(custom_rule_v(o, i as int).category == cat);
        }
        if contains_cat(&opts.enabled, cat) {
            let s = resolve_strategy_exec(opts, cat, cp.strategy);
            let compiled = PatternRule {
                category: cat,
                matcher: Matcher::Custom(copy_items(&cp.items)),
                validator: Validator::Pass,
                priority: PRIORITY_CUSTOM,
                strategy: s,
            };
            rules.push(compiled);
            proof {
                assert(rules_view(rules@) =~= compile_to(reg, o, BUILTIN_RULE_COUNT + i + 1));
            }
        } else {
            proof {
                assert(rules_view(rules@) =~= compile_to(reg, o, BUILTIN_RULE_COUNT + i + 1));
            }
        }
        i = i + 1;
    }
    let cfg = Configuration {
        rules,
        default_strategy: opts.default_strategy,
        minimum_confidence: opts.minimum_confidence,
        salt: crate::chars::copy_bytes(&opts.hash_salt),
    };
    proof {
        assert(reg.len() == BUILTIN_RULE_COUNT + o.custom_patterns.len());
        assert(cfg@.rules == spec_compile(o));
        assert(cfg@ == spec_config_of(o));
        assert forall|q: int| 0 <= q < reg.len() implies wf_rule(#[trigger] reg[q]) by {
            if q < BUILTIN_RULE_COUNT as int {
                assert(reg[q] == spec_builtin_rules()[q]);
                if q == 0 || q == 1 || q == 2 || q == 3 || q == 4 {
                    assert(wf_rule(reg[q]));
                }
            } else {
                assert(reg[q] == custom_rule_v(o, q - BUILTIN_RULE_COUNT));
                assert(!bad_items(o.custom_patterns[q - BUILTIN_RULE_COUNT].items));
            }
        }
        lemma_compile_wf(reg, o, reg.len() as int);
    }
    Ok(cfg)
}

/// The pattern registry: a set of rules with pairwise distinct categories
/// can be grown one rule at a time.  The built-in set is never mutated by a
/// configuration: custom rules live in a per-session overlay (the compiled
/// rule list of their [`Configuration`]).
pub struct Registry {
    pub rules: Vec<PatternRule>,
}

impl View for Registry {
    type V = Seq<RuleV>;

    open spec fn view(&self) -> Seq<RuleV> {
        rules_view(self.rules@)
    }
}

impl Registry {
    /// The built-in rules, strongest first.
    pub fn builtin() -> (r: Registry)
        ensures
            r@ == spec_builtin_rules(),
    {
        let mut rules: Vec<PatternRule> = Vec::new();
        let mut k: usize = 0;
        while k < BUILTIN_RULE_COUNT
            invariant
                k <= BUILTIN_RULE_COUNT,
                rules_view(rules@) == spec_builtin_rules().take(k as int),
            decreases BUILTIN_RULE_COUNT - k,
        {
            rules.push(builtin_rule(k));
            proof {
                assert(rules_view(rules@) =~= spec_builtin_rules().take(k + 1));
            }
            k = k + 1;
        }
        proof {
            assert(spec_builtin_rules().take(BUILTIN_RULE_COUNT as int) =~= spec_builtin_rules());
        }
        Registry { rules }
    }

    /// Adds a rule; a category can be registered only once.
    pub fn register(&mut self, rule: PatternRule) -> (res: Result<(), PiiError>)
        ensures
            has_cat(old(self)@, rule.category) ==> (res matches Err(e)
                && e == PiiError::DuplicateCategory(rule.category) && final(self)@ == old(self)@),
            !has_cat(old(self)@, rule.category) ==> res is Ok
                && final(self)@ == old(self)@.push(rule@),
    {
        let ghost cat = rule.category;
        match find_rule(&self.rules, rule.category) {
            Some(f) => {
                proof {
                    lemma_find_rule_from(self@, cat, 0);
                    assert(self@[find_rule_from(self@, cat, 0)].category == cat);
                }
                Err(PiiError::DuplicateCategory(rule.category))
            },
            None => {
                proof {
                    lemma_find_rule_from(self@, cat, 0);
                }
                let ghost pre = self@;
                self.rules.push(rule);
                proof {
                    assert(rules_view(self.rules@) =~= pre.push(rule@));
                }
                Ok(())
            },
        }
    }

    /// Looks a category's rule up.
    pub fn get(&self, cat: Category) -> (res: Result<&PatternRule, PiiError>)
        ensures
            has_cat(self@, cat) ==> (res matches Ok(r)
                && r@ == self@[find_rule_from(self@, cat, 0)]),
            !has_cat(self@, cat) ==> (res matches Err(e) && e == PiiError::UnknownCategory(cat)),
    {
        match find_rule(&self.rules, cat) {
            Some(f) => {
                proof {
                    lemma_find_rule_from(self@, cat, 0);
                    assert(self@[f as int].category == cat);
                }
                Ok(&self.rules[f])
            },
            None => {
                proof {
                    lemma_find_rule_from(self@, cat, 0);
                }
                Err(PiiError::UnknownCategory(cat))
            },
        }
    }
}

} // verus!
