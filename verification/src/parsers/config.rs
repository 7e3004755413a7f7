//! The rule configuration model: the typed rule catalog, per-environment
//! overrides, and the load-time merge with the built-in defaults.
use vstd::prelude::*;
use crate::parsers::value::{assoc, assoc_get, keyed_views, lookup, str_eq, Decimal, Value, ValueView};

verus! {

/// The closed catalog of checks; each member names exactly one check.
#[allow(non_camel_case_types)]
#[derive(Clone, Copy, Debug, PartialEq, Eq, Structural)]
pub enum RuleType {
    LAMBDA_001,
    LAMBDA_002,
    LAMBDA_003,
    LAMBDA_004,
    LAMBDA_005,
    LAMBDA_006,
    LAMBDA_007,
    CW_001,
    CW_002,
    CW_003,
}

/// A numeric rule threshold: a whole number or an exact decimal.
#[derive(Clone, Copy, Debug, PartialEq, Eq, Structural)]
pub enum ThresholdValue {
    Int(u64),
    Float(Decimal),
}

/// A rule's configuration payload; each rule's kind is fixed by convention,
/// and a payload of the wrong shape reads as "absent".
pub enum RuleTypeConfigDetail {
    Value { value: String },
    Values { values: Vec<String> },
    Threshold { threshold: ThresholdValue },
    Simple,
}

/// The mathematical shape of a `RuleTypeConfigDetail`.
#[verifier::ext_equal]
pub enum RuleTypeConfigDetailView {
    Value { value: Seq<char> },
    Values { values: Seq<Seq<char>> },
    Threshold { threshold: ThresholdValue },
    Simple,
}

impl DeepView for RuleTypeConfigDetail {
    type V = RuleTypeConfigDetailView;

    open spec fn deep_view(&self) -> RuleTypeConfigDetailView {
        match self {
            RuleTypeConfigDetail::Value { value } => RuleTypeConfigDetailView::Value {
                value: value@,
            },
            RuleTypeConfigDetail::Values { values } => RuleTypeConfigDetailView::Values {
                values: Seq::new(values@.len(), |i: int| values@[i]@),
            },
            RuleTypeConfigDetail::Threshold { threshold } => RuleTypeConfigDetailView::Threshold {
                threshold: *threshold,
            },
            RuleTypeConfigDetail::Simple => RuleTypeConfigDetailView::Simple,
        }
    }
}

impl Clone for RuleTypeConfigDetail {
    /// A clone denotes the same payload.
    fn clone(&self) -> (r: Self)
        ensures
            r.deep_view() == self.deep_view(),
    {
        match self {
            RuleTypeConfigDetail::Value { value } => RuleTypeConfigDetail::Value {
                value: value.clone(),
            },
            RuleTypeConfigDetail::Values { values } => {
                let mut out: Vec<String> = Vec::new();
                let mut i: usize = 0;
                while i < values.len()
                    invariant
                        i <= values.len(),
                        out@.len() == i,
                        forall|j: int| 0 <= j < i ==> out@[j]@ == values@[j]@,
                    decreases values.len() - i,
                {
                    out.push(values[i].clone());
                    i = i + 1;
                }
                let r = RuleTypeConfigDetail::Values { values: out };
                proof {
                    assert(Seq::new(out@.len(), |i: int| out@[i]@) =~= Seq::new(
                        values@.len(),
                        |i: int| values@[i]@,
                    ));
                }
                r
            },
            RuleTypeConfigDetail::Threshold { threshold } => RuleTypeConfigDetail::Threshold {
                threshold: *threshold,
            },
            RuleTypeConfigDetail::Simple => RuleTypeConfigDetail::Simple,
        }
    }
}

impl RuleTypeConfigDetail {
    /// The target string, when this payload carries one.
    pub fn get_value(&self) -> (r: Option<&String>)
        ensures
            match r {
                Some(s) => self.deep_view() == (RuleTypeConfigDetailView::Value { value: s@ }),
                None => !(self.deep_view() is Value),
            },
    {
        if let RuleTypeConfigDetail::Value { value } = self {
            Some(value)
        } else {
            None
        }
    }

    /// The target string list, when this payload carries one.
    pub fn get_values(&self) -> (r: Option<&Vec<String>>)
        ensures
            match r {
                Some(vs) => self.deep_view() == (RuleTypeConfigDetailView::Values {
                    values: Seq::new(vs@.len(), |i: int| vs@[i]@),
                }),
                None => !(self.deep_view() is Values),
            },
    {
        if let RuleTypeConfigDetail::Values { values } = self {
            Some(values)
        } else {
            None
        }
    }

    /// The whole-number threshold, when this payload carries one.
    pub fn get_threshold_int(&self) -> (r: Option<u64>)
        ensures
            match r {
                Some(t) => self.deep_view() == (RuleTypeConfigDetailView::Threshold {
                    threshold: ThresholdValue::Int(t),
                }),
                None => !(self.deep_view() matches RuleTypeConfigDetailView::Threshold {
                    threshold: ThresholdValue::Int(_),
                }),
            },
    {
        if let RuleTypeConfigDetail::Threshold { threshold: ThresholdValue::Int(value) } = self {
            return Some(*value);
        }
        None
    }

    /// The decimal threshold, when this payload carries one.
    pub fn get_threshold_float(&self) -> (r: Option<Decimal>)
        ensures
            match r {
                Some(t) => self.deep_view() == (RuleTypeConfigDetailView::Threshold {
                    threshold: ThresholdValue::Float(t),
                }),
                None => !(self.deep_view() matches RuleTypeConfigDetailView::Threshold {
                    threshold: ThresholdValue::Float(_),
                }),
            },
    {
        if let RuleTypeConfigDetail::Threshold { threshold: ThresholdValue::Float(value) } = self {
            return Some(*value);
        }
        None
    }
}

/// One rule's setting: whether it runs, and its payload.
pub struct RuleTypeConfig {
    pub enabled: bool,
    pub config_detail: RuleTypeConfigDetail,
}

/// The mathematical shape of a `RuleTypeConfig`.
#[verifier::ext_equal]
pub struct RuleTypeConfigView {
    pub enabled: bool,
    pub config_detail: RuleTypeConfigDetailView,
}

impl DeepView for RuleTypeConfig {
    type V = RuleTypeConfigView;

    open spec fn deep_view(&self) -> RuleTypeConfigView {
        RuleTypeConfigView {
            enabled: self.enabled,
            config_detail: self.config_detail.deep_view(),
        }
    }
}

impl Clone for RuleTypeConfig {
    /// A clone denotes the same setting.
    fn clone(&self) -> (r: Self)
        ensures
            r.deep_view() == self.deep_view(),
    {
        RuleTypeConfig { enabled: self.enabled, config_detail: self.config_detail.clone() }
    }
}

/// First-match lookup in a rule table, the mathematical reading of the rule
/// maps.
pub open spec fn lookup_rule<V>(m: Seq<(RuleType, V)>, k: RuleType) -> Option<V>
    decreases m.len(),
{
    if m.len() == 0 {
        None
    } else if m[0].0 == k {
        Some(m[0].1)
    } else {
        lookup_rule(m.drop_first(), k)
    }
}

pub proof fn lemma_lookup_rule_skip<V>(m: Seq<(RuleType, V)>, k: RuleType, i: int)
    requires
        0 <= i <= m.len(),
        forall|j: int| 0 <= j < i ==> m[j].0 != k,
    ensures
        lookup_rule(m, k) == lookup_rule(m.skip(i), k),
    decreases i,
{
    if i == 0 {
        assert(m.skip(0) =~= m);
    } else {
        lemma_lookup_rule_skip(m.drop_first(), k, i - 1);
        assert(m.drop_first().skip(i - 1) =~= m.skip(i));
    }
}

/// The views of a rule table.
pub open spec fn rules_view(m: Seq<(RuleType, RuleTypeConfig)>) -> Seq<
    (RuleType, RuleTypeConfigView),
> {
    Seq::new(m.len(), |i: int| (m[i].0, m[i].1.deep_view()))
}

/// First-match lookup in a rule vector.
pub fn rules_get<'a>(m: &'a Vec<(RuleType, RuleTypeConfig)>, k: RuleType) -> (r: Option<
    &'a RuleTypeConfig,
>)
    ensures
        match r {
            Some(c) => lookup_rule(rules_view(m@), k) == Some(c.deep_view()),
            None => lookup_rule(rules_view(m@), k) is None,
        },
{
    let mut i: usize = 0;
    while i < m.len()
        invariant
            i <= m.len(),
            forall|j: int| 0 <= j < i ==> m@[j].0 != k,
        decreases m.len() - i,
    {
        if m[i].0 == k {
            proof {
                lemma_lookup_rule_skip(rules_view(m@), k, i as int);
                assert(rules_view(m@).skip(i as int)[0] == rules_view(m@)[i as int]);
            }
            return Some(&m[i].1);
        }
        i = i + 1;
    }
    proof {
        lemma_lookup_rule_skip(rules_view(m@), k, m@.len() as int);
        assert(rules_view(m@).skip(m@.len() as int) =~= Seq::<
            (RuleType, RuleTypeConfigView),
        >::empty());
    }
    None
}

/// The rule catalog with its per-environment resolved views.
pub struct RuleConfig {
    pub rules: Vec<(RuleType, RuleTypeConfig)>,
    pub environments: Vec<(String, Option<Vec<(RuleType, RuleTypeConfig)>>)>,
}

/// The mathematical shape of a `RuleConfig`.
#[verifier::ext_equal]
pub struct RuleConfigView {
    pub rules: Seq<(RuleType, RuleTypeConfigView)>,
    pub environments: Seq<(Seq<char>, Option<Seq<(RuleType, RuleTypeConfigView)>>)>,
}

impl DeepView for RuleConfig {
    type V = RuleConfigView;

    open spec fn deep_view(&self) -> RuleConfigView {
        RuleConfigView {
            rules: rules_view(self.rules@),
            environments: keyed_views(
                self.environments@,
                |o: Option<Vec<(RuleType, RuleTypeConfig)>>|
                    match o {
                        Some(rs) => Some(rules_view(rs@)),
                        None => None,
                    },
            ),
        }
    }
}

impl RuleConfigView {
    /// One environment's setting for one rule, if the environment is declared
    /// and lists the rule.
    pub open spec fn spec_get_rule(self, rule: RuleType, environment: Seq<char>) -> Option<
        RuleTypeConfigView,
    > {
        match lookup(self.environments, environment) {
            Some(Some(rules)) => lookup_rule(rules, rule),
            _ => None,
        }
    }

    /// Whether a rule runs in an environment; off for any environment or rule
    /// the configuration does not list.
    pub open spec fn spec_enabled(self, rule: RuleType, environment: Seq<char>) -> bool {
        match self.spec_get_rule(rule, environment) {
            Some(c) => c.enabled,
            None => false,
        }
    }
}

impl RuleConfig {
    /// Whether a rule runs in an environment.
    pub fn enabled(&self, violation: RuleType, environment: &str) -> (r: bool)
        ensures
            r == self.deep_view().spec_enabled(violation, environment@),
    {
        proof {
            crate::parsers::value::lemma_assoc_keyed_views(
                self.environments@,
                |o: Option<Vec<(RuleType, RuleTypeConfig)>>|
                    match o {
                        Some(rs) => Some(rules_view(rs@)),
                        None => None,
                    },
                environment@,
            );
        }
        if let Some(env) = crate::parsers::value::assoc_get(&self.environments, environment) {
            if let Some(rules) = env {
                if let Some(rule) = rules_get(rules, violation) {
                    return rule.enabled;
                }
            }
        }
        false
    }

    /// One environment's setting for one rule, if there is one.
    pub fn get_rule<'a>(&'a self, rule: RuleType, environment: &str) -> (r: Option<
        &'a RuleTypeConfig,
    >)
        ensures
            match r {
                Some(c) => self.deep_view().spec_get_rule(rule, environment@) == Some(
                    c.deep_view(),
                ),
                None => self.deep_view().spec_get_rule(rule, environment@) is None,
            },
    {
        proof {
            crate::parsers::value::lemma_assoc_keyed_views(
                self.environments@,
                |o: Option<Vec<(RuleType, RuleTypeConfig)>>|
                    match o {
                        Some(rs) => Some(rules_view(rs@)),
                        None => None,
                    },
                environment@,
            );
        }
        if let Some(env) = crate::parsers::value::assoc_get(&self.environments, environment) {
            if let Some(rules) = env {
                return rules_get(rules, rule);
            }
        }
        None
    }
}

/// Unknown-environment safety: asking whether any rule runs in an environment
/// the configuration does not declare answers no, never an error.
pub proof fn lemma_unknown_environment_disabled(
    cfg: RuleConfigView,
    rule: RuleType,
    environment: Seq<char>,
)
    requires
        lookup(cfg.environments, environment) is None,
    ensures
        !cfg.spec_enabled(rule, environment),
{
}

} // verus!

verus! {

/// The built-in default setting of every rule.
pub open spec fn spec_default_rules() -> Seq<(RuleType, RuleTypeConfigView)> {
    seq![
        (
            RuleType::LAMBDA_001,
            RuleTypeConfigView { enabled: true, config_detail: RuleTypeConfigDetailView::Simple },
        ),
        (
            RuleType::LAMBDA_002,
            RuleTypeConfigView { enabled: false, config_detail: RuleTypeConfigDetailView::Simple },
        ),
        (
            RuleType::LAMBDA_003,
            RuleTypeConfigView {
                enabled: false,
                config_detail: RuleTypeConfigDetailView::Values { values: Seq::empty() },
            },
        ),
        (
            RuleType::LAMBDA_004,
            RuleTypeConfigView {
                enabled: true,
                config_detail: RuleTypeConfigDetailView::Threshold {
                    threshold: ThresholdValue::Int(0),
                },
            },
        ),
        (
            RuleType::LAMBDA_005,
            RuleTypeConfigView {
                enabled: false,
                config_detail: RuleTypeConfigDetailView::Value { value: "INFO"@ },
            },
        ),
        (
            RuleType::LAMBDA_006,
            RuleTypeConfigView { enabled: true, config_detail: RuleTypeConfigDetailView::Simple },
        ),
        (
            RuleType::LAMBDA_007,
            RuleTypeConfigView {
                enabled: false,
                config_detail: RuleTypeConfigDetailView::Threshold {
                    threshold: ThresholdValue::Float(
                        Decimal { neg: false, mant: 1, scale: 2 },
                    ),
                },
            },
        ),
        (
            RuleType::CW_001,
            RuleTypeConfigView {
                enabled: true,
                config_detail: RuleTypeConfigDetailView::Threshold {
                    threshold: ThresholdValue::Int(30),
                },
            },
        ),
        (
            RuleType::CW_002,
            RuleTypeConfigView { enabled: true, config_detail: RuleTypeConfigDetailView::Simple },
        ),
        (
            RuleType::CW_003,
            RuleTypeConfigView { enabled: false, config_detail: RuleTypeConfigDetailView::Simple },
        ),
    ]
}

/// The whole default configuration: the catalog above, and one implicit
/// `default` environment seeded from it.
pub open spec fn spec_default_rule_config() -> RuleConfigView {
    RuleConfigView {
        rules: spec_default_rules(),
        environments: seq![("default"@, Some(spec_default_rules()))],
    }
}

/// Duplicate a rule table.
fn clone_rules(rs: &Vec<(RuleType, RuleTypeConfig)>) -> (r: Vec<(RuleType, RuleTypeConfig)>)
    ensures
        rules_view(r@) == rules_view(rs@),
{
    let mut out: Vec<(RuleType, RuleTypeConfig)> = Vec::new();
    let mut i: usize = 0;
    while i < rs.len()
        invariant
            i <= rs.len(),
            out@.len() == i,
            forall|j: int|
                0 <= j < i ==> out@[j].0 == rs@[j].0 && out@[j].1.deep_view()
                    == rs@[j].1.deep_view(),
        decreases rs.len() - i,
    {
        out.push((rs[i].0, rs[i].1.clone()));
        i = i + 1;
    }
    proof {
        assert(rules_view(out@) =~= rules_view(rs@));
    }
    out
}

impl Default for RuleConfig {
    /// The built-in defaults, with the implicit `default` environment.
    fn default() -> (r: Self)
        ensures
            r.deep_view() == spec_default_rule_config(),
    {
        let mut rules: Vec<(RuleType, RuleTypeConfig)> = Vec::new();
        rules.push(
            (
                RuleType::LAMBDA_001,
                RuleTypeConfig { enabled: true, config_detail: RuleTypeConfigDetail::Simple },
            ),
        );
        rules.push(
            (
                RuleType::LAMBDA_002,
                RuleTypeConfig { enabled: false, config_detail: RuleTypeConfigDetail::Simple },
            ),
        );
        rules.push(
            (
                RuleType::LAMBDA_003,
                RuleTypeConfig {
                    enabled: false,
                    config_detail: RuleTypeConfigDetail::Values { values: Vec::new() },
                },
            ),
        );
        rules.push(
            (
                RuleType::LAMBDA_004,
                RuleTypeConfig {
                    enabled: true,
                    config_detail: RuleTypeConfigDetail::Threshold {
                        threshold: ThresholdValue::Int(0),
                    },
                },
            ),
        );
        rules.push(
            (
                RuleType::LAMBDA_005,
                RuleTypeConfig {
                    enabled: false,
                    config_detail: RuleTypeConfigDetail::Value {
                        value: String::from_str("INFO"),
                    },
                },
            ),
        );
        rules.push(
            (
                RuleType::LAMBDA_006,
                RuleTypeConfig { enabled: true, config_detail: RuleTypeConfigDetail::Simple },
            ),
        );
        rules.push(
            (
                RuleType::LAMBDA_007,
                RuleTypeConfig {
                    enabled: false,
                    config_detail: RuleTypeConfigDetail::Threshold {
                        threshold: ThresholdValue::Float(Decimal { neg: false, mant: 1, scale: 2 }),
                    },
                },
            ),
        );
        rules.push(
            (
                RuleType::CW_001,
                RuleTypeConfig {
                    enabled: true,
                    config_detail: RuleTypeConfigDetail::Threshold {
                        threshold: ThresholdValue::Int(30),
                    },
                },
            ),
        );
        rules.push(
            (
                RuleType::CW_002,
                RuleTypeConfig { enabled: true, config_detail: RuleTypeConfigDetail::Simple },
            ),
        );
        rules.push(
            (
                RuleType::CW_003,
                RuleTypeConfig { enabled: false, config_detail: RuleTypeConfigDetail::Simple },
            ),
        );
        let seeded = clone_rules(&rules);
        let mut environments: Vec<(String, Option<Vec<(RuleType, RuleTypeConfig)>>)> = Vec::new();
        environments.push((String::from_str("default"), Some(seeded)));
        let r = RuleConfig { rules, environments };
        proof {
            assert(rules_view(r.rules@) =~~= spec_default_rules());
            assert(r.deep_view().environments =~~= seq![("default"@, Some(spec_default_rules()))]);
            assert(r.deep_view() =~~= spec_default_rule_config());
        }
        r
    }
}

/// One rule's setting replaced inside one environment's table.
pub open spec fn spec_set_in_rules(
    rs: Seq<(RuleType, RuleTypeConfigView)>,
    rule: RuleType,
    enabled: bool,
    detail: Option<RuleTypeConfigDetailView>,
) -> Seq<(RuleType, RuleTypeConfigView)> {
    Seq::new(
        rs.len(),
        |i: int|
            (
                rs[i].0,
                if rs[i].0 == rule {
                    RuleTypeConfigView {
                        enabled,
                        config_detail: match detail {
                            Some(d) => d,
                            None => rs[i].1.config_detail,
                        },
                    }
                } else {
                    rs[i].1
                },
            ),
    )
}

/// `set_rule`, mathematically: only the named environment's table changes, and
/// in it only the named rule's setting.
pub open spec fn spec_set_rule(
    cfg: RuleConfigView,
    rule: RuleType,
    enabled: bool,
    environment: Seq<char>,
    detail: Option<RuleTypeConfigDetailView>,
) -> RuleConfigView {
    RuleConfigView {
        rules: cfg.rules,
        environments: Seq::new(
            cfg.environments.len(),
            |i: int|
                (
                    cfg.environments[i].0,
                    if cfg.environments[i].0 == environment {
                        match cfg.environments[i].1 {
                            Some(rs) => Some(spec_set_in_rules(rs, rule, enabled, detail)),
                            None => None,
                        }
                    } else {
                        cfg.environments[i].1
                    },
                ),
        ),
    }
}

impl RuleConfig {
    /// Turn one rule on or off for one environment, optionally replacing its
    /// payload; environments or rules the configuration does not list are left
    /// as they are.
    pub fn set_rule(
        &mut self,
        rule: RuleType,
        enabled: bool,
        environment: &str,
        config_detail: Option<&RuleTypeConfigDetail>,
    )
        ensures
            final(self).deep_view() == spec_set_rule(
                old(self).deep_view(),
                rule,
                enabled,
                environment@,
                match config_detail {
                    Some(d) => Some(d.deep_view()),
                    None => None,
                },
            ),
    {
        let ghost detail_view = match config_detail {
            Some(d) => Some(d.deep_view()),
            None => None,
        };
        let mut new_envs: Vec<(String, Option<Vec<(RuleType, RuleTypeConfig)>>)> = Vec::new();
        let mut i: usize = 0;
        while i < self.environments.len()
            invariant
                i <= self.environments.len(),
                new_envs@.len() == i,
                detail_view == (match config_detail {
                    Some(d) => Some(d.deep_view()),
                    None => None,
                }),
                forall|j: int|
                    0 <= j < i ==> new_envs@[j].0@ == self.environments@[j].0@ && (match (
                        new_envs@[j].1,
                        self.environments@[j].1,
                    ) {
                        (Some(nrs), Some(ors)) => rules_view(nrs@) == (
                        if self.environments@[j].0@ == environment@ {
                            spec_set_in_rules(rules_view(ors@), rule, enabled, detail_view)
                        } else {
                            rules_view(ors@)
                        }),
                        (None, None) => true,
                        _ => false,
                    }),
            decreases self.environments.len() - i,
        {
            let name = self.environments[i].0.clone();
            let matches_env = str_eq(name.as_str(), environment);
            let entry: Option<Vec<(RuleType, RuleTypeConfig)>> = match &self.environments[i].1 {
                Some(rs) => {
                    if matches_env {
                        let mut nrs: Vec<(RuleType, RuleTypeConfig)> = Vec::new();
                        let mut jj: usize = 0;
                        while jj < rs.len()
                            invariant
                                jj <= rs.len(),
                                nrs@.len() == jj,
                                detail_view == (match config_detail {
                                    Some(d) => Some(d.deep_view()),
                                    None => None,
                                }),
                                forall|q: int|
                                    0 <= q < jj ==> nrs@[q].0 == rs@[q].0 && nrs@[q].1.deep_view()
                                        == (if rs@[q].0 == rule {
                                        RuleTypeConfigView {
                                            enabled,
                                            config_detail: match detail_view {
                                                Some(d) => d,
                                                None => rs@[q].1.deep_view().config_detail,
                                            },
                                        }
                                    } else {
                                        rs@[q].1.deep_view()
                                    }),
                            decreases rs.len() - jj,
                        {
                            if rs[jj].0 == rule {
                                let nd = match config_detail {
                                    Some(d) => (*d).clone(),
                                    None => rs[jj].1.config_detail.clone(),
                                };
                                nrs.push((rs[jj].0, RuleTypeConfig { enabled, config_detail: nd }));
                            } else {
                                nrs.push((rs[jj].0, rs[jj].1.clone()));
                            }
                            jj = jj + 1;
                        }
                        proof {
                            assert(rules_view(nrs@) =~= spec_set_in_rules(
                                rules_view(rs@),
                                rule,
                                enabled,
                                detail_view,
                            ));
                        }
                        Some(nrs)
                    } else {
                        Some(clone_rules(rs))
                    }
                },
                None => None,
            };
            new_envs.push((name, entry));
            i = i + 1;
        }
        self.environments = new_envs;
        proof {
            assert(self.deep_view().environments =~= spec_set_rule(
                old(self).deep_view(),
                rule,
                enabled,
                environment@,
                detail_view,
            ).environments);
            assert(self.deep_view() =~= spec_set_rule(
                old(self).deep_view(),
                rule,
                enabled,
                environment@,
                detail_view,
            ));
        }
    }
}

} // verus!

verus! {

/// The default rules a user table does not mention, in catalog order.
pub open spec fn spec_missing_rules(
    user: Seq<(RuleType, RuleTypeConfigView)>,
    defaults: Seq<(RuleType, RuleTypeConfigView)>,
) -> Seq<(RuleType, RuleTypeConfigView)>
    decreases defaults.len(),
{
    if defaults.len() == 0 {
        Seq::empty()
    } else {
        spec_missing_rules(user, defaults.drop_last()) + if lookup_rule(
            user,
            defaults.last().0,
        ) is None {
            seq![defaults.last()]
        } else {
            Seq::empty()
        }
    }
}

/// Overlay semantics of the load-time merge: the user's settings stand and
/// win, defaults they do not mention follow.
pub open spec fn spec_merge_rules(
    user: Seq<(RuleType, RuleTypeConfigView)>,
    defaults: Seq<(RuleType, RuleTypeConfigView)>,
) -> Seq<(RuleType, RuleTypeConfigView)> {
    user + spec_missing_rules(user, defaults)
}

/// The implicit `default` environment, seeded from the merged rules when the
/// user declared none.
pub open spec fn spec_ensure_default_env(
    envs: Seq<(Seq<char>, Option<Seq<(RuleType, RuleTypeConfigView)>>)>,
    rules: Seq<(RuleType, RuleTypeConfigView)>,
) -> Seq<(Seq<char>, Option<Seq<(RuleType, RuleTypeConfigView)>>)> {
    if lookup(envs, "default"@) is Some {
        envs
    } else {
        envs.push(("default"@, Some(rules)))
    }
}

/// Every declared environment completed: no overrides means the merged rules
/// verbatim, otherwise the overrides win and the merged rules fill the rest.
pub open spec fn spec_backfill_envs(
    envs: Seq<(Seq<char>, Option<Seq<(RuleType, RuleTypeConfigView)>>)>,
    rules: Seq<(RuleType, RuleTypeConfigView)>,
) -> Seq<(Seq<char>, Option<Seq<(RuleType, RuleTypeConfigView)>>)> {
    Seq::new(
        envs.len(),
        |i: int|
            (
                envs[i].0,
                Some(
                    match envs[i].1 {
                        Some(rs) => spec_merge_rules(rs, rules),
                        None => rules,
                    },
                ),
            ),
    )
}

/// The whole load-time merge.
pub open spec fn spec_merge_config(cfg: RuleConfigView) -> RuleConfigView {
    let rules1 = spec_merge_rules(cfg.rules, spec_default_rules());
    let envs1 = spec_ensure_default_env(cfg.environments, rules1);
    RuleConfigView { rules: rules1, environments: spec_backfill_envs(envs1, rules1) }
}

/// A rule table that answers every rule of the catalog.
pub open spec fn spec_rules_complete(rs: Seq<(RuleType, RuleTypeConfigView)>) -> bool {
    forall|rt: RuleType| lookup_rule(rs, rt) is Some
}

pub proof fn lemma_lookup_rule_some_iff_exists<V>(m: Seq<(RuleType, V)>, k: RuleType)
    ensures
        lookup_rule(m, k) is Some <==> exists|i: int| 0 <= i < m.len() && m[i].0 == k,
    decreases m.len(),
{
    if m.len() > 0 {
        lemma_lookup_rule_some_iff_exists(m.drop_first(), k);
        if m[0].0 != k {
            if lookup_rule(m, k) is Some {
                let i = choose|i: int|
                    0 <= i < m.drop_first().len() && m.drop_first()[i].0 == k;
                assert(m[i + 1].0 == k);
            }
            if exists|i: int| 0 <= i < m.len() && m[i].0 == k {
                let i = choose|i: int| 0 <= i < m.len() && m[i].0 == k;
                assert(m.drop_first()[i - 1].0 == k);
            }
        }
    }
}

/// Whatever the defaults list and the user table misses, the merge lists.
pub proof fn lemma_missing_rules_found(
    user: Seq<(RuleType, RuleTypeConfigView)>,
    defaults: Seq<(RuleType, RuleTypeConfigView)>,
    rt: RuleType,
)
    requires
        lookup_rule(user, rt) is None,
        lookup_rule(defaults, rt) is Some,
    ensures
        lookup_rule(spec_missing_rules(user, defaults), rt) is Some,
    decreases defaults.len(),
{
    lemma_lookup_rule_some_iff_exists(defaults, rt);
    let i = choose|i: int| 0 <= i < defaults.len() && defaults[i].0 == rt;
    if i == defaults.len() - 1 {
        let miss = spec_missing_rules(user, defaults);
        lemma_lookup_rule_some_iff_exists(miss, rt);
        assert(miss[miss.len() - 1].0 == rt);
    } else {
        assert(defaults.drop_last()[i].0 == rt);
        lemma_lookup_rule_some_iff_exists(defaults.drop_last(), rt);
        lemma_missing_rules_found(user, defaults.drop_last(), rt);
        let miss0 = spec_missing_rules(user, defaults.drop_last());
        lemma_lookup_rule_some_iff_exists(miss0, rt);
        let j = choose|j: int| 0 <= j < miss0.len() && miss0[j].0 == rt;
        let miss = spec_missing_rules(user, defaults);
        assert(miss[j].0 == rt);
        lemma_lookup_rule_some_iff_exists(miss, rt);
    }
}

pub proof fn lemma_lookup_rule_append<V>(
    a: Seq<(RuleType, V)>,
    b: Seq<(RuleType, V)>,
    k: RuleType,
)
    ensures
        lookup_rule(a + b, k) == (if lookup_rule(a, k) is Some {
            lookup_rule(a, k)
        } else {
            lookup_rule(b, k)
        }),
    decreases a.len(),
{
    if a.len() == 0 {
        assert(a + b =~= b);
    } else {
        lemma_lookup_rule_append(a.drop_first(), b, k);
        assert((a + b).drop_first() =~= a.drop_first() + b);
    }
}

/// The built-in defaults answer every rule of the catalog.
pub proof fn lemma_default_rules_complete()
    ensures
        spec_rules_complete(spec_default_rules()),
{
    assert forall|rt: RuleType| lookup_rule(spec_default_rules(), rt) is Some by {
        lemma_lookup_rule_some_iff_exists(spec_default_rules(), rt);
        match rt {
            RuleType::LAMBDA_001 => assert(spec_default_rules()[0].0 == rt),
            RuleType::LAMBDA_002 => assert(spec_default_rules()[1].0 == rt),
            RuleType::LAMBDA_003 => assert(spec_default_rules()[2].0 == rt),
            RuleType::LAMBDA_004 => assert(spec_default_rules()[3].0 == rt),
            RuleType::LAMBDA_005 => assert(spec_default_rules()[4].0 == rt),
            RuleType::LAMBDA_006 => assert(spec_default_rules()[5].0 == rt),
            RuleType::LAMBDA_007 => assert(spec_default_rules()[6].0 == rt),
            RuleType::CW_001 => assert(spec_default_rules()[7].0 == rt),
            RuleType::CW_002 => assert(spec_default_rules()[8].0 == rt),
            RuleType::CW_003 => assert(spec_default_rules()[9].0 == rt),
        }
    }
}

/// A merge onto a complete table of defaults is complete.
pub proof fn lemma_merge_rules_complete(
    user: Seq<(RuleType, RuleTypeConfigView)>,
    defaults: Seq<(RuleType, RuleTypeConfigView)>,
)
    requires
        spec_rules_complete(defaults),
    ensures
        spec_rules_complete(spec_merge_rules(user, defaults)),
{
    assert forall|rt: RuleType| lookup_rule(spec_merge_rules(user, defaults), rt) is Some by {
        lemma_lookup_rule_append(user, spec_missing_rules(user, defaults), rt);
        if lookup_rule(user, rt) is None {
            lemma_missing_rules_found(user, defaults, rt);
        }
    }
}

/// Environment completeness: after the load-time merge, every declared
/// environment answers every rule of the catalog.
pub proof fn lemma_environment_completeness(
    cfg: RuleConfigView,
    environment: Seq<char>,
    rule: RuleType,
)
    requires
        lookup(spec_merge_config(cfg).environments, environment) is Some,
    ensures
        spec_merge_config(cfg).spec_get_rule(rule, environment) is Some,
{
    let rules1 = spec_merge_rules(cfg.rules, spec_default_rules());
    let envs1 = spec_ensure_default_env(cfg.environments, rules1);
    let envs2 = spec_backfill_envs(envs1, rules1);
    lemma_default_rules_complete();
    lemma_merge_rules_complete(cfg.rules, spec_default_rules());
    let f = |key: Seq<char>, o: Option<Seq<(RuleType, RuleTypeConfigView)>>|
        Some(
            match o {
                Some(rs) => spec_merge_rules(rs, rules1),
                None => rules1,
            },
        );
    assert(envs2 =~= Seq::new(envs1.len(), |i: int| (envs1[i].0, f(envs1[i].0, envs1[i].1))));
    crate::parsers::cfn::lemma_lookup_mapped(envs1, f, environment);
    match lookup(envs1, environment) {
        Some(o) => {
            match o {
                Some(rs) => {
                    lemma_merge_rules_complete(rs, rules1);
                },
                None => {},
            }
        },
        None => {},
    }
}

} // verus!

verus! {

/// Overlay merge of a rule table onto defaults, insert-if-absent.
fn merge_rules(
    user: &Vec<(RuleType, RuleTypeConfig)>,
    defaults: &Vec<(RuleType, RuleTypeConfig)>,
) -> (r: Vec<(RuleType, RuleTypeConfig)>)
    ensures
        rules_view(r@) == spec_merge_rules(rules_view(user@), rules_view(defaults@)),
{
    let ghost uv = rules_view(user@);
    let ghost dv = rules_view(defaults@);
    let mut out = clone_rules(user);
    let mut i: usize = 0;
    proof {
        assert(rules_view(out@) =~= uv + spec_missing_rules(uv, dv.take(0)));
    }
    while i < defaults.len()
        invariant
            i <= defaults.len(),
            uv == rules_view(user@),
            dv == rules_view(defaults@),
            rules_view(out@) == uv + spec_missing_rules(uv, dv.take(i as int)),
        decreases defaults.len() - i,
    {
        let present = match rules_get(user, defaults[i].0) {
            Some(_) => true,
            None => false,
        };
        let ghost old_out = out@;
        if !present {
            out.push((defaults[i].0, defaults[i].1.clone()));
            proof {
                assert(rules_view(out@) =~= rules_view(old_out).push(dv[i as int]));
            }
        }
        proof {
            assert(dv.take(i + 1).drop_last() =~= dv.take(i as int));
            assert(dv.take(i + 1).last() == dv[i as int]);
            assert(rules_view(out@) =~= uv + spec_missing_rules(uv, dv.take(i + 1)));
        }
        i = i + 1;
    }
    proof {
        assert(dv.take(defaults@.len() as int) =~= dv);
    }
    out
}

impl RuleConfig {
    /// The load-time merge: overlay the built-in defaults under the user's
    /// rules, make sure a `default` environment exists, and complete every
    /// environment's table from the merged rules.
    pub fn merge_with_defaults(&mut self)
        ensures
            final(self).deep_view() == spec_merge_config(old(self).deep_view()),
    {
        let ghost cfg0 = old(self).deep_view();
        let defaults = RuleConfig::default();
        let new_rules = merge_rules(&self.rules, &defaults.rules);
        self.rules = new_rules;
        let ghost rules1 = spec_merge_rules(cfg0.rules, spec_default_rules());
        proof {
            assert(rules_view(self.rules@) == rules1);
            crate::parsers::value::lemma_assoc_keyed_views(
                self.environments@,
                |o: Option<Vec<(RuleType, RuleTypeConfig)>>|
                    match o {
                        Some(rs) => Some(rules_view(rs@)),
                        None => None,
                    },
                "default"@,
            );
        }
        let has_default = match assoc_get(&self.environments, "default") {
            Some(_) => true,
            None => false,
        };
        if !has_default {
            let seeded = clone_rules(&self.rules);
            let ghost before = self.deep_view().environments;
            self.environments.push((String::from_str("default"), Some(seeded)));
            proof {
                assert(self.deep_view().environments =~= before.push(("default"@, Some(rules1))));
            }
        }
        proof {
            assert(self.deep_view().environments == spec_ensure_default_env(
                cfg0.environments,
                rules1,
            ));
        }
        let ghost envs1 = spec_ensure_default_env(cfg0.environments, rules1);
        let mut new_envs: Vec<(String, Option<Vec<(RuleType, RuleTypeConfig)>>)> = Vec::new();
        let mut i: usize = 0;
        while i < self.environments.len()
            invariant
                i <= self.environments.len(),
                new_envs@.len() == i,
                rules_view(self.rules@) == rules1,
                self.deep_view().environments == envs1,
                forall|j: int|
                    0 <= j < i ==> new_envs@[j].0@ == self.environments@[j].0@ && (match (
                        new_envs@[j].1,
                        self.environments@[j].1,
                    ) {
                        (Some(nrs), Some(ors)) => rules_view(nrs@) == spec_merge_rules(
                            rules_view(ors@),
                            rules1,
                        ),
                        (Some(nrs), None) => rules_view(nrs@) == rules1,
                        _ => false,
                    }),
            decreases self.environments.len() - i,
        {
            let entry: Vec<(RuleType, RuleTypeConfig)> = match &self.environments[i].1 {
                Some(rs) => merge_rules(rs, &self.rules),
                None => clone_rules(&self.rules),
            };
            new_envs.push((self.environments[i].0.clone(), Some(entry)));
            i = i + 1;
        }
        self.environments = new_envs;
        proof {
            assert(self.deep_view().environments =~= spec_backfill_envs(envs1, rules1));
            assert(self.deep_view() =~= spec_merge_config(cfg0));
        }
    }
}

/// The analyzer's configuration file: one optional section per template
/// dialect.
pub struct Config {
    pub cloudformation: Option<RuleConfig>,
}

/// The mathematical shape of a `Config`.
#[verifier::ext_equal]
pub struct ConfigView {
    pub cloudformation: Option<RuleConfigView>,
}

impl DeepView for Config {
    type V = ConfigView;

    open spec fn deep_view(&self) -> ConfigView {
        ConfigView {
            cloudformation: match self.cloudformation {
                Some(ref rc) => Some(rc.deep_view()),
                None => None,
            },
        }
    }
}

impl Default for Config {
    /// A configuration that holds the built-in defaults.
    fn default() -> (r: Self)
        ensures
            r.deep_view() == (ConfigView { cloudformation: Some(spec_default_rule_config()) }),
    {
        Config { cloudformation: Some(RuleConfig::default()) }
    }
}

} // verus!

verus! {

/// The rule a catalog name denotes, if any; unknown names denote no rule and
/// are ignored by the loader.
pub open spec fn spec_ruletype_of(s: Seq<char>) -> Option<RuleType> {
    if s == "LAMBDA_001"@ {
        Some(RuleType::LAMBDA_001)
    } else if s == "LAMBDA_002"@ {
        Some(RuleType::LAMBDA_002)
    } else if s == "LAMBDA_003"@ {
        Some(RuleType::LAMBDA_003)
    } else if s == "LAMBDA_004"@ {
        Some(RuleType::LAMBDA_004)
    } else if s == "LAMBDA_005"@ {
        Some(RuleType::LAMBDA_005)
    } else if s == "LAMBDA_006"@ {
        Some(RuleType::LAMBDA_006)
    } else if s == "LAMBDA_007"@ {
        Some(RuleType::LAMBDA_007)
    } else if s == "CW_001"@ {
        Some(RuleType::CW_001)
    } else if s == "CW_002"@ {
        Some(RuleType::CW_002)
    } else if s == "CW_003"@ {
        Some(RuleType::CW_003)
    } else {
        None
    }
}

/// Decode a rule name.
fn ruletype_of(s: &str) -> (r: Option<RuleType>)
    ensures
        r == spec_ruletype_of(s@),
{
    if str_eq(s, "LAMBDA_001") {
        Some(RuleType::LAMBDA_001)
    } else if str_eq(s, "LAMBDA_002") {
        Some(RuleType::LAMBDA_002)
    } else if str_eq(s, "LAMBDA_003") {
        Some(RuleType::LAMBDA_003)
    } else if str_eq(s, "LAMBDA_004") {
        Some(RuleType::LAMBDA_004)
    } else if str_eq(s, "LAMBDA_005") {
        Some(RuleType::LAMBDA_005)
    } else if str_eq(s, "LAMBDA_006") {
        Some(RuleType::LAMBDA_006)
    } else if str_eq(s, "LAMBDA_007") {
        Some(RuleType::LAMBDA_007)
    } else if str_eq(s, "CW_001") {
        Some(RuleType::CW_001)
    } else if str_eq(s, "CW_002") {
        Some(RuleType::CW_002)
    } else if str_eq(s, "CW_003") {
        Some(RuleType::CW_003)
    } else {
        None
    }
}

/// The strings of a payload list, keeping only string elements, as the loader
/// tolerates stray shapes there.
pub open spec fn spec_str_values(items: Seq<ValueView>) -> Seq<Seq<char>>
    decreases items.len(),
{
    if items.len() == 0 {
        Seq::empty()
    } else {
        spec_str_values(items.drop_last()) + (match items.last() {
            ValueView::Str(s) => seq![s],
            _ => Seq::empty(),
        })
    }
}

/// The payload a rule's mapping carries: a `values` list, a `threshold`
/// numeral, a `value` string, or nothing; a key of the wrong shape reads as
/// nothing.
pub open spec fn spec_detail_of(es: Seq<(Seq<char>, ValueView)>) -> RuleTypeConfigDetailView {
    match lookup(es, "values"@) {
        Some(v) => match v {
            ValueView::List(items) => RuleTypeConfigDetailView::Values {
                values: spec_str_values(items),
            },
            _ => RuleTypeConfigDetailView::Simple,
        },
        None => match lookup(es, "threshold"@) {
            Some(t) => match t {
                ValueView::Int(i) => if i >= 0 {
                    RuleTypeConfigDetailView::Threshold { threshold: ThresholdValue::Int(i as u64) }
                } else {
                    RuleTypeConfigDetailView::Threshold {
                        threshold: ThresholdValue::Float(
                            Decimal { neg: true, mant: (-i) as u64, scale: 0 },
                        ),
                    }
                },
                ValueView::Dec(d) => RuleTypeConfigDetailView::Threshold {
                    threshold: ThresholdValue::Float(d),
                },
                _ => RuleTypeConfigDetailView::Simple,
            },
            None => match lookup(es, "value"@) {
                Some(ValueView::Str(s)) => RuleTypeConfigDetailView::Value { value: s },
                Some(_) => RuleTypeConfigDetailView::Simple,
                None => RuleTypeConfigDetailView::Simple,
            },
        },
    }
}

/// Keep the string elements of a payload list.
fn str_values(items: &Vec<Value>) -> (r: Vec<String>)
    ensures
        Seq::new(r@.len(), |i: int| r@[i]@) == spec_str_values(
            crate::parsers::value::views_of_values(items@),
        ),
{
    proof {
        crate::parsers::value::lemma_views_of_values(items@);
    }
    let ghost iv = crate::parsers::value::views_of_values(items@);
    let mut out: Vec<String> = Vec::new();
    let mut i: usize = 0;
    proof {
        assert(iv.take(0) =~= Seq::<ValueView>::empty());
        assert(Seq::new(out@.len(), |i: int| out@[i]@) =~= spec_str_values(iv.take(0)));
    }
    while i < items.len()
        invariant
            i <= items.len(),
            iv == crate::parsers::value::views_of_values(items@),
            iv.len() == items@.len(),
            forall|j: int| 0 <= j < items@.len() ==> iv[j] == items@[j].deep_view(),
            Seq::new(out@.len(), |i: int| out@[i]@) == spec_str_values(iv.take(i as int)),
        decreases items.len() - i,
    {
        proof {
            assert(iv.take(i + 1).drop_last() =~= iv.take(i as int));
            assert(iv.take(i + 1).last() == iv[i as int]);
        }
        let ghost before = out@;
        match &items[i] {
            Value::Str(s) => {
                out.push(s.clone());
                proof {
                    assert(Seq::new(out@.len(), |q: int| out@[q]@) =~= Seq::new(
                        before.len(),
                        |q: int| before[q]@,
                    ) + seq![iv[i as int]->Str_0]);
                }
            },
            _ => {
                proof {
                    assert(Seq::new(out@.len(), |q: int| out@[q]@) =~= spec_str_values(
                        iv.take(i + 1),
                    ));
                }
            },
        }
        i = i + 1;
    }
    proof {
        assert(iv.take(items@.len() as int) =~= iv);
    }
    out
}

/// Decode one rule's payload; this never fails, a missing or misshapen payload
/// reads as the simple payload.
fn decode_detail(es: &Vec<(String, Value)>) -> (r: RuleTypeConfigDetail)
    ensures
        r.deep_view() == spec_detail_of(crate::parsers::value::views_of_entries(es@)),
{
    match crate::parsers::value::dict_get(es, "values") {
        Some(v) => match v {
            Value::List(items) => {
                proof {
                    assert(v.deep_view() == ValueView::List(
                        crate::parsers::value::views_of_values(items@),
                    ));
                }
                let values = str_values(items);
                let r = RuleTypeConfigDetail::Values { values };
                proof {
                    assert(r.deep_view() =~= spec_detail_of(
                        crate::parsers::value::views_of_entries(es@),
                    ));
                }
                r
            },
            _ => RuleTypeConfigDetail::Simple,
        },
        None => match crate::parsers::value::dict_get(es, "threshold") {
            Some(t) => match t {
                Value::Int(i) => {
                    if *i >= 0 {
                        RuleTypeConfigDetail::Threshold {
                            threshold: ThresholdValue::Int(*i as u64),
                        }
                    } else {
                        RuleTypeConfigDetail::Threshold {
                            threshold: ThresholdValue::Float(
                                Decimal { neg: true, mant: (-(*i as i128)) as u64, scale: 0 },
                            ),
                        }
                    }
                },
                Value::Dec(d) => RuleTypeConfigDetail::Threshold {
                    threshold: ThresholdValue::Float(*d),
                },
                _ => RuleTypeConfigDetail::Simple,
            },
            None => match crate::parsers::value::dict_get(es, "value") {
                Some(Value::Str(s)) => RuleTypeConfigDetail::Value { value: s.clone() },
                Some(_) => RuleTypeConfigDetail::Simple,
                None => RuleTypeConfigDetail::Simple,
            },
        },
    }
}

/// The setting a rule's node decodes to: `enabled` must be present as a
/// boolean, the payload is read from the same mapping.
pub open spec fn spec_rule_config_of(v: ValueView) -> Option<RuleTypeConfigView> {
    match v {
        ValueView::Dict(es) => match lookup(es, "enabled"@) {
            Some(ValueView::Bool(b)) => Some(
                RuleTypeConfigView { enabled: b, config_detail: spec_detail_of(es) },
            ),
            _ => None,
        },
        _ => None,
    }
}

/// Decode one rule's setting.
fn decode_rule_config(v: &Value) -> (r: Result<
    RuleTypeConfig,
    crate::parsers::value::DecodeError,
>)
    ensures
        match r {
            Ok(x) => spec_rule_config_of(v.deep_view()) == Some(x.deep_view()),
            Err(_) => spec_rule_config_of(v.deep_view()) is None,
        },
{
    match v {
        Value::Dict(es) => {
            proof {
                assert(v.deep_view() == ValueView::Dict(
                    crate::parsers::value::views_of_entries(es@),
                ));
            }
            let enabled: bool = match crate::parsers::value::dict_get(es, "enabled") {
                Some(Value::Bool(b)) => *b,
                Some(_) => {
                    return Err(crate::parsers::value::DecodeError::WrongShape("enabled"));
                },
                None => {
                    return Err(crate::parsers::value::DecodeError::MissingField("enabled"));
                },
            };
            let config_detail = decode_detail(es);
            Ok(RuleTypeConfig { enabled, config_detail })
        },
        _ => Err(crate::parsers::value::DecodeError::WrongShape("rules")),
    }
}

/// The rule table a mapping decodes to: known rule names decode, unknown names
/// are ignored.
pub open spec fn spec_rules_table(es: Seq<(Seq<char>, ValueView)>) -> Option<
    Seq<(RuleType, RuleTypeConfigView)>,
>
    decreases es.len(),
{
    if es.len() == 0 {
        Some(Seq::empty())
    } else {
        match spec_rules_table(es.drop_last()) {
            Some(acc) => match spec_ruletype_of(es.last().0) {
                Some(rt) => match spec_rule_config_of(es.last().1) {
                    Some(c) => Some(acc.push((rt, c))),
                    None => None,
                },
                None => Some(acc),
            },
            None => None,
        }
    }
}

proof fn lemma_rules_table_none(es: Seq<(Seq<char>, ValueView)>, i: int)
    requires
        0 <= i < es.len(),
        spec_ruletype_of(es[i].0) is Some,
        spec_rule_config_of(es[i].1) is None,
    ensures
        spec_rules_table(es) is None,
    decreases es.len(),
{
    if i < es.len() - 1 {
        assert(es.drop_last()[i] == es[i]);
        lemma_rules_table_none(es.drop_last(), i);
    }
}

/// Decode a rule table.
fn decode_rules_table(es: &Vec<(String, Value)>) -> (r: Result<
    Vec<(RuleType, RuleTypeConfig)>,
    crate::parsers::value::DecodeError,
>)
    ensures
        match r {
            Ok(out) => spec_rules_table(crate::parsers::value::views_of_entries(es@)) == Some(
                rules_view(out@),
            ),
            Err(_) => spec_rules_table(crate::parsers::value::views_of_entries(es@)) is None,
        },
{
    proof {
        crate::parsers::value::lemma_views_of_entries(es@);
    }
    let ghost ev = crate::parsers::value::views_of_entries(es@);
    let mut out: Vec<(RuleType, RuleTypeConfig)> = Vec::new();
    let mut i: usize = 0;
    proof {
        assert(ev.take(0) =~= Seq::<(Seq<char>, ValueView)>::empty());
        assert(rules_view(out@) =~= spec_rules_table(ev.take(0))->Some_0);
    }
    while i < es.len()
        invariant
            i <= es.len(),
            ev == crate::parsers::value::views_of_entries(es@),
            ev.len() == es@.len(),
            forall|j: int| 0 <= j < es@.len() ==> ev[j] == (es@[j].0@, es@[j].1.deep_view()),
            spec_rules_table(ev.take(i as int)) matches Some(acc) && acc == rules_view(out@),
        decreases es.len() - i,
    {
        proof {
            assert(ev.take(i + 1).drop_last() =~= ev.take(i as int));
            assert(ev.take(i + 1).last() == ev[i as int]);
        }
        match ruletype_of(es[i].0.as_str()) {
            Some(rt) => {
                match decode_rule_config(&es[i].1) {
                    Ok(c) => {
                        let ghost before = out@;
                        out.push((rt, c));
                        proof {
                            assert(rules_view(out@) =~= rules_view(before).push(
                                (rt, spec_rule_config_of(ev[i as int].1)->Some_0),
                            ));
                        }
                    },
                    Err(e) => {
                        proof {
                            lemma_rules_table_none(ev, i as int);
                        }
                        return Err(e);
                    },
                }
            },
            None => {},
        }
        i = i + 1;
    }
    proof {
        assert(ev.take(es@.len() as int) =~= ev);
    }
    Ok(out)
}

} // verus!

verus! {

/// The environment table a mapping decodes to: a null entry means "no
/// overrides here", anything but a mapping or null is refused.
pub open spec fn spec_envs_table(es: Seq<(Seq<char>, ValueView)>) -> Option<
    Seq<(Seq<char>, Option<Seq<(RuleType, RuleTypeConfigView)>>)>,
>
    decreases es.len(),
{
    if es.len() == 0 {
        Some(Seq::empty())
    } else {
        match spec_envs_table(es.drop_last()) {
            Some(acc) => match es.last().1 {
                ValueView::Null => Some(acc.push((es.last().0, None))),
                ValueView::Dict(res) => match spec_rules_table(res) {
                    Some(t) => Some(acc.push((es.last().0, Some(t)))),
                    None => None,
                },
                _ => None,
            },
            None => None,
        }
    }
}

proof fn lemma_envs_table_none(es: Seq<(Seq<char>, ValueView)>, i: int)
    requires
        0 <= i < es.len(),
        match es[i].1 {
            ValueView::Null => false,
            ValueView::Dict(res) => spec_rules_table(res) is None,
            _ => true,
        },
    ensures
        spec_envs_table(es) is None,
    decreases es.len(),
{
    if i < es.len() - 1 {
        assert(es.drop_last()[i] == es[i]);
        lemma_envs_table_none(es.drop_last(), i);
    }
}

/// Decode the environment table.
fn decode_envs_table(es: &Vec<(String, Value)>) -> (r: Result<
    Vec<(String, Option<Vec<(RuleType, RuleTypeConfig)>>)>,
    crate::parsers::value::DecodeError,
>)
    ensures
        match r {
            Ok(out) => spec_envs_table(crate::parsers::value::views_of_entries(es@)) == Some(
                keyed_views(
                    out@,
                    |o: Option<Vec<(RuleType, RuleTypeConfig)>>|
                        match o {
                            Some(rs) => Some(rules_view(rs@)),
                            None => None,
                        },
                ),
            ),
            Err(_) => spec_envs_table(crate::parsers::value::views_of_entries(es@)) is None,
        },
{
    proof {
        crate::parsers::value::lemma_views_of_entries(es@);
    }
    let ghost ev = crate::parsers::value::views_of_entries(es@);
    let ghost vw = |o: Option<Vec<(RuleType, RuleTypeConfig)>>|
        match o {
            Some(rs) => Some(rules_view(rs@)),
            None => None,
        };
    let mut out: Vec<(String, Option<Vec<(RuleType, RuleTypeConfig)>>)> = Vec::new();
    let mut i: usize = 0;
    proof {
        assert(ev.take(0) =~= Seq::<(Seq<char>, ValueView)>::empty());
        assert(keyed_views(out@, vw) =~= spec_envs_table(ev.take(0))->Some_0);
    }
    while i < es.len()
        invariant
            i <= es.len(),
            ev == crate::parsers::value::views_of_entries(es@),
            ev.len() == es@.len(),
            forall|j: int| 0 <= j < es@.len() ==> ev[j] == (es@[j].0@, es@[j].1.deep_view()),
            vw == (|o: Option<Vec<(RuleType, RuleTypeConfig)>>|
                match o {
                    Some(rs) => Some(rules_view(rs@)),
                    None => None,
                }),
            spec_envs_table(ev.take(i as int)) matches Some(acc) && acc == keyed_views(out@, vw),
        decreases es.len() - i,
    {
        proof {
            assert(ev.take(i + 1).drop_last() =~= ev.take(i as int));
            assert(ev.take(i + 1).last() == ev[i as int]);
        }
        match &es[i].1 {
            Value::Null => {
                let ghost before = out@;
                out.push((es[i].0.clone(), None));
                proof {
                    assert(keyed_views(out@, vw) =~= keyed_views(before, vw).push(
                        (ev[i as int].0, None::<Seq<(RuleType, RuleTypeConfigView)>>),
                    ));
                }
            },
            Value::Dict(res) => {
                proof {
                    assert(es@[i as int].1.deep_view() == ValueView::Dict(
                        crate::parsers::value::views_of_entries(res@),
                    ));
                }
                match decode_rules_table(res) {
                    Ok(t) => {
                        let ghost before = out@;
                        out.push((es[i].0.clone(), Some(t)));
                        proof {
                            assert(keyed_views(out@, vw) =~= keyed_views(before, vw).push(
                                (
                                    ev[i as int].0,
                                    Some(spec_rules_table(ev[i as int].1->Dict_0)->Some_0),
                                ),
                            ));
                        }
                    },
                    Err(e) => {
                        proof {
                            lemma_envs_table_none(ev, i as int);
                        }
                        return Err(e);
                    },
                }
            },
            _ => {
                proof {
                    assert(!(ev[i as int].1 is Null) && !(ev[i as int].1 is Dict));
                    lemma_envs_table_none(ev, i as int);
                }
                return Err(crate::parsers::value::DecodeError::WrongShape("environments"));
            },
        }
        i = i + 1;
    }
    proof {
        assert(ev.take(es@.len() as int) =~= ev);
    }
    Ok(out)
}

/// The rule configuration a node decodes to: its `rules` and `environments`
/// tables, both required.
pub open spec fn spec_rule_config_section_of(v: ValueView) -> Option<RuleConfigView> {
    match v {
        ValueView::Dict(es) => match (lookup(es, "rules"@), lookup(es, "environments"@)) {
            (Some(ValueView::Dict(res)), Some(ValueView::Dict(ees))) => match (
                spec_rules_table(res),
                spec_envs_table(ees),
            ) {
                (Some(rules), Some(envs)) => Some(
                    RuleConfigView { rules, environments: envs },
                ),
                _ => None,
            },
            _ => None,
        },
        _ => None,
    }
}

/// The analyzer configuration a document tree decodes to; a missing or null
/// `cloudformation` section reads as none.
pub open spec fn spec_config_of(v: ValueView) -> Option<ConfigView> {
    match v {
        ValueView::Dict(es) => match lookup(es, "cloudformation"@) {
            Some(ValueView::Null) => Some(ConfigView { cloudformation: None }),
            Some(cv) => match spec_rule_config_section_of(cv) {
                Some(rc) => Some(ConfigView { cloudformation: Some(rc) }),
                None => None,
            },
            None => Some(ConfigView { cloudformation: None }),
        },
        _ => None,
    }
}

impl Config {
    /// Decode the analyzer configuration from the document model's tree.
    pub fn from_value(v: &Value) -> (r: Result<Config, crate::parsers::value::DecodeError>)
        ensures
            match r {
                Ok(c) => spec_config_of(v.deep_view()) == Some(c.deep_view()),
                Err(_) => spec_config_of(v.deep_view()) is None,
            },
    {
        match v {
            Value::Dict(es) => {
                proof {
                    assert(v.deep_view() == ValueView::Dict(
                        crate::parsers::value::views_of_entries(es@),
                    ));
                }
                match crate::parsers::value::dict_get(es, "cloudformation") {
                    Some(Value::Null) => Ok(Config { cloudformation: None }),
                    Some(cv) => match cv {
                        Value::Dict(ces) => {
                            proof {
                                assert(cv.deep_view() == ValueView::Dict(
                                    crate::parsers::value::views_of_entries(ces@),
                                ));
                            }
                            let rules_v: &Value = match crate::parsers::value::dict_get(
                                ces,
                                "rules",
                            ) {
                                Some(x) => x,
                                None => {
                                    return Err(
                                        crate::parsers::value::DecodeError::MissingField("rules"),
                                    );
                                },
                            };
                            let envs_v: &Value = match crate::parsers::value::dict_get(
                                ces,
                                "environments",
                            ) {
                                Some(x) => x,
                                None => {
                                    return Err(
                                        crate::parsers::value::DecodeError::MissingField(
                                            "environments",
                                        ),
                                    );
                                },
                            };
                            match (rules_v, envs_v) {
                                (Value::Dict(res), Value::Dict(ees)) => {
                                    proof {
                                        assert(rules_v.deep_view() == ValueView::Dict(
                                            crate::parsers::value::views_of_entries(res@),
                                        ));
                                        assert(envs_v.deep_view() == ValueView::Dict(
                                            crate::parsers::value::views_of_entries(ees@),
                                        ));
                                    }
                                    let rules = match decode_rules_table(res) {
                                        Ok(t) => t,
                                        Err(e) => {
                                            return Err(e);
                                        },
                                    };
                                    let environments = match decode_envs_table(ees) {
                                        Ok(t) => t,
                                        Err(e) => {
                                            return Err(e);
                                        },
                                    };
                                    let c = Config {
                                        cloudformation: Some(
                                            RuleConfig { rules, environments },
                                        ),
                                    };
                                    proof {
                                        assert(c.deep_view() =~= spec_config_of(
                                            v.deep_view(),
                                        )->Some_0);
                                    }
                                    Ok(c)
                                },
                                (Value::Dict(_), _) => Err(
                                    crate::parsers::value::DecodeError::WrongShape("environments"),
                                ),
                                _ => Err(
                                    crate::parsers::value::DecodeError::WrongShape("rules"),
                                ),
                            }
                        },
                        _ => Err(crate::parsers::value::DecodeError::WrongShape("cloudformation")),
                    },
                    None => Ok(Config { cloudformation: None }),
                }
            },
            _ => Err(crate::parsers::value::DecodeError::WrongShape("document")),
        }
    }

    /// Load the analyzer configuration: decode it from the document model's
    /// tree and run the load-time merge against the built-in defaults.
    pub fn load_from_value(v: &Value) -> (r: Result<Config, crate::parsers::value::DecodeError>)
        ensures
            match r {
                Ok(c) => spec_config_of(v.deep_view()) matches Some(cv) && c.deep_view() == (
                    ConfigView {
                        cloudformation: match cv.cloudformation {
                            Some(rc) => Some(spec_merge_config(rc)),
                            None => None,
                        },
                    }
                ),
                Err(_) => spec_config_of(v.deep_view()) is None,
            },
    {
        let mut config = match Config::from_value(v) {
            Ok(c) => c,
            Err(e) => {
                return Err(e);
            },
        };
        let new_cf = match config.cloudformation {
            Some(mut rc) => {
                rc.merge_with_defaults();
                Some(rc)
            },
            None => None,
        };
        config.cloudformation = new_cf;
        Ok(config)
    }
}

} // verus!
