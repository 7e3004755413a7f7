//! Rule configuration: defaults, the load-time merge, and environment views.
use cloudsaving::parsers::config::{Config, RuleType, RuleTypeConfig};
use cloudsaving::parsers::value::{DecodeError, Value};

fn s(text: &str) -> Value {
    Value::Str(text.to_string())
}

fn dict(entries: Vec<(&str, Value)>) -> Value {
    Value::Dict(entries.into_iter().map(|(k, v)| (k.to_string(), v)).collect())
}

fn rules_get<'a>(
    rules: &'a [(RuleType, RuleTypeConfig)],
    rt: RuleType,
) -> Option<&'a RuleTypeConfig> {
    rules.iter().find(|(k, _)| *k == rt).map(|(_, c)| c)
}

/// The user configuration: a few rules overridden, two extra environments, one
/// of them with its own per-rule overrides.
fn example_config_value() -> Value {
    dict(vec![(
        "cloudformation",
        dict(vec![
            (
                "rules",
                dict(vec![
                    ("LAMBDA_002", dict(vec![("enabled", Value::Bool(true))])),
                    (
                        "LAMBDA_003",
                        dict(vec![
                            ("enabled", Value::Bool(true)),
                            ("values", Value::List(vec![s("tag1"), s("tag2")])),
                        ]),
                    ),
                    (
                        "CW_001",
                        dict(vec![
                            ("enabled", Value::Bool(true)),
                            ("threshold", Value::Int(14)),
                        ]),
                    ),
                ]),
            ),
            (
                "environments",
                dict(vec![
                    ("dev", Value::Null),
                    (
                        "prod",
                        dict(vec![
                            ("CW_002", dict(vec![("enabled", Value::Bool(false))])),
                            (
                                "LAMBDA_003",
                                dict(vec![
                                    ("enabled", Value::Bool(true)),
                                    ("values", Value::List(vec![s("tag3"), s("tag4")])),
                                ]),
                            ),
                        ]),
                    ),
                ]),
            ),
        ]),
    )])
}

#[test]
fn test_default_config() {
    let config = Config::default();
    assert!(config.cloudformation.is_some());
    let cloudformation = config.cloudformation.unwrap();

    assert!(!cloudformation.enabled(RuleType::LAMBDA_003, "default"));
    assert!(!cloudformation.enabled(RuleType::LAMBDA_002, "default"));
    assert!(cloudformation.enabled(RuleType::LAMBDA_001, "default"));
    assert!(cloudformation.enabled(RuleType::CW_001, "default"));
    assert!(!cloudformation.enabled(RuleType::CW_003, "default"));

    let cw_log_retention_policy = rules_get(&cloudformation.rules, RuleType::CW_001).unwrap();
    assert_eq!(
        cw_log_retention_policy.config_detail.get_threshold_int().unwrap(),
        30
    );
}

#[test]
fn test_load_config() {
    let config = Config::load_from_value(&example_config_value()).unwrap();
    assert!(config.cloudformation.is_some());
    let cloudformation = config.cloudformation.unwrap();

    let lambda_architecture_arm = rules_get(&cloudformation.rules, RuleType::LAMBDA_002).unwrap();
    assert!(lambda_architecture_arm.enabled);

    let lambda_missing_tag = rules_get(&cloudformation.rules, RuleType::LAMBDA_003).unwrap();
    assert_eq!(
        lambda_missing_tag.config_detail.get_values().unwrap(),
        &vec!["tag1".to_string(), "tag2".to_string()]
    );

    let cw_log_retention_policy = rules_get(&cloudformation.rules, RuleType::CW_001).unwrap();
    assert_eq!(
        cw_log_retention_policy.config_detail.get_threshold_int().unwrap(),
        14
    );

    let default_env = cloudformation
        .environments
        .iter()
        .find(|(k, _)| k == "default")
        .unwrap()
        .1
        .as_ref()
        .unwrap();
    assert_eq!(default_env.len(), cloudformation.rules.len());

    // No override rules: the dev environment's view is the merged rules.
    let dev_env = cloudformation
        .environments
        .iter()
        .find(|(k, _)| k == "dev")
        .unwrap()
        .1
        .as_ref()
        .unwrap();
    assert!(dev_env.iter().all(|(k, v)| {
        rules_get(default_env, *k).map_or(false, |dv| {
            dv.enabled == v.enabled
                && dv.config_detail.get_values() == v.config_detail.get_values()
                && dv.config_detail.get_value() == v.config_detail.get_value()
                && dv.config_detail.get_threshold_int() == v.config_detail.get_threshold_int()
                && dv.config_detail.get_threshold_float() == v.config_detail.get_threshold_float()
        })
    }));

    let prod_env = cloudformation
        .environments
        .iter()
        .find(|(k, _)| k == "prod")
        .unwrap()
        .1
        .as_ref()
        .unwrap();
    let prod_cw002 = rules_get(prod_env, RuleType::CW_002).unwrap();
    assert!(!prod_cw002.enabled);
    let prod_lambda003 = rules_get(prod_env, RuleType::LAMBDA_003).unwrap();
    assert_eq!(
        prod_lambda003.config_detail.get_values().unwrap(),
        &vec!["tag3".to_string(), "tag4".to_string()]
    );
}

#[test]
fn test_invalid_config_missing_enabled() {
    let bad = dict(vec![(
        "cloudformation",
        dict(vec![
            (
                "rules",
                dict(vec![("LAMBDA_002", dict(vec![("threshold", Value::Int(14))]))]),
            ),
            ("environments", dict(vec![])),
        ]),
    )]);
    let err = match Config::load_from_value(&bad) {
        Err(e) => e,
        Ok(_) => panic!("a rule without `enabled` must be refused"),
    };
    assert_eq!(err, DecodeError::MissingField("enabled"));
    assert_eq!(err.message(), "missing required field `enabled`");
}

#[test]
fn test_default_environment() {
    let config = Config::default();
    let cloudformation = config.cloudformation.unwrap();

    assert!(cloudformation.enabled(RuleType::LAMBDA_001, "default"));
    assert!(!cloudformation.enabled(RuleType::LAMBDA_003, "default"));
}

/// Asking about an environment nobody declared answers "off" for every rule.
#[test]
fn unknown_environment_is_disabled() {
    let config = Config::default();
    let cloudformation = config.cloudformation.unwrap();
    assert!(!cloudformation.enabled(RuleType::LAMBDA_001, "nonexistent"));
    assert!(!cloudformation.enabled(RuleType::LAMBDA_002, "nonexistent"));
    assert!(!cloudformation.enabled(RuleType::CW_001, "nonexistent"));
    assert!(!cloudformation.enabled(RuleType::CW_003, "nonexistent"));
}

/// After the load-time merge, every declared environment answers every rule.
#[test]
fn environments_are_complete_after_load() {
    let config = Config::load_from_value(&example_config_value()).unwrap();
    let cloudformation = config.cloudformation.unwrap();
    let all = [
        RuleType::LAMBDA_001,
        RuleType::LAMBDA_002,
        RuleType::LAMBDA_003,
        RuleType::LAMBDA_004,
        RuleType::LAMBDA_005,
        RuleType::LAMBDA_006,
        RuleType::LAMBDA_007,
        RuleType::CW_001,
        RuleType::CW_002,
        RuleType::CW_003,
    ];
    for (env, _) in &cloudformation.environments {
        for rt in all {
            assert!(cloudformation.get_rule(rt, env).is_some());
        }
    }
}

/// `set_rule` changes exactly the named rule of the named environment.
#[test]
fn set_rule_changes_one_environment() {
    let config = Config::default();
    let mut cloudformation = config.cloudformation.unwrap();
    assert!(!cloudformation.enabled(RuleType::LAMBDA_002, "default"));
    cloudformation.set_rule(RuleType::LAMBDA_002, true, "default", None);
    assert!(cloudformation.enabled(RuleType::LAMBDA_002, "default"));
    assert!(!cloudformation.enabled(RuleType::LAMBDA_003, "default"));
}
