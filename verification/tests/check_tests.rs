//! The rule evaluation engine, the source-span resolver, and the report
//! renderer, exercised on small resolved templates.
use cloudsaving::checker::run_checks;
use cloudsaving::error_reporter::ErrorReporter;
use cloudsaving::parsers::cfn::{CloudFormation, Resource};
use cloudsaving::parsers::config::{
    Config, RuleConfig, RuleType, RuleTypeConfig, RuleTypeConfigDetail, ThresholdValue,
};
use cloudsaving::parsers::get_yaml_line_marker;
use cloudsaving::parsers::iac::{AWSResourceType, InfratructureTemplate};
use cloudsaving::parsers::value::{Decimal, Value};
use cloudsaving::parsers::YamlLineMarker;
use cloudsaving::parsers::{SourcePos, SourceSpan};
use cloudsaving::rules::violations::{CloudWatchViolation, ViolationKind};
use cloudsaving::rules::aws::cloudwatch::check_cloudwatch_log_group_retention;
use cloudsaving::rules::aws::lambda::{
    check_lambda_architecture_arm, check_lambda_missing_tag,
    check_lambda_powertools_environment_variables,
};

fn s(text: &str) -> Value {
    Value::Str(text.to_string())
}

fn dict(entries: Vec<(&str, Value)>) -> Value {
    Value::Dict(entries.into_iter().map(|(k, v)| (k.to_string(), v)).collect())
}

fn lambda_with_props(props: Vec<(&str, Value)>) -> Resource {
    Resource {
        type_: AWSResourceType::LambdaFunction,
        properties: Some(
            props.into_iter().map(|(k, v)| (k.to_string(), v)).collect(),
        ),
        other: Vec::new(),
    }
}

fn loggroup_with_props(props: Vec<(&str, Value)>) -> Resource {
    Resource {
        type_: AWSResourceType::CloudWatch,
        properties: Some(
            props.into_iter().map(|(k, v)| (k.to_string(), v)).collect(),
        ),
        other: Vec::new(),
    }
}

fn template_of(resources: Vec<(&str, Resource)>) -> InfratructureTemplate {
    InfratructureTemplate {
        cloudformation: Some(CloudFormation {
            awstemplate_format_version: None,
            description: None,
            parameters: None,
            mappings: None,
            globals: None,
            resources: Some(
                resources.into_iter().map(|(k, r)| (k.to_string(), r)).collect(),
            ),
            outputs: None,
        }),
    }
}

fn empty_marker() -> YamlLineMarker {
    get_yaml_line_marker("x: 1\n").unwrap()
}

fn rule_config_with(rules: Vec<(RuleType, bool, RuleTypeConfigDetail)>) -> RuleConfig {
    let table: Vec<(RuleType, RuleTypeConfig)> = rules
        .into_iter()
        .map(|(rt, enabled, config_detail)| (rt, RuleTypeConfig { enabled, config_detail }))
        .collect();
    let seeded = table
        .iter()
        .map(|(rt, c)| {
            (
                *rt,
                RuleTypeConfig { enabled: c.enabled, config_detail: c.config_detail.clone() },
            )
        })
        .collect();
    RuleConfig {
        rules: table,
        environments: vec![("default".to_string(), Some(seeded))],
    }
}

/// A Lambda function tagged with none of the configured target tags is
/// flagged; one tagged with a target tag is not.
#[test]
fn missing_tag_check() {
    let rule_config = rule_config_with(vec![(
        RuleType::LAMBDA_003,
        true,
        RuleTypeConfigDetail::Values { values: vec!["tag1".to_string()] },
    )]);
    let marker = empty_marker();

    let infra = template_of(vec![(
        "MyLambdaFunction",
        lambda_with_props(vec![("Tags", Value::List(vec![dict(vec![("other", s("x"))])]))]),
    )]);
    let mut reporter = ErrorReporter::new("template.yaml");
    check_lambda_missing_tag(&infra, &rule_config, &mut reporter, &marker, "default");
    assert!(reporter.has_errors());
    assert!(reporter.render_errors().contains("LAMBDA-003: MyLambdaFunction"));

    let infra = template_of(vec![(
        "MyLambdaFunction",
        lambda_with_props(vec![("Tags", Value::List(vec![dict(vec![("tag1", s("v"))])]))]),
    )]);
    let mut reporter = ErrorReporter::new("template.yaml");
    check_lambda_missing_tag(&infra, &rule_config, &mut reporter, &marker, "default");
    assert!(!reporter.has_errors());
}

/// A Lambda function without `arm64` among its architectures, or without any
/// declared architecture, is flagged; one on `arm64` is not.
#[test]
fn arm_architecture_check() {
    let marker = empty_marker();

    let infra = template_of(vec![(
        "NoArch",
        lambda_with_props(vec![("MemorySize", Value::Int(128))]),
    )]);
    let mut reporter = ErrorReporter::new("template.yaml");
    check_lambda_architecture_arm(&infra, &mut reporter, &marker);
    assert!(reporter.render_errors().contains("LAMBDA-002: NoArch"));

    let infra = template_of(vec![(
        "X86",
        lambda_with_props(vec![("Architectures", Value::List(vec![s("x86_64")]))]),
    )]);
    let mut reporter = ErrorReporter::new("template.yaml");
    check_lambda_architecture_arm(&infra, &mut reporter, &marker);
    assert!(reporter.render_errors().contains("LAMBDA-002: X86"));

    let infra = template_of(vec![(
        "Arm",
        lambda_with_props(vec![("Architectures", Value::List(vec![s("arm64")]))]),
    )]);
    let mut reporter = ErrorReporter::new("template.yaml");
    check_lambda_architecture_arm(&infra, &mut reporter, &marker);
    assert!(!reporter.has_errors());
}

/// A log group kept for 400 days against a 30-day threshold is flagged as too
/// long; one with no retention at all is flagged under the separate rule; one
/// within the threshold is not flagged.
#[test]
fn retention_check() {
    let rule_config = rule_config_with(vec![
        (
            RuleType::CW_001,
            true,
            RuleTypeConfigDetail::Threshold { threshold: ThresholdValue::Int(30) },
        ),
        (RuleType::CW_002, true, RuleTypeConfigDetail::Simple),
    ]);
    let marker = empty_marker();

    let infra = template_of(vec![(
        "MyLogGroup",
        loggroup_with_props(vec![("RetentionInDays", Value::Int(400))]),
    )]);
    let mut reporter = ErrorReporter::new("template.yaml");
    check_cloudwatch_log_group_retention(&infra, &rule_config, &mut reporter, &marker, "default");
    assert!(reporter.render_errors().contains("CW-001: MyLogGroup"));

    let infra = template_of(vec![(
        "MyLogGroup2",
        loggroup_with_props(vec![("LogGroupClass", s("STANDARD"))]),
    )]);
    let mut reporter = ErrorReporter::new("template.yaml");
    check_cloudwatch_log_group_retention(&infra, &rule_config, &mut reporter, &marker, "default");
    assert!(reporter.render_errors().contains("CW-002: MyLogGroup2"));

    let infra = template_of(vec![(
        "ShortLived",
        loggroup_with_props(vec![("RetentionInDays", Value::Int(14))]),
    )]);
    let mut reporter = ErrorReporter::new("template.yaml");
    check_cloudwatch_log_group_retention(&infra, &rule_config, &mut reporter, &marker, "default");
    assert!(!reporter.has_errors());
}

/// The Powertools variables: a wrong log level, event logging left on, and a
/// sampling rate that differs numerically from the configured decimal.
#[test]
fn powertools_check() {
    let rule_config = rule_config_with(vec![
        (
            RuleType::LAMBDA_005,
            true,
            RuleTypeConfigDetail::Value { value: "INFO".to_string() },
        ),
        (RuleType::LAMBDA_006, true, RuleTypeConfigDetail::Simple),
        (
            RuleType::LAMBDA_007,
            true,
            RuleTypeConfigDetail::Threshold {
                threshold: ThresholdValue::Float(Decimal { neg: false, mant: 5, scale: 1 }),
            },
        ),
    ]);
    let marker = empty_marker();

    let vars = dict(vec![
        ("POWERTOOLS_LOG_LEVEL", s("DEBUG")),
        ("POWERTOOLS_LOGGER_LOG_EVENT", Value::Bool(true)),
        (
            "POWERTOOLS_LOGGER_SAMPLE_RATE",
            Value::Dec(Decimal { neg: false, mant: 50, scale: 2 }),
        ),
    ]);
    let infra = template_of(vec![(
        "Fn",
        lambda_with_props(vec![("Environment", dict(vec![("Variables", vars)]))]),
    )]);
    let mut reporter = ErrorReporter::new("template.yaml");
    check_lambda_powertools_environment_variables(
        &infra,
        &rule_config,
        &mut reporter,
        &marker,
        "default",
    );
    let report = reporter.render_errors();
    assert!(report.contains("LAMBDA-005: Fn"));
    assert!(report.contains("LAMBDA-006: Fn"));
    // 0.50 denotes the same number as the configured 0.5: no sampling finding.
    assert!(!report.contains("LAMBDA-007"));

    let vars = dict(vec![
        ("POWERTOOLS_LOG_LEVEL", s("INFO")),
        ("POWERTOOLS_LOGGER_LOG_EVENT", Value::Bool(false)),
        ("POWERTOOLS_LOGGER_SAMPLE_RATE", Value::Int(1)),
    ]);
    let infra = template_of(vec![(
        "Fn2",
        lambda_with_props(vec![("Environment", dict(vec![("Variables", vars)]))]),
    )]);
    let mut reporter = ErrorReporter::new("template.yaml");
    check_lambda_powertools_environment_variables(
        &infra,
        &rule_config,
        &mut reporter,
        &marker,
        "default",
    );
    // 1 differs numerically from 0.5.
    assert!(reporter.render_errors().contains("LAMBDA-007: Fn2"));
}

/// The engine runs the enabled checks in declared order and anchors findings
/// to template lines recovered by the span resolver.
#[test]
fn run_checks_end_to_end() {
    let text = "Resources:\n  MyFunction:\n    Type: AWS::Lambda::Function\n    Properties:\n      MemorySize: 128\n  MyLogGroup:\n    Type: AWS::Logs::LogGroup\n    Properties:\n      RetentionInDays: 400\n";
    let marker = get_yaml_line_marker(text).unwrap();
    let infra = template_of(vec![
        (
            "MyFunction",
            lambda_with_props(vec![("MemorySize", Value::Int(128))]),
        ),
        (
            "MyLogGroup",
            loggroup_with_props(vec![("RetentionInDays", Value::Int(400))]),
        ),
    ]);
    let config = Config::default();
    let mut reporter = ErrorReporter::new("template.yaml");
    run_checks(&config, &infra, &marker, "default", &mut reporter);
    let report = reporter.render_errors();
    // The default configuration enables the missing-log-group and the two
    // retention rules; the function has no logging config, the log group keeps
    // logs too long.
    assert!(report.contains("LAMBDA-001: MyFunction"));
    assert!(report.contains("CW-001: MyLogGroup"));
    // The retention finding points at the RetentionInDays line of the text.
    assert!(report.contains("template.yaml:9"));
}

/// The span resolver answers logical paths with 1-based line positions, and
/// misses are absent rather than errors.
#[test]
fn span_resolver_lines() {
    let text = "Resources:\n  MyFn:\n    Type: AWS::Serverless::Function\n    Properties:\n      Tags:\n        - key: value\n";
    let marker = get_yaml_line_marker(text).unwrap();
    // A value node starts where its content starts: the sequence under `Tags:`
    // begins on the next line, the mapping under `MyFn:` at its first key.
    let span = marker.get_resource_span(&vec!["MyFn", "Properties", "Tags"]).unwrap();
    assert_eq!(span.start.unwrap().line, 6);
    let span = marker.get_resource_span(&vec!["MyFn"]).unwrap();
    assert_eq!(span.start.unwrap().line, 3);
    assert!(marker.get_resource_span(&vec!["Nobody"]).is_none());
}

/// Tag markers and function-style keys are neutralized with span-preserving
/// placeholders before the reparse.
#[test]
fn preprocessing_keeps_layout() {
    let text = "a: !Ref B\nFn::Sub: x\n";
    let cleaned = cloudsaving::parsers::preprocess_yaml(text);
    assert_eq!(cleaned, "a: ###Ref B\n###REPLACED x\n");
    let text = "plain: value\n";
    let cleaned = cloudsaving::parsers::preprocess_yaml(text);
    assert_eq!(cleaned, "plain: value\n");
}

/// The report renderer: one finding line and one location line per violation.
#[test]
fn render_format() {
    let mut reporter = ErrorReporter::new("template.yaml");
    reporter.add_error(
        ViolationKind::CloudWatch(CloudWatchViolation::NoLogRetention),
        "MyLogGroup",
        Some(SourceSpan { start: Some(SourcePos { line: 12, column: 3 }) }),
    );
    let expected = "CW-002: MyLogGroup: The log group has no retention policy. Consider setting a retention policy to save costs and improve log management efficiency.\ntemplate.yaml:12\n";
    assert_eq!(reporter.render_errors(), expected);
    assert!(reporter.has_errors());
}

/// Numeric equality of scalars against decimal thresholds is by value, not by
/// spelling.
#[test]
fn decimal_equality() {
    let half = Decimal { neg: false, mant: 5, scale: 1 };
    assert!(Value::Dec(Decimal { neg: false, mant: 50, scale: 2 }).num_eq(&half));
    assert!(!Value::Dec(Decimal { neg: false, mant: 5, scale: 2 }).num_eq(&half));
    let one = Decimal { neg: false, mant: 10, scale: 1 };
    assert!(Value::Int(1).num_eq(&one));
    assert!(!Value::Int(-1).num_eq(&one));
    assert!(!Value::Str("0.5".to_string()).num_eq(&half));
}

/// Override strings split at whitespace and the first equals sign; tokens
/// without one are dropped.
#[test]
fn override_splitting() {
    let pairs = cloudsaving::parsers::cfn::split_parameter_overrides("A=1  B=2 junk C=x=y");
    assert_eq!(
        pairs,
        vec![
            ("A".to_string(), "1".to_string()),
            ("B".to_string(), "2".to_string()),
            ("C".to_string(), "x=y".to_string()),
        ]
    );
    assert!(cloudsaving::parsers::cfn::split_parameter_overrides("   ").is_empty());
}
