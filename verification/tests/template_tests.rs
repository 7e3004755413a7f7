//! Template decoding and resolution, exercised end to end on a small
//! serverless template and a deployment-override source.
use cloudsaving::parsers::cfn::{CloudFormation, ResolveError, SamConfig};
use cloudsaving::parsers::value::{Decimal, Value};

fn s(text: &str) -> Value {
    Value::Str(text.to_string())
}

fn dict(entries: Vec<(&str, Value)>) -> Value {
    Value::Dict(entries.into_iter().map(|(k, v)| (k.to_string(), v)).collect())
}

fn tagged(tag: &str, v: Value) -> Value {
    Value::Tagged(tag.to_string(), Box::new(v))
}

/// The example template: four parameters, one mapping, shared function
/// globals, one serverless function, one output.
fn example_template_value() -> Value {
    dict(vec![
        ("AWSTemplateFormatVersion", s("2010-09-09")),
        ("Description", s("Example CloudFormation Template")),
        (
            "Parameters",
            dict(vec![
                ("DatabaseName", dict(vec![("Type", s("String")), ("Default", s("default-db"))])),
                ("ApiKey", dict(vec![("Type", s("String"))])),
                ("Environment", dict(vec![("Type", s("String")), ("Default", s("dev"))])),
                ("Region", dict(vec![("Type", s("String")), ("Default", s("us-east-1"))])),
            ]),
        ),
        (
            "Mappings",
            dict(vec![(
                "Region",
                dict(vec![("us-east-1", dict(vec![("LOG_LEVEL", s("INFO"))]))]),
            )]),
        ),
        (
            "Globals",
            dict(vec![(
                "Function",
                dict(vec![
                    ("Timeout", Value::Int(30)),
                    (
                        "Environment",
                        dict(vec![(
                            "Variables",
                            dict(vec![
                                (
                                    "LOG_LEVEL",
                                    tagged(
                                        "!FindInMap",
                                        Value::List(vec![
                                            s("Region"),
                                            tagged("!Ref", s("Region")),
                                            s("LOG_LEVEL"),
                                        ]),
                                    ),
                                ),
                                ("ENVIRONMENT", tagged("!Ref", s("Environment"))),
                                ("POWERTOOLS_LOGGER_SAMPLE_RATE", Value::Int(1)),
                            ]),
                        )]),
                    ),
                ]),
            )]),
        ),
        (
            "Resources",
            dict(vec![(
                "ExampleResource",
                dict(vec![
                    ("Type", s("AWS::Serverless::Function")),
                    (
                        "Properties",
                        dict(vec![(
                            "Environment",
                            dict(vec![("Variables", dict(vec![("LOG_LEVEL", s("ERROR"))]))]),
                        )]),
                    ),
                ]),
            )]),
        ),
        (
            "Outputs",
            dict(vec![(
                "ExampleOutput",
                dict(vec![("Description", s("The example")), ("Value", s("example"))]),
            )]),
        ),
    ])
}

/// The example override source: two environments, the default one carrying
/// deployment parameters and overrides.
fn example_samconfig_value() -> Value {
    dict(vec![
        ("version", Value::Dec(Decimal { neg: false, mant: 1, scale: 1 })),
        (
            "default",
            dict(vec![(
                "deploy",
                dict(vec![(
                    "parameters",
                    dict(vec![
                        ("stack_name", s("my-sam-application")),
                        ("s3_bucket", s("my-sam-deployments-bucket")),
                        ("s3_prefix", s("my-sam-app")),
                        ("region", s("us-east-1")),
                        ("confirm_changeset", Value::Bool(true)),
                        ("capabilities", s("CAPABILITY_IAM")),
                        (
                            "parameter_overrides",
                            s("DatabaseName=my-database ApiKey=my-api-key Environment=default"),
                        ),
                    ]),
                )]),
            )]),
        ),
        ("prod", dict(vec![])),
    ])
}

fn get<'a>(v: &'a Value, key: &str) -> Option<&'a Value> {
    v.get(key)
}

#[test]
fn test_parse_cloudformation() {
    let cloudformation = CloudFormation::from_value(&example_template_value()).unwrap();
    assert_eq!(
        cloudformation.awstemplate_format_version,
        Some("2010-09-09".to_string())
    );
    assert_eq!(
        cloudformation.description,
        Some("Example CloudFormation Template".to_string())
    );
    assert_eq!(cloudformation.parameters.unwrap().len(), 4);
    assert_eq!(cloudformation.mappings.unwrap().len(), 1);
    assert_eq!(cloudformation.globals.unwrap().function.unwrap().len(), 2);
    assert_eq!(cloudformation.resources.unwrap().len(), 1);
    assert_eq!(cloudformation.outputs.unwrap().len(), 1);
}

#[test]
fn test_resolve_parameters() {
    let mut cloudformation = CloudFormation::from_value(&example_template_value()).unwrap();
    let samconfig = SamConfig::from_value(&example_samconfig_value()).unwrap();
    cloudformation
        .resolve_parameters(Some(&samconfig), Some("default"))
        .unwrap();
    let parameters = cloudformation.parameters.as_ref().unwrap();
    let database_name = &parameters.iter().find(|(k, _)| k == "DatabaseName").unwrap().1;
    assert_eq!(
        database_name.default.as_ref().and_then(|v| v.as_str()),
        Some(&"my-database".to_string())
    );
    let api_key = &parameters.iter().find(|(k, _)| k == "ApiKey").unwrap().1;
    assert_eq!(
        api_key.default.as_ref().and_then(|v| v.as_str()),
        Some(&"my-api-key".to_string())
    );

    let globals = cloudformation.globals.as_ref().unwrap();
    let function = globals.function.as_ref().unwrap();
    let environment = &function.iter().find(|(k, _)| k == "Environment").unwrap().1;
    let variables = get(environment, "Variables").unwrap();
    let log_level = get(variables, "LOG_LEVEL").unwrap();
    assert_eq!(log_level.as_str(), Some(&"INFO".to_string()));
    let env_var = get(variables, "ENVIRONMENT").unwrap();
    assert_eq!(env_var.as_str(), Some(&"default".to_string()));
    let sample_rate = get(variables, "POWERTOOLS_LOGGER_SAMPLE_RATE").unwrap();
    assert_eq!(sample_rate.as_u64(), Some(1));

    // The global variables are merged into the resource, but a variable the
    // resource defines itself keeps the resource's own value.
    let resources = cloudformation.resources.as_ref().unwrap();
    let lambda_function = &resources.iter().find(|(k, _)| k == "ExampleResource").unwrap().1;
    let properties = lambda_function.properties.as_ref().unwrap();
    let environment = properties.iter().find(|(k, _)| k == "Environment").unwrap();
    let variables = get(&environment.1, "Variables").unwrap();
    let log_level = get(variables, "LOG_LEVEL").unwrap();
    assert_eq!(log_level.as_str(), Some(&"ERROR".to_string()));
    let sample_rate = get(variables, "POWERTOOLS_LOGGER_SAMPLE_RATE").unwrap();
    assert_eq!(sample_rate.as_u64(), Some(1));
}

#[test]
fn test_parse_samconfig() {
    let samconfig = SamConfig::from_value(&example_samconfig_value()).unwrap();
    assert_eq!(samconfig.version, Some("0.1".to_string()));
    assert_eq!(samconfig.environments.len(), 2);
    let default_env = &samconfig.environments.iter().find(|(k, _)| k == "default").unwrap().1;
    assert!(default_env.deploy.as_ref().unwrap().parameters.is_some());
    let deploy_params = default_env.deploy.as_ref().unwrap().parameters.as_ref().unwrap();
    assert_eq!(deploy_params.stack_name, Some("my-sam-application".to_string()));
    assert_eq!(deploy_params.s3_bucket, Some("my-sam-deployments-bucket".to_string()));
    assert_eq!(deploy_params.s3_prefix, Some("my-sam-app".to_string()));
    assert_eq!(deploy_params.region, Some("us-east-1".to_string()));
    assert_eq!(deploy_params.confirm_changeset, Some(true));
    assert_eq!(deploy_params.capabilities, Some("CAPABILITY_IAM".to_string()));
    let overrides = deploy_params.parameter_overrides.as_ref().unwrap();
    assert_eq!(
        overrides,
        &vec![
            ("DatabaseName".to_string(), "my-database".to_string()),
            ("ApiKey".to_string(), "my-api-key".to_string()),
            ("Environment".to_string(), "default".to_string()),
        ]
    );
}

/// Running the resolver twice on an already-resolved template yields no
/// further change.
#[test]
fn resolving_twice_changes_nothing() {
    let mut once = CloudFormation::from_value(&example_template_value()).unwrap();
    let samconfig = SamConfig::from_value(&example_samconfig_value()).unwrap();
    once.resolve_parameters(Some(&samconfig), Some("default")).unwrap();
    let mut twice = CloudFormation::from_value(&example_template_value()).unwrap();
    twice.resolve_parameters(Some(&samconfig), Some("default")).unwrap();
    twice.resolve_parameters(Some(&samconfig), Some("default")).unwrap();
    let vars_of = |c: &CloudFormation| -> Vec<(String, Option<String>)> {
        let resources = c.resources.as_ref().unwrap();
        let props = resources[0].1.properties.as_ref().unwrap();
        let env = &props.iter().find(|(k, _)| k == "Environment").unwrap().1;
        match env.get("Variables").unwrap() {
            Value::Dict(entries) => entries
                .iter()
                .map(|(k, v)| (k.clone(), v.as_str().cloned()))
                .collect(),
            _ => panic!("variables are a mapping"),
        }
    };
    assert_eq!(vars_of(&once), vars_of(&twice));
    let defaults_of = |c: &CloudFormation| -> Vec<(String, Option<String>)> {
        c.parameters
            .as_ref()
            .unwrap()
            .iter()
            .map(|(k, p)| (k.clone(), p.default.as_ref().and_then(|d| d.as_str()).cloned()))
            .collect()
    };
    assert_eq!(defaults_of(&once), defaults_of(&twice));
}

/// A missing or unknown deployment environment is a configuration error, not a
/// silent no-op.
#[test]
fn unknown_environment_is_refused() {
    let mut cloudformation = CloudFormation::from_value(&example_template_value()).unwrap();
    let samconfig = SamConfig::from_value(&example_samconfig_value()).unwrap();
    assert_eq!(
        cloudformation.resolve_parameters(Some(&samconfig), Some("nonexistent")),
        Err(ResolveError::UnknownEnvironment)
    );
    assert_eq!(
        cloudformation.resolve_parameters(Some(&samconfig), None),
        Err(ResolveError::MissingEnvironment)
    );
    assert!(cloudformation.resolve_parameters(None, Some("default")).is_ok());
}

/// A table lookup with a nested reference resolves through the parameter's
/// default: `Mappings.Region.us-east-1.LOG_LEVEL` is `INFO`, the `Region`
/// parameter defaults to `us-east-1`, so the tagged lookup yields `INFO`.
#[test]
fn table_lookup_with_nested_reference() {
    let mut cloudformation = CloudFormation::from_value(&example_template_value()).unwrap();
    cloudformation.resolve_parameters(None, Some("default")).unwrap();
    let globals = cloudformation.globals.as_ref().unwrap();
    let function = globals.function.as_ref().unwrap();
    let environment = &function.iter().find(|(k, _)| k == "Environment").unwrap().1;
    let variables = environment.get("Variables").unwrap();
    let log_level = variables.get("LOG_LEVEL").unwrap();
    assert_eq!(log_level.as_str(), Some(&"INFO".to_string()));
    // Without a deployment override the reference substitutes the template
    // default of the Environment parameter.
    let env_var = variables.get("ENVIRONMENT").unwrap();
    assert_eq!(env_var.as_str(), Some(&"dev".to_string()));
}

/// A deployment override wins over the template default.
#[test]
fn override_precedence() {
    let mut cloudformation = CloudFormation::from_value(&example_template_value()).unwrap();
    let samconfig = SamConfig::from_value(&example_samconfig_value()).unwrap();
    cloudformation
        .resolve_parameters(Some(&samconfig), Some("default"))
        .unwrap();
    let parameters = cloudformation.parameters.as_ref().unwrap();
    // Template default "default-db", override "my-database": the override wins.
    let database_name = &parameters.iter().find(|(k, _)| k == "DatabaseName").unwrap().1;
    assert_eq!(
        database_name.default.as_ref().and_then(|v| v.as_str()),
        Some(&"my-database".to_string())
    );
}
