//! The document model's value tree and its accessors.
use cloudsaving::parsers::cfn::{dec_to_string, CloudFormation, Mapping, Output, Parameter};
use cloudsaving::parsers::iac::{IaCMapping, IaCOutput, IaCParameter, IaCResource};
use cloudsaving::error_reporter::u64_to_string;
use cloudsaving::parsers::value::{Decimal, DecodeError, Value};

fn s(text: &str) -> Value {
    Value::Str(text.to_string())
}

fn dict(entries: Vec<(&str, Value)>) -> Value {
    Value::Dict(entries.into_iter().map(|(k, v)| (k.to_string(), v)).collect())
}

fn decode_err(v: &Value) -> DecodeError {
    match CloudFormation::from_value(v) {
        Err(e) => e,
        Ok(_) => panic!("a malformed template must be refused"),
    }
}

#[test]
fn numbers_render_in_decimal() {
    assert_eq!(u64_to_string(0), "0");
    assert_eq!(u64_to_string(407), "407");
    assert_eq!(u64_to_string(18446744073709551615), "18446744073709551615");
    assert_eq!(dec_to_string(&Decimal { neg: false, mant: 1, scale: 1 }), "0.1");
    assert_eq!(dec_to_string(&Decimal { neg: true, mant: 250, scale: 2 }), "-2.50");
    assert_eq!(dec_to_string(&Decimal { neg: false, mant: 1005, scale: 2 }), "10.05");
    assert_eq!(dec_to_string(&Decimal { neg: false, mant: 7, scale: 0 }), "7");
    assert_eq!(dec_to_string(&Decimal { neg: false, mant: 1, scale: 3 }), "0.001");
}

#[test]
fn malformed_templates_are_refused() {
    // The whole document must be a mapping.
    assert_eq!(decode_err(&s("nope")), DecodeError::WrongShape("document"));
    // A parameter needs a string type.
    let bad = dict(vec![(
        "Parameters",
        dict(vec![("P", dict(vec![("Default", s("x"))]))]),
    )]);
    assert_eq!(decode_err(&bad), DecodeError::MissingField("Type"));
    // A resource needs a type.
    let bad = dict(vec![(
        "Resources",
        dict(vec![("R", dict(vec![("Properties", dict(vec![]))]))]),
    )]);
    assert_eq!(decode_err(&bad), DecodeError::MissingField("Type"));
    // An output needs its description and value.
    let bad = dict(vec![(
        "Outputs",
        dict(vec![("O", dict(vec![("Value", s("v"))]))]),
    )]);
    assert_eq!(decode_err(&bad), DecodeError::MissingField("Description"));
    assert_eq!(
        DecodeError::WrongShape("Export").message(),
        "unexpected shape under `Export`"
    );
}

#[test]
fn unknown_resource_types_are_kept_verbatim() {
    let tree = dict(vec![(
        "Resources",
        dict(vec![
            ("Bucket", dict(vec![("Type", s("AWS::S3::Bucket"))])),
            ("Fn", dict(vec![("Type", s("aws::lambda::FUNCTION"))])),
        ]),
    )]);
    let cfn = CloudFormation::from_value(&tree).unwrap();
    let resources = cfn.resources.unwrap();
    assert_eq!(resources[0].1.get_type(), "AWS::S3::Bucket");
    // The kind match pays no regard to case.
    assert_eq!(resources[1].1.get_type(), "AWS::Lambda::Function");
}

#[test]
fn accessors_read_the_typed_records() {
    let p = Parameter {
        type_: "String".to_string(),
        default: Some(s("dev")),
        description: Some("the environment".to_string()),
        other: Vec::new(),
    };
    assert_eq!(p.get_type(), "String");
    assert_eq!(p.get_default(), Some("dev".to_string()));
    assert_eq!(p.get_description(), Some("the environment".to_string()));

    let m = Mapping {
        map: vec![(
            "us-east-1".to_string(),
            vec![("LOG_LEVEL".to_string(), s("INFO"))],
        )],
    };
    assert_eq!(
        m.get_value("us-east-1", "LOG_LEVEL").and_then(|v| v.as_str().cloned()),
        Some("INFO".to_string())
    );
    assert!(m.get_value("eu-west-1", "LOG_LEVEL").is_none());

    let o = Output {
        description: "the example".to_string(),
        value: "example".to_string(),
        export: Some(vec![("Name".to_string(), "example-export".to_string())]),
    };
    assert_eq!(o.get_description(), Some("the example".to_string()));
    assert_eq!(o.get_value(), "example");
    assert_eq!(
        o.get_export(),
        Some(vec![("Name".to_string(), "example-export".to_string())])
    );
}

#[test]
fn values_answer_by_shape() {
    let v = dict(vec![("a", Value::Int(3)), ("b", Value::Bool(true))]);
    assert_eq!(v.get("a").and_then(|x| x.as_u64()), Some(3));
    assert_eq!(v.get("b").and_then(|x| x.as_bool()), Some(true));
    assert!(v.get("c").is_none());
    assert!(Value::Int(-1).as_u64().is_none());
    assert!(s("3").as_u64().is_none());
    assert!(Value::Int(3).get("a").is_none());
}
