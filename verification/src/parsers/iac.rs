//! Cloud-agnostic abstractions over infrastructure templates.
use vstd::prelude::*;
use crate::parsers::cfn::CloudFormation;
use crate::parsers::value::Value;

verus! {

/// The template under analysis; currently only a CloudFormation/SAM document.
pub struct InfratructureTemplate {
    pub cloudformation: Option<CloudFormation>,
}

/// The mathematical shape of an `InfratructureTemplate`.
#[verifier::ext_equal]
pub struct InfratructureTemplateView {
    pub cloudformation: Option<crate::parsers::cfn::CloudFormationView>,
}

impl DeepView for InfratructureTemplate {
    type V = InfratructureTemplateView;

    open spec fn deep_view(&self) -> InfratructureTemplateView {
        InfratructureTemplateView {
            cloudformation: match self.cloudformation {
                Some(ref c) => Some(c.deep_view()),
                None => None,
            },
        }
    }
}

/// A declared template parameter, seen abstractly.
pub trait IaCParameter {
    fn get_type(&self) -> String;

    fn get_default(&self) -> Option<String>;

    fn get_description(&self) -> Option<String>;
}

/// A two-level lookup table, seen abstractly.
pub trait IaCMapping {
    fn get_value(&self, key1: &str, key2: &str) -> Option<Value>;
}

/// A declared resource, seen abstractly.
pub trait IaCResource {
    fn get_type(&self) -> String;

    fn get_properties(&self) -> Option<Vec<(String, Value)>>;
}

/// A declared output, seen abstractly.
pub trait IaCOutput {
    fn get_description(&self) -> Option<String>;

    fn get_value(&self) -> String;

    fn get_export(&self) -> Option<Vec<(String, String)>>;
}

/// The construct kinds the checks know; every other type string is kept
/// verbatim under `Unknown`.
pub enum AWSResourceType {
    LambdaFunction,
    LambdaServerlessFunction,
    CloudWatch,
    Unknown(String),
}

/// The mathematical shape of an `AWSResourceType`.
#[verifier::ext_equal]
pub enum AWSResourceTypeView {
    LambdaFunction,
    LambdaServerlessFunction,
    CloudWatch,
    Unknown(Seq<char>),
}

impl DeepView for AWSResourceType {
    type V = AWSResourceTypeView;

    open spec fn deep_view(&self) -> AWSResourceTypeView {
        match self {
            AWSResourceType::LambdaFunction => AWSResourceTypeView::LambdaFunction,
            AWSResourceType::LambdaServerlessFunction
                => AWSResourceTypeView::LambdaServerlessFunction,
            AWSResourceType::CloudWatch => AWSResourceTypeView::CloudWatch,
            AWSResourceType::Unknown(s) => AWSResourceTypeView::Unknown(s@),
        }
    }
}

impl AWSResourceTypeView {
    /// The kinds that stand for a Lambda function, in either dialect.
    pub open spec fn is_lambda_kind(self) -> bool {
        self is LambdaFunction || self is LambdaServerlessFunction
    }
}

impl AWSResourceType {
    pub fn is_lambda(&self) -> (r: bool)
        ensures
            r == self.deep_view().is_lambda_kind(),
    {
        match self {
            AWSResourceType::LambdaFunction => true,
            AWSResourceType::LambdaServerlessFunction => true,
            _ => false,
        }
    }

    pub fn is_cloudwatch(&self) -> (r: bool)
        ensures
            r == (self.deep_view() is CloudWatch),
    {
        matches!(self, AWSResourceType::CloudWatch)
    }

    pub fn clone_type(&self) -> (r: Self)
        ensures
            r.deep_view() == self.deep_view(),
    {
        match self {
            AWSResourceType::LambdaFunction => AWSResourceType::LambdaFunction,
            AWSResourceType::LambdaServerlessFunction => AWSResourceType::LambdaServerlessFunction,
            AWSResourceType::CloudWatch => AWSResourceType::CloudWatch,
            AWSResourceType::Unknown(s) => AWSResourceType::Unknown(s.clone()),
        }
    }
}

} // verus!
