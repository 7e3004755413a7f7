//! The AWS rule evaluation engine: independent, read-only checks over the
//! resolved template, dispatched by resource kind.
pub mod cloudwatch;
pub mod lambda;

use vstd::prelude::*;
use crate::error_reporter::ErrorDetailView;
use crate::parsers::cfn::{Resource, ResourceView};
use crate::parsers::iac::InfratructureTemplate;
use crate::parsers::cfn::CloudFormationView;
use crate::parsers::value::{lookup, Value, ValueView};
use crate::parsers::{SourceSpan, SpanNodeView};
use crate::rules::violations::ViolationKind;

verus! {

/// A property of a resource, when it has a property bag and the key is there.
pub open spec fn spec_prop(r: ResourceView, k: Seq<char>) -> Option<ValueView> {
    match r.properties {
        Some(props) => lookup(props, k),
        None => None,
    }
}

/// One finding, assembled.
pub open spec fn mk_detail(
    v: ViolationKind,
    name: Seq<char>,
    span: Option<SourceSpan>,
) -> ErrorDetailView {
    ErrorDetailView { violation: v, resource_name: name, span }
}

/// The resource table a check walks: empty when the template or its resources
/// are absent.
pub open spec fn spec_resources_of(infra: Option<CloudFormationView>) -> Seq<
    (Seq<char>, ResourceView),
> {
    match infra {
        Some(cfn) => match cfn.resources {
            Some(rs) => rs,
            None => Seq::empty(),
        },
        None => Seq::empty(),
    }
}

/// A property of a resource, when it has a property bag and the key is there.
pub fn resource_prop<'a>(r: &'a Resource, key: &str) -> (res: Option<&'a Value>)
    ensures
        match res {
            Some(v) => spec_prop(r.deep_view(), key@) == Some(v.deep_view()),
            None => spec_prop(r.deep_view(), key@) is None,
        },
{
    match &r.properties {
        Some(props) => crate::parsers::value::dict_get(props, key),
        None => None,
    }
}

} // verus!
