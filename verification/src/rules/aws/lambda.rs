//! The Lambda checks: log group, architecture, tags, retry attempts, and the
//! Powertools environment variables.
use vstd::prelude::*;
use crate::error_reporter::{ErrorDetailView, ErrorReporter};
use crate::parsers::cfn::{Resource, ResourceView};
use crate::parsers::config::{
    RuleConfig, RuleConfigView, RuleType, RuleTypeConfigDetailView, ThresholdValue,
};
use crate::parsers::iac::InfratructureTemplate;
use crate::parsers::value::{
    lookup, views_of_entries, Decimal, Value, ValueView, MAX_SCALE,
};
use crate::parsers::{spec_resource_span, SpanNodeView, YamlLineMarker};
use crate::rules::aws::{mk_detail, spec_prop, spec_resources_of, resource_prop};
use crate::rules::violations::{LambdaViolation, ViolationKind};

verus! {

/// Whether some target tag appears as a key of some element of the resource's
/// `Tags` sequence.
pub open spec fn spec_tag_exists(targets: Seq<Seq<char>>, tags: ValueView) -> bool {
    exists|i: int| 0 <= i < targets.len() && spec_tag_in(tags, targets[i])
}

/// Whether one tag name appears as a key of some element of a tag sequence.
pub open spec fn spec_tag_in(tags: ValueView, t: Seq<char>) -> bool {
    &&& tags is List
    &&& exists|j: int|
        0 <= j < tags->List_0.len() && (#[trigger] tags->List_0[j] matches ValueView::Dict(es)
            && lookup(es, t) is Some)
}

/// The missing-tag findings of one resource; the target tags are the active
/// environment's setting.
pub open spec fn spec_tag_one(
    name: Seq<char>,
    r: ResourceView,
    cfg: RuleConfigView,
    marker: SpanNodeView,
    env: Seq<char>,
) -> Seq<ErrorDetailView> {
    if r.type_.is_lambda_kind() && r.properties is Some {
        let hit = mk_detail(
            ViolationKind::Lambda(LambdaViolation::MissingTag),
            name,
            spec_resource_span(marker, seq![name, "Properties"@, "Tags"@]),
        );
        match spec_prop(r, "Tags"@) {
            Some(tags) => match cfg.spec_get_rule(RuleType::LAMBDA_003, env) {
                Some(rule_type) => match rule_type.config_detail {
                    RuleTypeConfigDetailView::Values { values } => if !spec_tag_exists(
                        values,
                        tags,
                    ) {
                        seq![hit]
                    } else {
                        Seq::empty()
                    },
                    _ => Seq::empty(),
                },
                None => seq![hit],
            },
            None => seq![
                mk_detail(
                    ViolationKind::Lambda(LambdaViolation::MissingTag),
                    name,
                    spec_resource_span(marker, seq![name]),
                ),
            ],
        }
    } else {
        Seq::empty()
    }
}

/// Whether one tag name appears as a key of some element of a tag sequence.
fn tag_in(tags: &Value, t: &str) -> (r: bool)
    ensures
        r == spec_tag_in(tags.deep_view(), t@),
{
    match tags {
        Value::List(items) => {
            proof {
                crate::parsers::value::lemma_views_of_values(items@);
            }
            let mut j: usize = 0;
            while j < items.len()
                invariant
                    *tags == Value::List(*items),
                    j <= items.len(),
                    forall|q: int|
                        0 <= q < j ==> !(#[trigger] items@[q].deep_view()
                            matches ValueView::Dict(es) && lookup(es, t@) is Some),
                decreases items.len() - j,
            {
                match &items[j] {
                    Value::Dict(es) => {
                        proof {
                            assert(items@[j as int].deep_view() == ValueView::Dict(
                                views_of_entries(es@),
                            ));
                        }
                        match crate::parsers::value::dict_get(es, t) {
                            Some(_) => {
                                proof {
                                    crate::parsers::value::lemma_views_of_values(items@);
                                    assert(tags.deep_view()->List_0[j as int]
                                        == items@[j as int].deep_view());
                                }
                                return true;
                            },
                            None => {},
                        }
                    },
                    _ => {},
                }
                j = j + 1;
            }
            proof {
                assert forall|q: int| 0 <= q < tags.deep_view()->List_0.len() implies !(
                #[trigger] tags.deep_view()->List_0[q] matches ValueView::Dict(es) && lookup(
                    es,
                    t@,
                ) is Some) by {
                    assert(tags.deep_view()->List_0[q] == items@[q].deep_view());
                }
            }
            false
        },
        _ => false,
    }
}

/// Whether some configured target tag appears in the resource's tags.
fn tag_exists(targets: &Vec<String>, tags: &Value) -> (r: bool)
    ensures
        r == spec_tag_exists(Seq::new(targets@.len(), |i: int| targets@[i]@), tags.deep_view()),
{
    let ghost tv = Seq::new(targets@.len(), |i: int| targets@[i]@);
    let mut i: usize = 0;
    while i < targets.len()
        invariant
            i <= targets.len(),
            tv == Seq::new(targets@.len(), |i: int| targets@[i]@),
            forall|q: int| 0 <= q < i ==> !spec_tag_in(tags.deep_view(), #[trigger] tv[q]),
        decreases targets.len() - i,
    {
        if tag_in(tags, targets[i].as_str()) {
            proof {
                assert(spec_tag_in(tags.deep_view(), tv[i as int]));
            }
            return true;
        }
        i = i + 1;
    }
    false
}

/// Missing tag: a Lambda resource must carry at least one of the target tags
/// the active environment configures; a resource with no `Tags` at all is
/// flagged too.
pub fn check_lambda_missing_tag(
    infra_template: &InfratructureTemplate,
    rule_config: &RuleConfig,
    error_reporter: &mut ErrorReporter,
    line_marker: &YamlLineMarker,
    environment: &str,
)
    ensures
        final(error_reporter).deep_view().errors == old(error_reporter).deep_view().errors
            + spec_check_tags(
            spec_resources_of(infra_template.deep_view().cloudformation),
            rule_config.deep_view(),
            line_marker.deep_view(),
            environment@,
        ),
        final(error_reporter).deep_view().file_path == old(error_reporter).deep_view().file_path,
{
    let resources: &Vec<(String, Resource)> = match &infra_template.cloudformation {
        Some(cfn) => match &cfn.resources {
            Some(rs) => rs,
            None => {
                proof {
                    assert(error_reporter.deep_view().errors =~= old(
                        error_reporter,
                    ).deep_view().errors + spec_check_tags(
                        spec_resources_of(infra_template.deep_view().cloudformation),
                        rule_config.deep_view(),
                        line_marker.deep_view(),
                        environment@,
                    ));
                }
                return ;
            },
        },
        None => {
            proof {
                assert(error_reporter.deep_view().errors =~= old(error_reporter).deep_view().errors
                    + spec_check_tags(
                    spec_resources_of(infra_template.deep_view().cloudformation),
                    rule_config.deep_view(),
                    line_marker.deep_view(),
                    environment@,
                ));
            }
            return ;
        },
    };
    let ghost rsv = spec_resources_of(infra_template.deep_view().cloudformation);
    proof {
        assert(rsv =~= crate::parsers::value::keyed_views(
            resources@,
            |x: Resource| x.deep_view(),
        ));
        assert(rsv.take(0) =~= Seq::<(Seq<char>, ResourceView)>::empty());
    }
    let mut i: usize = 0;
    while i < resources.len()
        invariant
            i <= resources.len(),
            rsv == crate::parsers::value::keyed_views(resources@, |x: Resource| x.deep_view()),
            rsv.len() == resources@.len(),
            forall|j: int|
                0 <= j < resources@.len() ==> rsv[j] == (
                    resources@[j].0@,
                    resources@[j].1.deep_view(),
                ),
            error_reporter.deep_view().errors == old(error_reporter).deep_view().errors
                + spec_check_tags(
                rsv.take(i as int),
                rule_config.deep_view(),
                line_marker.deep_view(),
                environment@,
            ),
            error_reporter.deep_view().file_path == old(error_reporter).deep_view().file_path,
        decreases resources.len() - i,
    {
        let key = &resources[i].0;
        let resource = &resources[i].1;
        let ghost before = error_reporter.deep_view().errors;
        if resource.type_.is_lambda() && resource.properties.is_some() {
            match resource_prop(resource, "Tags") {
                Some(tags) => {
                    match rule_config.get_rule(RuleType::LAMBDA_003, environment) {
                        Some(rule_type) => {
                            match rule_type.config_detail.get_values() {
                                Some(target_tags) => {
                                    if !tag_exists(target_tags, tags) {
                                        let path = vec![key.as_str(), "Properties", "Tags"];
                                        proof {
                                            assert(path.deep_view() =~= seq![
                                                key@,
                                                "Properties"@,
                                                "Tags"@,
                                            ]);
                                        }
                                        let span = line_marker.get_resource_span(&path);
                                        error_reporter.add_error(
                                            ViolationKind::Lambda(LambdaViolation::MissingTag),
                                            key.as_str(),
                                            span,
                                        );
                                    }
                                },
                                None => {},
                            }
                        },
                        None => {
                            let path = vec![key.as_str(), "Properties", "Tags"];
                            proof {
                                assert(path.deep_view() =~= seq![key@, "Properties"@, "Tags"@]);
                            }
                            let span = line_marker.get_resource_span(&path);
                            error_reporter.add_error(
                                ViolationKind::Lambda(LambdaViolation::MissingTag),
                                key.as_str(),
                                span,
                            );
                        },
                    }
                },
                None => {
                    let path = vec![key.as_str()];
                    proof {
                        assert(path.deep_view() =~= seq![key@]);
                    }
                    let span = line_marker.get_resource_span(&path);
                    error_reporter.add_error(
                        ViolationKind::Lambda(LambdaViolation::MissingTag),
                        key.as_str(),
                        span,
                    );
                },
            }
        }
        proof {
            assert(rsv.take(i + 1).drop_last() =~= rsv.take(i as int));
            assert(rsv.take(i + 1).last() == rsv[i as int]);
            assert(error_reporter.deep_view().errors =~= before + spec_tag_one(
                rsv[i as int].0,
                rsv[i as int].1,
                rule_config.deep_view(),
                line_marker.deep_view(),
                environment@,
            ));
        }
        i = i + 1;
    }
    proof {
        assert(rsv.take(resources@.len() as int) =~= rsv);
    }
}

} // verus!

verus! {

/// Whether the `Architectures` value is a sequence that contains `arm64`.
pub open spec fn spec_has_arm(a: ValueView) -> bool {
    &&& a is List
    &&& exists|j: int|
        0 <= j < a->List_0.len() && #[trigger] a->List_0[j] == ValueView::Str("arm64"@)
}

/// The ARM-architecture findings of one resource.
pub open spec fn spec_arm_one(name: Seq<char>, r: ResourceView, marker: SpanNodeView) -> Seq<
    ErrorDetailView,
> {
    if r.type_.is_lambda_kind() && r.properties is Some {
        match spec_prop(r, "Architectures"@) {
            Some(a) => if !spec_has_arm(a) {
                seq![
                    mk_detail(
                        ViolationKind::Lambda(LambdaViolation::ARMArchitecture),
                        name,
                        spec_resource_span(marker, seq![name, "Properties"@, "Architectures"@]),
                    ),
                ]
            } else {
                Seq::empty()
            },
            None => seq![
                mk_detail(
                    ViolationKind::Lambda(LambdaViolation::ARMArchitecture),
                    name,
                    spec_resource_span(marker, seq![name]),
                ),
            ],
        }
    } else {
        Seq::empty()
    }
}

/// Whether an `Architectures` value contains `arm64`.
fn has_arm(a: &Value) -> (r: bool)
    ensures
        r == spec_has_arm(a.deep_view()),
{
    match a {
        Value::List(items) => {
            proof {
                crate::parsers::value::lemma_views_of_values(items@);
            }
            let mut j: usize = 0;
            while j < items.len()
                invariant
                    *a == Value::List(*items),
                    j <= items.len(),
                    forall|q: int|
                        0 <= q < j ==> #[trigger] items@[q].deep_view() != ValueView::Str(
                            "arm64"@,
                        ),
                decreases items.len() - j,
            {
                match &items[j] {
                    Value::Str(s) => {
                        if crate::parsers::value::str_eq(s.as_str(), "arm64") {
                            proof {
                                crate::parsers::value::lemma_views_of_values(items@);
                                assert(a.deep_view()->List_0[j as int] == items@[
                                    j as int
                                ].deep_view());
                            }
                            return true;
                        }
                    },
                    _ => {},
                }
                j = j + 1;
            }
            proof {
                assert forall|q: int| 0 <= q < a.deep_view()->List_0.len() implies #[trigger] a
                    .deep_view()->List_0[q] != ValueView::Str("arm64"@) by {
                    assert(a.deep_view()->List_0[q] == items@[q].deep_view());
                }
            }
            false
        },
        _ => false,
    }
}

/// ARM architecture: a Lambda resource that does not declare `arm64` among its
/// architectures, or declares none, is flagged.
pub fn check_lambda_architecture_arm(
    infra_template: &InfratructureTemplate,
    error_reporter: &mut ErrorReporter,
    line_marker: &YamlLineMarker,
)
    ensures
        final(error_reporter).deep_view().errors == old(error_reporter).deep_view().errors
            + spec_check_arm(
            spec_resources_of(infra_template.deep_view().cloudformation),
            line_marker.deep_view(),
        ),
        final(error_reporter).deep_view().file_path == old(error_reporter).deep_view().file_path,
{
    let resources: &Vec<(String, Resource)> = match &infra_template.cloudformation {
        Some(cfn) => match &cfn.resources {
            Some(rs) => rs,
            None => {
                proof {
                    assert(error_reporter.deep_view().errors =~= old(
                        error_reporter,
                    ).deep_view().errors + spec_check_arm(
                        spec_resources_of(infra_template.deep_view().cloudformation),
                        line_marker.deep_view(),
                    ));
                }
                return ;
            },
        },
        None => {
            proof {
                assert(error_reporter.deep_view().errors =~= old(error_reporter).deep_view().errors
                    + spec_check_arm(
                    spec_resources_of(infra_template.deep_view().cloudformation),
                    line_marker.deep_view(),
                ));
            }
            return ;
        },
    };
    let ghost rsv = spec_resources_of(infra_template.deep_view().cloudformation);
    proof {
        assert(rsv =~= crate::parsers::value::keyed_views(
            resources@,
            |x: Resource| x.deep_view(),
        ));
        assert(rsv.take(0) =~= Seq::<(Seq<char>, ResourceView)>::empty());
    }
    let mut i: usize = 0;
    while i < resources.len()
        invariant
            i <= resources.len(),
            rsv == crate::parsers::value::keyed_views(resources@, |x: Resource| x.deep_view()),
            rsv.len() == resources@.len(),
            forall|j: int|
                0 <= j < resources@.len() ==> rsv[j] == (
                    resources@[j].0@,
                    resources@[j].1.deep_view(),
                ),
            error_reporter.deep_view().errors == old(error_reporter).deep_view().errors
                + spec_check_arm(rsv.take(i as int), line_marker.deep_view()),
            error_reporter.deep_view().file_path == old(error_reporter).deep_view().file_path,
        decreases resources.len() - i,
    {
        let key = &resources[i].0;
        let resource = &resources[i].1;
        let ghost before = error_reporter.deep_view().errors;
        if resource.type_.is_lambda() && resource.properties.is_some() {
            match resource_prop(resource, "Architectures") {
                Some(a) => {
                    if !has_arm(a) {
                        let path = vec![key.as_str(), "Properties", "Architectures"];
                        proof {
                            assert(path.deep_view() =~= seq![key@, "Properties"@, "Architectures"@]);
                        }
                        let span = line_marker.get_resource_span(&path);
                        error_reporter.add_error(
                            ViolationKind::Lambda(LambdaViolation::ARMArchitecture),
                            key.as_str(),
                            span,
                        );
                    }
                },
                None => {
                    let path = vec![key.as_str()];
                    proof {
                        assert(path.deep_view() =~= seq![key@]);
                    }
                    let span = line_marker.get_resource_span(&path);
                    error_reporter.add_error(
                        ViolationKind::Lambda(LambdaViolation::ARMArchitecture),
                        key.as_str(),
                        span,
                    );
                },
            }
        }
        proof {
            assert(rsv.take(i + 1).drop_last() =~= rsv.take(i as int));
            assert(rsv.take(i + 1).last() == rsv[i as int]);
            assert(error_reporter.deep_view().errors =~= before + spec_arm_one(
                rsv[i as int].0,
                rsv[i as int].1,
                line_marker.deep_view(),
            ));
        }
        i = i + 1;
    }
    proof {
        assert(rsv.take(resources@.len() as int) =~= rsv);
    }
}

/// The missing-log-group findings of one resource.
pub open spec fn spec_log_group_one(name: Seq<char>, r: ResourceView, marker: SpanNodeView) -> Seq<
    ErrorDetailView,
> {
    if r.type_.is_lambda_kind() && r.properties is Some {
        match spec_prop(r, "LoggingConfig"@) {
            Some(lc) => if !(lc matches ValueView::Dict(es) && lookup(es, "LogGroup"@) is Some) {
                seq![
                    mk_detail(
                        ViolationKind::Lambda(LambdaViolation::MissingLogGroup),
                        name,
                        spec_resource_span(marker, seq![name, "Properties"@, "LoggingConfig"@]),
                    ),
                ]
            } else {
                Seq::empty()
            },
            None => seq![
                mk_detail(
                    ViolationKind::Lambda(LambdaViolation::MissingLogGroup),
                    name,
                    spec_resource_span(marker, seq![name]),
                ),
            ],
        }
    } else {
        Seq::empty()
    }
}

/// Missing log group: a Lambda resource whose `LoggingConfig` names no
/// `LogGroup`, or that has no `LoggingConfig`, is flagged.
pub fn check_lambda_missing_log_group(
    infra_template: &InfratructureTemplate,
    error_reporter: &mut ErrorReporter,
    line_marker: &YamlLineMarker,
)
    ensures
        final(error_reporter).deep_view().errors == old(error_reporter).deep_view().errors
            + spec_check_log_group(
            spec_resources_of(infra_template.deep_view().cloudformation),
            line_marker.deep_view(),
        ),
        final(error_reporter).deep_view().file_path == old(error_reporter).deep_view().file_path,
{
    let resources: &Vec<(String, Resource)> = match &infra_template.cloudformation {
        Some(cfn) => match &cfn.resources {
            Some(rs) => rs,
            None => {
                proof {
                    assert(error_reporter.deep_view().errors =~= old(
                        error_reporter,
                    ).deep_view().errors + spec_check_log_group(
                        spec_resources_of(infra_template.deep_view().cloudformation),
                        line_marker.deep_view(),
                    ));
                }
                return ;
            },
        },
        None => {
            proof {
                assert(error_reporter.deep_view().errors =~= old(error_reporter).deep_view().errors
                    + spec_check_log_group(
                    spec_resources_of(infra_template.deep_view().cloudformation),
                    line_marker.deep_view(),
                ));
            }
            return ;
        },
    };
    let ghost rsv = spec_resources_of(infra_template.deep_view().cloudformation);
    proof {
        assert(rsv =~= crate::parsers::value::keyed_views(
            resources@,
            |x: Resource| x.deep_view(),
        ));
        assert(rsv.take(0) =~= Seq::<(Seq<char>, ResourceView)>::empty());
    }
    let mut i: usize = 0;
    while i < resources.len()
        invariant
            i <= resources.len(),
            rsv == crate::parsers::value::keyed_views(resources@, |x: Resource| x.deep_view()),
            rsv.len() == resources@.len(),
            forall|j: int|
                0 <= j < resources@.len() ==> rsv[j] == (
                    resources@[j].0@,
                    resources@[j].1.deep_view(),
                ),
            error_reporter.deep_view().errors == old(error_reporter).deep_view().errors
                + spec_check_log_group(rsv.take(i as int), line_marker.deep_view()),
            error_reporter.deep_view().file_path == old(error_reporter).deep_view().file_path,
        decreases resources.len() - i,
    {
        let key = &resources[i].0;
        let resource = &resources[i].1;
        let ghost before = error_reporter.deep_view().errors;
        if resource.type_.is_lambda() && resource.properties.is_some() {
            match resource_prop(resource, "LoggingConfig") {
                Some(lc) => {
                    let has_group = match lc {
                        Value::Dict(es) => {
                            proof {
                                assert(lc.deep_view() == ValueView::Dict(views_of_entries(es@)));
                            }
                            match crate::parsers::value::dict_get(es, "LogGroup") {
                                Some(_) => true,
                                None => false,
                            }
                        },
                        _ => false,
                    };
                    if !has_group {
                        let path = vec![key.as_str(), "Properties", "LoggingConfig"];
                        proof {
                            assert(path.deep_view() =~= seq![key@, "Properties"@, "LoggingConfig"@]);
                        }
                        let span = line_marker.get_resource_span(&path);
                        error_reporter.add_error(
                            ViolationKind::Lambda(LambdaViolation::MissingLogGroup),
                            key.as_str(),
                            span,
                        );
                    }
                },
                None => {
                    let path = vec![key.as_str()];
                    proof {
                        assert(path.deep_view() =~= seq![key@]);
                    }
                    let span = line_marker.get_resource_span(&path);
                    error_reporter.add_error(
                        ViolationKind::Lambda(LambdaViolation::MissingLogGroup),
                        key.as_str(),
                        span,
                    );
                },
            }
        }
        proof {
            assert(rsv.take(i + 1).drop_last() =~= rsv.take(i as int));
            assert(rsv.take(i + 1).last() == rsv[i as int]);
            assert(error_reporter.deep_view().errors =~= before + spec_log_group_one(
                rsv[i as int].0,
                rsv[i as int].1,
                line_marker.deep_view(),
            ));
        }
        i = i + 1;
    }
    proof {
        assert(rsv.take(resources@.len() as int) =~= rsv);
    }
}

} // verus!

verus! {

/// The maximum-retry threshold the active environment configures; zero
/// without one.
pub open spec fn spec_retry_threshold(cfg: RuleConfigView, env: Seq<char>) -> u64 {
    match cfg.spec_get_rule(RuleType::LAMBDA_004, env) {
        Some(rt) => match rt.config_detail {
            RuleTypeConfigDetailView::Threshold { threshold: ThresholdValue::Int(t) } => t,
            _ => 0,
        },
        None => 0,
    }
}

/// The maximum-retry findings of one resource; only serverless-dialect
/// functions declare `EventInvokeConfig`, so only they are examined.
pub open spec fn spec_retry_one(
    name: Seq<char>,
    r: ResourceView,
    cfg: RuleConfigView,
    marker: SpanNodeView,
    env: Seq<char>,
) -> Seq<ErrorDetailView> {
    if r.type_ is LambdaServerlessFunction && r.properties is Some {
        match spec_prop(r, "EventInvokeConfig"@) {
            Some(eic) => match crate::parsers::value::vv_get(eic, "MaximumRetryAttempts"@) {
                Some(mra) => if crate::parsers::value::vv_as_u64(mra) != Some(
                    spec_retry_threshold(cfg, env),
                ) {
                    seq![
                        mk_detail(
                            ViolationKind::Lambda(LambdaViolation::MaximumRetryAttempts),
                            name,
                            spec_resource_span(
                                marker,
                                seq![name, "Properties"@, "EventInvokeConfig"@],
                            ),
                        ),
                    ]
                } else {
                    Seq::empty()
                },
                None => Seq::empty(),
            },
            None => Seq::empty(),
        }
    } else {
        Seq::empty()
    }
}

/// Maximum retry attempts: a serverless function whose `EventInvokeConfig`
/// sets `MaximumRetryAttempts` to anything but the count the active
/// environment configures is flagged.
pub fn check_lambda_maxmimum_retry_attempts(
    infra_template: &InfratructureTemplate,
    rule_config: &RuleConfig,
    error_reporter: &mut ErrorReporter,
    line_marker: &YamlLineMarker,
    environment: &str,
)
    ensures
        final(error_reporter).deep_view().errors == old(error_reporter).deep_view().errors
            + spec_check_retry(
            spec_resources_of(infra_template.deep_view().cloudformation),
            rule_config.deep_view(),
            line_marker.deep_view(),
            environment@,
        ),
        final(error_reporter).deep_view().file_path == old(error_reporter).deep_view().file_path,
{
    let threshold: u64 = match rule_config.get_rule(RuleType::LAMBDA_004, environment) {
        Some(rt) => match rt.config_detail.get_threshold_int() {
            Some(t) => t,
            None => 0,
        },
        None => 0,
    };
    let resources: &Vec<(String, Resource)> = match &infra_template.cloudformation {
        Some(cfn) => match &cfn.resources {
            Some(rs) => rs,
            None => {
                proof {
                    assert(error_reporter.deep_view().errors =~= old(
                        error_reporter,
                    ).deep_view().errors + spec_check_retry(
                        spec_resources_of(infra_template.deep_view().cloudformation),
                        rule_config.deep_view(),
                        line_marker.deep_view(),
                        environment@,
                    ));
                }
                return ;
            },
        },
        None => {
            proof {
                assert(error_reporter.deep_view().errors =~= old(error_reporter).deep_view().errors
                    + spec_check_retry(
                    spec_resources_of(infra_template.deep_view().cloudformation),
                    rule_config.deep_view(),
                    line_marker.deep_view(),
                    environment@,
                ));
            }
            return ;
        },
    };
    let ghost rsv = spec_resources_of(infra_template.deep_view().cloudformation);
    proof {
        assert(rsv =~= crate::parsers::value::keyed_views(
            resources@,
            |x: Resource| x.deep_view(),
        ));
        assert(rsv.take(0) =~= Seq::<(Seq<char>, ResourceView)>::empty());
    }
    let mut i: usize = 0;
    while i < resources.len()
        invariant
            i <= resources.len(),
            threshold == spec_retry_threshold(rule_config.deep_view(), environment@),
            rsv == crate::parsers::value::keyed_views(resources@, |x: Resource| x.deep_view()),
            rsv.len() == resources@.len(),
            forall|j: int|
                0 <= j < resources@.len() ==> rsv[j] == (
                    resources@[j].0@,
                    resources@[j].1.deep_view(),
                ),
            error_reporter.deep_view().errors == old(error_reporter).deep_view().errors
                + spec_check_retry(
                rsv.take(i as int),
                rule_config.deep_view(),
                line_marker.deep_view(),
                environment@,
            ),
            error_reporter.deep_view().file_path == old(error_reporter).deep_view().file_path,
        decreases resources.len() - i,
    {
        let key = &resources[i].0;
        let resource = &resources[i].1;
        let ghost before = error_reporter.deep_view().errors;
        let serverless = matches!(&resource.type_, crate::parsers::iac::AWSResourceType::LambdaServerlessFunction);
        if serverless && resource.properties.is_some() {
            match resource_prop(resource, "EventInvokeConfig") {
                Some(eic) => {
                    match eic.get("MaximumRetryAttempts") {
                        Some(mra) => {
                            let same = match mra.as_u64() {
                                Some(v) => v == threshold,
                                None => false,
                            };
                            if !same {
                                let path = vec![key.as_str(), "Properties", "EventInvokeConfig"];
                                proof {
                                    assert(path.deep_view() =~= seq![
                                        key@,
                                        "Properties"@,
                                        "EventInvokeConfig"@,
                                    ]);
                                }
                                let span = line_marker.get_resource_span(&path);
                                error_reporter.add_error(
                                    ViolationKind::Lambda(LambdaViolation::MaximumRetryAttempts),
                                    key.as_str(),
                                    span,
                                );
                            }
                        },
                        None => {},
                    }
                },
                None => {},
            }
        }
        proof {
            assert(rsv.take(i + 1).drop_last() =~= rsv.take(i as int));
            assert(rsv.take(i + 1).last() == rsv[i as int]);
            assert(error_reporter.deep_view().errors =~= before + spec_retry_one(
                rsv[i as int].0,
                rsv[i as int].1,
                rule_config.deep_view(),
                line_marker.deep_view(),
                environment@,
            ));
        }
        i = i + 1;
    }
    proof {
        assert(rsv.take(resources@.len() as int) =~= rsv);
    }
}

} // verus!

verus! {

/// The resolved environment variables of one resource, when
/// `Properties.Environment.Variables` exists.
pub open spec fn spec_env_vars(r: ResourceView) -> Option<ValueView> {
    match spec_prop(r, "Environment"@) {
        Some(e) => crate::parsers::value::vv_get(e, "Variables"@),
        None => None,
    }
}

/// The sampling rate the active environment configures; one without a usable
/// decimal threshold.
pub open spec fn spec_sample_rate_threshold(cfg: RuleConfigView, env: Seq<char>) -> Decimal {
    match cfg.spec_get_rule(RuleType::LAMBDA_007, env) {
        Some(rt) => match rt.config_detail {
            RuleTypeConfigDetailView::Threshold { threshold: ThresholdValue::Float(d) } => if d.scale
                <= MAX_SCALE {
                d
            } else {
                Decimal { neg: false, mant: 1, scale: 0 }
            },
            _ => Decimal { neg: false, mant: 1, scale: 0 },
        },
        None => Decimal { neg: false, mant: 1, scale: 0 },
    }
}

/// The log-level finding of one resource's variables.
pub open spec fn spec_pt_level(
    name: Seq<char>,
    vars: ValueView,
    cfg: RuleConfigView,
    marker: SpanNodeView,
    env: Seq<char>,
) -> Seq<ErrorDetailView> {
    if cfg.spec_enabled(RuleType::LAMBDA_005, env) {
        match cfg.spec_get_rule(RuleType::LAMBDA_005, env) {
            Some(rt) => match rt.config_detail {
                RuleTypeConfigDetailView::Value { value: target } => match crate::parsers::value::vv_get(
                    vars,
                    "POWERTOOLS_LOG_LEVEL"@,
                ) {
                    Some(pll) => if pll != ValueView::Str(target) {
                        seq![
                            mk_detail(
                                ViolationKind::Lambda(LambdaViolation::PowertoolsLogLevel),
                                name,
                                spec_resource_span(
                                    marker,
                                    seq![name, "Properties"@, "Environment"@, "Variables"@],
                                ),
                            ),
                        ]
                    } else {
                        Seq::empty()
                    },
                    None => Seq::empty(),
                },
                _ => Seq::empty(),
            },
            None => Seq::empty(),
        }
    } else {
        Seq::empty()
    }
}

/// The log-event finding of one resource's variables.
pub open spec fn spec_pt_event(
    name: Seq<char>,
    vars: ValueView,
    cfg: RuleConfigView,
    marker: SpanNodeView,
    env: Seq<char>,
) -> Seq<ErrorDetailView> {
    if cfg.spec_enabled(RuleType::LAMBDA_006, env) {
        match crate::parsers::value::vv_get(vars, "POWERTOOLS_LOGGER_LOG_EVENT"@) {
            Some(ev) => if ev == ValueView::Bool(true) {
                seq![
                    mk_detail(
                        ViolationKind::Lambda(LambdaViolation::PowertoolsLoggerLogEvent),
                        name,
                        spec_resource_span(
                            marker,
                            seq![name, "Properties"@, "Environment"@, "Variables"@],
                        ),
                    ),
                ]
            } else {
                Seq::empty()
            },
            None => Seq::empty(),
        }
    } else {
        Seq::empty()
    }
}

/// The sampling-rate finding of one resource's variables.
pub open spec fn spec_pt_rate(
    name: Seq<char>,
    vars: ValueView,
    cfg: RuleConfigView,
    marker: SpanNodeView,
    env: Seq<char>,
) -> Seq<ErrorDetailView> {
    if cfg.spec_enabled(RuleType::LAMBDA_007, env) {
        match crate::parsers::value::vv_get(vars, "POWERTOOLS_LOGGER_SAMPLE_RATE"@) {
            Some(sr) => if !crate::parsers::value::vv_num_eq(
                sr,
                spec_sample_rate_threshold(cfg, env),
            ) {
                seq![
                    mk_detail(
                        ViolationKind::Lambda(LambdaViolation::PowertoolsLoggerSampleRate),
                        name,
                        spec_resource_span(
                            marker,
                            seq![name, "Properties"@, "Environment"@, "Variables"@],
                        ),
                    ),
                ]
            } else {
                Seq::empty()
            },
            None => Seq::empty(),
        }
    } else {
        Seq::empty()
    }
}

/// The Powertools findings of one resource, in rule order.
pub open spec fn spec_powertools_one(
    name: Seq<char>,
    r: ResourceView,
    cfg: RuleConfigView,
    marker: SpanNodeView,
    env: Seq<char>,
) -> Seq<ErrorDetailView> {
    if r.type_.is_lambda_kind() {
        match spec_env_vars(r) {
            Some(vars) => spec_pt_level(name, vars, cfg, marker, env) + spec_pt_event(
                name,
                vars,
                cfg,
                marker,
                env,
            ) + spec_pt_rate(name, vars, cfg, marker, env),
            None => Seq::empty(),
        }
    } else {
        Seq::empty()
    }
}

/// Powertools variables: in the active environment, a Lambda function whose
/// `POWERTOOLS_LOG_LEVEL` differs from the configured level, whose
/// `POWERTOOLS_LOGGER_LOG_EVENT` is on, or whose
/// `POWERTOOLS_LOGGER_SAMPLE_RATE` differs numerically from the configured
/// rate, is flagged once per offending variable.
#[verifier::rlimit(100)]
pub fn check_lambda_powertools_environment_variables(
    infra_template: &InfratructureTemplate,
    rule_config: &RuleConfig,
    error_reporter: &mut ErrorReporter,
    line_marker: &YamlLineMarker,
    environment: &str,
)
    ensures
        final(error_reporter).deep_view().errors == old(error_reporter).deep_view().errors
            + spec_check_powertools(
            spec_resources_of(infra_template.deep_view().cloudformation),
            rule_config.deep_view(),
            line_marker.deep_view(),
            environment@,
        ),
        final(error_reporter).deep_view().file_path == old(error_reporter).deep_view().file_path,
{
    let resources: &Vec<(String, Resource)> = match &infra_template.cloudformation {
        Some(cfn) => match &cfn.resources {
            Some(rs) => rs,
            None => {
                proof {
                    assert(error_reporter.deep_view().errors =~= old(
                        error_reporter,
                    ).deep_view().errors + spec_check_powertools(
                        spec_resources_of(infra_template.deep_view().cloudformation),
                        rule_config.deep_view(),
                        line_marker.deep_view(),
                        environment@,
                    ));
                }
                return ;
            },
        },
        None => {
            proof {
                assert(error_reporter.deep_view().errors =~= old(error_reporter).deep_view().errors
                    + spec_check_powertools(
                    spec_resources_of(infra_template.deep_view().cloudformation),
                    rule_config.deep_view(),
                    line_marker.deep_view(),
                    environment@,
                ));
            }
            return ;
        },
    };
    let level_on = rule_config.enabled(RuleType::LAMBDA_005, environment);
    let event_on = rule_config.enabled(RuleType::LAMBDA_006, environment);
    let rate_on = rule_config.enabled(RuleType::LAMBDA_007, environment);
    let rate_threshold: Decimal = match rule_config.get_rule(RuleType::LAMBDA_007, environment) {
        Some(rt) => match rt.config_detail.get_threshold_float() {
            Some(d) => if d.scale <= MAX_SCALE {
                d
            } else {
                Decimal { neg: false, mant: 1, scale: 0 }
            },
            None => Decimal { neg: false, mant: 1, scale: 0 },
        },
        None => Decimal { neg: false, mant: 1, scale: 0 },
    };
    let ghost rsv = spec_resources_of(infra_template.deep_view().cloudformation);
    proof {
        assert(rsv =~= crate::parsers::value::keyed_views(
            resources@,
            |x: Resource| x.deep_view(),
        ));
        assert(rsv.take(0) =~= Seq::<(Seq<char>, ResourceView)>::empty());
    }
    let mut i: usize = 0;
    while i < resources.len()
        invariant
            i <= resources.len(),
            level_on == rule_config.deep_view().spec_enabled(RuleType::LAMBDA_005, environment@),
            event_on == rule_config.deep_view().spec_enabled(RuleType::LAMBDA_006, environment@),
            rate_on == rule_config.deep_view().spec_enabled(RuleType::LAMBDA_007, environment@),
            rate_threshold == spec_sample_rate_threshold(rule_config.deep_view(), environment@),
            rate_threshold.wf(),
            rsv == crate::parsers::value::keyed_views(resources@, |x: Resource| x.deep_view()),
            rsv.len() == resources@.len(),
            forall|j: int|
                0 <= j < resources@.len() ==> rsv[j] == (
                    resources@[j].0@,
                    resources@[j].1.deep_view(),
                ),
            error_reporter.deep_view().errors == old(error_reporter).deep_view().errors
                + spec_check_powertools(rsv.take(i as int), rule_config.deep_view(), line_marker.deep_view(), environment@),
            error_reporter.deep_view().file_path == old(error_reporter).deep_view().file_path,
        decreases resources.len() - i,
    {
        let key = &resources[i].0;
        let resource = &resources[i].1;
        let ghost before = error_reporter.deep_view().errors;
        if resource.type_.is_lambda() {
            let vars: Option<&Value> = match resource_prop(resource, "Environment") {
                Some(e) => e.get("Variables"),
                None => None,
            };
            match vars {
                Some(vars) => {
                    let ghost varsv = vars.deep_view();
                    let path = vec![key.as_str(), "Properties", "Environment", "Variables"];
                    proof {
                        assert(path.deep_view() =~= seq![
                            key@,
                            "Properties"@,
                            "Environment"@,
                            "Variables"@,
                        ]);
                    }
                    let ghost cfgv = rule_config.deep_view();
                    let ghost markerv = line_marker.deep_view();
                    if level_on {
                        match rule_config.get_rule(RuleType::LAMBDA_005, environment) {
                            Some(rt) => {
                                match rt.config_detail.get_value() {
                                    Some(target) => {
                                        match vars.get("POWERTOOLS_LOG_LEVEL") {
                                            Some(pll) => {
                                                let differs = match pll.as_str() {
                                                    Some(s) => !crate::parsers::value::str_eq(
                                                        s.as_str(),
                                                        target.as_str(),
                                                    ),
                                                    None => true,
                                                };
                                                if differs {
                                                    let span = line_marker.get_resource_span(
                                                        &path,
                                                    );
                                                    error_reporter.add_error(
                                                        ViolationKind::Lambda(
                                                            LambdaViolation::PowertoolsLogLevel,
                                                        ),
                                                        key.as_str(),
                                                        span,
                                                    );
                                                }
                                            },
                                            None => {},
                                        }
                                    },
                                    None => {},
                                }
                            },
                            None => {},
                        }
                    }
                    proof {
                        assert(error_reporter.deep_view().errors =~= before + spec_pt_level(
                            key@,
                            varsv,
                            cfgv,
                            markerv,
                            environment@,
                        ));
                    }
                    let ghost mid1 = error_reporter.deep_view().errors;
                    if event_on {
                        match vars.get("POWERTOOLS_LOGGER_LOG_EVENT") {
                            Some(ev) => {
                                let fire = match ev.as_bool() {
                                    Some(b) => b,
                                    None => false,
                                };
                                if fire {
                                    let span = line_marker.get_resource_span(&path);
                                    error_reporter.add_error(
                                        ViolationKind::Lambda(
                                            LambdaViolation::PowertoolsLoggerLogEvent,
                                        ),
                                        key.as_str(),
                                        span,
                                    );
                                }
                            },
                            None => {},
                        }
                    }
                    proof {
                        assert(error_reporter.deep_view().errors =~= mid1 + spec_pt_event(
                            key@,
                            varsv,
                            cfgv,
                            markerv,
                            environment@,
                        ));
                    }
                    let ghost mid2 = error_reporter.deep_view().errors;
                    if rate_on {
                        match vars.get("POWERTOOLS_LOGGER_SAMPLE_RATE") {
                            Some(sr) => {
                                if !sr.num_eq(&rate_threshold) {
                                    let span = line_marker.get_resource_span(&path);
                                    error_reporter.add_error(
                                        ViolationKind::Lambda(
                                            LambdaViolation::PowertoolsLoggerSampleRate,
                                        ),
                                        key.as_str(),
                                        span,
                                    );
                                }
                            },
                            None => {},
                        }
                    }
                    proof {
                        assert(error_reporter.deep_view().errors =~= mid2 + spec_pt_rate(
                            key@,
                            varsv,
                            cfgv,
                            markerv,
                            environment@,
                        ));
                    }
                },
                None => {},
            }
        }
        proof {
            assert(rsv.take(i + 1).drop_last() =~= rsv.take(i as int));
            assert(rsv.take(i + 1).last() == rsv[i as int]);
            assert(error_reporter.deep_view().errors =~= before + spec_powertools_one(
                rsv[i as int].0,
                rsv[i as int].1,
                rule_config.deep_view(),
                line_marker.deep_view(),
                environment@,
            ));
        }
        i = i + 1;
    }
    proof {
        assert(rsv.take(resources@.len() as int) =~= rsv);
    }
}

} // verus!

verus! {

/// The missing-tag findings over a resource table, in declaration order.
pub open spec fn spec_check_tags(
    rs: Seq<(Seq<char>, ResourceView)>,
    cfg: RuleConfigView,
    marker: SpanNodeView,
    env: Seq<char>,
) -> Seq<ErrorDetailView>
    decreases rs.len(),
{
    if rs.len() == 0 {
        Seq::empty()
    } else {
        spec_check_tags(rs.drop_last(), cfg, marker, env) + spec_tag_one(
            rs.last().0,
            rs.last().1,
            cfg,
            marker,
            env,
        )
    }
}

/// The ARM findings over a resource table, in declaration order.
pub open spec fn spec_check_arm(
    rs: Seq<(Seq<char>, ResourceView)>,
    marker: SpanNodeView,
) -> Seq<ErrorDetailView>
    decreases rs.len(),
{
    if rs.len() == 0 {
        Seq::empty()
    } else {
        spec_check_arm(rs.drop_last(), marker) + spec_arm_one(rs.last().0, rs.last().1, marker)
    }
}

/// The missing-log-group findings over a resource table, in declaration order.
pub open spec fn spec_check_log_group(
    rs: Seq<(Seq<char>, ResourceView)>,
    marker: SpanNodeView,
) -> Seq<ErrorDetailView>
    decreases rs.len(),
{
    if rs.len() == 0 {
        Seq::empty()
    } else {
        spec_check_log_group(rs.drop_last(), marker) + spec_log_group_one(
            rs.last().0,
            rs.last().1,
            marker,
        )
    }
}

/// The maximum-retry findings over a resource table, in declaration order.
pub open spec fn spec_check_retry(
    rs: Seq<(Seq<char>, ResourceView)>,
    cfg: RuleConfigView,
    marker: SpanNodeView,
    env: Seq<char>,
) -> Seq<ErrorDetailView>
    decreases rs.len(),
{
    if rs.len() == 0 {
        Seq::empty()
    } else {
        spec_check_retry(rs.drop_last(), cfg, marker, env) + spec_retry_one(
            rs.last().0,
            rs.last().1,
            cfg,
            marker,
            env,
        )
    }
}

/// The Powertools findings over a resource table, in declaration order.
pub open spec fn spec_check_powertools(
    rs: Seq<(Seq<char>, ResourceView)>,
    cfg: RuleConfigView,
    marker: SpanNodeView,
    env: Seq<char>,
) -> Seq<ErrorDetailView>
    decreases rs.len(),
{
    if rs.len() == 0 {
        Seq::empty()
    } else {
        spec_check_powertools(rs.drop_last(), cfg, marker, env) + spec_powertools_one(
            rs.last().0,
            rs.last().1,
            cfg,
            marker,
            env,
        )
    }
}

} // verus!
