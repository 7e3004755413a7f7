//! The CloudWatch log-group checks: retention policy and log-group class.
use vstd::prelude::*;
use crate::error_reporter::{ErrorDetailView, ErrorReporter};
use crate::parsers::cfn::{Resource, ResourceView};
use crate::parsers::config::{
    RuleConfig, RuleConfigView, RuleType, RuleTypeConfigDetailView, ThresholdValue,
};
use crate::parsers::iac::InfratructureTemplate;
use crate::parsers::value::ValueView;
use crate::parsers::{spec_resource_span, SpanNodeView, YamlLineMarker};
use crate::rules::aws::{mk_detail, spec_prop, spec_resources_of, resource_prop};
use crate::rules::violations::{CloudWatchViolation, ViolationKind};

verus! {

/// The retention findings of one log group: a declared retention beyond the
/// configured threshold (or not a whole number of days), or no declared
/// retention at all — two separate rules.
pub open spec fn spec_retention_one(
    name: Seq<char>,
    r: ResourceView,
    cfg: RuleConfigView,
    marker: SpanNodeView,
    env: Seq<char>,
) -> Seq<ErrorDetailView> {
    if r.type_ is CloudWatch && r.properties is Some {
        match spec_prop(r, "RetentionInDays"@) {
            Some(retention) => if cfg.spec_enabled(RuleType::CW_001, env) {
                match cfg.spec_get_rule(RuleType::CW_001, env) {
                    Some(rt) => match rt.config_detail {
                        RuleTypeConfigDetailView::Threshold {
                            threshold: ThresholdValue::Int(t),
                        } => if match crate::parsers::value::vv_as_u64(retention) {
                            Some(v) => v > t,
                            None => true,
                        } {
                            seq![
                                mk_detail(
                                    ViolationKind::CloudWatch(
                                        CloudWatchViolation::LogRetentionTooLong,
                                    ),
                                    name,
                                    spec_resource_span(
                                        marker,
                                        seq![name, "Properties"@, "RetentionInDays"@],
                                    ),
                                ),
                            ]
                        } else {
                            Seq::empty()
                        },
                        _ => Seq::empty(),
                    },
                    None => Seq::empty(),
                }
            } else {
                Seq::empty()
            },
            None => if cfg.spec_enabled(RuleType::CW_002, env) {
                seq![
                    mk_detail(
                        ViolationKind::CloudWatch(CloudWatchViolation::NoLogRetention),
                        name,
                        spec_resource_span(marker, seq![name, "Properties"@]),
                    ),
                ]
            } else {
                Seq::empty()
            },
        }
    } else {
        Seq::empty()
    }
}

/// Log retention: a log group whose retention exceeds the number of days the
/// active environment configures is flagged, and one that declares no
/// retention at all is flagged under a separate rule.
pub fn check_cloudwatch_log_group_retention(
    infra_template: &InfratructureTemplate,
    rule_config: &RuleConfig,
    error_reporter: &mut ErrorReporter,
    line_marker: &YamlLineMarker,
    environment: &str,
)
    ensures
        final(error_reporter).deep_view().errors == old(error_reporter).deep_view().errors
            + spec_check_retention(
            spec_resources_of(infra_template.deep_view().cloudformation),
            rule_config.deep_view(),
            line_marker.deep_view(),
            environment@,
        ),
        final(error_reporter).deep_view().file_path == old(error_reporter).deep_view().file_path,
{
    let resources: &Vec<(String, Resource)> = match &infra_template.cloudformation {
        Some(cfn) => match &cfn.resources {
            Some(rs) => rs,
            None => {
                proof {
                    assert(error_reporter.deep_view().errors =~= old(
                        error_reporter,
                    ).deep_view().errors + spec_check_retention(
                        spec_resources_of(infra_template.deep_view().cloudformation),
                        rule_config.deep_view(),
                        line_marker.deep_view(),
                        environment@,
                    ));
                }
                return ;
            },
        },
        None => {
            proof {
                assert(error_reporter.deep_view().errors =~= old(error_reporter).deep_view().errors
                    + spec_check_retention(
                    spec_resources_of(infra_template.deep_view().cloudformation),
                    rule_config.deep_view(),
                    line_marker.deep_view(),
                    environment@,
                ));
            }
            return ;
        },
    };
    let retention_on = rule_config.enabled(RuleType::CW_001, environment);
    let missing_on = rule_config.enabled(RuleType::CW_002, environment);
    let threshold: Option<u64> = match rule_config.get_rule(RuleType::CW_001, environment) {
        Some(rt) => rt.config_detail.get_threshold_int(),
        None => None,
    };
    let ghost rsv = spec_resources_of(infra_template.deep_view().cloudformation);
    proof {
        assert(rsv =~= crate::parsers::value::keyed_views(
            resources@,
            |x: Resource| x.deep_view(),
        ));
        assert(rsv.take(0) =~= Seq::<(Seq<char>, ResourceView)>::empty());
    }
    let mut i: usize = 0;
    while i < resources.len()
        invariant
            i <= resources.len(),
            retention_on == rule_config.deep_view().spec_enabled(RuleType::CW_001, environment@),
            missing_on == rule_config.deep_view().spec_enabled(RuleType::CW_002, environment@),
            threshold == (match rule_config.deep_view().spec_get_rule(
                RuleType::CW_001,
                environment@,
            ) {
                Some(rt) => match rt.config_detail {
                    RuleTypeConfigDetailView::Threshold {
                        threshold: ThresholdValue::Int(t),
                    } => Some(t),
                    _ => None::<u64>,
                },
                None => None::<u64>,
            }),
            rsv == crate::parsers::value::keyed_views(resources@, |x: Resource| x.deep_view()),
            rsv.len() == resources@.len(),
            forall|j: int|
                0 <= j < resources@.len() ==> rsv[j] == (
                    resources@[j].0@,
                    resources@[j].1.deep_view(),
                ),
            error_reporter.deep_view().errors == old(error_reporter).deep_view().errors
                + spec_check_retention(rsv.take(i as int), rule_config.deep_view(), line_marker.deep_view(), environment@),
            error_reporter.deep_view().file_path == old(error_reporter).deep_view().file_path,
        decreases resources.len() - i,
    {
        let key = &resources[i].0;
        let resource = &resources[i].1;
        let ghost before = error_reporter.deep_view().errors;
        if resource.type_.is_cloudwatch() && resource.properties.is_some() {
            match resource_prop(resource, "RetentionInDays") {
                Some(retention) => {
                    if retention_on {
                        match threshold {
                            Some(t) => {
                                let too_long = match retention.as_u64() {
                                    Some(v) => v > t,
                                    None => true,
                                };
                                if too_long {
                                    let path = vec![key.as_str(), "Properties", "RetentionInDays"];
                                    proof {
                                        assert(path.deep_view() =~= seq![
                                            key@,
                                            "Properties"@,
                                            "RetentionInDays"@,
                                        ]);
                                    }
                                    let span = line_marker.get_resource_span(&path);
                                    error_reporter.add_error(
                                        ViolationKind::CloudWatch(
                                            CloudWatchViolation::LogRetentionTooLong,
                                        ),
                                        key.as_str(),
                                        span,
                                    );
                                }
                            },
                            None => {},
                        }
                    }
                },
                None => {
                    if missing_on {
                        let path = vec![key.as_str(), "Properties"];
                        proof {
                            assert(path.deep_view() =~= seq![key@, "Properties"@]);
                        }
                        let span = line_marker.get_resource_span(&path);
                        error_reporter.add_error(
                            ViolationKind::CloudWatch(CloudWatchViolation::NoLogRetention),
                            key.as_str(),
                            span,
                        );
                    }
                },
            }
        }
        proof {
            assert(rsv.take(i + 1).drop_last() =~= rsv.take(i as int));
            assert(rsv.take(i + 1).last() == rsv[i as int]);
            assert(error_reporter.deep_view().errors =~= before + spec_retention_one(
                rsv[i as int].0,
                rsv[i as int].1,
                rule_config.deep_view(),
                line_marker.deep_view(),
                environment@,
            ));
        }
        i = i + 1;
    }
    proof {
        assert(rsv.take(resources@.len() as int) =~= rsv);
    }
}

/// The log-group-class findings of one log group: an explicit `STANDARD`
/// class, or no declared class, which defaults to it.
pub open spec fn spec_class_one(name: Seq<char>, r: ResourceView, marker: SpanNodeView) -> Seq<
    ErrorDetailView,
> {
    if r.type_ is CloudWatch && r.properties is Some {
        match spec_prop(r, "LogGroupClass"@) {
            Some(c) => if c == ValueView::Str("STANDARD"@) {
                seq![
                    mk_detail(
                        ViolationKind::CloudWatch(CloudWatchViolation::InfrequentAccessLogGroupClass),
                        name,
                        spec_resource_span(marker, seq![name, "Properties"@, "LogGroupClass"@]),
                    ),
                ]
            } else {
                Seq::empty()
            },
            None => seq![
                mk_detail(
                    ViolationKind::CloudWatch(CloudWatchViolation::InfrequentAccessLogGroupClass),
                    name,
                    spec_resource_span(marker, seq![name, "Properties"@]),
                ),
            ],
        }
    } else {
        Seq::empty()
    }
}

/// Log-group class: a log group in the `STANDARD` class, declared or by
/// default, is flagged.
pub fn check_cloudwatch_log_group_class(
    infra_template: &InfratructureTemplate,
    error_reporter: &mut ErrorReporter,
    line_marker: &YamlLineMarker,
)
    ensures
        final(error_reporter).deep_view().errors == old(error_reporter).deep_view().errors
            + spec_check_class(
            spec_resources_of(infra_template.deep_view().cloudformation),
            line_marker.deep_view(),
        ),
        final(error_reporter).deep_view().file_path == old(error_reporter).deep_view().file_path,
{
    let resources: &Vec<(String, Resource)> = match &infra_template.cloudformation {
        Some(cfn) => match &cfn.resources {
            Some(rs) => rs,
            None => {
                proof {
                    assert(error_reporter.deep_view().errors =~= old(
                        error_reporter,
                    ).deep_view().errors + spec_check_class(
                        spec_resources_of(infra_template.deep_view().cloudformation),
                        line_marker.deep_view(),
                    ));
                }
                return ;
            },
        },
        None => {
            proof {
                assert(error_reporter.deep_view().errors =~= old(error_reporter).deep_view().errors
                    + spec_check_class(
                    spec_resources_of(infra_template.deep_view().cloudformation),
                    line_marker.deep_view(),
                ));
            }
            return ;
        },
    };
    let ghost rsv = spec_resources_of(infra_template.deep_view().cloudformation);
    proof {
        assert(rsv =~= crate::parsers::value::keyed_views(
            resources@,
            |x: Resource| x.deep_view(),
        ));
        assert(rsv.take(0) =~= Seq::<(Seq<char>, ResourceView)>::empty());
    }
    let mut i: usize = 0;
    while i < resources.len()
        invariant
            i <= resources.len(),
            rsv == crate::parsers::value::keyed_views(resources@, |x: Resource| x.deep_view()),
            rsv.len() == resources@.len(),
            forall|j: int|
                0 <= j < resources@.len() ==> rsv[j] == (
                    resources@[j].0@,
                    resources@[j].1.deep_view(),
                ),
            error_reporter.deep_view().errors == old(error_reporter).deep_view().errors
                + spec_check_class(rsv.take(i as int), line_marker.deep_view()),
            error_reporter.deep_view().file_path == old(error_reporter).deep_view().file_path,
        decreases resources.len() - i,
    {
        let key = &resources[i].0;
        let resource = &resources[i].1;
        let ghost before = error_reporter.deep_view().errors;
        if resource.type_.is_cloudwatch() && resource.properties.is_some() {
            match resource_prop(resource, "LogGroupClass") {
                Some(c) => {
                    let standard = match c.as_str() {
                        Some(s) => crate::parsers::value::str_eq(s.as_str(), "STANDARD"),
                        None => false,
                    };
                    if standard {
                        let path = vec![key.as_str(), "Properties", "LogGroupClass"];
                        proof {
                            assert(path.deep_view() =~= seq![
                                key@,
                                "Properties"@,
                                "LogGroupClass"@,
                            ]);
                        }
                        let span = line_marker.get_resource_span(&path);
                        error_reporter.add_error(
                            ViolationKind::CloudWatch(
                                CloudWatchViolation::InfrequentAccessLogGroupClass,
                            ),
                            key.as_str(),
                            span,
                        );
                    }
                },
                None => {
                    let path = vec![key.as_str(), "Properties"];
                    proof {
                        assert(path.deep_view() =~= seq![key@, "Properties"@]);
                    }
                    let span = line_marker.get_resource_span(&path);
                    error_reporter.add_error(
                        ViolationKind::CloudWatch(
                            CloudWatchViolation::InfrequentAccessLogGroupClass,
                        ),
                        key.as_str(),
                        span,
                    );
                },
            }
        }
        proof {
            assert(rsv.take(i + 1).drop_last() =~= rsv.take(i as int));
            assert(rsv.take(i + 1).last() == rsv[i as int]);
            assert(error_reporter.deep_view().errors =~= before + spec_class_one(
                rsv[i as int].0,
                rsv[i as int].1,
                line_marker.deep_view(),
            ));
        }
        i = i + 1;
    }
    proof {
        assert(rsv.take(resources@.len() as int) =~= rsv);
    }
}

} // verus!

verus! {

/// The retention findings over a resource table, in declaration order.
pub open spec fn spec_check_retention(
    rs: Seq<(Seq<char>, ResourceView)>,
    cfg: RuleConfigView,
    marker: SpanNodeView,
    env: Seq<char>,
) -> Seq<ErrorDetailView>
    decreases rs.len(),
{
    if rs.len() == 0 {
        Seq::empty()
    } else {
        spec_check_retention(rs.drop_last(), cfg, marker, env) + spec_retention_one(
            rs.last().0,
            rs.last().1,
            cfg,
            marker,
            env,
        )
    }
}

/// The log-group-class findings over a resource table, in declaration order.
pub open spec fn spec_check_class(
    rs: Seq<(Seq<char>, ResourceView)>,
    marker: SpanNodeView,
) -> Seq<ErrorDetailView>
    decreases rs.len(),
{
    if rs.len() == 0 {
        Seq::empty()
    } else {
        spec_check_class(rs.drop_last(), marker) + spec_class_one(rs.last().0, rs.last().1, marker)
    }
}

} // verus!
