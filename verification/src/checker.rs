//! The rule evaluation engine's dispatch: every enabled check runs once, in a
//! fixed declared order, so that the report's order is deterministic.
use vstd::prelude::*;
use crate::error_reporter::{ErrorDetailView, ErrorReporter};
use crate::parsers::cfn::ResourceView;
use crate::parsers::config::{Config, ConfigView, RuleType};
use crate::parsers::iac::{InfratructureTemplate, InfratructureTemplateView};
use crate::parsers::{SpanNodeView, YamlLineMarker};
use crate::rules::aws::spec_resources_of;
use crate::rules::aws::cloudwatch::{
    check_cloudwatch_log_group_class, check_cloudwatch_log_group_retention, spec_check_class,
    spec_check_retention,
};
use crate::rules::aws::lambda::{
    check_lambda_architecture_arm, check_lambda_maxmimum_retry_attempts,
    check_lambda_missing_log_group, check_lambda_missing_tag,
    check_lambda_powertools_environment_variables, spec_check_arm, spec_check_log_group,
    spec_check_powertools, spec_check_retry, spec_check_tags,
};

verus! {

/// Everything the engine reports for one template under one configuration, in
/// the declared check order.
pub open spec fn spec_run_checks(
    infra: InfratructureTemplateView,
    cfg: ConfigView,
    marker: SpanNodeView,
    env: Seq<char>,
) -> Seq<ErrorDetailView> {
    match cfg.cloudformation {
        Some(rc) => {
            let rs = spec_resources_of(infra.cloudformation);
            (if rc.spec_enabled(RuleType::LAMBDA_003, env) {
                spec_check_tags(rs, rc, marker, env)
            } else {
                Seq::empty()
            }) + (if rc.spec_enabled(RuleType::LAMBDA_002, env) {
                spec_check_arm(rs, marker)
            } else {
                Seq::empty()
            }) + (if rc.spec_enabled(RuleType::LAMBDA_001, env) {
                spec_check_log_group(rs, marker)
            } else {
                Seq::empty()
            }) + (if rc.spec_enabled(RuleType::LAMBDA_004, env) {
                spec_check_retry(rs, rc, marker, env)
            } else {
                Seq::empty()
            }) + (if rc.spec_enabled(RuleType::LAMBDA_005, env) || rc.spec_enabled(
                RuleType::LAMBDA_006,
                env,
            ) || rc.spec_enabled(RuleType::LAMBDA_007, env) {
                spec_check_powertools(rs, rc, marker, env)
            } else {
                Seq::empty()
            }) + (if rc.spec_enabled(RuleType::CW_001, env) || rc.spec_enabled(
                RuleType::CW_002,
                env,
            ) {
                spec_check_retention(rs, rc, marker, env)
            } else {
                Seq::empty()
            }) + (if rc.spec_enabled(RuleType::CW_003, env) {
                spec_check_class(rs, marker)
            } else {
                Seq::empty()
            })
        },
        None => Seq::empty(),
    }
}

/// Concatenation in recording order is concatenation of the checks' findings.
proof fn lemma_chain(
    base: Seq<ErrorDetailView>,
    s1: Seq<ErrorDetailView>,
    s2: Seq<ErrorDetailView>,
    s3: Seq<ErrorDetailView>,
    s4: Seq<ErrorDetailView>,
    s5: Seq<ErrorDetailView>,
    s6: Seq<ErrorDetailView>,
    s7: Seq<ErrorDetailView>,
)
    ensures
        base + s1 + s2 + s3 + s4 + s5 + s6 + s7 == base + (s1 + s2 + s3 + s4 + s5 + s6 + s7),
{
    assert(base + s1 + s2 + s3 + s4 + s5 + s6 + s7 =~= base + (s1 + s2 + s3 + s4 + s5 + s6
        + s7));
}

/// Run every check that the configuration enables for the active environment,
/// in one fixed declared order, recording the findings.
#[verifier::rlimit(100)]
pub fn run_checks(
    config: &Config,
    infra_template: &InfratructureTemplate,
    line_marker: &YamlLineMarker,
    environment: &str,
    error_reporter: &mut ErrorReporter,
)
    ensures
        final(error_reporter).deep_view().errors == old(error_reporter).deep_view().errors
            + spec_run_checks(
            infra_template.deep_view(),
            config.deep_view(),
            line_marker.deep_view(),
            environment@,
        ),
        final(error_reporter).deep_view().file_path == old(error_reporter).deep_view().file_path,
{
    let ghost infrav = infra_template.deep_view();
    let ghost markerv = line_marker.deep_view();
    let ghost envv = environment@;
    let ghost base = old(error_reporter).deep_view().errors;
    match &config.cloudformation {
        Some(rule_config) => {
            let ghost rc = rule_config.deep_view();
            let ghost rs = spec_resources_of(infrav.cloudformation);
            let ghost s1 = if rc.spec_enabled(RuleType::LAMBDA_003, envv) {
                spec_check_tags(rs, rc, markerv, envv)
            } else {
                Seq::<ErrorDetailView>::empty()
            };
            let ghost s2 = if rc.spec_enabled(RuleType::LAMBDA_002, envv) {
                spec_check_arm(rs, markerv)
            } else {
                Seq::<ErrorDetailView>::empty()
            };
            let ghost s3 = if rc.spec_enabled(RuleType::LAMBDA_001, envv) {
                spec_check_log_group(rs, markerv)
            } else {
                Seq::<ErrorDetailView>::empty()
            };
            let ghost s4 = if rc.spec_enabled(RuleType::LAMBDA_004, envv) {
                spec_check_retry(rs, rc, markerv, envv)
            } else {
                Seq::<ErrorDetailView>::empty()
            };
            let ghost s5 = if rc.spec_enabled(RuleType::LAMBDA_005, envv) || rc.spec_enabled(
                RuleType::LAMBDA_006,
                envv,
            ) || rc.spec_enabled(RuleType::LAMBDA_007, envv) {
                spec_check_powertools(rs, rc, markerv, envv)
            } else {
                Seq::<ErrorDetailView>::empty()
            };
            let ghost s6 = if rc.spec_enabled(RuleType::CW_001, envv) || rc.spec_enabled(
                RuleType::CW_002,
                envv,
            ) {
                spec_check_retention(rs, rc, markerv, envv)
            } else {
                Seq::<ErrorDetailView>::empty()
            };
            let ghost s7 = if rc.spec_enabled(RuleType::CW_003, envv) {
                spec_check_class(rs, markerv)
            } else {
                Seq::<ErrorDetailView>::empty()
            };
            if rule_config.enabled(RuleType::LAMBDA_003, environment) {
                check_lambda_missing_tag(
                    infra_template,
                    rule_config,
                    error_reporter,
                    line_marker,
                    environment,
                );
            }
            proof {
                if !(rc.spec_enabled(RuleType::LAMBDA_003, envv)) {
                    assert(base + s1 =~= base);
                }
                assert(error_reporter.deep_view().errors == base + s1);
            }
            if rule_config.enabled(RuleType::LAMBDA_002, environment) {
                check_lambda_architecture_arm(infra_template, error_reporter, line_marker);
            }
            proof {
                if !(rc.spec_enabled(RuleType::LAMBDA_002, envv)) {
                    assert(base + s1 + s2 =~= base + s1);
                }
                assert(error_reporter.deep_view().errors == base + s1 + s2);
            }
            if rule_config.enabled(RuleType::LAMBDA_001, environment) {
                check_lambda_missing_log_group(infra_template, error_reporter, line_marker);
            }
            proof {
                if !(rc.spec_enabled(RuleType::LAMBDA_001, envv)) {
                    assert(base + s1 + s2 + s3 =~= base + s1 + s2);
                }
                assert(error_reporter.deep_view().errors == base + s1 + s2 + s3);
            }
            if rule_config.enabled(RuleType::LAMBDA_004, environment) {
                check_lambda_maxmimum_retry_attempts(
                    infra_template,
                    rule_config,
                    error_reporter,
                    line_marker,
                    environment,
                );
            }
            proof {
                if !(rc.spec_enabled(RuleType::LAMBDA_004, envv)) {
                    assert(base + s1 + s2 + s3 + s4 =~= base + s1 + s2 + s3);
                }
                assert(error_reporter.deep_view().errors == base + s1 + s2 + s3 + s4);
            }
            let pt = rule_config.enabled(RuleType::LAMBDA_005, environment) || rule_config.enabled(
                RuleType::LAMBDA_006,
                environment,
            ) || rule_config.enabled(RuleType::LAMBDA_007, environment);
            if pt {
                check_lambda_powertools_environment_variables(
                    infra_template,
                    rule_config,
                    error_reporter,
                    line_marker,
                    environment,
                );
            }
            proof {
                if s5 == Seq::<ErrorDetailView>::empty() {
                    assert(base + s1 + s2 + s3 + s4 + s5 =~= base + s1 + s2 + s3 + s4);
                }
                assert(error_reporter.deep_view().errors == base + s1 + s2 + s3 + s4 + s5);
            }
            let cw = rule_config.enabled(RuleType::CW_001, environment) || rule_config.enabled(
                RuleType::CW_002,
                environment,
            );
            if cw {
                check_cloudwatch_log_group_retention(
                    infra_template,
                    rule_config,
                    error_reporter,
                    line_marker,
                    environment,
                );
            }
            proof {
                if s6 == Seq::<ErrorDetailView>::empty() {
                    assert(base + s1 + s2 + s3 + s4 + s5 + s6 =~= base + s1 + s2 + s3 + s4 + s5);
                }
                assert(error_reporter.deep_view().errors == base + s1 + s2 + s3 + s4 + s5 + s6);
            }
            if rule_config.enabled(RuleType::CW_003, environment) {
                check_cloudwatch_log_group_class(infra_template, error_reporter, line_marker);
            }
            proof {
                if !(rc.spec_enabled(RuleType::CW_003, envv)) {
                    assert(base + s1 + s2 + s3 + s4 + s5 + s6 + s7 =~= base + s1 + s2 + s3 + s4
                        + s5 + s6);
                }
                assert(error_reporter.deep_view().errors == base + s1 + s2 + s3 + s4 + s5 + s6
                    + s7);
                lemma_chain(base, s1, s2, s3, s4, s5, s6, s7);
                assert(spec_run_checks(infrav, config.deep_view(), markerv, envv) == s1 + s2 + s3
                    + s4 + s5 + s6 + s7);
            }
        },
        None => {
            proof {
                assert(error_reporter.deep_view().errors =~= base + spec_run_checks(
                    infrav,
                    config.deep_view(),
                    markerv,
                    envv,
                ));
            }
        },
    }
}

} // verus!
