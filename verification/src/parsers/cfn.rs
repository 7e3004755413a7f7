//! The CloudFormation/SAM document model and the template resolver.
use vstd::prelude::*;
use crate::parsers::iac::{
    AWSResourceType, AWSResourceTypeView, IaCMapping, IaCOutput, IaCParameter, IaCResource,
};
use crate::parsers::value::{
    assoc, assoc_get, keyed_views, lookup, str_eq, views_of_entries, Decimal, Value, ValueView,
    lemma_assoc_keyed_views, lemma_assoc_entries,
};

verus! {

/// A declared template parameter. Only `default` changes after parse, and only
/// during resolution.
pub struct Parameter {
    pub type_: String,
    pub default: Option<Value>,
    pub description: Option<String>,
    pub other: Vec<(String, Value)>,
}

/// The mathematical shape of a `Parameter`.
#[verifier::ext_equal]
pub struct ParameterView {
    pub type_: Seq<char>,
    pub default: Option<ValueView>,
    pub description: Option<Seq<char>>,
    pub other: Seq<(Seq<char>, ValueView)>,
}

impl DeepView for Parameter {
    type V = ParameterView;

    open spec fn deep_view(&self) -> ParameterView {
        ParameterView {
            type_: self.type_@,
            default: match self.default {
                Some(ref d) => Some(d.deep_view()),
                None => None,
            },
            description: match self.description {
                Some(ref d) => Some(d@),
                None => None,
            },
            other: views_of_entries(self.other@),
        }
    }
}

impl IaCParameter for Parameter {
    fn get_type(&self) -> (r: String)
        ensures
            r@ == self.deep_view().type_,
    {
        self.type_.clone()
    }

    fn get_default(&self) -> (r: Option<String>)
        ensures
            match r {
                Some(s) => self.deep_view().default == Some(ValueView::Str(s@)),
                None => match self.deep_view().default {
                    Some(d) => !(d is Str),
                    None => true,
                },
            },
    {
        match &self.default {
            Some(Value::Str(s)) => Some(s.clone()),
            _ => None,
        }
    }

    fn get_description(&self) -> (r: Option<String>)
        ensures
            match r {
                Some(s) => self.deep_view().description == Some(s@),
                None => self.deep_view().description is None,
            },
    {
        match &self.description {
            Some(d) => Some(d.clone()),
            None => None,
        }
    }
}

/// A two-level lookup table: `top key -> (second key -> value)`. Immutable
/// after parse; used only as a lookup source during resolution.
pub struct Mapping {
    pub map: Vec<(String, Vec<(String, Value)>)>,
}

/// The mathematical shape of a `Mapping`.
pub type MappingView = Seq<(Seq<char>, Seq<(Seq<char>, ValueView)>)>;

impl DeepView for Mapping {
    type V = MappingView;

    open spec fn deep_view(&self) -> MappingView {
        keyed_views(self.map@, |inner: Vec<(String, Value)>| views_of_entries(inner@))
    }
}

impl Mapping {
    /// The value under the two keys, when both levels have an entry.
    pub open spec fn spec_get_value(self, key1: Seq<char>, key2: Seq<char>) -> Option<ValueView> {
        match lookup(self.deep_view(), key1) {
            Some(inner) => lookup(inner, key2),
            None => None,
        }
    }
}

impl IaCMapping for Mapping {
    fn get_value(&self, key1: &str, key2: &str) -> (r: Option<Value>)
        ensures
            match r {
                Some(v) => self.spec_get_value(key1@, key2@) == Some(v.deep_view()),
                None => self.spec_get_value(key1@, key2@) is None,
            },
    {
        proof {
            lemma_assoc_keyed_views(
                self.map@,
                |inner: Vec<(String, Value)>| views_of_entries(inner@),
                key1@,
            );
        }
        match assoc_get(&self.map, key1) {
            Some(inner) => {
                proof {
                    lemma_assoc_entries(inner@, key2@);
                }
                match assoc_get(inner, key2) {
                    Some(v) => Some(v.clone()),
                    None => None,
                }
            },
            None => None,
        }
    }
}

/// A declared template output.
pub struct Output {
    pub description: String,
    pub value: String,
    pub export: Option<Vec<(String, String)>>,
}

/// The mathematical shape of an `Output`.
#[verifier::ext_equal]
pub struct OutputView {
    pub description: Seq<char>,
    pub value: Seq<char>,
    pub export: Option<Seq<(Seq<char>, Seq<char>)>>,
}

impl DeepView for Output {
    type V = OutputView;

    open spec fn deep_view(&self) -> OutputView {
        OutputView {
            description: self.description@,
            value: self.value@,
            export: match self.export {
                Some(ref e) => Some(keyed_views(e@, |s: String| s@)),
                None => None,
            },
        }
    }
}

impl IaCOutput for Output {
    fn get_description(&self) -> (r: Option<String>)
        ensures
            match r {
                Some(s) => s@ == self.deep_view().description,
                None => false,
            },
    {
        Some(self.description.clone())
    }

    fn get_value(&self) -> (r: String)
        ensures
            r@ == self.deep_view().value,
    {
        self.value.clone()
    }

    fn get_export(&self) -> (r: Option<Vec<(String, String)>>)
        ensures
            match r {
                Some(e) => self.deep_view().export == Some(keyed_views(e@, |s: String| s@)),
                None => self.deep_view().export is None,
            },
    {
        match &self.export {
            Some(e) => {
                let mut out: Vec<(String, String)> = Vec::new();
                let mut i: usize = 0;
                while i < e.len()
                    invariant
                        i <= e.len(),
                        out@.len() == i,
                        forall|j: int|
                            0 <= j < i ==> out@[j].0@ == e@[j].0@ && out@[j].1@ == e@[j].1@,
                    decreases e.len() - i,
                {
                    out.push((e[i].0.clone(), e[i].1.clone()));
                    i = i + 1;
                }
                proof {
                    assert(keyed_views(out@, |s: String| s@) =~= keyed_views(e@, |s: String| s@));
                }
                Some(out)
            },
            None => None,
        }
    }
}

/// Shared property fragments, one bag per AWS construct kind. Only
/// `Function.Environment.Variables` takes part in resolution.
pub struct Globals {
    pub function: Option<Vec<(String, Value)>>,
    pub api: Option<Vec<(String, Value)>>,
    pub http_api: Option<Vec<(String, Value)>>,
    pub state_machine: Option<Vec<(String, Value)>>,
    pub simple_table: Option<Vec<(String, Value)>>,
}

/// The mathematical shape of `Globals`.
#[verifier::ext_equal]
pub struct GlobalsView {
    pub function: Option<Seq<(Seq<char>, ValueView)>>,
    pub api: Option<Seq<(Seq<char>, ValueView)>>,
    pub http_api: Option<Seq<(Seq<char>, ValueView)>>,
    pub state_machine: Option<Seq<(Seq<char>, ValueView)>>,
    pub simple_table: Option<Seq<(Seq<char>, ValueView)>>,
}

pub open spec fn opt_entries_view(o: Option<Vec<(String, Value)>>) -> Option<
    Seq<(Seq<char>, ValueView)>,
> {
    match o {
        Some(e) => Some(views_of_entries(e@)),
        None => None,
    }
}

impl DeepView for Globals {
    type V = GlobalsView;

    open spec fn deep_view(&self) -> GlobalsView {
        GlobalsView {
            function: opt_entries_view(self.function),
            api: opt_entries_view(self.api),
            http_api: opt_entries_view(self.http_api),
            state_machine: opt_entries_view(self.state_machine),
            simple_table: opt_entries_view(self.simple_table),
        }
    }
}

/// A declared resource: its construct kind, its properties, and whatever other
/// attributes it carries.
pub struct Resource {
    pub type_: AWSResourceType,
    pub properties: Option<Vec<(String, Value)>>,
    pub other: Vec<(String, Value)>,
}

/// The mathematical shape of a `Resource`.
#[verifier::ext_equal]
pub struct ResourceView {
    pub type_: AWSResourceTypeView,
    pub properties: Option<Seq<(Seq<char>, ValueView)>>,
    pub other: Seq<(Seq<char>, ValueView)>,
}

impl DeepView for Resource {
    type V = ResourceView;

    open spec fn deep_view(&self) -> ResourceView {
        ResourceView {
            type_: self.type_.deep_view(),
            properties: opt_entries_view(self.properties),
            other: views_of_entries(self.other@),
        }
    }
}

impl IaCResource for Resource {
    fn get_type(&self) -> (r: String)
        ensures
            match self.deep_view().type_ {
                AWSResourceTypeView::LambdaFunction => r@ == "AWS::Lambda::Function"@,
                AWSResourceTypeView::LambdaServerlessFunction => r@ == "AWS::Serverless::Function"@,
                AWSResourceTypeView::CloudWatch => r@ == "AWS::Logs::LogGroup"@,
                AWSResourceTypeView::Unknown(t) => r@ == t,
            },
    {
        match &self.type_ {
            AWSResourceType::LambdaFunction => String::from_str("AWS::Lambda::Function"),
            AWSResourceType::LambdaServerlessFunction => String::from_str(
                "AWS::Serverless::Function",
            ),
            AWSResourceType::CloudWatch => String::from_str("AWS::Logs::LogGroup"),
            AWSResourceType::Unknown(t) => t.clone(),
        }
    }

    fn get_properties(&self) -> (r: Option<Vec<(String, Value)>>)
        ensures
            match r {
                Some(props) => self.deep_view().properties == Some(views_of_entries(props@)),
                None => self.deep_view().properties is None,
            },
    {
        match &self.properties {
            Some(props) => {
                let mut out: Vec<(String, Value)> = Vec::new();
                let mut i: usize = 0;
                while i < props.len()
                    invariant
                        i <= props.len(),
                        out@.len() == i,
                        forall|j: int|
                            0 <= j < i ==> out@[j].0@ == props@[j].0@ && out@[j].1.deep_view()
                                == props@[j].1.deep_view(),
                    decreases props.len() - i,
                {
                    out.push((props[i].0.clone(), props[i].1.clone()));
                    i = i + 1;
                }
                proof {
                    crate::parsers::value::lemma_views_of_entries(out@);
                    crate::parsers::value::lemma_views_of_entries(props@);
                    assert(views_of_entries(out@) =~= views_of_entries(props@));
                }
                Some(out)
            },
            None => None,
        }
    }
}

/// A decoded CloudFormation/SAM template. `Resources` keeps declaration order,
/// which fixes the order of reported violations.
pub struct CloudFormation {
    pub awstemplate_format_version: Option<String>,
    pub description: Option<String>,
    pub parameters: Option<Vec<(String, Parameter)>>,
    pub mappings: Option<Vec<(String, Mapping)>>,
    pub globals: Option<Globals>,
    pub resources: Option<Vec<(String, Resource)>>,
    pub outputs: Option<Vec<(String, Output)>>,
}

/// The mathematical shape of a `CloudFormation` template.
#[verifier::ext_equal]
pub struct CloudFormationView {
    pub awstemplate_format_version: Option<Seq<char>>,
    pub description: Option<Seq<char>>,
    pub parameters: Option<Seq<(Seq<char>, ParameterView)>>,
    pub mappings: Option<Seq<(Seq<char>, MappingView)>>,
    pub globals: Option<GlobalsView>,
    pub resources: Option<Seq<(Seq<char>, ResourceView)>>,
    pub outputs: Option<Seq<(Seq<char>, OutputView)>>,
}

impl DeepView for CloudFormation {
    type V = CloudFormationView;

    open spec fn deep_view(&self) -> CloudFormationView {
        CloudFormationView {
            awstemplate_format_version: match self.awstemplate_format_version {
                Some(ref s) => Some(s@),
                None => None,
            },
            description: match self.description {
                Some(ref s) => Some(s@),
                None => None,
            },
            parameters: match self.parameters {
                Some(ref ps) => Some(keyed_views(ps@, |p: Parameter| p.deep_view())),
                None => None,
            },
            mappings: match self.mappings {
                Some(ref ms) => Some(keyed_views(ms@, |m: Mapping| m.deep_view())),
                None => None,
            },
            globals: match self.globals {
                Some(ref g) => Some(g.deep_view()),
                None => None,
            },
            resources: match self.resources {
                Some(ref rs) => Some(keyed_views(rs@, |r: Resource| r.deep_view())),
                None => None,
            },
            outputs: match self.outputs {
                Some(ref os) => Some(keyed_views(os@, |o: Output| o.deep_view())),
                None => None,
            },
        }
    }
}

/// A deployment-override source ("samconfig"): per-environment deployment
/// sections, read-only during resolution.
pub struct SamConfig {
    pub version: Option<String>,
    pub environments: Vec<(String, SamConfigSection)>,
}

/// One environment's section of the override source.
pub struct SamConfigSection {
    pub deploy: Option<DeployParameters>,
}

/// The `deploy` command's parameter block.
pub struct DeployParameters {
    pub parameters: Option<DeployParameterValues>,
}

/// The values under `deploy.parameters`; only `parameter_overrides` takes part
/// in resolution.
pub struct DeployParameterValues {
    pub stack_name: Option<String>,
    pub s3_bucket: Option<String>,
    pub s3_prefix: Option<String>,
    pub region: Option<String>,
    pub confirm_changeset: Option<bool>,
    pub capabilities: Option<String>,
    pub parameter_overrides: Option<Vec<(String, String)>>,
    pub image_repositories: Option<Vec<String>>,
}

impl SamConfig {
    /// Whether the override source declares this environment.
    pub open spec fn spec_has_env(self, env: Seq<char>) -> bool {
        assoc(self.environments@, env) is Some
    }

    /// The parameter overrides this source holds for an environment; an
    /// environment without a deploy parameter block overrides nothing.
    pub open spec fn spec_overrides_of(self, env: Seq<char>) -> Seq<(Seq<char>, Seq<char>)> {
        match assoc(self.environments@, env) {
            Some(section) => match section.deploy {
                Some(dp) => match dp.parameters {
                    Some(pv) => match pv.parameter_overrides {
                        Some(po) => keyed_views(po@, |s: String| s@),
                        None => Seq::empty(),
                    },
                    None => Seq::empty(),
                },
                None => Seq::empty(),
            },
            None => Seq::empty(),
        }
    }
}

} // verus!

verus! {

/// Why resolution was refused: a deployment-override source was supplied, but
/// no deployment environment selects a section of it.
#[derive(Clone, Copy, Debug, PartialEq, Eq, Structural)]
pub enum ResolveError {
    /// An override source was supplied without an environment name.
    MissingEnvironment,
    /// The named environment has no section in the override source.
    UnknownEnvironment,
}

/// Every entry under `k` updated by `f`; entries under other keys are kept.
pub open spec fn upd_dict(
    es: Seq<(Seq<char>, ValueView)>,
    k: Seq<char>,
    f: spec_fn(ValueView) -> ValueView,
) -> Seq<(Seq<char>, ValueView)> {
    Seq::new(
        es.len(),
        |i: int|
            if es[i].0 == k {
                (es[i].0, f(es[i].1))
            } else {
                es[i]
            },
    )
}

/// Step one of resolution: a parameter whose name appears in the deployment
/// overrides has its default replaced by the override's literal value.
pub open spec fn spec_override_params(
    params: Seq<(Seq<char>, ParameterView)>,
    ov: Seq<(Seq<char>, Seq<char>)>,
) -> Seq<(Seq<char>, ParameterView)> {
    Seq::new(
        params.len(),
        |i: int|
            (
                params[i].0,
                match lookup(ov, params[i].0) {
                    Some(s) => ParameterView { default: Some(ValueView::Str(s)), ..params[i].1 },
                    None => params[i].1,
                },
            ),
    )
}

/// The current default of a declared parameter, if any.
pub open spec fn spec_param_default(
    params: Seq<(Seq<char>, ParameterView)>,
    name: Seq<char>,
) -> Option<ValueView> {
    match lookup(params, name) {
        Some(p) => p.default,
        None => None,
    }
}

/// A table lookup's top key: one level of nested reference is reduced to the
/// referenced parameter's default; anything else stands as written.
pub open spec fn spec_top_key(
    k: ValueView,
    params: Seq<(Seq<char>, ParameterView)>,
) -> ValueView {
    match k {
        ValueView::Tagged(tag, arg) => if tag == "!Ref"@ {
            match *arg {
                ValueView::Str(name) => match spec_param_default(params, name) {
                    Some(d) => d,
                    None => k,
                },
                _ => k,
            }
        } else {
            k
        },
        _ => k,
    }
}

/// A table-lookup node's value: the node itself when any part of the lookup
/// misses or is malformed, else the literal found in the mapping.
pub open spec fn spec_find_in_map(
    v: ValueView,
    arg: ValueView,
    params: Seq<(Seq<char>, ParameterView)>,
    mappings: Option<Seq<(Seq<char>, MappingView)>>,
) -> ValueView {
    match arg {
        ValueView::List(items) => if items.len() < 3 {
            v
        } else {
            match (items[0], items[2]) {
                (ValueView::Str(map_name), ValueView::Str(second_key)) => match spec_top_key(
                    items[1],
                    params,
                ) {
                    ValueView::Str(top_key) => match mappings {
                        Some(ms) => match lookup(ms, map_name) {
                            Some(m) => match lookup(m, top_key) {
                                Some(inner) => match lookup(inner, second_key) {
                                    Some(val) => val,
                                    None => v,
                                },
                                None => v,
                            },
                            None => v,
                        },
                        None => v,
                    },
                    _ => v,
                },
                _ => v,
            }
        },
        _ => v,
    }
}

/// Step two of resolution, on one value: a reference node becomes the
/// parameter's default, a table-lookup node becomes the literal it finds, and
/// anything unresolved stands as written.
pub open spec fn spec_resolve_var(
    v: ValueView,
    params: Seq<(Seq<char>, ParameterView)>,
    mappings: Option<Seq<(Seq<char>, MappingView)>>,
) -> ValueView {
    match v {
        ValueView::Tagged(tag, arg) => if tag == "!Ref"@ {
            match *arg {
                ValueView::Str(name) => match spec_param_default(params, name) {
                    Some(d) => d,
                    None => v,
                },
                _ => v,
            }
        } else if tag == "!FindInMap"@ {
            spec_find_in_map(v, *arg, params, mappings)
        } else {
            v
        },
        _ => v,
    }
}

/// Step two over a `Variables` table: each entry's value is resolved.
pub open spec fn spec_resolve_vars_value(
    vars: ValueView,
    params: Seq<(Seq<char>, ParameterView)>,
    mappings: Option<Seq<(Seq<char>, MappingView)>>,
) -> ValueView {
    match vars {
        ValueView::Dict(ves) => ValueView::Dict(
            Seq::new(ves.len(), |i: int| (ves[i].0, spec_resolve_var(ves[i].1, params, mappings))),
        ),
        _ => vars,
    }
}

/// Step two under an `Environment` entry: only its `Variables` table changes.
pub open spec fn spec_resolve_env_value(
    env: ValueView,
    params: Seq<(Seq<char>, ParameterView)>,
    mappings: Option<Seq<(Seq<char>, MappingView)>>,
) -> ValueView {
    match env {
        ValueView::Dict(ees) => ValueView::Dict(
            upd_dict(ees, "Variables"@, |v: ValueView| spec_resolve_vars_value(v, params, mappings)),
        ),
        _ => env,
    }
}

/// Step two over the function globals: only
/// `Environment.Variables` changes.
pub open spec fn spec_resolve_globals_fn(
    f: Seq<(Seq<char>, ValueView)>,
    params: Seq<(Seq<char>, ParameterView)>,
    mappings: Option<Seq<(Seq<char>, MappingView)>>,
) -> Seq<(Seq<char>, ValueView)> {
    upd_dict(f, "Environment"@, |e: ValueView| spec_resolve_env_value(e, params, mappings))
}

/// Step two over the whole `Globals` section.
pub open spec fn spec_resolve_globals(
    g: GlobalsView,
    params: Seq<(Seq<char>, ParameterView)>,
    mappings: Option<Seq<(Seq<char>, MappingView)>>,
) -> GlobalsView {
    GlobalsView {
        function: match g.function {
            Some(f) => Some(spec_resolve_globals_fn(f, params, mappings)),
            None => None,
        },
        ..g
    }
}

/// The resolved global function environment variables, when
/// `Globals.Function.Environment.Variables` exists and both levels are tables.
pub open spec fn spec_global_fn_vars(g: Option<GlobalsView>) -> Option<
    Seq<(Seq<char>, ValueView)>,
> {
    match g {
        Some(gv) => match gv.function {
            Some(f) => match lookup(f, "Environment"@) {
                Some(ValueView::Dict(ees)) => match lookup(ees, "Variables"@) {
                    Some(ValueView::Dict(ves)) => Some(ves),
                    _ => None,
                },
                _ => None,
            },
            None => None,
        },
        None => None,
    }
}

/// The global variables a table does not define, in their declared order.
pub open spec fn spec_missing_vars(
    rvars: Seq<(Seq<char>, ValueView)>,
    g: Seq<(Seq<char>, ValueView)>,
) -> Seq<(Seq<char>, ValueView)>
    decreases g.len(),
{
    if g.len() == 0 {
        Seq::empty()
    } else {
        spec_missing_vars(rvars, g.drop_last()) + if lookup(rvars, g.last().0) is None {
            seq![g.last()]
        } else {
            Seq::empty()
        }
    }
}

/// Insert-if-absent merge: the resource's own variables stand first and win;
/// global variables whose keys are absent follow, in their declared order.
pub open spec fn spec_merge_vars(
    rvars: Seq<(Seq<char>, ValueView)>,
    g: Seq<(Seq<char>, ValueView)>,
) -> Seq<(Seq<char>, ValueView)> {
    rvars + spec_missing_vars(rvars, g)
}

/// Merge under an existing `Variables` value: only a table is merged into.
pub open spec fn spec_merge_vars_value(
    v: ValueView,
    g: Seq<(Seq<char>, ValueView)>,
) -> ValueView {
    match v {
        ValueView::Dict(ves) => ValueView::Dict(spec_merge_vars(ves, g)),
        _ => v,
    }
}

/// Merge under an existing `Environment` value: a missing `Variables` table is
/// created, an existing one is merged into, anything else stands as written.
pub open spec fn spec_merge_env_value(e: ValueView, g: Seq<(Seq<char>, ValueView)>) -> ValueView {
    match e {
        ValueView::Dict(ees) => ValueView::Dict(
            if lookup(ees, "Variables"@) is None {
                ees.push(("Variables"@, ValueView::Dict(g)))
            } else {
                upd_dict(ees, "Variables"@, |v: ValueView| spec_merge_vars_value(v, g))
            },
        ),
        _ => e,
    }
}

/// Step three of resolution, on one resource's properties.
pub open spec fn spec_merge_props(
    props: Seq<(Seq<char>, ValueView)>,
    g: Seq<(Seq<char>, ValueView)>,
) -> Seq<(Seq<char>, ValueView)> {
    if lookup(props, "Environment"@) is None {
        props.push(
            ("Environment"@, ValueView::Dict(seq![("Variables"@, ValueView::Dict(g))])),
        )
    } else {
        upd_dict(props, "Environment"@, |e: ValueView| spec_merge_env_value(e, g))
    }
}

/// Step three, on one resource: only Lambda-kind resources with a properties
/// bag inherit the global variables.
pub open spec fn spec_inherit_resource(
    r: ResourceView,
    g: Option<Seq<(Seq<char>, ValueView)>>,
) -> ResourceView {
    match g {
        Some(gv) => if r.type_.is_lambda_kind() && r.properties is Some {
            ResourceView { properties: Some(spec_merge_props(r.properties->Some_0, gv)), ..r }
        } else {
            r
        },
        None => r,
    }
}

/// Step three over the resource table, pointwise.
pub open spec fn spec_inherit(
    rs: Seq<(Seq<char>, ResourceView)>,
    g: Option<Seq<(Seq<char>, ValueView)>>,
) -> Seq<(Seq<char>, ResourceView)> {
    Seq::new(rs.len(), |i: int| (rs[i].0, spec_inherit_resource(rs[i].1, g)))
}

/// The overrides resolution runs under: none without an override source.
pub open spec fn spec_ov_of(samconfig: Option<&SamConfig>, environment: Option<&str>) -> Seq<
    (Seq<char>, Seq<char>),
> {
    match (samconfig, environment) {
        (Some(sc), Some(e)) => sc.spec_overrides_of(e@),
        _ => Seq::empty(),
    }
}

/// The whole resolution pass: parameter overrides, then intrinsic evaluation
/// over the function globals, then global-to-resource inheritance.
pub open spec fn spec_resolve(cv: CloudFormationView, ov: Seq<(Seq<char>, Seq<char>)>)
    -> CloudFormationView {
    let params1 = match cv.parameters {
        Some(ps) => Some(spec_override_params(ps, ov)),
        None => None,
    };
    let pseq = match params1 {
        Some(ps) => ps,
        None => Seq::empty(),
    };
    let globals1 = match cv.globals {
        Some(g) => Some(spec_resolve_globals(g, pseq, cv.mappings)),
        None => None,
    };
    let gvars = spec_global_fn_vars(globals1);
    let resources1 = match cv.resources {
        Some(rs) => Some(spec_inherit(rs, gvars)),
        None => None,
    };
    CloudFormationView { parameters: params1, globals: globals1, resources: resources1, ..cv }
}

} // verus!

verus! {

/// The views of a parameter table.
pub open spec fn params_view(params: Seq<(String, Parameter)>) -> Seq<(Seq<char>, ParameterView)> {
    keyed_views(params, |p: Parameter| p.deep_view())
}

/// The views of an optional mapping table.
pub open spec fn opt_mappings_view(m: Option<Vec<(String, Mapping)>>) -> Option<
    Seq<(Seq<char>, MappingView)>,
> {
    match m {
        Some(ms) => Some(keyed_views(ms@, |mp: Mapping| mp.deep_view())),
        None => None,
    }
}

impl Clone for Parameter {
    /// A clone denotes the same parameter.
    fn clone(&self) -> (r: Self)
        ensures
            r.deep_view() == self.deep_view(),
    {
        let r = Parameter {
            type_: self.type_.clone(),
            default: match &self.default {
                Some(d) => Some(d.clone()),
                None => None,
            },
            description: match &self.description {
                Some(d) => Some(d.clone()),
                None => None,
            },
            other: crate::parsers::value::clone_entries(&self.other),
        };
        proof {
            assert(r.deep_view() =~= self.deep_view());
        }
        r
    }
}

impl Clone for Resource {
    /// A clone denotes the same resource.
    fn clone(&self) -> (r: Self)
        ensures
            r.deep_view() == self.deep_view(),
    {
        let r = Resource {
            type_: self.type_.clone_type(),
            properties: match &self.properties {
                Some(props) => Some(crate::parsers::value::clone_entries(props)),
                None => None,
            },
            other: crate::parsers::value::clone_entries(&self.other),
        };
        proof {
            assert(r.deep_view() =~= self.deep_view());
        }
        r
    }
}

/// Step one of resolution: rebuild the parameter table with overridden
/// defaults.
fn apply_overrides(params: &Vec<(String, Parameter)>, ov: &Vec<(String, String)>) -> (r: Vec<
    (String, Parameter),
>)
    ensures
        params_view(r@) == spec_override_params(
            params_view(params@),
            keyed_views(ov@, |s: String| s@),
        ),
{
    let ghost ovv = keyed_views(ov@, |s: String| s@);
    let mut out: Vec<(String, Parameter)> = Vec::new();
    let mut i: usize = 0;
    while i < params.len()
        invariant
            i <= params.len(),
            out@.len() == i,
            ovv == keyed_views(ov@, |s: String| s@),
            forall|j: int|
                0 <= j < i ==> out@[j].0@ == params@[j].0@ && out@[j].1.deep_view() == (match lookup(
                    ovv,
                    params@[j].0@,
                ) {
                    Some(s) => ParameterView {
                        default: Some(ValueView::Str(s)),
                        ..params@[j].1.deep_view()
                    },
                    None => params@[j].1.deep_view(),
                }),
        decreases params.len() - i,
    {
        proof {
            lemma_assoc_keyed_views(ov@, |s: String| s@, params@[i as int].0@);
        }
        match assoc_get(ov, params[i].0.as_str()) {
            Some(s) => {
                let p = &params[i].1;
                let np = Parameter {
                    type_: p.type_.clone(),
                    default: Some(Value::Str(s.clone())),
                    description: match &p.description {
                        Some(d) => Some(d.clone()),
                        None => None,
                    },
                    other: crate::parsers::value::clone_entries(&p.other),
                };
                proof {
                    assert(np.deep_view() =~= ParameterView {
                        default: Some(ValueView::Str(s@)),
                        ..params@[i as int].1.deep_view()
                    });
                }
                out.push((params[i].0.clone(), np));
            },
            None => {
                out.push((params[i].0.clone(), params[i].1.clone()));
            },
        }
        i = i + 1;
    }
    proof {
        assert(params_view(out@) =~= spec_override_params(params_view(params@), ovv));
    }
    out
}

/// The current default of the named parameter, duplicated.
fn param_default(params: &Vec<(String, Parameter)>, name: &str) -> (r: Option<Value>)
    ensures
        match r {
            Some(d) => spec_param_default(params_view(params@), name@) == Some(d.deep_view()),
            None => spec_param_default(params_view(params@), name@) is None,
        },
{
    proof {
        lemma_assoc_keyed_views(params@, |p: Parameter| p.deep_view(), name@);
    }
    match assoc_get(params, name) {
        Some(p) => match &p.default {
            Some(d) => Some(d.clone()),
            None => None,
        },
        None => None,
    }
}

/// A table lookup's top key, with one level of nested reference reduced.
fn top_key_value(k: &Value, params: &Vec<(String, Parameter)>) -> (r: Value)
    ensures
        r.deep_view() == spec_top_key(k.deep_view(), params_view(params@)),
{
    match k {
        Value::Tagged(tag, inner) => {
            proof {
                assert(k.deep_view() == ValueView::Tagged(
                    tag@,
                    Box::new((**inner).deep_view()),
                ));
                assert(*(k.deep_view()->Tagged_1) == (**inner).deep_view());
            }
            if str_eq(tag.as_str(), "!Ref") {
                match &**inner {
                    Value::Str(name) => match param_default(params, name.as_str()) {
                        Some(d) => d,
                        None => k.clone(),
                    },
                    _ => k.clone(),
                }
            } else {
                k.clone()
            }
        },
        _ => k.clone(),
    }
}

/// Evaluate a table-lookup node; on any miss the node stands as written.
fn resolve_find_in_map(
    v: &Value,
    arg: &Value,
    params: &Vec<(String, Parameter)>,
    mappings: &Option<Vec<(String, Mapping)>>,
) -> (r: Value)
    ensures
        r.deep_view() == spec_find_in_map(
            v.deep_view(),
            arg.deep_view(),
            params_view(params@),
            opt_mappings_view(*mappings),
        ),
{
    match arg {
        Value::List(items) => {
            proof {
                crate::parsers::value::lemma_views_of_values(items@);
            }
            if items.len() < 3 {
                return v.clone();
            }
            let map_name = match items[0].as_str() {
                Some(s) => s,
                None => {
                    return v.clone();
                },
            };
            let second_key = match items[2].as_str() {
                Some(s) => s,
                None => {
                    return v.clone();
                },
            };
            let top = top_key_value(&items[1], params);
            let top_str = match top.as_str() {
                Some(s) => s,
                None => {
                    return v.clone();
                },
            };
            match mappings {
                Some(ms) => {
                    proof {
                        lemma_assoc_keyed_views(ms@, |mp: Mapping| mp.deep_view(), map_name@);
                    }
                    match assoc_get(ms, map_name.as_str()) {
                        Some(m) => match m.get_value(top_str.as_str(), second_key.as_str()) {
                            Some(val) => val,
                            None => v.clone(),
                        },
                        None => v.clone(),
                    }
                },
                None => v.clone(),
            }
        },
        _ => v.clone(),
    }
}

/// Evaluate one value of the global variables table.
fn resolve_value(
    v: &Value,
    params: &Vec<(String, Parameter)>,
    mappings: &Option<Vec<(String, Mapping)>>,
) -> (r: Value)
    ensures
        r.deep_view() == spec_resolve_var(
            v.deep_view(),
            params_view(params@),
            opt_mappings_view(*mappings),
        ),
{
    match v {
        Value::Tagged(tag, arg) => {
            proof {
                assert(v.deep_view() == ValueView::Tagged(
                    tag@,
                    Box::new((**arg).deep_view()),
                ));
                assert(*(v.deep_view()->Tagged_1) == (**arg).deep_view());
            }
            if str_eq(tag.as_str(), "!Ref") {
                match &**arg {
                    Value::Str(name) => match param_default(params, name.as_str()) {
                        Some(d) => d,
                        None => v.clone(),
                    },
                    _ => v.clone(),
                }
            } else if str_eq(tag.as_str(), "!FindInMap") {
                resolve_find_in_map(v, arg, params, mappings)
            } else {
                v.clone()
            }
        },
        _ => v.clone(),
    }
}

} // verus!

verus! {

/// Step two over a `Variables` table value.
fn resolve_vars_value(
    vars: &Value,
    params: &Vec<(String, Parameter)>,
    mappings: &Option<Vec<(String, Mapping)>>,
) -> (r: Value)
    ensures
        r.deep_view() == spec_resolve_vars_value(
            vars.deep_view(),
            params_view(params@),
            opt_mappings_view(*mappings),
        ),
{
    match vars {
        Value::Dict(ves) => {
            let mut out: Vec<(String, Value)> = Vec::new();
            let mut i: usize = 0;
            while i < ves.len()
                invariant
                    *vars == Value::Dict(*ves),
                    i <= ves.len(),
                    out@.len() == i,
                    forall|j: int|
                        0 <= j < i ==> out@[j].0@ == ves@[j].0@ && out@[j].1.deep_view()
                            == spec_resolve_var(
                            ves@[j].1.deep_view(),
                            params_view(params@),
                            opt_mappings_view(*mappings),
                        ),
                decreases ves.len() - i,
            {
                let rv = resolve_value(&ves[i].1, params, mappings);
                out.push((ves[i].0.clone(), rv));
                i = i + 1;
            }
            proof {
                crate::parsers::value::lemma_views_of_entries(out@);
                crate::parsers::value::lemma_views_of_entries(ves@);
                assert(views_of_entries(out@) =~= Seq::new(
                    views_of_entries(ves@).len(),
                    |i: int|
                        (
                            views_of_entries(ves@)[i].0,
                            spec_resolve_var(
                                views_of_entries(ves@)[i].1,
                                params_view(params@),
                                opt_mappings_view(*mappings),
                            ),
                        ),
                ));
            }
            Value::Dict(out)
        },
        _ => vars.clone(),
    }
}

/// Step two under an `Environment` value.
fn resolve_env_value(
    env: &Value,
    params: &Vec<(String, Parameter)>,
    mappings: &Option<Vec<(String, Mapping)>>,
) -> (r: Value)
    ensures
        r.deep_view() == spec_resolve_env_value(
            env.deep_view(),
            params_view(params@),
            opt_mappings_view(*mappings),
        ),
{
    match env {
        Value::Dict(ees) => {
            let mut out: Vec<(String, Value)> = Vec::new();
            let mut i: usize = 0;
            while i < ees.len()
                invariant
                    *env == Value::Dict(*ees),
                    i <= ees.len(),
                    out@.len() == i,
                    forall|j: int|
                        0 <= j < i ==> out@[j].0@ == ees@[j].0@ && out@[j].1.deep_view() == (
                        if ees@[j].0@ == "Variables"@ {
                            spec_resolve_vars_value(
                                ees@[j].1.deep_view(),
                                params_view(params@),
                                opt_mappings_view(*mappings),
                            )
                        } else {
                            ees@[j].1.deep_view()
                        }),
                decreases ees.len() - i,
            {
                if str_eq(ees[i].0.as_str(), "Variables") {
                    let rv = resolve_vars_value(&ees[i].1, params, mappings);
                    out.push((ees[i].0.clone(), rv));
                } else {
                    out.push((ees[i].0.clone(), ees[i].1.clone()));
                }
                i = i + 1;
            }
            proof {
                crate::parsers::value::lemma_views_of_entries(out@);
                crate::parsers::value::lemma_views_of_entries(ees@);
                assert(views_of_entries(out@) =~= upd_dict(
                    views_of_entries(ees@),
                    "Variables"@,
                    |v: ValueView|
                        spec_resolve_vars_value(
                            v,
                            params_view(params@),
                            opt_mappings_view(*mappings),
                        ),
                ));
            }
            Value::Dict(out)
        },
        _ => env.clone(),
    }
}

/// Step two over the function globals.
fn resolve_globals_fn(
    f: &Vec<(String, Value)>,
    params: &Vec<(String, Parameter)>,
    mappings: &Option<Vec<(String, Mapping)>>,
) -> (r: Vec<(String, Value)>)
    ensures
        views_of_entries(r@) == spec_resolve_globals_fn(
            views_of_entries(f@),
            params_view(params@),
            opt_mappings_view(*mappings),
        ),
{
    let mut out: Vec<(String, Value)> = Vec::new();
    let mut i: usize = 0;
    while i < f.len()
        invariant
            i <= f.len(),
            out@.len() == i,
            forall|j: int|
                0 <= j < i ==> out@[j].0@ == f@[j].0@ && out@[j].1.deep_view() == (if f@[j].0@
                    == "Environment"@ {
                    spec_resolve_env_value(
                        f@[j].1.deep_view(),
                        params_view(params@),
                        opt_mappings_view(*mappings),
                    )
                } else {
                    f@[j].1.deep_view()
                }),
        decreases f.len() - i,
    {
        if str_eq(f[i].0.as_str(), "Environment") {
            let rv = resolve_env_value(&f[i].1, params, mappings);
            out.push((f[i].0.clone(), rv));
        } else {
            out.push((f[i].0.clone(), f[i].1.clone()));
        }
        i = i + 1;
    }
    proof {
        crate::parsers::value::lemma_views_of_entries(out@);
        crate::parsers::value::lemma_views_of_entries(f@);
        assert(views_of_entries(out@) =~= spec_resolve_globals_fn(
            views_of_entries(f@),
            params_view(params@),
            opt_mappings_view(*mappings),
        ));
    }
    out
}

/// The resolved global function environment variables, duplicated for the
/// inheritance pass.
fn global_fn_vars(globals: &Option<Globals>) -> (r: Option<Vec<(String, Value)>>)
    ensures
        match r {
            Some(g) => spec_global_fn_vars(
                match globals {
                    Some(gv) => Some(gv.deep_view()),
                    None => None,
                },
            ) == Some(views_of_entries(g@)),
            None => spec_global_fn_vars(
                match globals {
                    Some(gv) => Some(gv.deep_view()),
                    None => None,
                },
            ) is None,
        },
{
    match globals {
        Some(g) => match &g.function {
            Some(f) => match crate::parsers::value::dict_get(f, "Environment") {
                Some(env) => match env {
                    Value::Dict(ees) => {
                        proof {
                            crate::parsers::value::lemma_assoc_entries(ees@, "Variables"@);
                        }
                        match crate::parsers::value::dict_get(ees, "Variables") {
                            Some(vars) => match vars {
                                Value::Dict(ves) => Some(crate::parsers::value::clone_entries(ves)),
                                _ => None,
                            },
                            None => None,
                        }
                    },
                    _ => None,
                },
                None => None,
            },
            None => None,
        },
        None => None,
    }
}

} // verus!

verus! {

/// Insert-if-absent merge of the global variables into a resource's own.
fn merge_vars(rvars: &Vec<(String, Value)>, g: &Vec<(String, Value)>) -> (r: Vec<(String, Value)>)
    ensures
        views_of_entries(r@) == spec_merge_vars(views_of_entries(rvars@), views_of_entries(g@)),
{
    let ghost rv = views_of_entries(rvars@);
    let ghost gv = views_of_entries(g@);
    let mut out = crate::parsers::value::clone_entries(rvars);
    let mut i: usize = 0;
    proof {
        crate::parsers::value::lemma_views_of_entries(g@);
        assert(views_of_entries(out@) =~= rv + spec_missing_vars(rv, gv.take(0)));
    }
    while i < g.len()
        invariant
            i <= g.len(),
            rv == views_of_entries(rvars@),
            gv == views_of_entries(g@),
            gv.len() == g@.len(),
            forall|j: int| 0 <= j < g@.len() ==> gv[j] == (g@[j].0@, g@[j].1.deep_view()),
            views_of_entries(out@) == rv + spec_missing_vars(rv, gv.take(i as int)),
        decreases g.len() - i,
    {
        let present = match crate::parsers::value::dict_get(rvars, g[i].0.as_str()) {
            Some(_) => true,
            None => false,
        };
        let ghost old_out = out@;
        if !present {
            out.push((g[i].0.clone(), g[i].1.clone()));
            proof {
                crate::parsers::value::lemma_views_of_entries(old_out);
                crate::parsers::value::lemma_views_of_entries(out@);
                assert(views_of_entries(out@) =~= views_of_entries(old_out).push(gv[i as int]));
            }
        }
        proof {
            assert(gv.take(i + 1).drop_last() =~= gv.take(i as int));
            assert(gv.take(i + 1).last() == gv[i as int]);
            if present {
                assert(views_of_entries(out@) =~= rv + spec_missing_vars(rv, gv.take(i + 1)));
            } else {
                assert(views_of_entries(out@) =~= rv + spec_missing_vars(rv, gv.take(i + 1)));
            }
        }
        i = i + 1;
    }
    proof {
        assert(gv.take(g@.len() as int) =~= gv);
    }
    out
}

/// Merge under an existing `Variables` value.
fn merge_vars_value(v: &Value, g: &Vec<(String, Value)>) -> (r: Value)
    ensures
        r.deep_view() == spec_merge_vars_value(v.deep_view(), views_of_entries(g@)),
{
    match v {
        Value::Dict(ves) => Value::Dict(merge_vars(ves, g)),
        _ => v.clone(),
    }
}

/// Merge under an existing `Environment` value.
fn merge_env_value(e: &Value, g: &Vec<(String, Value)>) -> (r: Value)
    ensures
        r.deep_view() == spec_merge_env_value(e.deep_view(), views_of_entries(g@)),
{
    match e {
        Value::Dict(ees) => {
            proof {
                crate::parsers::value::lemma_assoc_entries(ees@, "Variables"@);
            }
            let has_vars = match crate::parsers::value::dict_get(ees, "Variables") {
                Some(_) => true,
                None => false,
            };
            if !has_vars {
                let mut out = crate::parsers::value::clone_entries(ees);
                let ghost before = out@;
                out.push((String::from_str("Variables"), Value::Dict(
                    crate::parsers::value::clone_entries(g),
                )));
                proof {
                    crate::parsers::value::lemma_views_of_entries(before);
                    crate::parsers::value::lemma_views_of_entries(out@);
                    assert(views_of_entries(out@) =~= views_of_entries(ees@).push(
                        ("Variables"@, ValueView::Dict(views_of_entries(g@))),
                    ));
                }
                Value::Dict(out)
            } else {
                let mut out: Vec<(String, Value)> = Vec::new();
                let mut i: usize = 0;
                while i < ees.len()
                    invariant
                        *e == Value::Dict(*ees),
                        i <= ees.len(),
                        out@.len() == i,
                        forall|j: int|
                            0 <= j < i ==> out@[j].0@ == ees@[j].0@ && out@[j].1.deep_view() == (
                            if ees@[j].0@ == "Variables"@ {
                                spec_merge_vars_value(
                                    ees@[j].1.deep_view(),
                                    views_of_entries(g@),
                                )
                            } else {
                                ees@[j].1.deep_view()
                            }),
                    decreases ees.len() - i,
                {
                    if str_eq(ees[i].0.as_str(), "Variables") {
                        let mv = merge_vars_value(&ees[i].1, g);
                        out.push((ees[i].0.clone(), mv));
                    } else {
                        out.push((ees[i].0.clone(), ees[i].1.clone()));
                    }
                    i = i + 1;
                }
                proof {
                    crate::parsers::value::lemma_views_of_entries(out@);
                    crate::parsers::value::lemma_views_of_entries(ees@);
                    assert(views_of_entries(out@) =~= upd_dict(
                        views_of_entries(ees@),
                        "Variables"@,
                        |v: ValueView| spec_merge_vars_value(v, views_of_entries(g@)),
                    ));
                }
                Value::Dict(out)
            }
        },
        _ => e.clone(),
    }
}

/// Step three on one resource's properties.
fn merge_props(props: &Vec<(String, Value)>, g: &Vec<(String, Value)>) -> (r: Vec<(String, Value)>)
    ensures
        views_of_entries(r@) == spec_merge_props(views_of_entries(props@), views_of_entries(g@)),
{
    proof {
        crate::parsers::value::lemma_assoc_entries(props@, "Environment"@);
    }
    let has_env = match crate::parsers::value::dict_get(props, "Environment") {
        Some(_) => true,
        None => false,
    };
    if !has_env {
        let mut out = crate::parsers::value::clone_entries(props);
        let ghost before = out@;
        let mut env_entries: Vec<(String, Value)> = Vec::new();
        env_entries.push((String::from_str("Variables"), Value::Dict(
            crate::parsers::value::clone_entries(g),
        )));
        proof {
            crate::parsers::value::lemma_views_of_entries(env_entries@);
            assert(views_of_entries(env_entries@) =~= seq![
                ("Variables"@, ValueView::Dict(views_of_entries(g@))),
            ]);
        }
        out.push((String::from_str("Environment"), Value::Dict(env_entries)));
        proof {
            crate::parsers::value::lemma_views_of_entries(before);
            crate::parsers::value::lemma_views_of_entries(out@);
            assert(views_of_entries(out@) =~= views_of_entries(props@).push(
                (
                    "Environment"@,
                    ValueView::Dict(
                        seq![("Variables"@, ValueView::Dict(views_of_entries(g@)))],
                    ),
                ),
            ));
        }
        out
    } else {
        let mut out: Vec<(String, Value)> = Vec::new();
        let mut i: usize = 0;
        while i < props.len()
            invariant
                i <= props.len(),
                out@.len() == i,
                forall|j: int|
                    0 <= j < i ==> out@[j].0@ == props@[j].0@ && out@[j].1.deep_view() == (
                    if props@[j].0@ == "Environment"@ {
                        spec_merge_env_value(props@[j].1.deep_view(), views_of_entries(g@))
                    } else {
                        props@[j].1.deep_view()
                    }),
            decreases props.len() - i,
        {
            if str_eq(props[i].0.as_str(), "Environment") {
                let mv = merge_env_value(&props[i].1, g);
                out.push((props[i].0.clone(), mv));
            } else {
                out.push((props[i].0.clone(), props[i].1.clone()));
            }
            i = i + 1;
        }
        proof {
            crate::parsers::value::lemma_views_of_entries(out@);
            crate::parsers::value::lemma_views_of_entries(props@);
            assert(views_of_entries(out@) =~= upd_dict(
                views_of_entries(props@),
                "Environment"@,
                |e: ValueView| spec_merge_env_value(e, views_of_entries(g@)),
            ));
        }
        out
    }
}

/// Step three over the resource table.
fn inherit_resources(rs: &Vec<(String, Resource)>, g: &Vec<(String, Value)>) -> (r: Vec<
    (String, Resource),
>)
    ensures
        keyed_views(r@, |x: Resource| x.deep_view()) == spec_inherit(
            keyed_views(rs@, |x: Resource| x.deep_view()),
            Some(views_of_entries(g@)),
        ),
{
    let mut out: Vec<(String, Resource)> = Vec::new();
    let mut i: usize = 0;
    while i < rs.len()
        invariant
            i <= rs.len(),
            out@.len() == i,
            forall|j: int|
                0 <= j < i ==> out@[j].0@ == rs@[j].0@ && out@[j].1.deep_view()
                    == spec_inherit_resource(
                    rs@[j].1.deep_view(),
                    Some(views_of_entries(g@)),
                ),
        decreases rs.len() - i,
    {
        let resource = &rs[i].1;
        if resource.type_.is_lambda() {
            match &resource.properties {
                Some(props) => {
                    let merged = merge_props(props, g);
                    let nr = Resource {
                        type_: resource.type_.clone_type(),
                        properties: Some(merged),
                        other: crate::parsers::value::clone_entries(&resource.other),
                    };
                    proof {
                        assert(nr.deep_view() =~= spec_inherit_resource(
                            rs@[i as int].1.deep_view(),
                            Some(views_of_entries(g@)),
                        ));
                    }
                    out.push((rs[i].0.clone(), nr));
                },
                None => {
                    out.push((rs[i].0.clone(), resource.clone()));
                },
            }
        } else {
            out.push((rs[i].0.clone(), resource.clone()));
        }
        i = i + 1;
    }
    proof {
        assert(keyed_views(out@, |x: Resource| x.deep_view()) =~= spec_inherit(
            keyed_views(rs@, |x: Resource| x.deep_view()),
            Some(views_of_entries(g@)),
        ));
    }
    out
}

} // verus!

verus! {

/// Duplicate a parameter-override table.
fn clone_overrides(po: &Vec<(String, String)>) -> (r: Vec<(String, String)>)
    ensures
        keyed_views(r@, |s: String| s@) == keyed_views(po@, |s: String| s@),
{
    let mut out: Vec<(String, String)> = Vec::new();
    let mut i: usize = 0;
    while i < po.len()
        invariant
            i <= po.len(),
            out@.len() == i,
            forall|j: int| 0 <= j < i ==> out@[j].0@ == po@[j].0@ && out@[j].1@ == po@[j].1@,
        decreases po.len() - i,
    {
        out.push((po[i].0.clone(), po[i].1.clone()));
        i = i + 1;
    }
    proof {
        assert(keyed_views(out@, |s: String| s@) =~= keyed_views(po@, |s: String| s@));
    }
    out
}

impl CloudFormation {
    /// The template resolver: substitute deployment overrides into parameter
    /// defaults, evaluate the intrinsic-function nodes of the function
    /// globals, and merge the resolved global variables into every Lambda
    /// resource, without overwriting what a resource defines itself.
    ///
    /// With an override source but no environment, or an environment the
    /// source does not declare, nothing changes and the configuration error
    /// is reported to the caller.
    pub fn resolve_parameters(
        &mut self,
        samconfig: Option<&SamConfig>,
        environment: Option<&str>,
    ) -> (r: Result<(), ResolveError>)
        ensures
            match r {
                Ok(_) => ({
                    &&& (match samconfig {
                        Some(sc) => environment matches Some(e) && sc.spec_has_env(e@),
                        None => true,
                    })
                    &&& final(self).deep_view() == spec_resolve(
                        old(self).deep_view(),
                        spec_ov_of(samconfig, environment),
                    )
                }),
                Err(ResolveError::MissingEnvironment) => samconfig is Some && environment is None
                    && final(self).deep_view() == old(self).deep_view(),
                Err(ResolveError::UnknownEnvironment) => (match (samconfig, environment) {
                    (Some(sc), Some(e)) => !sc.spec_has_env(e@),
                    _ => false,
                }) && final(self).deep_view() == old(self).deep_view(),
            },
    {
        let ov: Vec<(String, String)> = match samconfig {
            Some(sc) => {
                let env = match environment {
                    Some(e) => e,
                    None => {
                        return Err(ResolveError::MissingEnvironment);
                    },
                };
                match assoc_get(&sc.environments, env) {
                    Some(section) => match &section.deploy {
                        Some(dp) => match &dp.parameters {
                            Some(pv) => match &pv.parameter_overrides {
                                Some(po) => clone_overrides(po),
                                None => Vec::new(),
                            },
                            None => Vec::new(),
                        },
                        None => Vec::new(),
                    },
                    None => {
                        return Err(ResolveError::UnknownEnvironment);
                    },
                }
            },
            None => Vec::new(),
        };
        let ghost ovv = spec_ov_of(samconfig, environment);
        proof {
            assert(keyed_views(ov@, |s: String| s@) =~= ovv);
        }
        let new_params = match &self.parameters {
            Some(ps) => Some(apply_overrides(ps, &ov)),
            None => None,
        };
        self.parameters = new_params;
        let empty_params: Vec<(String, Parameter)> = Vec::new();
        let pref: &Vec<(String, Parameter)> = match &self.parameters {
            Some(ps) => ps,
            None => &empty_params,
        };
        proof {
            let cv = old(self).deep_view();
            let pseq = match spec_resolve(cv, ovv).parameters {
                Some(ps) => ps,
                None => Seq::empty(),
            };
            if old(self).parameters is None {
                assert(params_view(pref@) =~= Seq::<(Seq<char>, ParameterView)>::empty());
            }
            assert(params_view(pref@) == pseq);
            assert(opt_mappings_view(self.mappings) == cv.mappings);
        }
        let new_globals = match &self.globals {
            Some(g) => {
                Some(
                    Globals {
                        function: match &g.function {
                            Some(f) => Some(resolve_globals_fn(f, pref, &self.mappings)),
                            None => None,
                        },
                        api: match &g.api {
                            Some(x) => Some(crate::parsers::value::clone_entries(x)),
                            None => None,
                        },
                        http_api: match &g.http_api {
                            Some(x) => Some(crate::parsers::value::clone_entries(x)),
                            None => None,
                        },
                        state_machine: match &g.state_machine {
                            Some(x) => Some(crate::parsers::value::clone_entries(x)),
                            None => None,
                        },
                        simple_table: match &g.simple_table {
                            Some(x) => Some(crate::parsers::value::clone_entries(x)),
                            None => None,
                        },
                    },
                )
            },
            None => None,
        };
        proof {
            let cv = old(self).deep_view();
            let pseq = match spec_resolve(cv, ovv).parameters {
                Some(ps) => ps,
                None => Seq::empty(),
            };
            let ghost gpair = (new_globals, old(self).globals);
            match gpair {
                (Some(g1), Some(g0)) => {
                    assert(g1.deep_view().function == spec_resolve_globals(
                        g0.deep_view(),
                        pseq,
                        cv.mappings,
                    ).function);
                    assert(g1.deep_view() =~= spec_resolve_globals(
                        g0.deep_view(),
                        pseq,
                        cv.mappings,
                    ));
                },
                _ => {},
            }
        }
        self.globals = new_globals;
        let gvars = global_fn_vars(&self.globals);
        match gvars {
            Some(g) => {
                let new_resources = match &self.resources {
                    Some(rs) => Some(inherit_resources(rs, &g)),
                    None => None,
                };
                self.resources = new_resources;
            },
            None => {},
        }
        proof {
            let cv = old(self).deep_view();
            let res = spec_resolve(cv, ovv);
            assert(match (self.globals, res.globals) {
                (Some(g1), Some(g1v)) => g1.deep_view() == g1v,
                (None, None) => true,
                _ => false,
            });
            let ghost rpair = (self.resources, old(self).resources);
            match rpair {
                (Some(rs1), Some(rs0)) => {
                    if spec_global_fn_vars(res.globals) is None {
                        assert(keyed_views(rs1@, |x: Resource| x.deep_view()) =~= spec_inherit(
                            keyed_views(rs0@, |x: Resource| x.deep_view()),
                            None,
                        ));
                    }
                },
                _ => {},
            }
            assert(self.deep_view() =~= res);
        }
        Ok(())
    }
}

} // verus!

verus! {

/// A lookup is answered exactly when some entry carries the key.
pub proof fn lemma_lookup_some_iff_exists<V>(m: Seq<(Seq<char>, V)>, k: Seq<char>)
    ensures
        lookup(m, k) is Some <==> exists|i: int| 0 <= i < m.len() && m[i].0 == k,
    decreases m.len(),
{
    if m.len() > 0 {
        lemma_lookup_some_iff_exists(m.drop_first(), k);
        if m[0].0 != k {
            if lookup(m, k) is Some {
                let i = choose|i: int| 0 <= i < m.drop_first().len() && m.drop_first()[i].0 == k;
                assert(m[i + 1].0 == k);
            }
            if exists|i: int| 0 <= i < m.len() && m[i].0 == k {
                let i = choose|i: int| 0 <= i < m.len() && m[i].0 == k;
                assert(m.drop_first()[i - 1].0 == k);
            }
        }
    }
}

/// A lookup in a concatenation is answered by the left part first.
pub proof fn lemma_lookup_append<V>(a: Seq<(Seq<char>, V)>, b: Seq<(Seq<char>, V)>, k: Seq<char>)
    ensures
        lookup(a + b, k) == (if lookup(a, k) is Some {
            lookup(a, k)
        } else {
            lookup(b, k)
        }),
    decreases a.len(),
{
    if a.len() == 0 {
        assert(a + b =~= b);
    } else {
        lemma_lookup_append(a.drop_first(), b, k);
        assert((a + b).drop_first() =~= a.drop_first() + b);
    }
}

/// A lookup in a key-preserving pointwise map of the table is the mapped
/// original answer.
pub proof fn lemma_lookup_mapped<V, W>(
    m: Seq<(Seq<char>, V)>,
    f: spec_fn(Seq<char>, V) -> W,
    k: Seq<char>,
)
    ensures
        match lookup(m, k) {
            Some(v) => lookup(Seq::new(m.len(), |i: int| (m[i].0, f(m[i].0, m[i].1))), k) == Some(
                f(k, v),
            ),
            None => lookup(Seq::new(m.len(), |i: int| (m[i].0, f(m[i].0, m[i].1))), k) is None,
        },
    decreases m.len(),
{
    if m.len() > 0 {
        lemma_lookup_mapped(m.drop_first(), f, k);
        assert(Seq::new(m.len(), |i: int| (m[i].0, f(m[i].0, m[i].1))).drop_first() =~= Seq::new(
            m.drop_first().len(),
            |i: int| (m.drop_first()[i].0, f(m.drop_first()[i].0, m.drop_first()[i].1)),
        ));
    }
}

/// Global non-destructive merge: a variable the resource defines itself keeps
/// the resource's own value through the insert-if-absent merge, whatever the
/// globals say under that key.
pub proof fn lemma_merge_non_destructive(
    rvars: Seq<(Seq<char>, ValueView)>,
    g: Seq<(Seq<char>, ValueView)>,
    k: Seq<char>,
)
    requires
        lookup(rvars, k) is Some,
    ensures
        lookup(spec_merge_vars(rvars, g), k) == lookup(rvars, k),
{
    lemma_lookup_append(rvars, spec_missing_vars(rvars, g), k);
}

/// Override precedence: a declared parameter whose name carries a deployment
/// override resolves to the override's literal value, whatever default the
/// template declared.
pub proof fn lemma_override_precedence(
    cv: CloudFormationView,
    ov: Seq<(Seq<char>, Seq<char>)>,
    name: Seq<char>,
    b: Seq<char>,
)
    requires
        cv.parameters matches Some(ps) && lookup(ps, name) is Some,
        lookup(ov, name) == Some(b),
    ensures
        spec_resolve(cv, ov).parameters matches Some(ps1) && spec_param_default(ps1, name) == Some(
            ValueView::Str(b),
        ),
{
    let ps = cv.parameters->Some_0;
    let f = |key: Seq<char>, p: ParameterView|
        match lookup(ov, key) {
            Some(s) => ParameterView { default: Some(ValueView::Str(s)), ..p },
            None => p,
        };
    lemma_lookup_mapped(ps, f, name);
    assert(spec_override_params(ps, ov) =~= Seq::new(
        ps.len(),
        |i: int| (ps[i].0, f(ps[i].0, ps[i].1)),
    ));
}

} // verus!

verus! {


/// A global variable the table misses is found among the missing ones.
pub proof fn lemma_missing_vars_found(
    rvars: Seq<(Seq<char>, ValueView)>,
    g: Seq<(Seq<char>, ValueView)>,
    k: Seq<char>,
)
    requires
        lookup(rvars, k) is None,
        lookup(g, k) is Some,
    ensures
        lookup(spec_missing_vars(rvars, g), k) is Some,
    decreases g.len(),
{
    lemma_lookup_some_iff_exists(g, k);
    let i = choose|i: int| 0 <= i < g.len() && g[i].0 == k;
    if i == g.len() - 1 {
        let miss = spec_missing_vars(rvars, g);
        lemma_lookup_some_iff_exists(miss, k);
        assert(miss[miss.len() - 1].0 == k);
    } else {
        assert(g.drop_last()[i].0 == k);
        lemma_lookup_some_iff_exists(g.drop_last(), k);
        lemma_missing_vars_found(rvars, g.drop_last(), k);
        let miss0 = spec_missing_vars(rvars, g.drop_last());
        lemma_lookup_some_iff_exists(miss0, k);
        let j = choose|j: int| 0 <= j < miss0.len() && miss0[j].0 == k;
        let miss = spec_missing_vars(rvars, g);
        assert(miss[j].0 == k);
        lemma_lookup_some_iff_exists(miss, k);
    }
}

/// A table that already answers every global key misses nothing.
pub proof fn lemma_missing_vars_all_present(
    rvars: Seq<(Seq<char>, ValueView)>,
    g: Seq<(Seq<char>, ValueView)>,
)
    requires
        forall|j: int| 0 <= j < g.len() ==> lookup(rvars, #[trigger] g[j].0) is Some,
    ensures
        spec_missing_vars(rvars, g) == Seq::<(Seq<char>, ValueView)>::empty(),
    decreases g.len(),
{
    if g.len() > 0 {
        lemma_missing_vars_all_present(rvars, g.drop_last());
        assert(spec_missing_vars(rvars, g) =~= Seq::<(Seq<char>, ValueView)>::empty());
    }
}

/// Merging the same globals twice merges them once: the second pass finds
/// every global key already present.
pub proof fn lemma_merge_vars_idem(
    rvars: Seq<(Seq<char>, ValueView)>,
    g: Seq<(Seq<char>, ValueView)>,
)
    ensures
        spec_merge_vars(spec_merge_vars(rvars, g), g) == spec_merge_vars(rvars, g),
{
    let merged = spec_merge_vars(rvars, g);
    assert forall|j: int| 0 <= j < g.len() implies lookup(merged, #[trigger] g[j].0) is Some by {
        lemma_lookup_append(rvars, spec_missing_vars(rvars, g), g[j].0);
        if lookup(rvars, g[j].0) is None {
            lemma_lookup_some_iff_exists(g, g[j].0);
            lemma_missing_vars_found(rvars, g, g[j].0);
        }
    }
    lemma_missing_vars_all_present(merged, g);
    assert(spec_merge_vars(merged, g) =~= merged);
}

} // verus!

verus! {

/// The table entry a lookup of `(mapping, top key, second key)` hits, if any.
pub open spec fn spec_mapping_hit(
    mappings: Option<Seq<(Seq<char>, MappingView)>>,
    map_name: Seq<char>,
    top_key: Seq<char>,
    second_key: Seq<char>,
) -> Option<ValueView> {
    match mappings {
        Some(ms) => match lookup(ms, map_name) {
            Some(m) => match lookup(m, top_key) {
                Some(inner) => lookup(inner, second_key),
                None => None,
            },
            None => None,
        },
        None => None,
    }
}

/// Every parameter default the table can answer is a literal, not an
/// intrinsic-function node.
pub open spec fn spec_defaults_literal(params: Seq<(Seq<char>, ParameterView)>) -> bool {
    forall|n: Seq<char>|
        match #[trigger] spec_param_default(params, n) {
            Some(d) => !(d is Tagged),
            None => true,
        }
}

/// Every value a table lookup can produce is a literal, not an
/// intrinsic-function node.
pub open spec fn spec_mappings_literal(mappings: Option<Seq<(Seq<char>, MappingView)>>) -> bool {
    forall|mn: Seq<char>, tk: Seq<char>, sk: Seq<char>|
        match #[trigger] spec_mapping_hit(mappings, mn, tk, sk) {
            Some(v) => !(v is Tagged),
            None => true,
        }
}

/// Overriding defaults keeps them literal: an override writes a string.
pub proof fn lemma_override_keeps_literal(
    params: Seq<(Seq<char>, ParameterView)>,
    ov: Seq<(Seq<char>, Seq<char>)>,
)
    requires
        spec_defaults_literal(params),
    ensures
        spec_defaults_literal(spec_override_params(params, ov)),
{
    let params1 = spec_override_params(params, ov);
    let f = |key: Seq<char>, p: ParameterView|
        match lookup(ov, key) {
            Some(s) => ParameterView { default: Some(ValueView::Str(s)), ..p },
            None => p,
        };
    assert forall|n: Seq<char>|
        match #[trigger] spec_param_default(params1, n) {
            Some(d) => !(d is Tagged),
            None => true,
        } by {
        assert(params1 =~= Seq::new(params.len(), |i: int| (params[i].0, f(params[i].0, params[i].1))));
        lemma_lookup_mapped(params, f, n);
        let orig = spec_param_default(params, n);
        match lookup(params, n) {
            Some(p) => {
                assert(lookup(params1, n) == Some(f(n, p)));
                match lookup(ov, n) {
                    Some(sv) => {
                        assert(f(n, p).default == Some(ValueView::Str(sv)));
                    },
                    None => {
                        assert(f(n, p) == p);
                    },
                }
            },
            None => {
                assert(lookup(params1, n) is None);
            },
        }
    }
}

/// Substituting a parameter default a second time changes nothing.
pub proof fn lemma_override_params_idem(
    params: Seq<(Seq<char>, ParameterView)>,
    ov: Seq<(Seq<char>, Seq<char>)>,
)
    ensures
        spec_override_params(spec_override_params(params, ov), ov) == spec_override_params(
            params,
            ov,
        ),
{
    assert(spec_override_params(spec_override_params(params, ov), ov) =~= spec_override_params(
        params,
        ov,
    ));
}

/// Resolving an already-resolved value changes nothing, provided parameter
/// defaults and mapping values are literals.
pub proof fn lemma_resolve_var_idem(
    v: ValueView,
    params: Seq<(Seq<char>, ParameterView)>,
    mappings: Option<Seq<(Seq<char>, MappingView)>>,
)
    requires
        spec_defaults_literal(params),
        spec_mappings_literal(mappings),
    ensures
        spec_resolve_var(spec_resolve_var(v, params, mappings), params, mappings)
            == spec_resolve_var(v, params, mappings),
{
    let r = spec_resolve_var(v, params, mappings);
    proof_strlit_distinct();
    match v {
        ValueView::Tagged(tag, arg) => {
            if tag == "!Ref"@ {
                match *arg {
                    ValueView::Str(name) => {
                        match spec_param_default(params, name) {
                            Some(d) => {
                                assert(!(d is Tagged));
                            },
                            None => {},
                        }
                    },
                    _ => {},
                }
            } else if tag == "!FindInMap"@ {
                match *arg {
                    ValueView::List(items) => {
                        if items.len() >= 3 {
                            match (items[0], items[2]) {
                                (ValueView::Str(map_name), ValueView::Str(second_key)) => {
                                    match spec_top_key(items[1], params) {
                                        ValueView::Str(top_key) => {
                                            assert(spec_mapping_hit(
                                                mappings,
                                                map_name,
                                                top_key,
                                                second_key,
                                            ) == (match mappings {
                                                Some(ms) => match lookup(ms, map_name) {
                                                    Some(m) => match lookup(m, top_key) {
                                                        Some(inner) => lookup(inner, second_key),
                                                        None => None,
                                                    },
                                                    None => None,
                                                },
                                                None => None,
                                            }));
                                        },
                                        _ => {},
                                    }
                                },
                                _ => {},
                            }
                        }
                    },
                    _ => {},
                }
            }
        },
        _ => {},
    }
}

/// The two intrinsic-function tags are different strings.
proof fn proof_strlit_distinct()
    ensures
        "!Ref"@ != "!FindInMap"@,
{
    reveal_strlit("!Ref");
    reveal_strlit("!FindInMap");
    assert("!Ref"@.len() == 4);
    assert("!FindInMap"@.len() == 10);
}

} // verus!

verus! {

/// Updating under a key twice with a function that is idempotent on the
/// values found there is updating once.
pub proof fn lemma_upd_dict_idem(
    es: Seq<(Seq<char>, ValueView)>,
    k: Seq<char>,
    f: spec_fn(ValueView) -> ValueView,
)
    requires
        forall|v: ValueView| #[trigger] f(f(v)) == f(v),
    ensures
        upd_dict(upd_dict(es, k, f), k, f) == upd_dict(es, k, f),
{
    assert(upd_dict(upd_dict(es, k, f), k, f) =~= upd_dict(es, k, f));
}

/// Resolving an already-resolved `Variables` table changes nothing.
pub proof fn lemma_resolve_vars_value_idem(
    vars: ValueView,
    params: Seq<(Seq<char>, ParameterView)>,
    mappings: Option<Seq<(Seq<char>, MappingView)>>,
)
    requires
        spec_defaults_literal(params),
        spec_mappings_literal(mappings),
    ensures
        spec_resolve_vars_value(spec_resolve_vars_value(vars, params, mappings), params, mappings)
            == spec_resolve_vars_value(vars, params, mappings),
{
    match vars {
        ValueView::Dict(ves) => {
            let once = spec_resolve_vars_value(vars, params, mappings);
            assert forall|i: int| 0 <= i < ves.len() implies spec_resolve_var(
                #[trigger] spec_resolve_var(ves[i].1, params, mappings),
                params,
                mappings,
            ) == spec_resolve_var(ves[i].1, params, mappings) by {
                lemma_resolve_var_idem(ves[i].1, params, mappings);
            }
            let ves1 = Seq::new(
                ves.len(),
                |i: int| (ves[i].0, spec_resolve_var(ves[i].1, params, mappings)),
            );
            assert(once == ValueView::Dict(ves1));
            assert(Seq::new(
                ves1.len(),
                |i: int| (ves1[i].0, spec_resolve_var(ves1[i].1, params, mappings)),
            ) =~= ves1);
        },
        _ => {},
    }
}

/// Resolving an already-resolved `Environment` value changes nothing.
pub proof fn lemma_resolve_env_value_idem(
    env: ValueView,
    params: Seq<(Seq<char>, ParameterView)>,
    mappings: Option<Seq<(Seq<char>, MappingView)>>,
)
    requires
        spec_defaults_literal(params),
        spec_mappings_literal(mappings),
    ensures
        spec_resolve_env_value(spec_resolve_env_value(env, params, mappings), params, mappings)
            == spec_resolve_env_value(env, params, mappings),
{
    let f = |v: ValueView| spec_resolve_vars_value(v, params, mappings);
    assert forall|v: ValueView| #[trigger] f(f(v)) == f(v) by {
        lemma_resolve_vars_value_idem(v, params, mappings);
    }
    match env {
        ValueView::Dict(ees) => {
            lemma_upd_dict_idem(ees, "Variables"@, f);
        },
        _ => {},
    }
}

/// Resolving already-resolved function globals changes nothing.
pub proof fn lemma_resolve_globals_fn_idem(
    f: Seq<(Seq<char>, ValueView)>,
    params: Seq<(Seq<char>, ParameterView)>,
    mappings: Option<Seq<(Seq<char>, MappingView)>>,
)
    requires
        spec_defaults_literal(params),
        spec_mappings_literal(mappings),
    ensures
        spec_resolve_globals_fn(spec_resolve_globals_fn(f, params, mappings), params, mappings)
            == spec_resolve_globals_fn(f, params, mappings),
{
    let g = |v: ValueView| spec_resolve_env_value(v, params, mappings);
    assert forall|v: ValueView| #[trigger] g(g(v)) == g(v) by {
        lemma_resolve_env_value_idem(v, params, mappings);
    }
    lemma_upd_dict_idem(f, "Environment"@, g);
}

} // verus!

verus! {

/// Merging the globals under an existing `Variables` value twice is merging
/// once.
pub proof fn lemma_merge_vars_value_idem(v: ValueView, g: Seq<(Seq<char>, ValueView)>)
    ensures
        spec_merge_vars_value(spec_merge_vars_value(v, g), g) == spec_merge_vars_value(v, g),
{
    match v {
        ValueView::Dict(ves) => {
            lemma_merge_vars_idem(ves, g);
        },
        _ => {},
    }
}

/// Merging the globals under an existing `Environment` value twice is merging
/// once.
pub proof fn lemma_merge_env_value_idem(e: ValueView, g: Seq<(Seq<char>, ValueView)>)
    ensures
        spec_merge_env_value(spec_merge_env_value(e, g), g) == spec_merge_env_value(e, g),
{
    let mvv = |v: ValueView| spec_merge_vars_value(v, g);
    assert forall|v: ValueView| #[trigger] mvv(mvv(v)) == mvv(v) by {
        lemma_merge_vars_value_idem(v, g);
    }
    match e {
        ValueView::Dict(ees) => {
            let e1 = spec_merge_env_value(e, g);
            if lookup(ees, "Variables"@) is None {
                let ees1 = ees.push(("Variables"@, ValueView::Dict(g)));
                assert(e1 == ValueView::Dict(ees1));
                lemma_lookup_append(ees, seq![("Variables"@, ValueView::Dict(g))], "Variables"@);
                assert(ees + seq![("Variables"@, ValueView::Dict(g))] =~= ees1);
                assert(lookup(ees1, "Variables"@) is Some);
                lemma_lookup_some_iff_exists(ees, "Variables"@);
                lemma_merge_vars_idem(Seq::empty(), g);
                assert forall|j: int| 0 <= j < g.len() implies lookup(
                    ValueView::Dict(g)->Dict_0,
                    #[trigger] g[j].0,
                ) is Some by {
                    lemma_lookup_some_iff_exists(g, g[j].0);
                }
                lemma_missing_vars_all_present(g, g);
                assert(spec_merge_vars(g, g) =~= g);
                assert(upd_dict(ees1, "Variables"@, mvv) =~= ees1);
            } else {
                lemma_lookup_some_iff_exists(ees, "Variables"@);
                let ees1 = upd_dict(ees, "Variables"@, mvv);
                assert(e1 == ValueView::Dict(ees1));
                lemma_lookup_some_iff_exists(ees1, "Variables"@);
                let w = choose|i: int| 0 <= i < ees.len() && ees[i].0 == "Variables"@;
                assert(ees1[w].0 == "Variables"@);
                assert(lookup(ees1, "Variables"@) is Some);
                lemma_upd_dict_idem(ees, "Variables"@, mvv);
            }
        },
        _ => {},
    }
}

/// Merging the globals into a resource's properties twice is merging once.
pub proof fn lemma_merge_props_idem(
    props: Seq<(Seq<char>, ValueView)>,
    g: Seq<(Seq<char>, ValueView)>,
)
    ensures
        spec_merge_props(spec_merge_props(props, g), g) == spec_merge_props(props, g),
{
    let menv = |e: ValueView| spec_merge_env_value(e, g);
    assert forall|e: ValueView| #[trigger] menv(menv(e)) == menv(e) by {
        lemma_merge_env_value_idem(e, g);
    }
    let fresh_env = ValueView::Dict(seq![("Variables"@, ValueView::Dict(g))]);
    let p1 = spec_merge_props(props, g);
    if lookup(props, "Environment"@) is None {
        assert(p1 == props.push(("Environment"@, fresh_env)));
        lemma_lookup_append(props, seq![("Environment"@, fresh_env)], "Environment"@);
        assert(props + seq![("Environment"@, fresh_env)] =~= p1);
        assert(lookup(p1, "Environment"@) is Some);
        lemma_lookup_some_iff_exists(props, "Environment"@);
        assert forall|j: int| 0 <= j < g.len() implies lookup(g, #[trigger] g[j].0) is Some by {
            lemma_lookup_some_iff_exists(g, g[j].0);
        }
        lemma_missing_vars_all_present(g, g);
        assert(spec_merge_vars(g, g) =~= g);
        assert(menv(fresh_env) == fresh_env) by {
            assert(lookup(seq![("Variables"@, ValueView::Dict(g))], "Variables"@) == Some(
                ValueView::Dict(g),
            ));
            assert(upd_dict(seq![("Variables"@, ValueView::Dict(g))], "Variables"@, |v: ValueView|
                spec_merge_vars_value(v, g)) =~= seq![("Variables"@, ValueView::Dict(g))]);
        }
        assert(upd_dict(p1, "Environment"@, menv) =~= p1);
    } else {
        lemma_lookup_some_iff_exists(props, "Environment"@);
        assert(p1 == upd_dict(props, "Environment"@, menv));
        lemma_lookup_some_iff_exists(p1, "Environment"@);
        let w = choose|i: int| 0 <= i < props.len() && props[i].0 == "Environment"@;
        assert(p1[w].0 == "Environment"@);
        assert(lookup(p1, "Environment"@) is Some);
        lemma_upd_dict_idem(props, "Environment"@, menv);
    }
}

/// Inheriting the same resolved globals twice changes nothing.
pub proof fn lemma_inherit_idem(
    rs: Seq<(Seq<char>, ResourceView)>,
    g: Option<Seq<(Seq<char>, ValueView)>>,
)
    ensures
        spec_inherit(spec_inherit(rs, g), g) == spec_inherit(rs, g),
{
    match g {
        Some(gv) => {
            assert forall|i: int| 0 <= i < rs.len() implies spec_inherit_resource(
                #[trigger] spec_inherit_resource(rs[i].1, g),
                g,
            ) == spec_inherit_resource(rs[i].1, g) by {
                let r = rs[i].1;
                if r.type_.is_lambda_kind() && r.properties is Some {
                    lemma_merge_props_idem(r.properties->Some_0, gv);
                }
            }
            assert(spec_inherit(spec_inherit(rs, g), g) =~= spec_inherit(rs, g));
        },
        None => {
            assert(spec_inherit(spec_inherit(rs, g), g) =~= spec_inherit(rs, g));
        },
    }
}

/// Idempotence of resolution: running the resolver again on a resolved
/// template yields no further change, provided the declared parameter defaults
/// and the mapping values are literals rather than intrinsic-function nodes
/// (a default that is itself a tagged node would be substituted again).
pub proof fn lemma_resolve_idempotent(cv: CloudFormationView, ov: Seq<(Seq<char>, Seq<char>)>)
    requires
        match cv.parameters {
            Some(ps) => spec_defaults_literal(ps),
            None => true,
        },
        spec_mappings_literal(cv.mappings),
    ensures
        spec_resolve(spec_resolve(cv, ov), ov) == spec_resolve(cv, ov),
{
    let r1 = spec_resolve(cv, ov);
    let r2 = spec_resolve(r1, ov);
    let pseq = match r1.parameters {
        Some(ps) => ps,
        None => Seq::empty(),
    };
    assert(r1.mappings == cv.mappings);
    match cv.parameters {
        Some(ps) => {
            lemma_override_params_idem(ps, ov);
            lemma_override_keeps_literal(ps, ov);
        },
        None => {
            assert(spec_defaults_literal(Seq::<(Seq<char>, ParameterView)>::empty()));
        },
    }
    assert(r2.parameters == r1.parameters);
    match cv.globals {
        Some(g0) => {
            lemma_resolve_globals_fn_idem_opt(g0, pseq, cv.mappings);
            assert(r2.globals == r1.globals);
        },
        None => {},
    }
    assert(r2.globals == r1.globals);
    match cv.resources {
        Some(rs) => {
            let gvars = spec_global_fn_vars(r1.globals);
            assert(spec_global_fn_vars(r2.globals) == gvars);
            lemma_inherit_idem(rs, gvars);
        },
        None => {},
    }
    assert(r2 =~= r1);
}

/// Resolving already-resolved globals changes nothing, per field.
proof fn lemma_resolve_globals_fn_idem_opt(
    g: GlobalsView,
    params: Seq<(Seq<char>, ParameterView)>,
    mappings: Option<Seq<(Seq<char>, MappingView)>>,
)
    requires
        spec_defaults_literal(params),
        spec_mappings_literal(mappings),
    ensures
        spec_resolve_globals(spec_resolve_globals(g, params, mappings), params, mappings)
            == spec_resolve_globals(g, params, mappings),
{
    match g.function {
        Some(f) => {
            lemma_resolve_globals_fn_idem(f, params, mappings);
        },
        None => {},
    }
    assert(spec_resolve_globals(spec_resolve_globals(g, params, mappings), params, mappings)
        =~= spec_resolve_globals(g, params, mappings));
}

} // verus!

verus! {

/// The entries of a mapping node that are not under the given three keys, in
/// order: the open-ended side channel for unrecognized fields.
pub open spec fn spec_residual(
    es: Seq<(Seq<char>, ValueView)>,
    k1: Seq<char>,
    k2: Seq<char>,
    k3: Seq<char>,
) -> Seq<(Seq<char>, ValueView)>
    decreases es.len(),
{
    if es.len() == 0 {
        Seq::empty()
    } else {
        spec_residual(es.drop_last(), k1, k2, k3) + if es.last().0 != k1 && es.last().0 != k2
            && es.last().0 != k3 {
            seq![es.last()]
        } else {
            Seq::empty()
        }
    }
}

/// Collect the entries that are not under the given three keys.
fn residual_entries(es: &Vec<(String, Value)>, k1: &str, k2: &str, k3: &str) -> (r: Vec<
    (String, Value),
>)
    ensures
        views_of_entries(r@) == spec_residual(views_of_entries(es@), k1@, k2@, k3@),
{
    let ghost ev = views_of_entries(es@);
    let mut out: Vec<(String, Value)> = Vec::new();
    let mut i: usize = 0;
    proof {
        crate::parsers::value::lemma_views_of_entries(es@);
        assert(views_of_entries(out@) =~= spec_residual(ev.take(0), k1@, k2@, k3@));
    }
    while i < es.len()
        invariant
            i <= es.len(),
            ev == views_of_entries(es@),
            ev.len() == es@.len(),
            forall|j: int| 0 <= j < es@.len() ==> ev[j] == (es@[j].0@, es@[j].1.deep_view()),
            views_of_entries(out@) == spec_residual(ev.take(i as int), k1@, k2@, k3@),
        decreases es.len() - i,
    {
        let keep = !str_eq(es[i].0.as_str(), k1) && !str_eq(es[i].0.as_str(), k2) && !str_eq(
            es[i].0.as_str(),
            k3,
        );
        let ghost old_out = out@;
        if keep {
            out.push((es[i].0.clone(), es[i].1.clone()));
            proof {
                crate::parsers::value::lemma_views_of_entries(old_out);
                crate::parsers::value::lemma_views_of_entries(out@);
                assert(views_of_entries(out@) =~= views_of_entries(old_out).push(ev[i as int]));
            }
        }
        proof {
            assert(ev.take(i + 1).drop_last() =~= ev.take(i as int));
            assert(ev.take(i + 1).last() == ev[i as int]);
            assert(views_of_entries(out@) =~= spec_residual(ev.take(i + 1), k1@, k2@, k3@));
        }
        i = i + 1;
    }
    proof {
        assert(ev.take(es@.len() as int) =~= ev);
    }
    out
}

/// The parameter a node decodes to: a mapping with a string `Type`, an
/// optional `Default` of any shape, an optional string `Description`, and the
/// rest kept verbatim.
pub open spec fn spec_param_of(v: ValueView) -> Option<ParameterView> {
    match v {
        ValueView::Dict(pes) => {
            let t = lookup(pes, "Type"@);
            let desc = lookup(pes, "Description"@);
            if !(t matches Some(tv) && tv is Str) {
                None
            } else if desc matches Some(d) && !(d is Str) {
                None
            } else {
                Some(
                    ParameterView {
                        type_: t->Some_0->Str_0,
                        default: lookup(pes, "Default"@),
                        description: match desc {
                            Some(d) => Some(d->Str_0),
                            None => None,
                        },
                        other: spec_residual(pes, "Type"@, "Default"@, "Description"@),
                    },
                )
            }
        },
        _ => None,
    }
}

/// Decode one parameter.
fn decode_param(v: &Value) -> (r: Result<Parameter, crate::parsers::value::DecodeError>)
    ensures
        match r {
            Ok(p) => spec_param_of(v.deep_view()) == Some(p.deep_view()),
            Err(_) => spec_param_of(v.deep_view()) is None,
        },
{
    match v {
        Value::Dict(pes) => {
            proof {
                assert(v.deep_view() == ValueView::Dict(views_of_entries(pes@)));
            }
            let type_: String = match crate::parsers::value::dict_get(pes, "Type") {
                Some(Value::Str(t)) => t.clone(),
                Some(_) => {
                    return Err(crate::parsers::value::DecodeError::WrongShape("Type"));
                },
                None => {
                    return Err(crate::parsers::value::DecodeError::MissingField("Type"));
                },
            };
            let description: Option<String> = match crate::parsers::value::dict_get(
                pes,
                "Description",
            ) {
                Some(Value::Str(d)) => Some(d.clone()),
                Some(_) => {
                    return Err(crate::parsers::value::DecodeError::WrongShape("Description"));
                },
                None => None,
            };
            let default: Option<Value> = match crate::parsers::value::dict_get(pes, "Default") {
                Some(d) => Some(d.clone()),
                None => None,
            };
            let other = residual_entries(pes, "Type", "Default", "Description");
            let p = Parameter { type_, default, description, other };
            proof {
                assert(p.deep_view() =~= spec_param_of(v.deep_view())->Some_0);
            }
            Ok(p)
        },
        _ => Err(crate::parsers::value::DecodeError::WrongShape("Parameters")),
    }
}

} // verus!

verus! {

/// Case-insensitive equality with an ASCII target given in its two casings.
pub open spec fn spec_eq_ic(s: Seq<char>, up: Seq<char>, lo: Seq<char>) -> bool {
    s.len() == up.len() && forall|i: int| 0 <= i < s.len() ==> s[i] == up[i] || #[trigger] s[i]
        == lo[i]
}

/// Case-insensitive equality with an ASCII target.
fn eq_ic(s: &str, up: &str, lo: &str) -> (r: bool)
    requires
        up@.len() == lo@.len(),
    ensures
        r == spec_eq_ic(s@, up@, lo@),
{
    let n = s.unicode_len();
    if n != up.unicode_len() {
        return false;
    }
    let mut i: usize = 0;
    while i < n
        invariant
            i <= n,
            n == s@.len() == up@.len() == lo@.len(),
            forall|j: int| 0 <= j < i ==> s@[j] == up@[j] || #[trigger] s@[j] == lo@[j],
        decreases n - i,
    {
        let c = s.get_char(i);
        if c != up.get_char(i) && c != lo.get_char(i) {
            return false;
        }
        i = i + 1;
    }
    true
}

/// The construct kind a type string names, matched without regard to case;
/// every other type string is kept verbatim.
pub open spec fn spec_restype_of(s: Seq<char>) -> AWSResourceTypeView {
    if spec_eq_ic(s, "AWS::LAMBDA::FUNCTION"@, "aws::lambda::function"@) {
        AWSResourceTypeView::LambdaFunction
    } else if spec_eq_ic(s, "AWS::SERVERLESS::FUNCTION"@, "aws::serverless::function"@) {
        AWSResourceTypeView::LambdaServerlessFunction
    } else if spec_eq_ic(s, "AWS::LOGS::LOGGROUP"@, "aws::logs::loggroup"@) {
        AWSResourceTypeView::CloudWatch
    } else {
        AWSResourceTypeView::Unknown(s)
    }
}

/// Decode a resource type string.
fn restype_of(s: &String) -> (r: AWSResourceType)
    ensures
        r.deep_view() == spec_restype_of(s@),
{
    proof {
        reveal_strlit("AWS::LAMBDA::FUNCTION");
        reveal_strlit("aws::lambda::function");
        reveal_strlit("AWS::SERVERLESS::FUNCTION");
        reveal_strlit("aws::serverless::function");
        reveal_strlit("AWS::LOGS::LOGGROUP");
        reveal_strlit("aws::logs::loggroup");
    }
    if eq_ic(s.as_str(), "AWS::LAMBDA::FUNCTION", "aws::lambda::function") {
        AWSResourceType::LambdaFunction
    } else if eq_ic(s.as_str(), "AWS::SERVERLESS::FUNCTION", "aws::serverless::function") {
        AWSResourceType::LambdaServerlessFunction
    } else if eq_ic(s.as_str(), "AWS::LOGS::LOGGROUP", "aws::logs::loggroup") {
        AWSResourceType::CloudWatch
    } else {
        AWSResourceType::Unknown(s.clone())
    }
}

/// The two-level table a node decodes to: a mapping whose values are mappings.
pub open spec fn spec_mapping_rows(es: Seq<(Seq<char>, ValueView)>) -> Option<MappingView>
    decreases es.len(),
{
    if es.len() == 0 {
        Some(Seq::empty())
    } else {
        match spec_mapping_rows(es.drop_last()) {
            Some(acc) => match es.last().1 {
                ValueView::Dict(ies) => Some(acc.push((es.last().0, ies))),
                _ => None,
            },
            None => None,
        }
    }
}

/// The mapping a node decodes to.
pub open spec fn spec_mapping_of(v: ValueView) -> Option<MappingView> {
    match v {
        ValueView::Dict(es) => spec_mapping_rows(es),
        _ => None,
    }
}

/// Decode one two-level lookup table.
fn decode_mapping(v: &Value) -> (r: Result<Mapping, crate::parsers::value::DecodeError>)
    ensures
        match r {
            Ok(m) => spec_mapping_of(v.deep_view()) == Some(m.deep_view()),
            Err(_) => spec_mapping_of(v.deep_view()) is None,
        },
{
    match v {
        Value::Dict(es) => {
            proof {
                assert(v.deep_view() == ValueView::Dict(views_of_entries(es@)));
                crate::parsers::value::lemma_views_of_entries(es@);
            }
            let ghost ev = views_of_entries(es@);
            let mut out: Vec<(String, Vec<(String, Value)>)> = Vec::new();
            let mut i: usize = 0;
            proof {
                assert(ev.take(0) =~= Seq::<(Seq<char>, ValueView)>::empty());
                assert(keyed_views(
                    out@,
                    |inner: Vec<(String, Value)>| views_of_entries(inner@),
                ) =~= spec_mapping_rows(ev.take(0))->Some_0);
            }
            while i < es.len()
                invariant
                    *v == Value::Dict(*es),
                    v.deep_view() == ValueView::Dict(ev),
                    i <= es.len(),
                    ev == views_of_entries(es@),
                    ev.len() == es@.len(),
                    forall|j: int|
                        0 <= j < es@.len() ==> ev[j] == (es@[j].0@, es@[j].1.deep_view()),
                    spec_mapping_rows(ev.take(i as int)) matches Some(acc) && acc == keyed_views(
                        out@,
                        |inner: Vec<(String, Value)>| views_of_entries(inner@),
                    ),
                decreases es.len() - i,
            {
                proof {
                    assert(ev.take(i + 1).drop_last() =~= ev.take(i as int));
                    assert(ev.take(i + 1).last() == ev[i as int]);
                }
                match &es[i].1 {
                    Value::Dict(ies) => {
                        let ghost before = out@;
                        out.push((es[i].0.clone(), crate::parsers::value::clone_entries(ies)));
                        proof {
                            assert(es@[i as int].1.deep_view() == ValueView::Dict(
                                views_of_entries(ies@),
                            ));
                            assert(keyed_views(
                                out@,
                                |inner: Vec<(String, Value)>| views_of_entries(inner@),
                            ) =~= keyed_views(
                                before,
                                |inner: Vec<(String, Value)>| views_of_entries(inner@),
                            ).push((ev[i as int].0, ev[i as int].1->Dict_0)));
                        }
                    },
                    _ => {
                        proof {
                            assert(!(es@[i as int].1 is Dict));
                            assert(!(ev[i as int].1 is Dict));
                            lemma_mapping_rows_none(ev, i as int);
                        }
                        return Err(crate::parsers::value::DecodeError::WrongShape("Mappings"));
                    },
                }
                i = i + 1;
            }
            proof {
                assert(ev.take(es@.len() as int) =~= ev);
            }
            Ok(Mapping { map: out })
        },
        _ => Err(crate::parsers::value::DecodeError::WrongShape("Mappings")),
    }
}

/// A row that is not a mapping fails the whole table.
proof fn lemma_mapping_rows_none(es: Seq<(Seq<char>, ValueView)>, i: int)
    requires
        0 <= i < es.len(),
        !(es[i].1 is Dict),
    ensures
        spec_mapping_rows(es) is None,
    decreases es.len(),
{
    if es.len() > 0 {
        if i < es.len() - 1 {
            assert(es.drop_last()[i] == es[i]);
            lemma_mapping_rows_none(es.drop_last(), i);
        }
    }
}

/// The output a node decodes to: a mapping with string `Description` and
/// `Value`, and an optional `Export` table of strings.
pub open spec fn spec_export_rows(es: Seq<(Seq<char>, ValueView)>) -> Option<
    Seq<(Seq<char>, Seq<char>)>,
>
    decreases es.len(),
{
    if es.len() == 0 {
        Some(Seq::empty())
    } else {
        match spec_export_rows(es.drop_last()) {
            Some(acc) => match es.last().1 {
                ValueView::Str(s) => Some(acc.push((es.last().0, s))),
                _ => None,
            },
            None => None,
        }
    }
}

pub open spec fn spec_output_of(v: ValueView) -> Option<OutputView> {
    match v {
        ValueView::Dict(oes) => {
            match (lookup(oes, "Description"@), lookup(oes, "Value"@)) {
                (Some(ValueView::Str(d)), Some(ValueView::Str(val))) => match lookup(
                    oes,
                    "Export"@,
                ) {
                    Some(ValueView::Dict(ees)) => match spec_export_rows(ees) {
                        Some(ex) => Some(OutputView { description: d, value: val, export: Some(ex) }),
                        None => None,
                    },
                    Some(_) => None,
                    None => Some(OutputView { description: d, value: val, export: None }),
                },
                _ => None,
            }
        },
        _ => None,
    }
}

proof fn lemma_export_rows_none(es: Seq<(Seq<char>, ValueView)>, i: int)
    requires
        0 <= i < es.len(),
        !(es[i].1 is Str),
    ensures
        spec_export_rows(es) is None,
    decreases es.len(),
{
    if es.len() > 0 {
        if i < es.len() - 1 {
            assert(es.drop_last()[i] == es[i]);
            lemma_export_rows_none(es.drop_last(), i);
        }
    }
}

/// Decode an `Export` table of strings.
fn decode_export(ees: &Vec<(String, Value)>) -> (r: Result<
    Vec<(String, String)>,
    crate::parsers::value::DecodeError,
>)
    ensures
        match r {
            Ok(ex) => spec_export_rows(views_of_entries(ees@)) == Some(
                keyed_views(ex@, |s: String| s@),
            ),
            Err(_) => spec_export_rows(views_of_entries(ees@)) is None,
        },
{
    proof {
        crate::parsers::value::lemma_views_of_entries(ees@);
    }
    let ghost eev = views_of_entries(ees@);
    let mut ex: Vec<(String, String)> = Vec::new();
    let mut i: usize = 0;
    proof {
        assert(eev.take(0) =~= Seq::<(Seq<char>, ValueView)>::empty());
        assert(keyed_views(ex@, |s: String| s@) =~= spec_export_rows(eev.take(0))->Some_0);
    }
    while i < ees.len()
        invariant
            i <= ees.len(),
            eev == views_of_entries(ees@),
            eev.len() == ees@.len(),
            forall|j: int| 0 <= j < ees@.len() ==> eev[j] == (ees@[j].0@, ees@[j].1.deep_view()),
            spec_export_rows(eev.take(i as int)) matches Some(acc) && acc == keyed_views(
                ex@,
                |s: String| s@,
            ),
        decreases ees.len() - i,
    {
        proof {
            assert(eev.take(i + 1).drop_last() =~= eev.take(i as int));
            assert(eev.take(i + 1).last() == eev[i as int]);
        }
        match &ees[i].1 {
            Value::Str(s) => {
                let ghost before = ex@;
                ex.push((ees[i].0.clone(), s.clone()));
                proof {
                    assert(keyed_views(ex@, |s: String| s@) =~= keyed_views(
                        before,
                        |s: String| s@,
                    ).push((eev[i as int].0, eev[i as int].1->Str_0)));
                }
            },
            _ => {
                proof {
                    assert(!(ees@[i as int].1 is Str));
                    assert(!(eev[i as int].1 is Str));
                    lemma_export_rows_none(eev, i as int);
                }
                return Err(crate::parsers::value::DecodeError::WrongShape("Export"));
            },
        }
        i = i + 1;
    }
    proof {
        assert(eev.take(ees@.len() as int) =~= eev);
    }
    Ok(ex)
}

/// Decode one output.
fn decode_output(v: &Value) -> (r: Result<Output, crate::parsers::value::DecodeError>)
    ensures
        match r {
            Ok(o) => spec_output_of(v.deep_view()) == Some(o.deep_view()),
            Err(_) => spec_output_of(v.deep_view()) is None,
        },
{
    match v {
        Value::Dict(oes) => {
            proof {
                assert(v.deep_view() == ValueView::Dict(views_of_entries(oes@)));
            }
            let description: String = match crate::parsers::value::dict_get(oes, "Description") {
                Some(Value::Str(d)) => d.clone(),
                Some(_) => {
                    return Err(crate::parsers::value::DecodeError::WrongShape("Description"));
                },
                None => {
                    return Err(crate::parsers::value::DecodeError::MissingField("Description"));
                },
            };
            let value: String = match crate::parsers::value::dict_get(oes, "Value") {
                Some(Value::Str(val)) => val.clone(),
                Some(_) => {
                    return Err(crate::parsers::value::DecodeError::WrongShape("Value"));
                },
                None => {
                    return Err(crate::parsers::value::DecodeError::MissingField("Value"));
                },
            };
            let export: Option<Vec<(String, String)>> = match crate::parsers::value::dict_get(
                oes,
                "Export",
            ) {
                Some(Value::Dict(ees)) => {
                    match decode_export(ees) {
                        Ok(ex) => Some(ex),
                        Err(e) => {
                            return Err(e);
                        },
                    }
                },
                Some(_) => {
                    return Err(crate::parsers::value::DecodeError::WrongShape("Export"));
                },
                None => None,
            };
            let o = Output { description, value, export };
            proof {
                assert(o.deep_view() =~= spec_output_of(v.deep_view())->Some_0);
            }
            Ok(o)
        },
        _ => Err(crate::parsers::value::DecodeError::WrongShape("Outputs")),
    }
}

} // verus!

verus! {

/// An optional field that must be a mapping when present.
pub open spec fn spec_opt_dict_field(es: Seq<(Seq<char>, ValueView)>, k: Seq<char>) -> Option<
    Option<Seq<(Seq<char>, ValueView)>>,
> {
    match lookup(es, k) {
        Some(ValueView::Dict(d)) => Some(Some(d)),
        Some(_) => None,
        None => Some(None),
    }
}

/// An optional field that must be a string when present.
pub open spec fn spec_opt_str_field(es: Seq<(Seq<char>, ValueView)>, k: Seq<char>) -> Option<
    Option<Seq<char>>,
> {
    match lookup(es, k) {
        Some(ValueView::Str(s)) => Some(Some(s)),
        Some(_) => None,
        None => Some(None),
    }
}

/// The globals a node decodes to: one optional property bag per construct
/// kind; anything else alongside them is ignored.
pub open spec fn spec_globals_of(v: ValueView) -> Option<GlobalsView> {
    match v {
        ValueView::Dict(ges) => {
            match (
                spec_opt_dict_field(ges, "Function"@),
                spec_opt_dict_field(ges, "Api"@),
                spec_opt_dict_field(ges, "HttpApi"@),
                spec_opt_dict_field(ges, "StateMachine"@),
                spec_opt_dict_field(ges, "SimpleTable"@),
            ) {
                (Some(f), Some(a), Some(h), Some(sm), Some(st)) => Some(
                    GlobalsView {
                        function: f,
                        api: a,
                        http_api: h,
                        state_machine: sm,
                        simple_table: st,
                    },
                ),
                _ => None,
            }
        },
        _ => None,
    }
}

/// Decode one optional bag field.
fn opt_dict_field(es: &Vec<(String, Value)>, k: &'static str) -> (r: Result<
    Option<Vec<(String, Value)>>,
    crate::parsers::value::DecodeError,
>)
    ensures
        match r {
            Ok(o) => spec_opt_dict_field(views_of_entries(es@), k@) == Some(opt_entries_view(o)),
            Err(_) => spec_opt_dict_field(views_of_entries(es@), k@) is None,
        },
{
    match crate::parsers::value::dict_get(es, k) {
        Some(Value::Dict(d)) => Ok(Some(crate::parsers::value::clone_entries(d))),
        Some(_) => Err(crate::parsers::value::DecodeError::WrongShape(k)),
        None => Ok(None),
    }
}

/// Decode the `Globals` section.
fn decode_globals(v: &Value) -> (r: Result<Globals, crate::parsers::value::DecodeError>)
    ensures
        match r {
            Ok(g) => spec_globals_of(v.deep_view()) == Some(g.deep_view()),
            Err(_) => spec_globals_of(v.deep_view()) is None,
        },
{
    match v {
        Value::Dict(ges) => {
            proof {
                assert(v.deep_view() == ValueView::Dict(views_of_entries(ges@)));
            }
            let function = match opt_dict_field(ges, "Function") {
                Ok(o) => o,
                Err(e) => {
                    return Err(e);
                },
            };
            let api = match opt_dict_field(ges, "Api") {
                Ok(o) => o,
                Err(e) => {
                    return Err(e);
                },
            };
            let http_api = match opt_dict_field(ges, "HttpApi") {
                Ok(o) => o,
                Err(e) => {
                    return Err(e);
                },
            };
            let state_machine = match opt_dict_field(ges, "StateMachine") {
                Ok(o) => o,
                Err(e) => {
                    return Err(e);
                },
            };
            let simple_table = match opt_dict_field(ges, "SimpleTable") {
                Ok(o) => o,
                Err(e) => {
                    return Err(e);
                },
            };
            let g = Globals { function, api, http_api, state_machine, simple_table };
            proof {
                assert(g.deep_view() =~= spec_globals_of(v.deep_view())->Some_0);
            }
            Ok(g)
        },
        _ => Err(crate::parsers::value::DecodeError::WrongShape("Globals")),
    }
}

/// The resource a node decodes to: its `Type` string names the construct
/// kind, a `Properties` mapping is kept (any other shape reads as no
/// properties), and the rest is kept verbatim.
pub open spec fn spec_resource_of(v: ValueView) -> Option<ResourceView> {
    match v {
        ValueView::Dict(res) => match lookup(res, "Type"@) {
            Some(ValueView::Str(t)) => Some(
                ResourceView {
                    type_: spec_restype_of(t),
                    properties: match lookup(res, "Properties"@) {
                        Some(ValueView::Dict(pes)) => Some(pes),
                        _ => None,
                    },
                    other: spec_residual(res, "Type"@, "Properties"@, "Type"@),
                },
            ),
            _ => None,
        },
        _ => None,
    }
}

/// Decode one resource.
fn decode_resource(v: &Value) -> (r: Result<Resource, crate::parsers::value::DecodeError>)
    ensures
        match r {
            Ok(x) => spec_resource_of(v.deep_view()) == Some(x.deep_view()),
            Err(_) => spec_resource_of(v.deep_view()) is None,
        },
{
    match v {
        Value::Dict(res) => {
            proof {
                assert(v.deep_view() == ValueView::Dict(views_of_entries(res@)));
            }
            let type_: AWSResourceType = match crate::parsers::value::dict_get(res, "Type") {
                Some(Value::Str(t)) => restype_of(t),
                Some(_) => {
                    return Err(crate::parsers::value::DecodeError::WrongShape("Type"));
                },
                None => {
                    return Err(crate::parsers::value::DecodeError::MissingField("Type"));
                },
            };
            let properties: Option<Vec<(String, Value)>> = match crate::parsers::value::dict_get(
                res,
                "Properties",
            ) {
                Some(Value::Dict(pes)) => Some(crate::parsers::value::clone_entries(pes)),
                _ => None,
            };
            let other = residual_entries(res, "Type", "Properties", "Type");
            let x = Resource { type_, properties, other };
            proof {
                assert(x.deep_view() =~= spec_resource_of(v.deep_view())->Some_0);
            }
            Ok(x)
        },
        _ => Err(crate::parsers::value::DecodeError::WrongShape("Resources")),
    }
}

} // verus!

verus! {

/// The parameter table a mapping decodes to, entry by entry.
pub open spec fn spec_params_table(es: Seq<(Seq<char>, ValueView)>) -> Option<
    Seq<(Seq<char>, ParameterView)>,
>
    decreases es.len(),
{
    if es.len() == 0 {
        Some(Seq::empty())
    } else {
        match spec_params_table(es.drop_last()) {
            Some(acc) => match spec_param_of(es.last().1) {
                Some(x) => Some(acc.push((es.last().0, x))),
                None => None,
            },
            None => None,
        }
    }
}

proof fn lemma_params_table_none(es: Seq<(Seq<char>, ValueView)>, i: int)
    requires
        0 <= i < es.len(),
        spec_param_of(es[i].1) is None,
    ensures
        spec_params_table(es) is None,
    decreases es.len(),
{
    if es.len() > 0 {
        if i < es.len() - 1 {
            assert(es.drop_last()[i] == es[i]);
            lemma_params_table_none(es.drop_last(), i);
        }
    }
}

/// Decode a parameter table.
fn decode_params(es: &Vec<(String, Value)>) -> (r: Result<
    Vec<(String, Parameter)>,
    crate::parsers::value::DecodeError,
>)
    ensures
        match r {
            Ok(out) => spec_params_table(views_of_entries(es@)) == Some(
                keyed_views(out@, |x: Parameter| x.deep_view()),
            ),
            Err(_) => spec_params_table(views_of_entries(es@)) is None,
        },
{
    proof {
        crate::parsers::value::lemma_views_of_entries(es@);
    }
    let ghost ev = views_of_entries(es@);
    let mut out: Vec<(String, Parameter)> = Vec::new();
    let mut i: usize = 0;
    proof {
        assert(ev.take(0) =~= Seq::<(Seq<char>, ValueView)>::empty());
        assert(keyed_views(out@, |x: Parameter| x.deep_view()) =~= spec_params_table(ev.take(0))->Some_0);
    }
    while i < es.len()
        invariant
            i <= es.len(),
            ev == views_of_entries(es@),
            ev.len() == es@.len(),
            forall|j: int| 0 <= j < es@.len() ==> ev[j] == (es@[j].0@, es@[j].1.deep_view()),
            spec_params_table(ev.take(i as int)) matches Some(acc) && acc == keyed_views(
                out@,
                |x: Parameter| x.deep_view(),
            ),
        decreases es.len() - i,
    {
        proof {
            assert(ev.take(i + 1).drop_last() =~= ev.take(i as int));
            assert(ev.take(i + 1).last() == ev[i as int]);
        }
        match decode_param(&es[i].1) {
            Ok(x) => {
                let ghost before = out@;
                out.push((es[i].0.clone(), x));
                proof {
                    assert(keyed_views(out@, |x: Parameter| x.deep_view()) =~= keyed_views(
                        before,
                        |x: Parameter| x.deep_view(),
                    ).push((ev[i as int].0, spec_param_of(ev[i as int].1)->Some_0)));
                }
            },
            Err(e) => {
                proof {
                    lemma_params_table_none(ev, i as int);
                }
                return Err(e);
            },
        }
        i = i + 1;
    }
    proof {
        assert(ev.take(es@.len() as int) =~= ev);
    }
    Ok(out)
}

/// The mapping table a mapping decodes to, entry by entry.
pub open spec fn spec_mappings_table(es: Seq<(Seq<char>, ValueView)>) -> Option<
    Seq<(Seq<char>, MappingView)>,
>
    decreases es.len(),
{
    if es.len() == 0 {
        Some(Seq::empty())
    } else {
        match spec_mappings_table(es.drop_last()) {
            Some(acc) => match spec_mapping_of(es.last().1) {
                Some(x) => Some(acc.push((es.last().0, x))),
                None => None,
            },
            None => None,
        }
    }
}

proof fn lemma_mappings_table_none(es: Seq<(Seq<char>, ValueView)>, i: int)
    requires
        0 <= i < es.len(),
        spec_mapping_of(es[i].1) is None,
    ensures
        spec_mappings_table(es) is None,
    decreases es.len(),
{
    if es.len() > 0 {
        if i < es.len() - 1 {
            assert(es.drop_last()[i] == es[i]);
            lemma_mappings_table_none(es.drop_last(), i);
        }
    }
}

/// Decode a mapping table.
fn decode_mappings(es: &Vec<(String, Value)>) -> (r: Result<
    Vec<(String, Mapping)>,
    crate::parsers::value::DecodeError,
>)
    ensures
        match r {
            Ok(out) => spec_mappings_table(views_of_entries(es@)) == Some(
                keyed_views(out@, |x: Mapping| x.deep_view()),
            ),
            Err(_) => spec_mappings_table(views_of_entries(es@)) is None,
        },
{
    proof {
        crate::parsers::value::lemma_views_of_entries(es@);
    }
    let ghost ev = views_of_entries(es@);
    let mut out: Vec<(String, Mapping)> = Vec::new();
    let mut i: usize = 0;
    proof {
        assert(ev.take(0) =~= Seq::<(Seq<char>, ValueView)>::empty());
        assert(keyed_views(out@, |x: Mapping| x.deep_view()) =~= spec_mappings_table(ev.take(0))->Some_0);
    }
    while i < es.len()
        invariant
            i <= es.len(),
            ev == views_of_entries(es@),
            ev.len() == es@.len(),
            forall|j: int| 0 <= j < es@.len() ==> ev[j] == (es@[j].0@, es@[j].1.deep_view()),
            spec_mappings_table(ev.take(i as int)) matches Some(acc) && acc == keyed_views(
                out@,
                |x: Mapping| x.deep_view(),
            ),
        decreases es.len() - i,
    {
        proof {
            assert(ev.take(i + 1).drop_last() =~= ev.take(i as int));
            assert(ev.take(i + 1).last() == ev[i as int]);
        }
        match decode_mapping(&es[i].1) {
            Ok(x) => {
                let ghost before = out@;
                out.push((es[i].0.clone(), x));
                proof {
                    assert(keyed_views(out@, |x: Mapping| x.deep_view()) =~= keyed_views(
                        before,
                        |x: Mapping| x.deep_view(),
                    ).push((ev[i as int].0, spec_mapping_of(ev[i as int].1)->Some_0)));
                }
            },
            Err(e) => {
                proof {
                    lemma_mappings_table_none(ev, i as int);
                }
                return Err(e);
            },
        }
        i = i + 1;
    }
    proof {
        assert(ev.take(es@.len() as int) =~= ev);
    }
    Ok(out)
}

/// The resource table a mapping decodes to, entry by entry.
pub open spec fn spec_resources_table(es: Seq<(Seq<char>, ValueView)>) -> Option<
    Seq<(Seq<char>, ResourceView)>,
>
    decreases es.len(),
{
    if es.len() == 0 {
        Some(Seq::empty())
    } else {
        match spec_resources_table(es.drop_last()) {
            Some(acc) => match spec_resource_of(es.last().1) {
                Some(x) => Some(acc.push((es.last().0, x))),
                None => None,
            },
            None => None,
        }
    }
}

proof fn lemma_resources_table_none(es: Seq<(Seq<char>, ValueView)>, i: int)
    requires
        0 <= i < es.len(),
        spec_resource_of(es[i].1) is None,
    ensures
        spec_resources_table(es) is None,
    decreases es.len(),
{
    if es.len() > 0 {
        if i < es.len() - 1 {
            assert(es.drop_last()[i] == es[i]);
            lemma_resources_table_none(es.drop_last(), i);
        }
    }
}

/// Decode a resource table.
fn decode_resources(es: &Vec<(String, Value)>) -> (r: Result<
    Vec<(String, Resource)>,
    crate::parsers::value::DecodeError,
>)
    ensures
        match r {
            Ok(out) => spec_resources_table(views_of_entries(es@)) == Some(
                keyed_views(out@, |x: Resource| x.deep_view()),
            ),
            Err(_) => spec_resources_table(views_of_entries(es@)) is None,
        },
{
    proof {
        crate::parsers::value::lemma_views_of_entries(es@);
    }
    let ghost ev = views_of_entries(es@);
    let mut out: Vec<(String, Resource)> = Vec::new();
    let mut i: usize = 0;
    proof {
        assert(ev.take(0) =~= Seq::<(Seq<char>, ValueView)>::empty());
        assert(keyed_views(out@, |x: Resource| x.deep_view()) =~= spec_resources_table(ev.take(0))->Some_0);
    }
    while i < es.len()
        invariant
            i <= es.len(),
            ev == views_of_entries(es@),
            ev.len() == es@.len(),
            forall|j: int| 0 <= j < es@.len() ==> ev[j] == (es@[j].0@, es@[j].1.deep_view()),
            spec_resources_table(ev.take(i as int)) matches Some(acc) && acc == keyed_views(
                out@,
                |x: Resource| x.deep_view(),
            ),
        decreases es.len() - i,
    {
        proof {
            assert(ev.take(i + 1).drop_last() =~= ev.take(i as int));
            assert(ev.take(i + 1).last() == ev[i as int]);
        }
        match decode_resource(&es[i].1) {
            Ok(x) => {
                let ghost before = out@;
                out.push((es[i].0.clone(), x));
                proof {
                    assert(keyed_views(out@, |x: Resource| x.deep_view()) =~= keyed_views(
                        before,
                        |x: Resource| x.deep_view(),
                    ).push((ev[i as int].0, spec_resource_of(ev[i as int].1)->Some_0)));
                }
            },
            Err(e) => {
                proof {
                    lemma_resources_table_none(ev, i as int);
                }
                return Err(e);
            },
        }
        i = i + 1;
    }
    proof {
        assert(ev.take(es@.len() as int) =~= ev);
    }
    Ok(out)
}

/// The output table a mapping decodes to, entry by entry.
pub open spec fn spec_outputs_table(es: Seq<(Seq<char>, ValueView)>) -> Option<
    Seq<(Seq<char>, OutputView)>,
>
    decreases es.len(),
{
    if es.len() == 0 {
        Some(Seq::empty())
    } else {
        match spec_outputs_table(es.drop_last()) {
            Some(acc) => match spec_output_of(es.last().1) {
                Some(x) => Some(acc.push((es.last().0, x))),
                None => None,
            },
            None => None,
        }
    }
}

proof fn lemma_outputs_table_none(es: Seq<(Seq<char>, ValueView)>, i: int)
    requires
        0 <= i < es.len(),
        spec_output_of(es[i].1) is None,
    ensures
        spec_outputs_table(es) is None,
    decreases es.len(),
{
    if es.len() > 0 {
        if i < es.len() - 1 {
            assert(es.drop_last()[i] == es[i]);
            lemma_outputs_table_none(es.drop_last(), i);
        }
    }
}

/// Decode a output table.
fn decode_outputs(es: &Vec<(String, Value)>) -> (r: Result<
    Vec<(String, Output)>,
    crate::parsers::value::DecodeError,
>)
    ensures
        match r {
            Ok(out) => spec_outputs_table(views_of_entries(es@)) == Some(
                keyed_views(out@, |x: Output| x.deep_view()),
            ),
            Err(_) => spec_outputs_table(views_of_entries(es@)) is None,
        },
{
    proof {
        crate::parsers::value::lemma_views_of_entries(es@);
    }
    let ghost ev = views_of_entries(es@);
    let mut out: Vec<(String, Output)> = Vec::new();
    let mut i: usize = 0;
    proof {
        assert(ev.take(0) =~= Seq::<(Seq<char>, ValueView)>::empty());
        assert(keyed_views(out@, |x: Output| x.deep_view()) =~= spec_outputs_table(ev.take(0))->Some_0);
    }
    while i < es.len()
        invariant
            i <= es.len(),
            ev == views_of_entries(es@),
            ev.len() == es@.len(),
            forall|j: int| 0 <= j < es@.len() ==> ev[j] == (es@[j].0@, es@[j].1.deep_view()),
            spec_outputs_table(ev.take(i as int)) matches Some(acc) && acc == keyed_views(
                out@,
                |x: Output| x.deep_view(),
            ),
        decreases es.len() - i,
    {
        proof {
            assert(ev.take(i + 1).drop_last() =~= ev.take(i as int));
            assert(ev.take(i + 1).last() == ev[i as int]);
        }
        match decode_output(&es[i].1) {
            Ok(x) => {
                let ghost before = out@;
                out.push((es[i].0.clone(), x));
                proof {
                    assert(keyed_views(out@, |x: Output| x.deep_view()) =~= keyed_views(
                        before,
                        |x: Output| x.deep_view(),
                    ).push((ev[i as int].0, spec_output_of(ev[i as int].1)->Some_0)));
                }
            },
            Err(e) => {
                proof {
                    lemma_outputs_table_none(ev, i as int);
                }
                return Err(e);
            },
        }
        i = i + 1;
    }
    proof {
        assert(ev.take(es@.len() as int) =~= ev);
    }
    Ok(out)
}

} // verus!

verus! {

/// The template a document tree decodes to; absent when the tree does not
/// have the template's shape.
pub open spec fn spec_cfn_of(v: ValueView) -> Option<CloudFormationView> {
    match v {
        ValueView::Dict(es) => match (
            spec_opt_str_field(es, "AWSTemplateFormatVersion"@),
            spec_opt_str_field(es, "Description"@),
        ) {
            (Some(ver), Some(desc)) => {
                let p = match lookup(es, "Parameters"@) {
                    Some(ValueView::Dict(pes)) => match spec_params_table(pes) {
                        Some(t) => Some(Some(t)),
                        None => None,
                    },
                    Some(_) => None,
                    None => Some(None),
                };
                let m = match lookup(es, "Mappings"@) {
                    Some(ValueView::Dict(mes)) => match spec_mappings_table(mes) {
                        Some(t) => Some(Some(t)),
                        None => None,
                    },
                    Some(_) => None,
                    None => Some(None),
                };
                let g = match lookup(es, "Globals"@) {
                    Some(gv) => match spec_globals_of(gv) {
                        Some(t) => Some(Some(t)),
                        None => None,
                    },
                    None => Some(None),
                };
                let rs = match lookup(es, "Resources"@) {
                    Some(ValueView::Dict(res)) => match spec_resources_table(res) {
                        Some(t) => Some(Some(t)),
                        None => None,
                    },
                    Some(_) => None,
                    None => Some(None),
                };
                let os = match lookup(es, "Outputs"@) {
                    Some(ValueView::Dict(oes)) => match spec_outputs_table(oes) {
                        Some(t) => Some(Some(t)),
                        None => None,
                    },
                    Some(_) => None,
                    None => Some(None),
                };
                match (p, m, g, rs, os) {
                    (Some(p), Some(m), Some(g), Some(rs), Some(os)) => Some(
                        CloudFormationView {
                            awstemplate_format_version: ver,
                            description: desc,
                            parameters: p,
                            mappings: m,
                            globals: g,
                            resources: rs,
                            outputs: os,
                        },
                    ),
                    _ => None,
                }
            },
            _ => None,
        },
        _ => None,
    }
}

impl CloudFormation {
    /// Decode a template from the document model's tree: typed records for the
    /// parameters, mappings, globals, resources and outputs, with resource
    /// order kept as declared.
    pub fn from_value(v: &Value) -> (r: Result<
        CloudFormation,
        crate::parsers::value::DecodeError,
    >)
        ensures
            match r {
                Ok(c) => spec_cfn_of(v.deep_view()) == Some(c.deep_view()),
                Err(_) => spec_cfn_of(v.deep_view()) is None,
            },
    {
        match v {
            Value::Dict(es) => {
                proof {
                    assert(v.deep_view() == ValueView::Dict(views_of_entries(es@)));
                }
                let awstemplate_format_version: Option<String> =
                    match crate::parsers::value::dict_get(es, "AWSTemplateFormatVersion") {
                    Some(Value::Str(s)) => Some(s.clone()),
                    Some(_) => {
                        return Err(crate::parsers::value::DecodeError::WrongShape("AWSTemplateFormatVersion"));
                    },
                    None => None,
                };
                let description: Option<String> = match crate::parsers::value::dict_get(
                    es,
                    "Description",
                ) {
                    Some(Value::Str(s)) => Some(s.clone()),
                    Some(_) => {
                        return Err(crate::parsers::value::DecodeError::WrongShape("Description"));
                    },
                    None => None,
                };
                let parameters: Option<Vec<(String, Parameter)>> =
                    match crate::parsers::value::dict_get(es, "Parameters") {
                    Some(Value::Dict(pes)) => match decode_params(pes) {
                        Ok(t) => Some(t),
                        Err(e) => {
                            return Err(e);
                        },
                    },
                    Some(_) => {
                        return Err(crate::parsers::value::DecodeError::WrongShape("Parameters"));
                    },
                    None => None,
                };
                let mappings: Option<Vec<(String, Mapping)>> =
                    match crate::parsers::value::dict_get(es, "Mappings") {
                    Some(Value::Dict(mes)) => match decode_mappings(mes) {
                        Ok(t) => Some(t),
                        Err(e) => {
                            return Err(e);
                        },
                    },
                    Some(_) => {
                        return Err(crate::parsers::value::DecodeError::WrongShape("Mappings"));
                    },
                    None => None,
                };
                let globals: Option<Globals> = match crate::parsers::value::dict_get(
                    es,
                    "Globals",
                ) {
                    Some(gv) => match decode_globals(gv) {
                        Ok(t) => Some(t),
                        Err(e) => {
                            return Err(e);
                        },
                    },
                    None => None,
                };
                let resources: Option<Vec<(String, Resource)>> =
                    match crate::parsers::value::dict_get(es, "Resources") {
                    Some(Value::Dict(res)) => match decode_resources(res) {
                        Ok(t) => Some(t),
                        Err(e) => {
                            return Err(e);
                        },
                    },
                    Some(_) => {
                        return Err(crate::parsers::value::DecodeError::WrongShape("Resources"));
                    },
                    None => None,
                };
                let outputs: Option<Vec<(String, Output)>> = match crate::parsers::value::dict_get(
                    es,
                    "Outputs",
                ) {
                    Some(Value::Dict(oes)) => match decode_outputs(oes) {
                        Ok(t) => Some(t),
                        Err(e) => {
                            return Err(e);
                        },
                    },
                    Some(_) => {
                        return Err(crate::parsers::value::DecodeError::WrongShape("Outputs"));
                    },
                    None => None,
                };
                let c = CloudFormation {
                    awstemplate_format_version,
                    description,
                    parameters,
                    mappings,
                    globals,
                    resources,
                    outputs,
                };
                proof {
                    assert(c.deep_view() =~= spec_cfn_of(v.deep_view())->Some_0);
                }
                Ok(c)
            },
            _ => Err(crate::parsers::value::DecodeError::WrongShape("document")),
        }
    }
}

} // verus!

verus! {

/// The mathematical shape of `DeployParameterValues`.
#[verifier::ext_equal]
pub struct DeployParameterValuesView {
    pub stack_name: Option<Seq<char>>,
    pub s3_bucket: Option<Seq<char>>,
    pub s3_prefix: Option<Seq<char>>,
    pub region: Option<Seq<char>>,
    pub confirm_changeset: Option<bool>,
    pub capabilities: Option<Seq<char>>,
    pub parameter_overrides: Option<Seq<(Seq<char>, Seq<char>)>>,
    pub image_repositories: Option<Seq<Seq<char>>>,
}

impl DeepView for DeployParameterValues {
    type V = DeployParameterValuesView;

    open spec fn deep_view(&self) -> DeployParameterValuesView {
        DeployParameterValuesView {
            stack_name: self.stack_name.deep_view(),
            s3_bucket: self.s3_bucket.deep_view(),
            s3_prefix: self.s3_prefix.deep_view(),
            region: self.region.deep_view(),
            confirm_changeset: self.confirm_changeset,
            capabilities: self.capabilities.deep_view(),
            parameter_overrides: match self.parameter_overrides {
                Some(ref po) => Some(keyed_views(po@, |s: String| s@)),
                None => None,
            },
            image_repositories: self.image_repositories.deep_view(),
        }
    }
}

/// The mathematical shape of `DeployParameters`.
#[verifier::ext_equal]
pub struct DeployParametersView {
    pub parameters: Option<DeployParameterValuesView>,
}

impl DeepView for DeployParameters {
    type V = DeployParametersView;

    open spec fn deep_view(&self) -> DeployParametersView {
        DeployParametersView { parameters: self.parameters.deep_view() }
    }
}

/// The mathematical shape of a `SamConfigSection`.
#[verifier::ext_equal]
pub struct SamConfigSectionView {
    pub deploy: Option<DeployParametersView>,
}

impl DeepView for SamConfigSection {
    type V = SamConfigSectionView;

    open spec fn deep_view(&self) -> SamConfigSectionView {
        SamConfigSectionView { deploy: self.deploy.deep_view() }
    }
}

/// The mathematical shape of a `SamConfig`.
#[verifier::ext_equal]
pub struct SamConfigView {
    pub version: Option<Seq<char>>,
    pub environments: Seq<(Seq<char>, SamConfigSectionView)>,
}

impl DeepView for SamConfig {
    type V = SamConfigView;

    open spec fn deep_view(&self) -> SamConfigView {
        SamConfigView {
            version: self.version.deep_view(),
            environments: keyed_views(self.environments@, |s: SamConfigSection| s.deep_view()),
        }
    }
}

/// A whitespace separator in an override string.
pub open spec fn is_space(c: char) -> bool {
    c == ' ' || c == '\t' || c == '\n' || c == '\r'
}

/// The length of the run of non-space characters starting at `i`.
pub open spec fn token_run(s: Seq<char>, i: int) -> int
    decreases s.len() - i,
{
    if 0 <= i < s.len() && !is_space(s[i]) {
        1 + token_run(s, i + 1)
    } else {
        0
    }
}

/// The position of the first `=` in a token, if any.
pub open spec fn eq_pos(s: Seq<char>, i: int) -> Option<int>
    decreases s.len() - i,
{
    if 0 <= i < s.len() {
        if s[i] == '=' {
            Some(i)
        } else {
            eq_pos(s, i + 1)
        }
    } else {
        None
    }
}

/// The parameter overrides a `key=value` string denotes: whitespace-separated
/// tokens, each split at its first `=`; tokens without `=` are dropped.
pub open spec fn spec_split_overrides(s: Seq<char>) -> Seq<(Seq<char>, Seq<char>)>
    decreases s.len(),
{
    if s.len() == 0 {
        Seq::empty()
    } else if is_space(s[0]) {
        spec_split_overrides(s.drop_first())
    } else {
        let t = token_run(s, 0);
        let tok = s.take(t);
        proof {
            lemma_token_run_bounds(s, 0);
            lemma_token_run_bounds(s, 1);
            assert(token_run(s, 0) == 1 + token_run(s, 1));
        }
        let rest = spec_split_overrides(s.skip(t));
        match eq_pos(tok, 0) {
            Some(p) => seq![(tok.take(p), tok.skip(p + 1))] + rest,
            None => rest,
        }
    }
}

/// A token run never runs past the end.
pub proof fn lemma_token_run_bounds(s: Seq<char>, i: int)
    requires
        0 <= i <= s.len(),
    ensures
        0 <= token_run(s, i) <= s.len() - i,
    decreases s.len() - i,
{
    if i < s.len() && !is_space(s[i]) {
        lemma_token_run_bounds(s, i + 1);
    }
}

/// A maximal token run is pinned down by its first space position.
proof fn lemma_token_run_exact(s: Seq<char>, start: int, end: int)
    requires
        0 <= start <= end <= s.len(),
        forall|q: int| start <= q < end ==> !is_space(s[q]),
        end == s.len() || is_space(s[end]),
    ensures
        token_run(s, start) == end - start,
    decreases end - start,
{
    if start < end {
        lemma_token_run_exact(s, start + 1, end);
    }
}

/// A token run within a suffix equals the run at the shifted position.
proof fn lemma_token_run_skip(s: Seq<char>, base: int, off: int)
    requires
        0 <= base,
        0 <= off,
        base + off <= s.len(),
    ensures
        token_run(s.skip(base), off) == token_run(s, base + off),
    decreases s.len() - base - off,
{
    if base + off < s.len() && !is_space(s[base + off]) {
        assert(s.skip(base)[off] == s[base + off]);
        lemma_token_run_skip(s, base, off + 1);
    } else {
        if base + off < s.len() {
            assert(s.skip(base)[off] == s[base + off]);
        }
    }
}

/// The first `=` of a token is pinned down by what is before it.
proof fn lemma_eq_pos_exact(s: Seq<char>, start: int, at: int)
    requires
        0 <= start <= at <= s.len(),
        forall|q: int| start <= q < at ==> s[q] != '=',
        at == s.len() || s[at] == '=',
    ensures
        eq_pos(s, start) == (if at == s.len() {
            None::<int>
        } else {
            Some(at)
        }),
    decreases at - start,
{
    if start < at {
        lemma_eq_pos_exact(s, start + 1, at);
    }
}

/// Split a deployment `parameter_overrides` string into its pairs.
pub fn split_parameter_overrides(s: &str) -> (r: Vec<(String, String)>)
    ensures
        keyed_views(r@, |x: String| x@) == spec_split_overrides(s@),
{
    let n = s.unicode_len();
    let mut out: Vec<(String, String)> = Vec::new();
    let mut i: usize = 0;
    proof {
        assert(s@.skip(0) =~= s@);
        assert(keyed_views(out@, |x: String| x@) =~= Seq::<(Seq<char>, Seq<char>)>::empty());
    }
    while i < n
        invariant
            i <= n,
            n == s@.len(),
            spec_split_overrides(s@) == keyed_views(out@, |x: String| x@) + spec_split_overrides(
                s@.skip(i as int),
            ),
        decreases n - i,
    {
        let ghost rest = s@.skip(i as int);
        let c = s.get_char(i);
        proof {
            assert(rest[0] == s@[i as int]);
        }
        if c == ' ' || c == '\t' || c == '\n' || c == '\r' {
            proof {
                assert(rest.drop_first() =~= s@.skip(i as int + 1));
            }
            i = i + 1;
        } else {
            let mut j: usize = i;
            while j < n && !is_space_char(s.get_char(j))
                invariant
                    i <= j <= n,
                    n == s@.len(),
                    forall|q: int| i <= q < j ==> !is_space(s@[q]),
                decreases n - j,
            {
                j = j + 1;
            }
            let mut k: usize = i;
            while k < j && s.get_char(k) != '='
                invariant
                    i <= k <= j <= n,
                    n == s@.len(),
                    forall|q: int| i <= q < k ==> s@[q] != '=',
                decreases j - k,
            {
                k = k + 1;
            }
            let ghost t = token_run(rest, 0);
            proof {
                lemma_token_run_skip(s@, i as int, 0);
                lemma_word_like_token(s@, i as int, j as int);
                assert(t == j - i);
                assert(rest.take(t) =~= s@.subrange(i as int, j as int));
            }
            let ghost tok = rest.take(t);
            if k < j {
                proof {
                    assert(forall|q: int| 0 <= q < k - i ==> tok[q] == s@[i + q] && s@[i + q]
                        != '=');
                    assert(tok[(k - i) as int] == s@[k as int]);
                    lemma_eq_pos_exact(tok, 0, (k - i) as int);
                    assert(eq_pos(tok, 0) == Some((k - i) as int));
                }
                let key = s.substring_char(i, k);
                let val = s.substring_char(k + 1, j);
                let ghost before = out@;
                out.push((key.to_owned(), val.to_owned()));
                proof {
                    assert(tok.take((k - i) as int) =~= key@);
                    assert(tok.skip((k - i) as int + 1) =~= val@);
                    assert(keyed_views(out@, |x: String| x@) =~= keyed_views(
                        before,
                        |x: String| x@,
                    ) + seq![(tok.take((k - i) as int), tok.skip((k - i) as int + 1))]);
                    assert(rest.skip(t) =~= s@.skip(j as int));
                }
            } else {
                proof {
                    assert(forall|q: int| 0 <= q < tok.len() ==> tok[q] == s@[i + q] && s@[i + q]
                        != '=');
                    lemma_eq_pos_exact(tok, 0, tok.len() as int);
                    assert(eq_pos(tok, 0) is None);
                    assert(rest.skip(t) =~= s@.skip(j as int));
                }
            }
            i = j;
        }
    }
    proof {
        assert(s@.skip(n as int) =~= Seq::<char>::empty());
        assert(keyed_views(out@, |x: String| x@) =~= keyed_views(out@, |x: String| x@)
            + spec_split_overrides(s@.skip(n as int)));
    }
    out
}

/// Whether a character separates override tokens.
fn is_space_char(c: char) -> (r: bool)
    ensures
        r == is_space(c),
{
    c == ' ' || c == '\t' || c == '\n' || c == '\r'
}

/// A stretch of non-space characters bounded by a space or the end is the
/// token run.
proof fn lemma_word_like_token(s: Seq<char>, i: int, j: int)
    requires
        0 <= i <= j <= s.len(),
        forall|q: int| i <= q < j ==> !is_space(s[q]),
        j == s.len() || is_space(s[j]),
    ensures
        token_run(s, i) == j - i,
{
    lemma_token_run_exact(s, i, j);
}

} // verus!

verus! {

/// `n` zero characters.
pub open spec fn spec_zeros(n: nat) -> Seq<char>
    decreases n,
{
    if n == 0 {
        Seq::empty()
    } else {
        spec_zeros((n - 1) as nat).push('0')
    }
}

/// A number below `10^k` has at most `k` digits.
pub proof fn lemma_digits_len_le(n: nat, k: nat)
    requires
        n < crate::parsers::value::pow10(k),
    ensures
        k == 0 ==> n == 0,
        k > 0 ==> crate::error_reporter::spec_u64_digits(n).len() <= k,
    decreases k,
{
    if k > 0 {
        if n < 10 {
        } else {
            crate::parsers::value::lemma_pow10_mono(((k - 1)) as nat);
            assert(n / 10 < crate::parsers::value::pow10((k - 1) as nat)) by (nonlinear_arith)
                requires
                    n < crate::parsers::value::pow10(k),
                    crate::parsers::value::pow10(k) == 10 * crate::parsers::value::pow10(
                        (k - 1) as nat,
                    ),
            ;
            lemma_digits_len_le(n / 10, (k - 1) as nat);
            if (k - 1) as nat == 0 {
            }
        }
    }
}

/// The canonical text of a decimal: sign, integer part, and for a scaled
/// number a point and the fraction padded to the scale.
pub open spec fn spec_dec_chars(d: Decimal) -> Seq<char> {
    let p = crate::parsers::value::pow10(d.scale as nat);
    let ip = d.mant as nat / p;
    let fp = d.mant as nat % p;
    let frac_digits = crate::error_reporter::spec_u64_digits(fp);
    (if d.neg {
        "-"@
    } else {
        Seq::empty()
    }) + crate::error_reporter::spec_u64_digits(ip) + (if d.scale == 0 {
        Seq::<char>::empty()
    } else {
        "."@ + spec_zeros((d.scale as nat - frac_digits.len()) as nat) + frac_digits
    })
}

/// Render a decimal canonically.
pub fn dec_to_string(d: &Decimal) -> (r: String)
    requires
        d.wf(),
    ensures
        r@ == spec_dec_chars(*d),
{
    let p = crate::parsers::value::pow10_exec(d.scale);
    proof {
        crate::parsers::value::lemma_pow10_pos(d.scale as nat);
    }
    let ip = d.mant / p;
    let fp = d.mant % p;
    let mut out = String::new();
    if d.neg {
        out.append("-");
    }
    let ip_s = crate::error_reporter::u64_to_string(ip);
    out.append(ip_s.as_str());
    if d.scale > 0 {
        out.append(".");
        let fp_s = crate::error_reporter::u64_to_string(fp);
        proof {
            crate::parsers::value::lemma_pow10_pos(d.scale as nat);
            lemma_digits_len_le(fp as nat, d.scale as nat);
        }
        let mut z: usize = fp_s.unicode_len();
        let ghost target = d.scale as nat;
        let ghost fd = crate::error_reporter::spec_u64_digits(fp as nat);
        while z < d.scale as usize
            invariant
                fd.len() <= z <= target,
                target == d.scale as nat,
                fd == crate::error_reporter::spec_u64_digits(fp as nat),
                d.wf(),
                out@ == (if d.neg {
                    "-"@
                } else {
                    Seq::<char>::empty()
                }) + crate::error_reporter::spec_u64_digits(
                    d.mant as nat / crate::parsers::value::pow10(d.scale as nat),
                ) + "."@ + spec_zeros((z - fd.len()) as nat),
            decreases target - z,
        {
            out.append("0");
            proof {
                reveal_strlit("0");
                assert(spec_zeros((z + 1 - fd.len()) as nat) =~= spec_zeros(
                    (z - fd.len()) as nat,
                ).push('0'));
                assert(out@ =~= (if d.neg {
                    "-"@
                } else {
                    Seq::<char>::empty()
                }) + crate::error_reporter::spec_u64_digits(
                    d.mant as nat / crate::parsers::value::pow10(d.scale as nat),
                ) + "."@ + spec_zeros((z + 1 - fd.len()) as nat));
            }
            z = z + 1;
        }
        out.append(fp_s.as_str());
        proof {
            assert(out@ =~= spec_dec_chars(*d));
        }
    } else {
        proof {
            assert(out@ =~= spec_dec_chars(*d));
        }
    }
    out
}

} // verus!

verus! {

/// The digits of a signed integer.
pub open spec fn spec_i64_chars(i: int) -> Seq<char> {
    if i < 0 {
        "-"@ + crate::error_reporter::spec_u64_digits((-i) as nat)
    } else {
        crate::error_reporter::spec_u64_digits(i as nat)
    }
}

/// The version text a node denotes: a string verbatim, or a numeral rendered
/// canonically; anything else is not a version.
pub open spec fn spec_version_of(v: ValueView) -> Option<Seq<char>> {
    match v {
        ValueView::Str(s) => Some(s),
        ValueView::Int(i) => Some(spec_i64_chars(i as int)),
        ValueView::Dec(d) => if d.wf() {
            Some(spec_dec_chars(d))
        } else {
            None
        },
        _ => None,
    }
}

/// Decode the version field.
fn decode_version(v: &Value) -> (r: Result<String, crate::parsers::value::DecodeError>)
    ensures
        match r {
            Ok(s) => spec_version_of(v.deep_view()) == Some(s@),
            Err(_) => spec_version_of(v.deep_view()) is None,
        },
{
    match v {
        Value::Str(s) => Ok(s.clone()),
        Value::Int(i) => {
            if *i < 0 {
                let mut out = String::new();
                out.append("-");
                let ds = crate::error_reporter::u64_to_string((-(*i as i128)) as u64);
                out.append(ds.as_str());
                proof {
                    assert(out@ =~= spec_i64_chars(*i as int));
                }
                Ok(out)
            } else {
                let out = crate::error_reporter::u64_to_string(*i as u64);
                Ok(out)
            }
        },
        Value::Dec(d) => {
            if d.scale <= crate::parsers::value::MAX_SCALE {
                Ok(dec_to_string(d))
            } else {
                Err(crate::parsers::value::DecodeError::WrongShape("version"))
            }
        },
        _ => Err(crate::parsers::value::DecodeError::WrongShape("version")),
    }
}

/// An optional field that must be a string when present, decoded.
fn opt_str_field(es: &Vec<(String, Value)>, k: &'static str) -> (r: Result<
    Option<String>,
    crate::parsers::value::DecodeError,
>)
    ensures
        match r {
            Ok(o) => spec_opt_str_field(views_of_entries(es@), k@) == Some(o.deep_view()),
            Err(_) => spec_opt_str_field(views_of_entries(es@), k@) is None,
        },
{
    match crate::parsers::value::dict_get(es, k) {
        Some(Value::Str(s)) => Ok(Some(s.clone())),
        Some(_) => Err(crate::parsers::value::DecodeError::WrongShape(k)),
        None => Ok(None),
    }
}

/// The string list a node decodes to.
pub open spec fn spec_str_list(items: Seq<ValueView>) -> Option<Seq<Seq<char>>>
    decreases items.len(),
{
    if items.len() == 0 {
        Some(Seq::empty())
    } else {
        match spec_str_list(items.drop_last()) {
            Some(acc) => match items.last() {
                ValueView::Str(s) => Some(acc.push(s)),
                _ => None,
            },
            None => None,
        }
    }
}

proof fn lemma_str_list_none(items: Seq<ValueView>, i: int)
    requires
        0 <= i < items.len(),
        !(items[i] is Str),
    ensures
        spec_str_list(items) is None,
    decreases items.len(),
{
    if i < items.len() - 1 {
        assert(items.drop_last()[i] == items[i]);
        lemma_str_list_none(items.drop_last(), i);
    }
}

/// Decode a list of strings; the field name travels along for the error.
fn decode_str_list(items: &Vec<Value>, field: &'static str) -> (r: Result<
    Vec<String>,
    crate::parsers::value::DecodeError,
>)
    ensures
        match r {
            Ok(out) => spec_str_list(crate::parsers::value::views_of_values(items@)) == Some(
                out.deep_view(),
            ),
            Err(_) => spec_str_list(crate::parsers::value::views_of_values(items@)) is None,
        },
{
    proof {
        crate::parsers::value::lemma_views_of_values(items@);
    }
    let ghost iv = crate::parsers::value::views_of_values(items@);
    let mut out: Vec<String> = Vec::new();
    let mut i: usize = 0;
    proof {
        assert(iv.take(0) =~= Seq::<ValueView>::empty());
        assert(out.deep_view() =~= spec_str_list(iv.take(0))->Some_0);
    }
    while i < items.len()
        invariant
            i <= items.len(),
            iv == crate::parsers::value::views_of_values(items@),
            iv.len() == items@.len(),
            forall|j: int| 0 <= j < items@.len() ==> iv[j] == items@[j].deep_view(),
            spec_str_list(iv.take(i as int)) matches Some(acc) && acc == out.deep_view(),
        decreases items.len() - i,
    {
        proof {
            assert(iv.take(i + 1).drop_last() =~= iv.take(i as int));
            assert(iv.take(i + 1).last() == iv[i as int]);
        }
        match &items[i] {
            Value::Str(s) => {
                let ghost before = out.deep_view();
                out.push(s.clone());
                proof {
                    assert(out.deep_view() =~= before.push(iv[i as int]->Str_0));
                }
            },
            _ => {
                proof {
                    assert(!(iv[i as int] is Str));
                    lemma_str_list_none(iv, i as int);
                }
                return Err(crate::parsers::value::DecodeError::WrongShape(field));
            },
        }
        i = i + 1;
    }
    proof {
        assert(iv.take(items@.len() as int) =~= iv);
    }
    Ok(out)
}

/// The deploy parameter values a node decodes to; `parameter_overrides` must
/// be present as one `key=value` string.
pub open spec fn spec_dpv_of(v: ValueView) -> Option<DeployParameterValuesView> {
    match v {
        ValueView::Dict(es) => match (
            spec_opt_str_field(es, "stack_name"@),
            spec_opt_str_field(es, "s3_bucket"@),
            spec_opt_str_field(es, "s3_prefix"@),
            spec_opt_str_field(es, "region"@),
            spec_opt_str_field(es, "capabilities"@),
        ) {
            (Some(sn), Some(sb), Some(sp), Some(rg), Some(cap)) => {
                let cc = match lookup(es, "confirm_changeset"@) {
                    Some(ValueView::Bool(b)) => Some(Some(b)),
                    Some(_) => None,
                    None => Some(None),
                };
                let ir = match lookup(es, "image_repositories"@) {
                    Some(ValueView::List(items)) => match spec_str_list(items) {
                        Some(t) => Some(Some(t)),
                        None => None,
                    },
                    Some(_) => None,
                    None => Some(None),
                };
                let po = match lookup(es, "parameter_overrides"@) {
                    Some(ValueView::Str(s)) => Some(spec_split_overrides(s)),
                    _ => None,
                };
                match (cc, ir, po) {
                    (Some(cc), Some(ir), Some(po)) => Some(
                        DeployParameterValuesView {
                            stack_name: sn,
                            s3_bucket: sb,
                            s3_prefix: sp,
                            region: rg,
                            confirm_changeset: cc,
                            capabilities: cap,
                            parameter_overrides: Some(po),
                            image_repositories: ir,
                        },
                    ),
                    _ => None,
                }
            },
            _ => None,
        },
        _ => None,
    }
}

/// Decode the values under `deploy.parameters`.
fn decode_dpv(v: &Value) -> (r: Result<
    DeployParameterValues,
    crate::parsers::value::DecodeError,
>)
    ensures
        match r {
            Ok(x) => spec_dpv_of(v.deep_view()) == Some(x.deep_view()),
            Err(_) => spec_dpv_of(v.deep_view()) is None,
        },
{
    match v {
        Value::Dict(es) => {
            proof {
                assert(v.deep_view() == ValueView::Dict(views_of_entries(es@)));
            }
            let stack_name = match opt_str_field(es, "stack_name") {
                Ok(o) => o,
                Err(e) => {
                    return Err(e);
                },
            };
            let s3_bucket = match opt_str_field(es, "s3_bucket") {
                Ok(o) => o,
                Err(e) => {
                    return Err(e);
                },
            };
            let s3_prefix = match opt_str_field(es, "s3_prefix") {
                Ok(o) => o,
                Err(e) => {
                    return Err(e);
                },
            };
            let region = match opt_str_field(es, "region") {
                Ok(o) => o,
                Err(e) => {
                    return Err(e);
                },
            };
            let capabilities = match opt_str_field(es, "capabilities") {
                Ok(o) => o,
                Err(e) => {
                    return Err(e);
                },
            };
            let confirm_changeset: Option<bool> = match crate::parsers::value::dict_get(
                es,
                "confirm_changeset",
            ) {
                Some(Value::Bool(b)) => Some(*b),
                Some(_) => {
                    return Err(crate::parsers::value::DecodeError::WrongShape("confirm_changeset"));
                },
                None => None,
            };
            let image_repositories: Option<Vec<String>> = match crate::parsers::value::dict_get(
                es,
                "image_repositories",
            ) {
                Some(Value::List(items)) => match decode_str_list(items, "image_repositories") {
                    Ok(t) => Some(t),
                    Err(e) => {
                        return Err(e);
                    },
                },
                Some(_) => {
                    return Err(crate::parsers::value::DecodeError::WrongShape("image_repositories"));
                },
                None => None,
            };
            let parameter_overrides: Option<Vec<(String, String)>> =
                match crate::parsers::value::dict_get(es, "parameter_overrides") {
                Some(Value::Str(s)) => Some(split_parameter_overrides(s.as_str())),
                Some(_) => {
                    return Err(
                        crate::parsers::value::DecodeError::WrongShape("parameter_overrides"),
                    );
                },
                None => {
                    return Err(
                        crate::parsers::value::DecodeError::MissingField("parameter_overrides"),
                    );
                },
            };
            let x = DeployParameterValues {
                stack_name,
                s3_bucket,
                s3_prefix,
                region,
                confirm_changeset,
                capabilities,
                parameter_overrides,
                image_repositories,
            };
            proof {
                assert(x.deep_view() =~= spec_dpv_of(v.deep_view())->Some_0);
            }
            Ok(x)
        },
        _ => Err(crate::parsers::value::DecodeError::WrongShape("parameters")),
    }
}

/// The deploy section a node decodes to.
pub open spec fn spec_deploy_of(v: ValueView) -> Option<DeployParametersView> {
    match v {
        ValueView::Dict(es) => match lookup(es, "parameters"@) {
            Some(pv) => match spec_dpv_of(pv) {
                Some(x) => Some(DeployParametersView { parameters: Some(x) }),
                None => None,
            },
            None => Some(DeployParametersView { parameters: None }),
        },
        _ => None,
    }
}

/// The environment section a node decodes to.
pub open spec fn spec_section_of(v: ValueView) -> Option<SamConfigSectionView> {
    match v {
        ValueView::Dict(es) => match lookup(es, "deploy"@) {
            Some(dv) => match spec_deploy_of(dv) {
                Some(x) => Some(SamConfigSectionView { deploy: Some(x) }),
                None => None,
            },
            None => Some(SamConfigSectionView { deploy: None }),
        },
        _ => None,
    }
}

/// Decode one environment section.
fn decode_section(v: &Value) -> (r: Result<SamConfigSection, crate::parsers::value::DecodeError>)
    ensures
        match r {
            Ok(x) => spec_section_of(v.deep_view()) == Some(x.deep_view()),
            Err(_) => spec_section_of(v.deep_view()) is None,
        },
{
    match v {
        Value::Dict(es) => {
            proof {
                assert(v.deep_view() == ValueView::Dict(views_of_entries(es@)));
            }
            let deploy: Option<DeployParameters> = match crate::parsers::value::dict_get(
                es,
                "deploy",
            ) {
                Some(dv) => match dv {
                    Value::Dict(des) => {
                        proof {
                            assert(dv.deep_view() == ValueView::Dict(views_of_entries(des@)));
                        }
                        let parameters: Option<DeployParameterValues> =
                            match crate::parsers::value::dict_get(des, "parameters") {
                            Some(pv) => match decode_dpv(pv) {
                                Ok(x) => Some(x),
                                Err(e) => {
                                    return Err(e);
                                },
                            },
                            None => None,
                        };
                        Some(DeployParameters { parameters })
                    },
                    _ => {
                        return Err(crate::parsers::value::DecodeError::WrongShape("deploy"));
                    },
                },
                None => None,
            };
            let x = SamConfigSection { deploy };
            proof {
                assert(x.deep_view() =~= spec_section_of(v.deep_view())->Some_0);
            }
            Ok(x)
        },
        _ => Err(crate::parsers::value::DecodeError::WrongShape("environment")),
    }
}

/// The environment table a document decodes to: every top-level entry but the
/// version.
pub open spec fn spec_sam_envs(es: Seq<(Seq<char>, ValueView)>) -> Option<
    Seq<(Seq<char>, SamConfigSectionView)>,
>
    decreases es.len(),
{
    if es.len() == 0 {
        Some(Seq::empty())
    } else {
        match spec_sam_envs(es.drop_last()) {
            Some(acc) => if es.last().0 == "version"@ {
                Some(acc)
            } else {
                match spec_section_of(es.last().1) {
                    Some(x) => Some(acc.push((es.last().0, x))),
                    None => None,
                }
            },
            None => None,
        }
    }
}

proof fn lemma_sam_envs_none(es: Seq<(Seq<char>, ValueView)>, i: int)
    requires
        0 <= i < es.len(),
        es[i].0 != "version"@,
        spec_section_of(es[i].1) is None,
    ensures
        spec_sam_envs(es) is None,
    decreases es.len(),
{
    if i < es.len() - 1 {
        assert(es.drop_last()[i] == es[i]);
        lemma_sam_envs_none(es.drop_last(), i);
    }
}

/// The override source a document tree decodes to.
pub open spec fn spec_samconfig_of(v: ValueView) -> Option<SamConfigView> {
    match v {
        ValueView::Dict(es) => match lookup(es, "version"@) {
            Some(vv) => match (spec_version_of(vv), spec_sam_envs(es)) {
                (Some(ver), Some(envs)) => Some(
                    SamConfigView { version: Some(ver), environments: envs },
                ),
                _ => None,
            },
            None => None,
        },
        _ => None,
    }
}

impl SamConfig {
    /// Decode a deployment-override source from the document model's tree: a
    /// version and one section per environment.
    pub fn from_value(v: &Value) -> (r: Result<SamConfig, crate::parsers::value::DecodeError>)
        ensures
            match r {
                Ok(sc) => spec_samconfig_of(v.deep_view()) == Some(sc.deep_view()),
                Err(_) => spec_samconfig_of(v.deep_view()) is None,
            },
    {
        match v {
            Value::Dict(es) => {
                proof {
                    assert(v.deep_view() == ValueView::Dict(views_of_entries(es@)));
                    crate::parsers::value::lemma_views_of_entries(es@);
                }
                let version: String = match crate::parsers::value::dict_get(es, "version") {
                    Some(vv) => match decode_version(vv) {
                        Ok(s) => s,
                        Err(e) => {
                            return Err(e);
                        },
                    },
                    None => {
                        return Err(crate::parsers::value::DecodeError::MissingField("version"));
                    },
                };
                let ghost ev = views_of_entries(es@);
                let mut environments: Vec<(String, SamConfigSection)> = Vec::new();
                let mut i: usize = 0;
                proof {
                    assert(ev.take(0) =~= Seq::<(Seq<char>, ValueView)>::empty());
                    assert(keyed_views(
                        environments@,
                        |s: SamConfigSection| s.deep_view(),
                    ) =~= spec_sam_envs(ev.take(0))->Some_0);
                }
                while i < es.len()
                    invariant
                        *v == Value::Dict(*es),
                        v.deep_view() == ValueView::Dict(ev),
                        i <= es.len(),
                        ev == views_of_entries(es@),
                        ev.len() == es@.len(),
                        forall|j: int|
                            0 <= j < es@.len() ==> ev[j] == (es@[j].0@, es@[j].1.deep_view()),
                        spec_sam_envs(ev.take(i as int)) matches Some(acc) && acc == keyed_views(
                            environments@,
                            |s: SamConfigSection| s.deep_view(),
                        ),
                    decreases es.len() - i,
                {
                    proof {
                        assert(ev.take(i + 1).drop_last() =~= ev.take(i as int));
                        assert(ev.take(i + 1).last() == ev[i as int]);
                    }
                    if !str_eq(es[i].0.as_str(), "version") {
                        match decode_section(&es[i].1) {
                            Ok(x) => {
                                let ghost before = environments@;
                                environments.push((es[i].0.clone(), x));
                                proof {
                                    assert(keyed_views(
                                        environments@,
                                        |s: SamConfigSection| s.deep_view(),
                                    ) =~= keyed_views(
                                        before,
                                        |s: SamConfigSection| s.deep_view(),
                                    ).push((ev[i as int].0, spec_section_of(ev[i as int].1)->Some_0)));
                                }
                            },
                            Err(e) => {
                                proof {
                                    lemma_sam_envs_none(ev, i as int);
                                }
                                return Err(e);
                            },
                        }
                    }
                    i = i + 1;
                }
                proof {
                    assert(ev.take(es@.len() as int) =~= ev);
                }
                let sc = SamConfig { version: Some(version), environments };
                proof {
                    assert(sc.deep_view() =~= spec_samconfig_of(v.deep_view())->Some_0);
                }
                Ok(sc)
            },
            _ => Err(crate::parsers::value::DecodeError::WrongShape("document")),
        }
    }
}

} // verus!

verus! {

/// Global non-destructive merge, at the resource level: a variable a Lambda
/// resource declares itself under `Properties.Environment.Variables` keeps the
/// resource's own value through inheritance, whatever the globals carry under
/// that name.
pub proof fn lemma_inherit_non_destructive(
    r: ResourceView,
    g: Seq<(Seq<char>, ValueView)>,
    x: Seq<char>,
)
    requires
        r.type_.is_lambda_kind(),
        r.properties is Some,
        lookup(r.properties->Some_0, "Environment"@) is Some,
        lookup(r.properties->Some_0, "Environment"@)->Some_0 is Dict,
        lookup(
            lookup(r.properties->Some_0, "Environment"@)->Some_0->Dict_0,
            "Variables"@,
        ) is Some,
        lookup(
            lookup(r.properties->Some_0, "Environment"@)->Some_0->Dict_0,
            "Variables"@,
        )->Some_0 is Dict,
        lookup(
            lookup(
                lookup(r.properties->Some_0, "Environment"@)->Some_0->Dict_0,
                "Variables"@,
            )->Some_0->Dict_0,
            x,
        ) is Some,
    ensures
        ({
            let props1 = spec_inherit_resource(r, Some(g)).properties->Some_0;
            let env1 = lookup(props1, "Environment"@)->Some_0;
            let vars1 = lookup(env1->Dict_0, "Variables"@)->Some_0;
            &&& lookup(props1, "Environment"@) is Some
            &&& env1 is Dict
            &&& lookup(env1->Dict_0, "Variables"@) is Some
            &&& vars1 is Dict
            &&& lookup(vars1->Dict_0, x) == lookup(
                lookup(
                    lookup(r.properties->Some_0, "Environment"@)->Some_0->Dict_0,
                    "Variables"@,
                )->Some_0->Dict_0,
                x,
            )
        }),
{
    let props = r.properties->Some_0;
    let env = lookup(props, "Environment"@)->Some_0;
    let ees = env->Dict_0;
    let vars = lookup(ees, "Variables"@)->Some_0;
    let ves = vars->Dict_0;
    let menv = |e: ValueView| spec_merge_env_value(e, g);
    let mvv = |v: ValueView| spec_merge_vars_value(v, g);
    let props1 = spec_merge_props(props, g);
    assert(props1 == upd_dict(props, "Environment"@, menv));
    let f = |key: Seq<char>, v: ValueView|
        if key == "Environment"@ {
            menv(v)
        } else {
            v
        };
    assert(upd_dict(props, "Environment"@, menv) =~= Seq::new(
        props.len(),
        |i: int| (props[i].0, f(props[i].0, props[i].1)),
    ));
    lemma_lookup_mapped(props, f, "Environment"@);
    assert(lookup(props1, "Environment"@) == Some(menv(env)));
    let ees1 = upd_dict(ees, "Variables"@, mvv);
    assert(menv(env) == ValueView::Dict(ees1));
    let fv = |key: Seq<char>, v: ValueView|
        if key == "Variables"@ {
            mvv(v)
        } else {
            v
        };
    assert(ees1 =~= Seq::new(ees.len(), |i: int| (ees[i].0, fv(ees[i].0, ees[i].1))));
    lemma_lookup_mapped(ees, fv, "Variables"@);
    assert(lookup(ees1, "Variables"@) == Some(mvv(vars)));
    assert(mvv(vars) == ValueView::Dict(spec_merge_vars(ves, g)));
    lemma_merge_non_destructive(ves, g, x);
}

} // verus!
