//! The configuration compiler.
//!
//! Transforms declared systems (`crate::model::yaml`) into the compiled rule
//! model (`crate::model::compiled`). Compilation is all-or-nothing per
//! system: the first malformed endpoint string, unresolvable response
//! reference or invalid status code fails the whole system with an error
//! naming the offending value.

use vstd::prelude::*;
use crate::endpoint::{parse_endpoint, parse_endpoint_spec};
use crate::model::compiled::{
    duplicate_headers, unique_keys, valid_status, ApiCore, ApiSetCore, ApiSetModel, ConfCore,
    ConfModel, EndpointCore, EndpointModel, LatencyCore, RuleCore, RuleModel, SystemCore,
    SystemModel,
};
use crate::model::yaml::{
    latency_model, ApiShapeYaml, ApiShapeYamlModel, ApiYaml, ApiYamlModel, ConfFolder,
    ConfFolderModel, LatencyYaml, Response, ResponseDataModel, ResponseDataYaml, ResponseModel,
    RuleYaml, RuleYamlModel, SystemFolder, SystemFolderModel,
};

verus! {

// ---------------------------------------------------------------------------
// Compilation errors
// ---------------------------------------------------------------------------

/// Model of a compilation error, carrying the offending value.
#[verifier::ext_equal]
pub enum ErrorModel {
    /// A rule's `matches` string does not parse as `"METHOD /path"`.
    MalformedEndpoint(Seq<char>),
    /// A rule references a response-data fragment absent from the shared
    /// mapping.
    MissingResponseData(Seq<char>),
    /// A declared status code is not a legal three-digit HTTP status.
    InvalidStatus(u16),
}

/// A compilation error, carrying the offending value.
#[derive(Debug)]
pub enum CompileError {
    MalformedEndpoint(String),
    MissingResponseData(String),
    InvalidStatus(u16),
}

impl View for CompileError {
    type V = ErrorModel;

    open spec fn view(&self) -> ErrorModel {
        match self {
            CompileError::MalformedEndpoint(s) => ErrorModel::MalformedEndpoint(s@),
            CompileError::MissingResponseData(s) => ErrorModel::MissingResponseData(s@),
            CompileError::InvalidStatus(v) => ErrorModel::InvalidStatus(*v),
        }
    }
}

// ---------------------------------------------------------------------------
// Fail-fast mapping
// ---------------------------------------------------------------------------

/// Maps `f` over `s`, keeping the results in order, stopping at the first
/// error: the fail-fast collection discipline every compilation stage
/// follows.
pub open spec fn map_fail_fast<A, B>(
    s: Seq<A>,
    f: spec_fn(A) -> Result<B, ErrorModel>,
) -> Result<Seq<B>, ErrorModel>
    decreases s.len(),
{
    if s.len() == 0 {
        Ok(Seq::empty())
    } else {
        match f(s[0]) {
            Err(e) => Err(e),
            Ok(b) => match map_fail_fast(s.drop_first(), f) {
                Err(e) => Err(e),
                Ok(rest) => Ok(seq![b] + rest),
            },
        }
    }
}

/// When every element maps successfully, the fail-fast map succeeds with
/// the sequence of results.
pub proof fn lemma_map_fail_fast_all_ok<A, B>(s: Seq<A>, f: spec_fn(A) -> Result<B, ErrorModel>)
    requires
        forall|k: int| 0 <= k < s.len() ==> (#[trigger] f(s[k])) is Ok,
    ensures
        map_fail_fast(s, f) == Ok::<Seq<B>, ErrorModel>(Seq::new(s.len(), |k: int| f(s[k])->Ok_0)),
    decreases s.len(),
{
    let result = Seq::new(s.len(), |k: int| f(s[k])->Ok_0);
    if s.len() == 0 {
        assert(result =~= Seq::<B>::empty());
    } else {
        let rest = s.drop_first();
        lemma_map_fail_fast_all_ok(rest, f);
        let rest_result = Seq::new(rest.len(), |k: int| f(rest[k])->Ok_0);
        assert(seq![f(s[0])->Ok_0] + rest_result =~= result);
    }
}

/// When the elements before `i` map successfully and element `i` fails,
/// the fail-fast map fails with exactly that error.
pub proof fn lemma_map_fail_fast_err<A, B>(
    s: Seq<A>,
    f: spec_fn(A) -> Result<B, ErrorModel>,
    i: int,
)
    requires
        0 <= i < s.len(),
        forall|k: int| 0 <= k < i ==> (#[trigger] f(s[k])) is Ok,
        f(s[i]) is Err,
    ensures
        map_fail_fast(s, f) == Err::<Seq<B>, ErrorModel>(f(s[i])->Err_0),
    decreases i,
{
    if i > 0 {
        lemma_map_fail_fast_err(s.drop_first(), f, i - 1);
    }
}

// ---------------------------------------------------------------------------
// String equality
// ---------------------------------------------------------------------------

/// Decides equality of two string slices by their character sequences.
pub fn str_eq(a: &str, b: &str) -> (r: bool)
    ensures
        r == (a@ == b@),
{
    let x = a.to_owned();
    let y = b.to_owned();
    x == y
}

// ---------------------------------------------------------------------------
// Shared response-data fragments
// ---------------------------------------------------------------------------

/// The fragment a name resolves to: the first entry with that name, if any.
pub open spec fn lookup_data_spec(
    data: Seq<(Seq<char>, ResponseDataModel)>,
    name: Seq<char>,
) -> Option<ResponseDataModel>
    decreases data.len(),
{
    if data.len() == 0 {
        None
    } else if data[0].0 == name {
        Some(data[0].1)
    } else {
        lookup_data_spec(data.drop_first(), name)
    }
}

proof fn lemma_lookup_data_found(
    data: Seq<(Seq<char>, ResponseDataModel)>,
    name: Seq<char>,
    i: int,
)
    requires
        0 <= i < data.len(),
        data[i].0 == name,
        forall|k: int| 0 <= k < i ==> (#[trigger] data[k]).0 != name,
    ensures
        lookup_data_spec(data, name) == Some(data[i].1),
    decreases i,
{
    if i > 0 {
        lemma_lookup_data_found(data.drop_first(), name, i - 1);
    }
}

proof fn lemma_lookup_data_none(data: Seq<(Seq<char>, ResponseDataModel)>, name: Seq<char>)
    requires
        forall|k: int| 0 <= k < data.len() ==> (#[trigger] data[k]).0 != name,
    ensures
        lookup_data_spec(data, name) is None,
    decreases data.len(),
{
    if data.len() > 0 {
        lemma_lookup_data_none(data.drop_first(), name);
    }
}

/// Finds the first fragment with the given name, returning its index.
fn lookup_data(data: &Vec<(String, ResponseDataYaml)>, name: &String) -> (r: Option<usize>)
    ensures
        match r {
            Some(i) => i < data.len() && lookup_data_spec(data.deep_view(), name@) == Some(
                data.deep_view()[i as int].1,
            ),
            None => lookup_data_spec(data.deep_view(), name@) is None,
        },
{
    let mut i: usize = 0;
    while i < data.len()
        invariant
            i <= data.len(),
            forall|k: int| 0 <= k < i ==> (#[trigger] data.deep_view()[k]).0 != name@,
        decreases data.len() - i,
    {
        if str_eq(data[i].0.as_str(), name.as_str()) {
            proof {
                lemma_lookup_data_found(data.deep_view(), name@, i as int);
            }
            return Some(i);
        }
        i = i + 1;
    }
    proof {
        lemma_lookup_data_none(data.deep_view(), name@);
    }
    None
}

// ---------------------------------------------------------------------------
// Rule extraction
// ---------------------------------------------------------------------------

/// The default content-format label.
pub open spec fn default_format() -> Seq<char> {
    "text/plain"@
}

/// An empty declared body counts as no body.
pub open spec fn nonempty_or_none(b: Option<Seq<char>>) -> Option<Seq<char>> {
    match b {
        Some(s) => if s.len() == 0 {
            None
        } else {
            Some(s)
        },
        None => None,
    }
}

/// What a declared response payload resolves to: a (status, body, format)
/// triple, or the first error. A by-reference payload must name a known
/// fragment; every status must be a legal HTTP status.
pub open spec fn resolve_response_spec(
    resp: ResponseModel,
    data: Seq<(Seq<char>, ResponseDataModel)>,
) -> Result<(u16, Option<Seq<char>>, Option<Seq<char>>), ErrorModel> {
    match resp {
        ResponseModel::File(name) => match lookup_data_spec(data, name) {
            None => Err(ErrorModel::MissingResponseData(name)),
            Some(d) => if valid_status(d.status) {
                Ok((d.status, nonempty_or_none(d.data), d.format))
            } else {
                Err(ErrorModel::InvalidStatus(d.status))
            },
        },
        ResponseModel::Inline(status, body, format) => if valid_status(status) {
            Ok((status, nonempty_or_none(body), format))
        } else {
            Err(ErrorModel::InvalidStatus(status))
        },
    }
}

/// What one declared rule compiles to: its endpoint parsed from the
/// `matches` string, its response resolved, API-level headers and latency
/// applied as defaults with rule-level values winning, and the format
/// defaulted to `text/plain`; or the first error.
pub open spec fn extract_rule_spec(
    rule: RuleYamlModel,
    api_latency: Option<LatencyCore>,
    api_headers: Seq<(Seq<char>, Seq<char>)>,
    data: Seq<(Seq<char>, ResponseDataModel)>,
) -> Result<RuleModel, ErrorModel> {
    match parse_endpoint_spec(rule.matches) {
        None => Err(ErrorModel::MalformedEndpoint(rule.matches)),
        Some(ep) => match resolve_response_spec(rule.response, data) {
            Err(e) => Err(e),
            Ok(resolved) => Ok(
                RuleModel {
                    endpoint: ep,
                    headers: match rule.headers {
                        Some(h) => h,
                        None => api_headers,
                    },
                    latency: match rule.latency {
                        Some(l) => Some(l),
                        None => api_latency,
                    },
                    status: resolved.0,
                    format: match resolved.2 {
                        Some(f) => f,
                        None => default_format(),
                    },
                    body: resolved.1,
                },
            ),
        },
    }
}

/// Keeps a cloned body only when it is non-empty.
fn body_or_none(b: &Option<String>) -> (r: Option<String>)
    ensures
        r.deep_view() == nonempty_or_none(b.deep_view()),
{
    match b {
        Some(s) => if s.as_str().is_empty() {
            None
        } else {
            Some(s.clone())
        },
        None => None,
    }
}

/// Compiles one declared rule against its API's defaults and the shared
/// response-data fragments.
pub fn extract_rule(
    rule: &RuleYaml,
    api_latency: Option<LatencyYaml>,
    api_headers: &Vec<(String, String)>,
    data: &Vec<(String, ResponseDataYaml)>,
) -> (r: Result<RuleCore, CompileError>)
    requires
        rule@.wf(),
        unique_keys(api_headers.deep_view()),
    ensures
        match r {
            Ok(rc) => extract_rule_spec(
                rule@,
                latency_model(api_latency),
                api_headers.deep_view(),
                data.deep_view(),
            ) == Ok::<RuleModel, ErrorModel>(rc@) && rc@.wf(),
            Err(e) => extract_rule_spec(
                rule@,
                latency_model(api_latency),
                api_headers.deep_view(),
                data.deep_view(),
            ) == Err::<RuleModel, ErrorModel>(e@),
        },
{
    let endpoint = match parse_endpoint(rule.matches.as_str()) {
        None => {
            return Err(CompileError::MalformedEndpoint(rule.matches.clone()));
        },
        Some(e) => e,
    };
    let resolved: (u16, Option<String>, Option<String>) = match &rule.response {
        Response::File(name) => {
            match lookup_data(data, name) {
                None => {
                    return Err(CompileError::MissingResponseData(name.clone()));
                },
                Some(i) => {
                    let d = &data[i].1;
                    if !(100 <= d.status && d.status <= 999) {
                        return Err(CompileError::InvalidStatus(d.status));
                    }
                    let body = body_or_none(&d.data);
                    let format = match &d.format {
                        Some(f) => Some(f.clone()),
                        None => None,
                    };
                    (d.status, body, format)
                },
            }
        },
        Response::Inline(status, body, format) => {
            if !(100 <= *status && *status <= 999) {
                return Err(CompileError::InvalidStatus(*status));
            }
            let b = body_or_none(body);
            let f = match format {
                Some(f) => Some(f.clone()),
                None => None,
            };
            (*status, b, f)
        },
    };
    let latency: Option<LatencyCore> = match rule.latency {
        Some(l) => Some(l.to_core()),
        None => match api_latency {
            Some(l) => Some(l.to_core()),
            None => None,
        },
    };
    let headers = match &rule.headers {
        Some(h) => duplicate_headers(h),
        None => duplicate_headers(api_headers),
    };
    let format = match resolved.2 {
        Some(f) => f,
        None => "text/plain".to_owned(),
    };
    Ok(RuleCore { endpoint, headers, latency, status: resolved.0, format, body: resolved.1 })
}

// ---------------------------------------------------------------------------
// API extraction
// ---------------------------------------------------------------------------

/// Every rule of a compiled rule list is well-formed.
pub open spec fn rules_wf(rules: Seq<RuleModel>) -> bool {
    forall|k: int| 0 <= k < rules.len() ==> (#[trigger] rules[k]).wf()
}

/// Rule compilation under fixed API-level defaults, as a function value.
pub open spec fn rule_fn(
    api_latency: Option<LatencyCore>,
    api_headers: Seq<(Seq<char>, Seq<char>)>,
    data: Seq<(Seq<char>, ResponseDataModel)>,
) -> spec_fn(RuleYamlModel) -> Result<RuleModel, ErrorModel> {
    |r: RuleYamlModel| extract_rule_spec(r, api_latency, api_headers, data)
}

/// What one declared API compiles to: its rules in order, each against the
/// API's defaults; or the first error.
pub open spec fn extract_api_spec(
    api: ApiYamlModel,
    data: Seq<(Seq<char>, ResponseDataModel)>,
) -> Result<Seq<RuleModel>, ErrorModel> {
    map_fail_fast(api.rules, rule_fn(api.latency, api.headers, data))
}

/// Compiles one declared API scenario.
pub fn extract_api(api: &ApiYaml, data: &Vec<(String, ResponseDataYaml)>) -> (r: Result<
    ApiCore,
    CompileError,
>)
    requires
        api@.wf(),
    ensures
        match r {
            Ok(a) => extract_api_spec(api@, data.deep_view()) == Ok::<Seq<RuleModel>, ErrorModel>(
                a@,
            ) && rules_wf(a@),
            Err(e) => extract_api_spec(api@, data.deep_view()) == Err::<
                Seq<RuleModel>,
                ErrorModel,
            >(e@),
        },
{
    let ghost f = rule_fn(api@.latency, api@.headers, data.deep_view());
    let mut rules: Vec<RuleCore> = Vec::new();
    let mut i: usize = 0;
    while i < api.rules.len()
        invariant
            i <= api.rules.len(),
            api@.wf(),
            f == rule_fn(api@.latency, api@.headers, data.deep_view()),
            rules.deep_view().len() == i,
            forall|k: int| 0 <= k < i ==> (#[trigger] f(api@.rules[k])) is Ok,
            forall|k: int| 0 <= k < i ==> rules.deep_view()[k] == (#[trigger] f(
                api@.rules[k],
            ))->Ok_0,
            forall|k: int| 0 <= k < i ==> (#[trigger] rules.deep_view()[k]).wf(),
        decreases api.rules.len() - i,
    {
        proof {
            assert(api.rules.deep_view()[i as int] == api@.rules[i as int]);
        }
        match extract_rule(&api.rules[i], api.latency, &api.headers, data) {
            Err(e) => {
                proof {
                    lemma_map_fail_fast_err(api@.rules, f, i as int);
                }
                return Err(e);
            },
            Ok(rc) => {
                let ghost prev = rules.deep_view();
                let ghost rc_model = rc@;
                rules.push(rc);
                proof {
                    assert forall|k: int| 0 <= k < i + 1 implies (#[trigger] rules.deep_view()[k]).wf() by {
                        if k < i {
                            assert(rules.deep_view()[k] == prev[k]);
                        } else {
                            assert(rules.deep_view()[k] == rc_model);
                        }
                    }
                }
            },
        }
        i = i + 1;
    }
    proof {
        lemma_map_fail_fast_all_ok(api@.rules, f);
        assert(rules.deep_view() =~= Seq::new(api@.rules.len(), |k: int| f(api@.rules[k])->Ok_0));
    }
    Ok(ApiCore(rules))
}

// ---------------------------------------------------------------------------
// Shape extraction
// ---------------------------------------------------------------------------

/// Parsing one declared shape entry, as a function value.
pub open spec fn shape_item_fn() -> spec_fn(Seq<char>) -> Result<EndpointModel, ErrorModel> {
    |s: Seq<char>| match parse_endpoint_spec(s) {
        Some(e) => Ok(e),
        None => Err(ErrorModel::MalformedEndpoint(s)),
    }
}

/// What a declared shape compiles to: all its endpoints, or — the shape
/// being advisory — nothing at all if any entry is malformed.
pub open spec fn extract_shape_spec(shape: Seq<Seq<char>>) -> Option<Seq<EndpointModel>> {
    match map_fail_fast(shape, shape_item_fn()) {
        Ok(endpoints) => Some(endpoints),
        Err(_) => None,
    }
}

/// Compiles one declared API shape; a malformed entry discards the whole
/// shape rather than failing compilation.
pub fn extract_api_shape(api_shape: &ApiShapeYaml) -> (r: Option<Vec<EndpointCore>>)
    ensures
        match r {
            Some(v) => extract_shape_spec(api_shape@.shape) == Some(v.deep_view()),
            None => extract_shape_spec(api_shape@.shape) is None,
        },
{
    let ghost f = shape_item_fn();
    let mut endpoints: Vec<EndpointCore> = Vec::new();
    let mut i: usize = 0;
    while i < api_shape.shape.len()
        invariant
            i <= api_shape.shape.len(),
            f == shape_item_fn(),
            endpoints.deep_view().len() == i,
            forall|k: int| 0 <= k < i ==> (#[trigger] f(api_shape@.shape[k])) is Ok,
            forall|k: int| 0 <= k < i ==> endpoints.deep_view()[k] == (#[trigger] f(
                api_shape@.shape[k],
            ))->Ok_0,
        decreases api_shape.shape.len() - i,
    {
        proof {
            assert(api_shape.shape.deep_view()[i as int] == api_shape@.shape[i as int]);
        }
        match parse_endpoint(api_shape.shape[i].as_str()) {
            None => {
                proof {
                    lemma_map_fail_fast_err(api_shape@.shape, f, i as int);
                }
                return None;
            },
            Some(e) => {
                endpoints.push(e);
            },
        }
        i = i + 1;
    }
    proof {
        lemma_map_fail_fast_all_ok(api_shape@.shape, f);
        assert(endpoints.deep_view() =~= Seq::new(
            api_shape@.shape.len(),
            |k: int| f(api_shape@.shape[k])->Ok_0,
        ));
    }
    Some(endpoints)
}

/// The first declared shape with the given name, if any.
pub open spec fn find_shape_spec(shapes: Seq<ApiShapeYamlModel>, name: Seq<char>) -> Option<
    ApiShapeYamlModel,
>
    decreases shapes.len(),
{
    if shapes.len() == 0 {
        None
    } else if shapes[0].name == name {
        Some(shapes[0])
    } else {
        find_shape_spec(shapes.drop_first(), name)
    }
}

proof fn lemma_find_shape_found(shapes: Seq<ApiShapeYamlModel>, name: Seq<char>, i: int)
    requires
        0 <= i < shapes.len(),
        shapes[i].name == name,
        forall|k: int| 0 <= k < i ==> (#[trigger] shapes[k]).name != name,
    ensures
        find_shape_spec(shapes, name) == Some(shapes[i]),
    decreases i,
{
    if i > 0 {
        lemma_find_shape_found(shapes.drop_first(), name, i - 1);
    }
}

proof fn lemma_find_shape_none(shapes: Seq<ApiShapeYamlModel>, name: Seq<char>)
    requires
        forall|k: int| 0 <= k < shapes.len() ==> (#[trigger] shapes[k]).name != name,
    ensures
        find_shape_spec(shapes, name) is None,
    decreases shapes.len(),
{
    if shapes.len() > 0 {
        lemma_find_shape_none(shapes.drop_first(), name);
    }
}

/// Finds the first declared shape with the given name, returning its index.
fn find_shape(shapes: &Vec<ApiShapeYaml>, name: &String) -> (r: Option<usize>)
    ensures
        match r {
            Some(i) => i < shapes.len() && find_shape_spec(shapes.deep_view(), name@) == Some(
                shapes.deep_view()[i as int],
            ),
            None => find_shape_spec(shapes.deep_view(), name@) is None,
        },
{
    let mut i: usize = 0;
    while i < shapes.len()
        invariant
            i <= shapes.len(),
            forall|k: int| 0 <= k < i ==> (#[trigger] shapes.deep_view()[k]).name != name@,
        decreases shapes.len() - i,
    {
        if str_eq(shapes[i].name.as_str(), name.as_str()) {
            proof {
                lemma_find_shape_found(shapes.deep_view(), name@, i as int);
            }
            return Some(i);
        }
        i = i + 1;
    }
    proof {
        lemma_find_shape_none(shapes.deep_view(), name@);
    }
    None
}

// ---------------------------------------------------------------------------
// Grouping API declarations by name
// ---------------------------------------------------------------------------

/// Some declaration among the first `upto` carries this name.
pub open spec fn name_seen(apis: Seq<ApiYamlModel>, upto: int, name: Seq<char>) -> bool {
    exists|k: int| 0 <= k < upto && (#[trigger] apis[k]).name == name
}

/// The distinct names among the first `upto` declarations, in order of
/// first occurrence.
pub open spec fn group_names_upto(apis: Seq<ApiYamlModel>, upto: int) -> Seq<Seq<char>>
    decreases upto,
{
    if upto <= 0 {
        Seq::empty()
    } else if name_seen(apis, upto - 1, apis[upto - 1].name) {
        group_names_upto(apis, upto - 1)
    } else {
        group_names_upto(apis, upto - 1).push(apis[upto - 1].name)
    }
}

/// The distinct declared API names, in order of first occurrence: one API
/// set arises per name.
pub open spec fn group_names(apis: Seq<ApiYamlModel>) -> Seq<Seq<char>> {
    group_names_upto(apis, apis.len() as int)
}

/// A name is grouped exactly when some declaration carries it.
pub proof fn lemma_group_names_upto_membership(apis: Seq<ApiYamlModel>, upto: int)
    requires
        0 <= upto <= apis.len(),
    ensures
        forall|n: Seq<char>|
            #[trigger] group_names_upto(apis, upto).contains(n) <==> name_seen(apis, upto, n),
    decreases upto,
{
    if upto > 0 {
        lemma_group_names_upto_membership(apis, upto - 1);
        let last = apis[upto - 1].name;
        let prev = group_names_upto(apis, upto - 1);
        let cur = group_names_upto(apis, upto);
        assert forall|n: Seq<char>| #[trigger] cur.contains(n) implies name_seen(apis, upto, n) by {
            let j = choose|j: int| 0 <= j < cur.len() && cur[j] == n;
            if j < prev.len() {
                assert(prev[j] == n);
                assert(prev.contains(n));
                let k = choose|k: int| 0 <= k < upto - 1 && (#[trigger] apis[k]).name == n;
                assert(0 <= k < upto && apis[k].name == n);
            } else {
                assert(n == last);
                assert(apis[upto - 1].name == n);
            }
        }
        assert forall|n: Seq<char>| name_seen(apis, upto, n) implies #[trigger] cur.contains(n) by {
            let k = choose|k: int| 0 <= k < upto && (#[trigger] apis[k]).name == n;
            if k < upto - 1 {
                assert(name_seen(apis, upto - 1, n));
                assert(prev.contains(n));
                let j = choose|j: int| 0 <= j < prev.len() && prev[j] == n;
                assert(cur[j] == n);
            } else {
                if name_seen(apis, upto - 1, last) {
                    assert(prev.contains(n));
                    let j = choose|j: int| 0 <= j < prev.len() && prev[j] == n;
                    assert(cur[j] == n);
                } else {
                    assert(cur[cur.len() - 1] == n);
                }
            }
        }
    }
}

/// Decides whether one of the collected names equals `target`.
fn contains_name(names: &Vec<String>, target: &String) -> (b: bool)
    ensures
        b == names.deep_view().contains(target@),
{
    let mut j: usize = 0;
    while j < names.len()
        invariant
            j <= names.len(),
            forall|k: int| 0 <= k < j ==> names.deep_view()[k] != target@,
        decreases names.len() - j,
    {
        if str_eq(names[j].as_str(), target.as_str()) {
            proof {
                assert(names.deep_view()[j as int] == target@);
            }
            return true;
        }
        j = j + 1;
    }
    proof {
        assert(!names.deep_view().contains(target@));
    }
    false
}

/// The declarations among the first `upto` that carry this name, in
/// declaration order.
pub open spec fn apis_named_upto(apis: Seq<ApiYamlModel>, name: Seq<char>, upto: int) -> Seq<
    ApiYamlModel,
>
    decreases upto,
{
    if upto <= 0 {
        Seq::empty()
    } else if apis[upto - 1].name == name {
        apis_named_upto(apis, name, upto - 1).push(apis[upto - 1])
    } else {
        apis_named_upto(apis, name, upto - 1)
    }
}

/// The declarations grouped into the API set of this name, in declaration
/// order.
pub open spec fn apis_named(apis: Seq<ApiYamlModel>, name: Seq<char>) -> Seq<ApiYamlModel> {
    apis_named_upto(apis, name, apis.len() as int)
}

/// Scanning further only extends the group at its end.
pub proof fn lemma_apis_named_prefix(apis: Seq<ApiYamlModel>, name: Seq<char>, i: int, j: int)
    requires
        0 <= i <= j,
    ensures
        apis_named_upto(apis, name, i).len() <= apis_named_upto(apis, name, j).len(),
        forall|k: int|
            0 <= k < apis_named_upto(apis, name, i).len() ==> apis_named_upto(apis, name, j)[k]
                == apis_named_upto(apis, name, i)[k],
    decreases j - i,
{
    if i < j {
        lemma_apis_named_prefix(apis, name, i, j - 1);
    }
}

// ---------------------------------------------------------------------------
// Building API sets
// ---------------------------------------------------------------------------

/// API compilation under fixed shared data, as a function value.
pub open spec fn api_fn(data: Seq<(Seq<char>, ResponseDataModel)>) -> spec_fn(ApiYamlModel) -> Result<
    Seq<RuleModel>,
    ErrorModel,
> {
    |a: ApiYamlModel| extract_api_spec(a, data)
}

/// What the API set of one name compiles to: the like-named declarations'
/// rule lists in declaration order, with the like-named shape attached when
/// it exists and itself compiles; or the first error.
pub open spec fn api_set_spec(
    name: Seq<char>,
    shapes: Seq<ApiShapeYamlModel>,
    apis: Seq<ApiYamlModel>,
    data: Seq<(Seq<char>, ResponseDataModel)>,
) -> Result<ApiSetModel, ErrorModel> {
    match map_fail_fast(apis_named(apis, name), api_fn(data)) {
        Err(e) => Err(e),
        Ok(rule_lists) => Ok(
            ApiSetModel {
                name,
                shape: match find_shape_spec(shapes, name) {
                    None => None,
                    Some(sh) => extract_shape_spec(sh.shape),
                },
                apis: rule_lists,
            },
        ),
    }
}

/// API-set compilation under fixed declarations, as a function value.
pub open spec fn set_fn(
    shapes: Seq<ApiShapeYamlModel>,
    apis: Seq<ApiYamlModel>,
    data: Seq<(Seq<char>, ResponseDataModel)>,
) -> spec_fn(Seq<char>) -> Result<ApiSetModel, ErrorModel> {
    |n: Seq<char>| api_set_spec(n, shapes, apis, data)
}

/// What a whole declared system compiles to: one API set per distinct
/// declared API name, in order of first occurrence; or the first error.
pub open spec fn build_all_api_sets_spec(
    shapes: Seq<ApiShapeYamlModel>,
    apis: Seq<ApiYamlModel>,
    data: Seq<(Seq<char>, ResponseDataModel)>,
) -> Result<Seq<ApiSetModel>, ErrorModel> {
    map_fail_fast(group_names(apis), set_fn(shapes, apis, data))
}

/// Every declared API is well-formed.
pub open spec fn apis_wf(apis: Seq<ApiYamlModel>) -> bool {
    forall|k: int| 0 <= k < apis.len() ==> (#[trigger] apis[k]).wf()
}

/// Every rule list of a compiled API set is well-formed.
pub open spec fn api_set_wf(s: ApiSetModel) -> bool {
    forall|i: int| 0 <= i < s.apis.len() ==> rules_wf(#[trigger] s.apis[i])
}

/// Every compiled API set is well-formed.
pub open spec fn sets_wf(sets: Seq<ApiSetModel>) -> bool {
    forall|i: int| 0 <= i < sets.len() ==> api_set_wf(#[trigger] sets[i])
}

/// Compiles every API set of one declared system: groups the like-named
/// API declarations in declaration order, compiles each group member, and
/// attaches the like-named advisory shape when one exists and compiles.
pub fn build_all_api_sets(
    shapes: &Vec<ApiShapeYaml>,
    apis: &Vec<ApiYaml>,
    data: &Vec<(String, ResponseDataYaml)>,
) -> (r: Result<Vec<ApiSetCore>, CompileError>)
    requires
        apis_wf(apis.deep_view()),
    ensures
        match r {
            Ok(v) => build_all_api_sets_spec(shapes.deep_view(), apis.deep_view(), data.deep_view())
                == Ok::<Seq<ApiSetModel>, ErrorModel>(v.deep_view()) && sets_wf(v.deep_view()),
            Err(e) => build_all_api_sets_spec(
                shapes.deep_view(),
                apis.deep_view(),
                data.deep_view(),
            ) == Err::<Seq<ApiSetModel>, ErrorModel>(e@),
        },
{
    let ghost apis_model = apis.deep_view();
    let mut names: Vec<String> = Vec::new();
    let mut i: usize = 0;
    proof {
        assert(names.deep_view() =~= group_names_upto(apis_model, 0));
    }
    while i < apis.len()
        invariant
            i <= apis.len(),
            apis_model == apis.deep_view(),
            names.deep_view() == group_names_upto(apis_model, i as int),
        decreases apis.len() - i,
    {
        proof {
            lemma_group_names_upto_membership(apis_model, i as int);
            assert(apis.deep_view()[i as int].name == apis[i as int]@.name);
        }
        let seen = contains_name(&names, &apis[i].name);
        if !seen {
            let ghost prev = names.deep_view();
            names.push(apis[i].name.clone());
            proof {
                assert(names.deep_view() =~= prev.push(apis_model[i as int].name));
            }
        }
        i = i + 1;
    }
    let ghost gnames = group_names(apis_model);
    let ghost sf = set_fn(shapes.deep_view(), apis_model, data.deep_view());
    proof {
        assert(names.deep_view() == gnames);
    }
    let mut sets: Vec<ApiSetCore> = Vec::new();
    let mut g: usize = 0;
    while g < names.len()
        invariant
            g <= names.len(),
            apis_model == apis.deep_view(),
            apis_wf(apis_model),
            names.deep_view() == gnames,
            gnames == group_names(apis_model),
            sf == set_fn(shapes.deep_view(), apis_model, data.deep_view()),
            sets.deep_view().len() == g,
            forall|k: int| 0 <= k < g ==> (#[trigger] sf(gnames[k])) is Ok,
            forall|k: int| 0 <= k < g ==> sets.deep_view()[k] == (#[trigger] sf(gnames[k]))->Ok_0,
            forall|k: int| 0 <= k < g ==> api_set_wf(#[trigger] sets.deep_view()[k]),
        decreases names.len() - g,
    {
        let name = &names[g];
        proof {
            assert(name@ == gnames[g as int]);
        }
        let ghost af = api_fn(data.deep_view());
        let ghost members = apis_named(apis_model, name@);
        let mut group_apis: Vec<ApiCore> = Vec::new();
        let mut i: usize = 0;
        while i < apis.len()
            invariant
                i <= apis.len(),
                apis_model == apis.deep_view(),
                apis_wf(apis_model),
                af == api_fn(data.deep_view()),
                members == apis_named(apis_model, name@),
                g < names.len(),
                names.deep_view() == gnames,
                gnames == group_names(apis_model),
                sf == set_fn(shapes.deep_view(), apis_model, data.deep_view()),
                name@ == gnames[g as int],
                forall|k: int| 0 <= k < g ==> (#[trigger] sf(gnames[k])) is Ok,
                group_apis.deep_view().len() == apis_named_upto(apis_model, name@, i as int).len(),
                forall|k: int|
                    0 <= k < group_apis.deep_view().len() ==> (#[trigger] af(
                        apis_named_upto(apis_model, name@, i as int)[k],
                    )) is Ok,
                forall|k: int|
                    0 <= k < group_apis.deep_view().len() ==> group_apis.deep_view()[k] == (
                    #[trigger] af(apis_named_upto(apis_model, name@, i as int)[k]))->Ok_0,
                forall|k: int|
                    0 <= k < group_apis.deep_view().len() ==> rules_wf(
                        #[trigger] group_apis.deep_view()[k],
                    ),
            decreases apis.len() - i,
        {
            let ghost upto_i = apis_named_upto(apis_model, name@, i as int);
            proof {
                assert(apis.deep_view()[i as int].name == apis[i as int]@.name);
            }
            if str_eq(apis[i].name.as_str(), name.as_str()) {
                proof {
                    assert(apis_named_upto(apis_model, name@, i as int + 1) == upto_i.push(
                        apis_model[i as int],
                    ));
                }
                match extract_api(&apis[i], data) {
                    Err(e) => {
                        proof {
                            let c = upto_i.len() as int;
                            lemma_apis_named_prefix(apis_model, name@, i as int + 1, apis_model.len() as int);
                            assert(members[c] == apis_model[i as int]);
                            lemma_apis_named_prefix(apis_model, name@, i as int, apis_model.len() as int);
                            assert(forall|k: int| 0 <= k < c ==> members[k] == upto_i[k]);
                            lemma_map_fail_fast_err(members, af, c);
                            assert(api_set_spec(
                                name@,
                                shapes.deep_view(),
                                apis_model,
                                data.deep_view(),
                            ) == Err::<ApiSetModel, ErrorModel>(e@));
                            lemma_map_fail_fast_err(gnames, sf, g as int);
                        }
                        return Err(e);
                    },
                    Ok(a) => {
                        let ghost prev = group_apis.deep_view();
                        let ghost a_model = a@;
                        group_apis.push(a);
                        proof {
                            assert(group_apis.deep_view() =~= prev.push(a_model));
                        }
                    },
                }
            }
            i = i + 1;
        }
        proof {
            assert(apis_named_upto(apis_model, name@, apis_model.len() as int) == members);
            lemma_map_fail_fast_all_ok(members, af);
            assert(group_apis.deep_view() =~= Seq::new(members.len(), |k: int| af(members[k])->Ok_0));
        }
        let shape: Option<Vec<EndpointCore>> = match find_shape(shapes, name) {
            None => None,
            Some(si) => extract_api_shape(&shapes[si]),
        };
        let set = ApiSetCore { name: name.clone(), shape, apis: group_apis };
        let ghost set_model = set@;
        proof {
            assert(set_model =~= sf(gnames[g as int])->Ok_0);
        }
        let ghost prev_sets = sets.deep_view();
        sets.push(set);
        proof {
            assert(sets.deep_view() =~= prev_sets.push(set_model));
        }
        g = g + 1;
    }
    proof {
        lemma_map_fail_fast_all_ok(gnames, sf);
        assert(sets.deep_view() =~= Seq::new(gnames.len(), |k: int| sf(gnames[k])->Ok_0));
    }
    Ok(sets)
}

// ---------------------------------------------------------------------------
// Whole-configuration compilation
// ---------------------------------------------------------------------------

/// System compilation, as a function value.
pub open spec fn system_fn() -> spec_fn(SystemFolderModel) -> Result<SystemModel, ErrorModel> {
    |sys: SystemFolderModel| match build_all_api_sets_spec(sys.shapes, sys.apis, sys.data) {
        Err(e) => Err(e),
        Ok(sets) => Ok(SystemModel { name: sys.name, api_sets: sets }),
    }
}

/// What a whole declared configuration compiles to: one compiled system per
/// declared system, or the first error. Compilation is all-or-nothing per
/// system; an error in one system is reported before any later system is
/// considered.
pub open spec fn extract_spec(conf: ConfFolderModel) -> Result<ConfModel, ErrorModel> {
    match map_fail_fast(conf.systems, system_fn()) {
        Err(e) => Err(e),
        Ok(systems) => Ok(ConfModel { systems }),
    }
}

/// Every compiled system's API sets are well-formed.
pub open spec fn conf_wf(c: ConfModel) -> bool {
    forall|i: int| 0 <= i < c.systems.len() ==> sets_wf((#[trigger] c.systems[i]).api_sets)
}

impl ConfFolder {
    /// Compiles every declared system, failing on the first system that
    /// does not compile.
    pub fn extract(&self) -> (r: Result<ConfCore, CompileError>)
        requires
            self@.wf(),
        ensures
            match r {
                Ok(c) => extract_spec(self@) == Ok::<ConfModel, ErrorModel>(c@) && conf_wf(c@),
                Err(e) => extract_spec(self@) == Err::<ConfModel, ErrorModel>(e@),
            },
    {
        let ghost f = system_fn();
        let mut systems: Vec<SystemCore> = Vec::new();
        let mut i: usize = 0;
        while i < self.systems.len()
            invariant
                i <= self.systems.len(),
                self@.wf(),
                f == system_fn(),
                systems.deep_view().len() == i,
                forall|k: int| 0 <= k < i ==> (#[trigger] f(self@.systems[k])) is Ok,
                forall|k: int| 0 <= k < i ==> systems.deep_view()[k] == (#[trigger] f(
                    self@.systems[k],
                ))->Ok_0,
                forall|k: int|
                    0 <= k < i ==> sets_wf((#[trigger] systems.deep_view()[k]).api_sets),
            decreases self.systems.len() - i,
        {
            let sys = &self.systems[i];
            proof {
                assert(sys@ == self@.systems[i as int]);
                assert(sys@.wf());
            }
            match build_all_api_sets(&sys.shapes, &sys.apis, &sys.data) {
                Err(e) => {
                    proof {
                        lemma_map_fail_fast_err(self@.systems, f, i as int);
                    }
                    return Err(e);
                },
                Ok(api_sets) => {
                    let sc = SystemCore { name: sys.name.clone(), api_sets };
                    let ghost prev = systems.deep_view();
                    let ghost sc_model = sc@;
                    systems.push(sc);
                    proof {
                        assert(systems.deep_view() =~= prev.push(sc_model));
                    }
                },
            }
            i = i + 1;
        }
        proof {
            lemma_map_fail_fast_all_ok(self@.systems, f);
            assert(systems.deep_view() =~= Seq::new(
                self@.systems.len(),
                |k: int| f(self@.systems[k])->Ok_0,
            ));
        }
        Ok(ConfCore { systems })
    }
}

// ---------------------------------------------------------------------------
// Input well-formedness checks
// ---------------------------------------------------------------------------

/// Decides whether a header association list has unique keys.
pub fn headers_unique(h: &Vec<(String, String)>) -> (b: bool)
    ensures
        b == unique_keys(h.deep_view()),
{
    let mut i: usize = 0;
    while i < h.len()
        invariant
            i <= h.len(),
            forall|a: int, b: int|
                0 <= a < b < i ==> (#[trigger] h.deep_view()[a]).0 != (#[trigger] h.deep_view()[b]).0,
        decreases h.len() - i,
    {
        let mut j: usize = 0;
        while j < i
            invariant
                j <= i < h.len(),
                forall|a: int| 0 <= a < j ==> (#[trigger] h.deep_view()[a]).0 != h.deep_view()[i as int].0,
            decreases i - j,
        {
            if str_eq(h[j].0.as_str(), h[i].0.as_str()) {
                proof {
                    assert(h.deep_view()[j as int].0 == h.deep_view()[i as int].0);
                    assert(!unique_keys(h.deep_view()));
                }
                return false;
            }
            j = j + 1;
        }
        i = i + 1;
    }
    true
}

impl ApiYaml {
    /// Decides whether this declared API is well-formed: its headers and
    /// every rule's header override form mappings.
    pub fn wf_check(&self) -> (b: bool)
        ensures
            b == self@.wf(),
    {
        if !headers_unique(&self.headers) {
            return false;
        }
        let mut i: usize = 0;
        while i < self.rules.len()
            invariant
                i <= self.rules.len(),
                unique_keys(self@.headers),
                forall|k: int| 0 <= k < i ==> (#[trigger] self@.rules[k]).wf(),
            decreases self.rules.len() - i,
        {
            proof {
                assert(self@.rules[i as int] == self.rules[i as int]@);
            }
            let ok = match &self.rules[i].headers {
                Some(hs) => headers_unique(hs),
                None => true,
            };
            if !ok {
                proof {
                    assert(!self@.rules[i as int].wf());
                }
                return false;
            }
            i = i + 1;
        }
        true
    }
}

impl SystemFolder {
    /// Decides whether every declared API of this system is well-formed.
    pub fn wf_check(&self) -> (b: bool)
        ensures
            b == self@.wf(),
    {
        let mut i: usize = 0;
        while i < self.apis.len()
            invariant
                i <= self.apis.len(),
                forall|k: int| 0 <= k < i ==> (#[trigger] self@.apis[k]).wf(),
            decreases self.apis.len() - i,
        {
            proof {
                assert(self@.apis[i as int] == self.apis[i as int]@);
            }
            if !self.apis[i].wf_check() {
                return false;
            }
            i = i + 1;
        }
        true
    }
}

impl ConfFolder {
    /// Decides whether every declared system is well-formed: the check the
    /// surrounding process runs before compiling.
    pub fn wf_check(&self) -> (b: bool)
        ensures
            b == self@.wf(),
    {
        let mut i: usize = 0;
        while i < self.systems.len()
            invariant
                i <= self.systems.len(),
                forall|k: int| 0 <= k < i ==> (#[trigger] self@.systems[k]).wf(),
            decreases self.systems.len() - i,
        {
            proof {
                assert(self@.systems[i as int] == self.systems[i as int]@);
            }
            if !self.systems[i].wf_check() {
                return false;
            }
            i = i + 1;
        }
        true
    }
}

} // verus!
