//! Compiled rule model: the value types a system is compiled into, together
//! with their mathematical models (views) and well-formedness invariants.
//!
//! All response content is immutable once compiled; only the scenario cursor
//! inside a dispatch table (see `crate::dispatch`) ever mutates.

use vstd::prelude::*;

verus! {

// ---------------------------------------------------------------------------
// Character classes and validity predicates
// ---------------------------------------------------------------------------

/// An ASCII uppercase letter, the only characters an HTTP method token may
/// consist of here.
pub open spec fn is_upper_char(c: char) -> bool {
    'A' <= c && c <= 'Z'
}

/// The whitespace characters accepted between the method and the path of an
/// endpoint declaration.
pub open spec fn is_space_char(c: char) -> bool {
    c == ' ' || c == '\t' || c == '\n' || c == '\r' || c == '\u{b}' || c == '\u{c}'
}

/// A character allowed inside a URI path-and-query template: the RFC 3986
/// pchar set plus `/`, `%` and `?`.
pub open spec fn is_path_char(c: char) -> bool {
    ('a' <= c && c <= 'z') || ('A' <= c && c <= 'Z') || ('0' <= c && c <= '9')
    || c == '/' || c == '-' || c == '.' || c == '_' || c == '~' || c == '!'
    || c == '$' || c == '&' || c == '\'' || c == '(' || c == ')' || c == '*'
    || c == '+' || c == ',' || c == ';' || c == '=' || c == ':' || c == '@'
    || c == '%' || c == '?'
}

/// A valid HTTP method token: one or more uppercase ASCII letters.
pub open spec fn valid_method(m: Seq<char>) -> bool {
    m.len() >= 1 && forall|i: int| 0 <= i < m.len() ==> is_upper_char(#[trigger] m[i])
}

/// A valid URI path-and-query template: non-empty, rooted at `/`, made of
/// path characters only.
pub open spec fn valid_path(p: Seq<char>) -> bool {
    p.len() >= 1 && p[0] == '/' && forall|i: int| 0 <= i < p.len() ==> is_path_char(#[trigger] p[i])
}

/// A syntactically legal HTTP status code: a three-digit value in 100..=999.
pub open spec fn valid_status(s: u16) -> bool {
    100 <= s <= 999
}

/// Header mappings are association lists whose keys are unique.
pub open spec fn unique_keys(h: Seq<(Seq<char>, Seq<char>)>) -> bool {
    forall|i: int, j: int| 0 <= i < j < h.len() ==> #[trigger] h[i].0 != #[trigger] h[j].0
}

// ---------------------------------------------------------------------------
// Exec-level character tests
// ---------------------------------------------------------------------------

/// Decides `is_upper_char`.
pub fn char_is_upper(c: char) -> (b: bool)
    ensures
        b == is_upper_char(c),
{
    'A' <= c && c <= 'Z'
}

/// Decides `is_space_char`.
pub fn char_is_space(c: char) -> (b: bool)
    ensures
        b == is_space_char(c),
{
    c == ' ' || c == '\t' || c == '\n' || c == '\r' || c == '\u{b}' || c == '\u{c}'
}

/// Decides `is_path_char`.
pub fn char_is_path(c: char) -> (b: bool)
    ensures
        b == is_path_char(c),
{
    ('a' <= c && c <= 'z') || ('A' <= c && c <= 'Z') || ('0' <= c && c <= '9')
    || c == '/' || c == '-' || c == '.' || c == '_' || c == '~' || c == '!'
    || c == '$' || c == '&' || c == '\'' || c == '(' || c == ')' || c == '*'
    || c == '+' || c == ',' || c == ';' || c == '=' || c == ':' || c == '@'
    || c == '%' || c == '?'
}

// ---------------------------------------------------------------------------
// Mathematical models
// ---------------------------------------------------------------------------

/// Model of an endpoint: the pair the dispatch table is keyed by.
#[verifier::ext_equal]
pub struct EndpointModel {
    pub method: Seq<char>,
    pub route: Seq<char>,
}

impl EndpointModel {
    /// Endpoint invariant: a standard-shaped method token and a valid path.
    pub open spec fn wf(self) -> bool {
        valid_method(self.method) && valid_path(self.route)
    }
}

/// Model of a compiled response rule.
#[verifier::ext_equal]
pub struct RuleModel {
    pub endpoint: EndpointModel,
    pub headers: Seq<(Seq<char>, Seq<char>)>,
    pub latency: Option<LatencyCore>,
    pub status: u16,
    pub format: Seq<char>,
    pub body: Option<Seq<char>>,
}

impl RuleModel {
    /// Rule invariant: well-formed endpoint, legal status, unique header keys.
    pub open spec fn wf(self) -> bool {
        self.endpoint.wf() && valid_status(self.status) && unique_keys(self.headers)
    }
}

/// Model of an API set: a name, an optional advisory shape, and the rule
/// lists of its grouped API declarations.
#[verifier::ext_equal]
pub struct ApiSetModel {
    pub name: Seq<char>,
    pub shape: Option<Seq<EndpointModel>>,
    pub apis: Seq<Seq<RuleModel>>,
}

/// Model of a compiled system.
#[verifier::ext_equal]
pub struct SystemModel {
    pub name: Seq<char>,
    pub api_sets: Seq<ApiSetModel>,
}

/// Model of a whole compiled configuration.
#[verifier::ext_equal]
pub struct ConfModel {
    pub systems: Seq<SystemModel>,
}

// ---------------------------------------------------------------------------
// Exec value types
// ---------------------------------------------------------------------------

/// Simulated latency, a closed tagged union: today one variant, a constant
/// delay in milliseconds.
#[derive(Debug, Clone, Copy, PartialEq, Eq, Structural)]
pub enum LatencyCore {
    Constant(u32),
}

/// An (HTTP method, path template) pair; the identity requests are matched
/// against.
#[derive(Debug)]
pub struct EndpointCore {
    pub method: String,
    pub route: String,
}

impl View for EndpointCore {
    type V = EndpointModel;

    open spec fn view(&self) -> EndpointModel {
        EndpointModel { method: self.method@, route: self.route@ }
    }
}

impl DeepView for EndpointCore {
    type V = EndpointModel;

    open spec fn deep_view(&self) -> EndpointModel {
        self@
    }
}

impl EndpointCore {
    /// Re-serializes the endpoint to the declaration form it was parsed
    /// from: the method token, one space, the path template.
    pub fn matches_string(&self) -> (r: String)
        ensures
            r@ == self@.method + seq![' '] + self@.route,
    {
        let mut r = self.method.clone();
        r.append(" ");
        r.append(self.route.as_str());
        proof {
            reveal_strlit(" ");
            assert(r@ == self@.method + seq![' '] + self@.route);
        }
        r
    }

    /// An exact copy.
    pub fn duplicate(&self) -> (r: EndpointCore)
        ensures
            r@ == self@,
    {
        EndpointCore { method: self.method.clone(), route: self.route.clone() }
    }
}

/// A compiled response rule bound to one endpoint.
#[derive(Debug)]
pub struct RuleCore {
    pub endpoint: EndpointCore,
    pub headers: Vec<(String, String)>,
    pub latency: Option<LatencyCore>,
    pub status: u16,
    pub format: String,
    pub body: Option<String>,
}

impl View for RuleCore {
    type V = RuleModel;

    open spec fn view(&self) -> RuleModel {
        RuleModel {
            endpoint: self.endpoint@,
            headers: self.headers.deep_view(),
            latency: self.latency,
            status: self.status,
            format: self.format@,
            body: self.body.deep_view(),
        }
    }
}

impl DeepView for RuleCore {
    type V = RuleModel;

    open spec fn deep_view(&self) -> RuleModel {
        self@
    }
}

/// An exact copy of a header association list.
pub fn duplicate_headers(h: &Vec<(String, String)>) -> (r: Vec<(String, String)>)
    ensures
        r.deep_view() == h.deep_view(),
{
    let mut r: Vec<(String, String)> = Vec::new();
    let mut i: usize = 0;
    proof {
        assert(r.deep_view() =~= h.deep_view().subrange(0, 0));
    }
    while i < h.len()
        invariant
            i <= h.len(),
            r.deep_view() == h.deep_view().subrange(0, i as int),
        decreases h.len() - i,
    {
        proof {
            assert(r.deep_view().len() == i as int);
            assert(r@.len() == i);
        }
        let key = h[i].0.clone();
        let value = h[i].1.clone();
        proof {
            assert((key@, value@) == h.deep_view()[i as int]);
        }
        r.push((key, value));
        i = i + 1;
        proof {
            assert(r@.len() == i);
            assert forall|k: int| 0 <= k < i implies r.deep_view()[k] == h.deep_view().subrange(
                0,
                i as int,
            )[k] by {
                assert(r.deep_view()[k] == r@[k].deep_view());
                if k < i - 1 {
                    assert(r@[k].deep_view() == h.deep_view().subrange(0, i - 1)[k]);
                }
            }
            assert(r.deep_view() =~= h.deep_view().subrange(0, i as int));
        }
    }
    proof {
        assert(h.deep_view().subrange(0, h.len() as int) =~= h.deep_view());
    }
    r
}

impl RuleCore {
    /// An exact copy.
    pub fn duplicate(&self) -> (r: RuleCore)
        ensures
            r@ == self@,
    {
        RuleCore {
            endpoint: self.endpoint.duplicate(),
            headers: duplicate_headers(&self.headers),
            latency: self.latency,
            status: self.status,
            format: self.format.clone(),
            body: match &self.body {
                Some(b) => Some(b.clone()),
                None => None,
            },
        }
    }
}

/// One declared response scenario: an ordered list of compiled rules.
#[derive(Debug)]
pub struct ApiCore(pub Vec<RuleCore>);

impl View for ApiCore {
    type V = Seq<RuleModel>;

    open spec fn view(&self) -> Seq<RuleModel> {
        self.0.deep_view()
    }
}

impl DeepView for ApiCore {
    type V = Seq<RuleModel>;

    open spec fn deep_view(&self) -> Seq<RuleModel> {
        self@
    }
}

/// A named group of API scenarios sharing an optional advisory shape.
#[derive(Debug)]
pub struct ApiSetCore {
    pub name: String,
    pub shape: Option<Vec<EndpointCore>>,
    pub apis: Vec<ApiCore>,
}

impl View for ApiSetCore {
    type V = ApiSetModel;

    open spec fn view(&self) -> ApiSetModel {
        ApiSetModel {
            name: self.name@,
            shape: self.shape.deep_view(),
            apis: self.apis.deep_view(),
        }
    }
}

impl DeepView for ApiSetCore {
    type V = ApiSetModel;

    open spec fn deep_view(&self) -> ApiSetModel {
        self@
    }
}

/// A top-level named collection of API sets; an independent routing
/// namespace.
#[derive(Debug)]
pub struct SystemCore {
    pub name: String,
    pub api_sets: Vec<ApiSetCore>,
}

impl View for SystemCore {
    type V = SystemModel;

    open spec fn view(&self) -> SystemModel {
        SystemModel { name: self.name@, api_sets: self.api_sets.deep_view() }
    }
}

impl DeepView for SystemCore {
    type V = SystemModel;

    open spec fn deep_view(&self) -> SystemModel {
        self@
    }
}

/// A whole compiled configuration: one compiled system per declared system.
#[derive(Debug)]
pub struct ConfCore {
    pub systems: Vec<SystemCore>,
}

impl View for ConfCore {
    type V = ConfModel;

    open spec fn view(&self) -> ConfModel {
        ConfModel { systems: self.systems.deep_view() }
    }
}

impl DeepView for ConfCore {
    type V = ConfModel;

    open spec fn deep_view(&self) -> ConfModel {
        self@
    }
}

} // verus!
