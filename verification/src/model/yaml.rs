//! Declarative input model: the already-deserialized configuration
//! structures the compiler consumes. The surrounding process parses the
//! configuration documents and hands these plain values in.

use vstd::prelude::*;
use crate::model::compiled::{unique_keys, LatencyCore};

verus! {

// ---------------------------------------------------------------------------
// Mathematical models
// ---------------------------------------------------------------------------

/// Model of a declared response payload: by-reference (the name of a shared
/// response-data fragment) or inline (status, optional body, optional
/// format).
#[verifier::ext_equal]
pub enum ResponseModel {
    File(Seq<char>),
    Inline(u16, Option<Seq<char>>, Option<Seq<char>>),
}

/// Model of one declared rule.
#[verifier::ext_equal]
pub struct RuleYamlModel {
    pub matches: Seq<char>,
    pub headers: Option<Seq<(Seq<char>, Seq<char>)>>,
    pub latency: Option<LatencyCore>,
    pub response: ResponseModel,
}

impl RuleYamlModel {
    /// A declared rule's headers, when given, form a mapping.
    pub open spec fn wf(self) -> bool {
        match self.headers {
            Some(h) => unique_keys(h),
            None => true,
        }
    }
}

/// Model of one declared API scenario.
#[verifier::ext_equal]
pub struct ApiYamlModel {
    pub name: Seq<char>,
    pub headers: Seq<(Seq<char>, Seq<char>)>,
    pub latency: Option<LatencyCore>,
    pub rules: Seq<RuleYamlModel>,
}

impl ApiYamlModel {
    /// Declared headers form a mapping; so do every rule's overrides.
    pub open spec fn wf(self) -> bool {
        unique_keys(self.headers)
            && forall|i: int| 0 <= i < self.rules.len() ==> (#[trigger] self.rules[i]).wf()
    }
}

/// Model of one declared API shape.
#[verifier::ext_equal]
pub struct ApiShapeYamlModel {
    pub name: Seq<char>,
    pub shape: Seq<Seq<char>>,
}

/// Model of one shared response-data fragment.
#[verifier::ext_equal]
pub struct ResponseDataModel {
    pub status: u16,
    pub data: Option<Seq<char>>,
    pub format: Option<Seq<char>>,
}

/// Model of one declared system.
#[verifier::ext_equal]
pub struct SystemFolderModel {
    pub name: Seq<char>,
    pub shapes: Seq<ApiShapeYamlModel>,
    pub apis: Seq<ApiYamlModel>,
    pub data: Seq<(Seq<char>, ResponseDataModel)>,
}

impl SystemFolderModel {
    pub open spec fn wf(self) -> bool {
        forall|i: int| 0 <= i < self.apis.len() ==> (#[trigger] self.apis[i]).wf()
    }
}

/// Model of a whole declared configuration.
#[verifier::ext_equal]
pub struct ConfFolderModel {
    pub systems: Seq<SystemFolderModel>,
}

impl ConfFolderModel {
    pub open spec fn wf(self) -> bool {
        forall|i: int| 0 <= i < self.systems.len() ==> (#[trigger] self.systems[i]).wf()
    }
}

// ---------------------------------------------------------------------------
// Exec value types
// ---------------------------------------------------------------------------

/// Simulated latency as declared in the configuration.
#[derive(Debug, Clone, Copy, PartialEq, Eq, Structural)]
pub enum LatencyYaml {
    Constant(u32),
}

impl LatencyYaml {
    /// The compiled form of a declared latency.
    pub open spec fn to_core_spec(self) -> LatencyCore {
        match self {
            LatencyYaml::Constant(v) => LatencyCore::Constant(v),
        }
    }

    /// Compiles the declared latency.
    pub fn to_core(self) -> (r: LatencyCore)
        ensures
            r == self.to_core_spec(),
    {
        match self {
            LatencyYaml::Constant(v) => LatencyCore::Constant(v),
        }
    }
}

/// The compiled form of an optional declared latency.
pub open spec fn latency_model(l: Option<LatencyYaml>) -> Option<LatencyCore> {
    match l {
        Some(x) => Some(x.to_core_spec()),
        None => None,
    }
}

/// A declared response payload: a reference to a shared response-data
/// fragment, or an inline (status, optional body, optional format) triple.
#[derive(Debug)]
pub enum Response {
    File(String),
    Inline(u16, Option<String>, Option<String>),
}

impl View for Response {
    type V = ResponseModel;

    open spec fn view(&self) -> ResponseModel {
        match self {
            Response::File(name) => ResponseModel::File(name@),
            Response::Inline(status, body, format) => ResponseModel::Inline(
                *status,
                body.deep_view(),
                format.deep_view(),
            ),
        }
    }
}

impl DeepView for Response {
    type V = ResponseModel;

    open spec fn deep_view(&self) -> ResponseModel {
        self@
    }
}

/// One declared rule: the `"METHOD /path"` string it matches, optional
/// header and latency overrides, and its response payload.
#[derive(Debug)]
pub struct RuleYaml {
    pub matches: String,
    pub headers: Option<Vec<(String, String)>>,
    pub latency: Option<LatencyYaml>,
    pub response: Response,
}

impl View for RuleYaml {
    type V = RuleYamlModel;

    open spec fn view(&self) -> RuleYamlModel {
        RuleYamlModel {
            matches: self.matches@,
            headers: match self.headers {
                Some(ref h) => Some(h.deep_view()),
                None => None,
            },
            latency: latency_model(self.latency),
            response: self.response@,
        }
    }
}

impl DeepView for RuleYaml {
    type V = RuleYamlModel;

    open spec fn deep_view(&self) -> RuleYamlModel {
        self@
    }
}

/// One declared API scenario: default headers and latency for its rules.
#[derive(Debug)]
pub struct ApiYaml {
    pub name: String,
    pub headers: Vec<(String, String)>,
    pub latency: Option<LatencyYaml>,
    pub rules: Vec<RuleYaml>,
}

impl View for ApiYaml {
    type V = ApiYamlModel;

    open spec fn view(&self) -> ApiYamlModel {
        ApiYamlModel {
            name: self.name@,
            headers: self.headers.deep_view(),
            latency: latency_model(self.latency),
            rules: self.rules.deep_view(),
        }
    }
}

impl DeepView for ApiYaml {
    type V = ApiYamlModel;

    open spec fn deep_view(&self) -> ApiYamlModel {
        self@
    }
}

/// One declared API shape: the advisory contract of the like-named API set.
#[derive(Debug)]
pub struct ApiShapeYaml {
    pub name: String,
    pub shape: Vec<String>,
}

impl View for ApiShapeYaml {
    type V = ApiShapeYamlModel;

    open spec fn view(&self) -> ApiShapeYamlModel {
        ApiShapeYamlModel { name: self.name@, shape: self.shape.deep_view() }
    }
}

impl DeepView for ApiShapeYaml {
    type V = ApiShapeYamlModel;

    open spec fn deep_view(&self) -> ApiShapeYamlModel {
        self@
    }
}

/// One shared response-data fragment.
#[derive(Debug)]
pub struct ResponseDataYaml {
    pub status: u16,
    pub data: Option<String>,
    pub format: Option<String>,
}

impl View for ResponseDataYaml {
    type V = ResponseDataModel;

    open spec fn view(&self) -> ResponseDataModel {
        ResponseDataModel {
            status: self.status,
            data: self.data.deep_view(),
            format: self.format.deep_view(),
        }
    }
}

impl DeepView for ResponseDataYaml {
    type V = ResponseDataModel;

    open spec fn deep_view(&self) -> ResponseDataModel {
        self@
    }
}

/// One declared system: its shapes, its API declarations and its shared
/// response-data fragments.
#[derive(Debug)]
pub struct SystemFolder {
    pub name: String,
    pub shapes: Vec<ApiShapeYaml>,
    pub apis: Vec<ApiYaml>,
    pub data: Vec<(String, ResponseDataYaml)>,
}

impl View for SystemFolder {
    type V = SystemFolderModel;

    open spec fn view(&self) -> SystemFolderModel {
        SystemFolderModel {
            name: self.name@,
            shapes: self.shapes.deep_view(),
            apis: self.apis.deep_view(),
            data: self.data.deep_view(),
        }
    }
}

impl DeepView for SystemFolder {
    type V = SystemFolderModel;

    open spec fn deep_view(&self) -> SystemFolderModel {
        self@
    }
}

/// A whole declared configuration, one entry per system.
#[derive(Debug)]
pub struct ConfFolder {
    pub systems: Vec<SystemFolder>,
}

impl View for ConfFolder {
    type V = ConfFolderModel;

    open spec fn view(&self) -> ConfFolderModel {
        ConfFolderModel { systems: self.systems.deep_view() }
    }
}

impl DeepView for ConfFolder {
    type V = ConfFolderModel;

    open spec fn deep_view(&self) -> ConfFolderModel {
        self@
    }
}

} // verus!
