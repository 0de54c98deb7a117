//! The rule model: a matching condition (`Selector`) plus a set of mutation
//! directives (`Actions`), grouped into a `Rule` tagged by `Target`.
//!
//! Header names and values, methods and paths are carried as plain bytes.
//! Header lists are ordered multimaps: a name may occur several times.
//! Delays are carried in nanoseconds; the caller that drives the pipeline
//! performs the actual suspension.

use vstd::prelude::*;
use crate::headers::pairs_view;

verus! {

/// Which side of an HTTP exchange a rule applies to.
#[derive(Debug, Clone, PartialEq, Eq, Structural)]
pub enum Target {
    Request,
    Response,
}

/// Conjunctive match predicate; an absent field always matches.
#[derive(Debug, Clone)]
pub struct Selector {
    /// Exact match against the intercepted connection's local port.
    pub port: Option<u16>,
    /// Prefix match against the request path (query string excluded).
    pub path: Option<Vec<u8>>,
    /// Exact match against the HTTP method.
    pub method: Option<Vec<u8>>,
    /// For each `(name, value)`, some occurrence of `name` on the request
    /// must carry exactly `value`.
    pub headers: Option<Vec<(Vec<u8>, Vec<u8>)>>,
    /// Exact match against the response status code (response side only).
    pub code: Option<u16>,
    /// Same any-occurrence semantics as `headers`, against response headers.
    pub response_headers: Option<Vec<(Vec<u8>, Vec<u8>)>>,
}

/// Additive mutation: a raw pre-encoded query fragment to concatenate, and
/// header occurrences to add without overwriting existing values.
#[derive(Debug, Clone)]
pub struct AppendAction {
    pub queries: Option<Vec<u8>>,
    pub headers: Option<Vec<(Vec<u8>, Vec<u8>)>>,
}

/// Overriding mutation; every field is optional and independent.
#[derive(Debug, Clone)]
pub struct ReplaceAction {
    pub path: Option<Vec<u8>>,
    pub method: Option<Vec<u8>>,
    pub body: Option<Vec<u8>>,
    /// Response side only.
    pub code: Option<u16>,
    /// Each key listed here replaces all prior occurrences of that key;
    /// keys and values are decoded bytes.
    pub queries: Option<Vec<(Vec<u8>, Vec<u8>)>>,
    /// Each entry overwrites all prior values for that header name.
    pub headers: Option<Vec<(Vec<u8>, Vec<u8>)>>,
}

/// Ordered set of mutation directives. `abort` takes precedence over every
/// other field; when it is set the others are never consulted.
#[derive(Debug, Clone)]
pub struct Actions {
    pub abort: bool,
    /// Suspension the pipeline owes this exchange, in nanoseconds, applied
    /// after the other mutations.
    pub delay: Option<u64>,
    pub append: Option<AppendAction>,
    pub replace: Option<ReplaceAction>,
}

/// One configured rule, immutable after load.
#[derive(Debug, Clone)]
pub struct Rule {
    pub target: Target,
    pub selector: Selector,
    pub actions: Actions,
}

/// Mathematical model of a `Selector`.
pub struct SelectorView {
    pub port: Option<u16>,
    pub path: Option<Seq<u8>>,
    pub method: Option<Seq<u8>>,
    pub headers: Option<Seq<(Seq<u8>, Seq<u8>)>>,
    pub code: Option<u16>,
    pub response_headers: Option<Seq<(Seq<u8>, Seq<u8>)>>,
}

/// Mathematical model of an `AppendAction`.
pub struct AppendActionView {
    pub queries: Option<Seq<u8>>,
    pub headers: Option<Seq<(Seq<u8>, Seq<u8>)>>,
}

/// Mathematical model of a `ReplaceAction`.
pub struct ReplaceActionView {
    pub path: Option<Seq<u8>>,
    pub method: Option<Seq<u8>>,
    pub body: Option<Seq<u8>>,
    pub code: Option<u16>,
    pub queries: Option<Seq<(Seq<u8>, Seq<u8>)>>,
    pub headers: Option<Seq<(Seq<u8>, Seq<u8>)>>,
}

/// Mathematical model of an `Actions` value.
pub struct ActionsView {
    pub abort: bool,
    pub delay: Option<u64>,
    pub append: Option<AppendActionView>,
    pub replace: Option<ReplaceActionView>,
}

impl View for Selector {
    type V = SelectorView;

    open spec fn view(&self) -> SelectorView {
        SelectorView {
            port: self.port,
            path: match self.path {
                Some(p) => Some(p@),
                None => None,
            },
            method: match self.method {
                Some(m) => Some(m@),
                None => None,
            },
            headers: match self.headers {
                Some(h) => Some(pairs_view(h@)),
                None => None,
            },
            code: self.code,
            response_headers: match self.response_headers {
                Some(h) => Some(pairs_view(h@)),
                None => None,
            },
        }
    }
}

impl View for AppendAction {
    type V = AppendActionView;

    open spec fn view(&self) -> AppendActionView {
        AppendActionView {
            queries: match self.queries {
                Some(q) => Some(q@),
                None => None,
            },
            headers: match self.headers {
                Some(h) => Some(pairs_view(h@)),
                None => None,
            },
        }
    }
}

impl View for ReplaceAction {
    type V = ReplaceActionView;

    open spec fn view(&self) -> ReplaceActionView {
        ReplaceActionView {
            path: match self.path {
                Some(p) => Some(p@),
                None => None,
            },
            method: match self.method {
                Some(m) => Some(m@),
                None => None,
            },
            body: match self.body {
                Some(b) => Some(b@),
                None => None,
            },
            code: self.code,
            queries: match self.queries {
                Some(q) => Some(pairs_view(q@)),
                None => None,
            },
            headers: match self.headers {
                Some(h) => Some(pairs_view(h@)),
                None => None,
            },
        }
    }
}

impl View for Actions {
    type V = ActionsView;

    open spec fn view(&self) -> ActionsView {
        ActionsView {
            abort: self.abort,
            delay: self.delay,
            append: match self.append {
                Some(a) => Some(a@),
                None => None,
            },
            replace: match self.replace {
                Some(r) => Some(r@),
                None => None,
            },
        }
    }
}

/// Which on-disk format a configuration file's extension names.
#[derive(Debug, Clone, PartialEq, Eq, Structural)]
pub enum ConfigFormat {
    Json,
    Yaml,
}

/// The format a file extension selects: exactly `json` and `yaml` are
/// accepted, anything else is refused.
pub fn config_format(ext: Option<&Vec<u8>>) -> (r: Option<ConfigFormat>)
    ensures
        r == (match ext {
            Some(e) => if e@ == seq![0x6au8, 0x73u8, 0x6fu8, 0x6eu8] {
                Some(ConfigFormat::Json)
            } else if e@ == seq![0x79u8, 0x61u8, 0x6du8, 0x6cu8] {
                Some(ConfigFormat::Yaml)
            } else {
                None::<ConfigFormat>
            },
            None => None::<ConfigFormat>,
        }),
{
    let e: &Vec<u8> = match ext {
        Some(e) => e,
        None => {
            return None;
        },
    };
    let mut json: Vec<u8> = Vec::new();
    json.push(0x6a);
    json.push(0x73);
    json.push(0x6f);
    json.push(0x6e);
    proof {
        assert(json@ =~= seq![0x6au8, 0x73u8, 0x6fu8, 0x6eu8]);
    }
    if crate::bytes::bytes_eq(e, &json) {
        return Some(ConfigFormat::Json);
    }
    let mut yaml: Vec<u8> = Vec::new();
    yaml.push(0x79);
    yaml.push(0x61);
    yaml.push(0x6d);
    yaml.push(0x6c);
    proof {
        assert(yaml@ =~= seq![0x79u8, 0x61u8, 0x6du8, 0x6cu8]);
    }
    if crate::bytes::bytes_eq(e, &yaml) {
        return Some(ConfigFormat::Yaml);
    }
    None
}

impl Selector {
    /// A selector with every field absent; it matches everything.
    pub fn all_absent() -> (r: Selector)
        ensures
            r@.port is None,
            r@.path is None,
            r@.method is None,
            r@.headers is None,
            r@.code is None,
            r@.response_headers is None,
    {
        Selector {
            port: None,
            path: None,
            method: None,
            headers: None,
            code: None,
            response_headers: None,
        }
    }
}

} // verus!
