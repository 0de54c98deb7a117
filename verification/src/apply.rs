//! The action applicator: applies an `Actions` value to a request or a
//! response in the fixed order abort, append, replace; the delay that a
//! matching rule may owe the exchange is left to the pipeline driver,
//! which reads it off the `Actions` value after a successful apply.

use vstd::prelude::*;
use crate::bytes::clone_bytes;
use crate::headers::{append_headers, pairs_view, set_headers, set_headers_all};
use crate::message::{Request, RequestView, Response, ResponseView};
use crate::rule::{Actions, ActionsView, AppendActionView, ReplaceActionView};
use crate::uri::{spec_append_queries, spec_replace_path, spec_replace_queries, append_queries,
    replace_path, replace_queries};

verus! {

/// Why an apply call did not return a mutated message: the rule asked for
/// the exchange to be aborted, or a rewrite step could not re-encode a
/// valid URI.
#[derive(Debug, Clone, PartialEq, Eq, Structural)]
pub enum ApplyError {
    Abort,
    InvalidUri,
}

/// The append step on a request: the query fragment is concatenated and
/// each appended header is added as a further occurrence.
pub open spec fn spec_apply_request_append(req: RequestView, ap: AppendActionView) -> Result<
    RequestView,
    ApplyError,
> {
    match spec_append_queries(req.uri, ap.queries) {
        Err(_) => Err(ApplyError::InvalidUri),
        Ok(u) => Ok(
            RequestView {
                uri: u,
                method: req.method,
                headers: match ap.headers {
                    Some(hs) => req.headers + hs,
                    None => req.headers,
                },
                body: req.body,
            },
        ),
    }
}

/// The replace step on a request, in order: path, method, body, queries,
/// headers. The path is replaced before the query merge so that the merge
/// reattaches to the path that then exists.
pub open spec fn spec_apply_request_replace(req: RequestView, rp: ReplaceActionView) -> Result<
    RequestView,
    ApplyError,
> {
    match spec_replace_path(req.uri, rp.path) {
        Err(_) => Err(ApplyError::InvalidUri),
        Ok(u1) => match spec_replace_queries(u1, rp.queries) {
            Err(_) => Err(ApplyError::InvalidUri),
            Ok(u2) => Ok(
                RequestView {
                    uri: u2,
                    method: match rp.method {
                        Some(m) => m,
                        None => req.method,
                    },
                    headers: match rp.headers {
                        Some(hs) => set_headers(req.headers, hs),
                        None => req.headers,
                    },
                    body: match rp.body {
                        Some(b) => b,
                        None => req.body,
                    },
                },
            ),
        },
    }
}

/// The whole request-side apply: abort short-circuits before anything else
/// is read; otherwise append runs, then replace.
pub open spec fn spec_apply_request_action(req: RequestView, a: ActionsView) -> Result<
    RequestView,
    ApplyError,
> {
    if a.abort {
        Err(ApplyError::Abort)
    } else {
        let appended = match a.append {
            Some(ap) => spec_apply_request_append(req, ap),
            None => Ok(req),
        };
        match appended {
            Err(e) => Err(e),
            Ok(r1) => match a.replace {
                Some(rp) => spec_apply_request_replace(r1, rp),
                None => Ok(r1),
            },
        }
    }
}

/// The whole response-side apply: abort short-circuits; append adds header
/// occurrences; replace overwrites status, body and headers, in that
/// order. A response has no URI, so this side never fails over one.
pub open spec fn spec_apply_response_action(resp: ResponseView, a: ActionsView) -> Result<
    ResponseView,
    ApplyError,
> {
    if a.abort {
        Err(ApplyError::Abort)
    } else {
        let h1 = match a.append {
            Some(ap) => match ap.headers {
                Some(hs) => resp.headers + hs,
                None => resp.headers,
            },
            None => resp.headers,
        };
        match a.replace {
            None => Ok(ResponseView { code: resp.code, headers: h1, body: resp.body }),
            Some(rp) => Ok(
                ResponseView {
                    code: match rp.code {
                        Some(c) => c,
                        None => resp.code,
                    },
                    headers: match rp.headers {
                        Some(hs) => set_headers(h1, hs),
                        None => h1,
                    },
                    body: match rp.body {
                        Some(b) => b,
                        None => resp.body,
                    },
                },
            ),
        }
    }
}

/// Applies `actions` to a request; returns the mutated request, or the
/// abort signal, or the rewrite failure. The caller owes the exchange the
/// delay named in `actions` after a successful apply.
pub fn apply_request_action(request: Request, actions: &Actions) -> (r: Result<
    Request,
    ApplyError,
>)
    requires
        request@.uri.wf(),
    ensures
        match r {
            Ok(req2) => spec_apply_request_action(request@, actions@) == Ok::<
                RequestView,
                ApplyError,
            >(req2@) && req2@.uri.wf(),
            Err(e) => spec_apply_request_action(request@, actions@) == Err::<
                RequestView,
                ApplyError,
            >(e),
        },
{
    if actions.abort {
        return Err(ApplyError::Abort);
    }
    let mut req = request;
    if let Some(append) = &actions.append {
        let qref: Option<&Vec<u8>> = match &append.queries {
            Some(q) => Some(q),
            None => None,
        };
        match append_queries(&mut req.uri, qref) {
            Ok(_) => {},
            Err(_) => {
                return Err(ApplyError::InvalidUri);
            },
        }
        if let Some(hdrs) = &append.headers {
            append_headers(&mut req.headers, hdrs);
        }
    }
    if let Some(replace) = &actions.replace {
        let pref: Option<&Vec<u8>> = match &replace.path {
            Some(p) => Some(p),
            None => None,
        };
        match replace_path(&mut req.uri, pref) {
            Ok(_) => {},
            Err(_) => {
                return Err(ApplyError::InvalidUri);
            },
        }
        if let Some(md) = &replace.method {
            req.method = clone_bytes(md);
        }
        if let Some(data) = &replace.body {
            req.body = clone_bytes(data);
        }
        let qref: Option<&Vec<(Vec<u8>, Vec<u8>)>> = match &replace.queries {
            Some(q) => Some(q),
            None => None,
        };
        match replace_queries(&mut req.uri, qref) {
            Ok(_) => {},
            Err(_) => {
                return Err(ApplyError::InvalidUri);
            },
        }
        if let Some(hdrs) = &replace.headers {
            set_headers_all(&mut req.headers, hdrs);
        }
    }
    Ok(req)
}

/// Applies `actions` to a response; the response-side counterpart of
/// `apply_request_action`.
pub fn apply_response_action(response: Response, actions: &Actions) -> (r: Result<
    Response,
    ApplyError,
>)
    ensures
        match r {
            Ok(resp2) => spec_apply_response_action(response@, actions@) == Ok::<
                ResponseView,
                ApplyError,
            >(resp2@),
            Err(e) => spec_apply_response_action(response@, actions@) == Err::<
                ResponseView,
                ApplyError,
            >(e),
        },
{
    if actions.abort {
        return Err(ApplyError::Abort);
    }
    let mut resp = response;
    if let Some(append) = &actions.append {
        if let Some(hdrs) = &append.headers {
            append_headers(&mut resp.headers, hdrs);
        }
    }
    if let Some(replace) = &actions.replace {
        if let Some(co) = &replace.code {
            resp.code = *co;
        }
        if let Some(data) = &replace.body {
            resp.body = clone_bytes(data);
        }
        if let Some(hdrs) = &replace.headers {
            set_headers_all(&mut resp.headers, hdrs);
        }
    }
    Ok(resp)
}

} // verus!
