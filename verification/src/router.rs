//! The router: an ordered list of exact method/path rules, each bound to a
//! handler, dispatching a request to the first rule that matches it.

use crate::common::{
    HttpError, HttpMethod, HttpRequest, HttpResponse, HttpStatus, HttpVersion, ResponseView,
};
use crate::headers::HttpHeaders;
use vstd::prelude::*;

verus! {

/// The capability of answering requests: the one extension point that
/// surrounding code implements to plug logic into the server.
pub trait Handler {
    /// Whether this handler may be invoked; dispatching demands it.
    spec fn ready(&self) -> bool;

    /// What this handler promises of its answers.
    spec fn post(&self, req: &HttpRequest, r: Result<HttpResponse, HttpError>) -> bool;

    /// Answers `req`, or reports that this exchange cannot be answered.
    fn handle(&self, req: &HttpRequest) -> (r: Result<HttpResponse, HttpError>)
        requires
            self.ready(),
        ensures
            self.post(req, r),
    ;
}

/// A leaf handler wrapping a plain function or closure from a request to a
/// response or a protocol failure.
pub struct FnHandler<F: Fn(&HttpRequest) -> Result<HttpResponse, HttpError>> {
    pub f: F,
}

impl<F: Fn(&HttpRequest) -> Result<HttpResponse, HttpError>> FnHandler<F> {
    /// Wraps `f` as a handler. The contract restates readiness and the
    /// answer guarantee in terms of `f`, so that callers holding a closure
    /// need not unfold the trait's spec functions.
    pub fn new(f: F) -> (h: FnHandler<F>)
        ensures
            h.f == f,
            (forall|rq: &HttpRequest| call_requires(f, (rq,))) ==> h.ready(),
            forall|req: &HttpRequest, r: Result<HttpResponse, HttpError>|
                #[trigger] h.post(req, r) ==> call_ensures(f, (req,), r),
    {
        FnHandler { f }
    }
}

impl<F: Fn(&HttpRequest) -> Result<HttpResponse, HttpError>> Handler for FnHandler<F> {
    /// Ready when the function accepts every request.
    open spec fn ready(&self) -> bool {
        forall|rq: &HttpRequest| call_requires(self.f, (rq,))
    }

    /// Answers exactly as the wrapped function does.
    open spec fn post(&self, req: &HttpRequest, r: Result<HttpResponse, HttpError>) -> bool {
        call_ensures(self.f, (req,), r)
    }

    fn handle(&self, req: &HttpRequest) -> Result<HttpResponse, HttpError> {
        (self.f)(req)
    }
}

/// One routing rule: a method and an exact path, bound to a handler.
pub struct Rule<H> {
    pub method: HttpMethod,
    pub path: String,
    pub handler: H,
}

/// Every rule's handler is ready.
pub open spec fn handlers_ready<H: Handler>(rules: Seq<Rule<H>>) -> bool {
    forall|i: int| 0 <= i < rules.len() ==> (#[trigger] rules[i].handler).ready()
}

/// `i` is the first rule that matches method `m` and path `p` exactly.
pub open spec fn rule_first_at<H>(rules: Seq<Rule<H>>, m: HttpMethod, p: Seq<char>, i: int) -> bool {
    &&& 0 <= i < rules.len()
    &&& rules[i].method == m
    &&& rules[i].path@ == p
    &&& forall|j: int| 0 <= j < i ==> !(rules[j].method == m && rules[j].path@ == p)
}

/// There is at most one first matching rule.
pub proof fn lemma_rule_first_unique<H>(
    rules: Seq<Rule<H>>,
    m: HttpMethod,
    p: Seq<char>,
    i: int,
    j: int,
)
    requires
        rule_first_at(rules, m, p, i),
        rule_first_at(rules, m, p, j),
    ensures
        i == j,
{
    if i < j {
        assert(!(rules[i].method == m && rules[i].path@ == p));
    }
    if j < i {
        assert(!(rules[j].method == m && rules[j].path@ == p));
    }
}

/// The first rule that matches, if any.
pub open spec fn spec_first_match<H>(rules: Seq<Rule<H>>, m: HttpMethod, p: Seq<char>) -> Option<
    int,
> {
    if exists|i: int| rule_first_at(rules, m, p, i) {
        Some(choose|i: int| rule_first_at(rules, m, p, i))
    } else {
        None
    }
}

/// The response synthesized when no rule matches: the inbound request's
/// version, status NotFound, no headers, no body.
pub open spec fn not_found_view(v: HttpVersion) -> ResponseView {
    ResponseView {
        version: v,
        status: HttpStatus::NotFound,
        headers: Seq::empty(),
        body: Seq::empty(),
    }
}

/// What dispatching promises: the first matching rule's handler answered,
/// or, with no match, the synthesized NotFound response.
pub open spec fn dispatch_post<H: Handler>(
    rules: Seq<Rule<H>>,
    req: &HttpRequest,
    r: Result<HttpResponse, HttpError>,
) -> bool {
    match spec_first_match(rules, req.method, req.path@) {
        Option::Some(i) => rules[i].handler.post(req, r),
        Option::None => r matches Ok(resp) && resp@ == not_found_view(req.version),
    }
}

/// An ordered collection of routing rules; itself a handler, so routers
/// compose.
pub struct Router<H> {
    pub rules: Vec<Rule<H>>,
}

impl<H: Handler> Router<H> {
    /// A router with no rules, which answers everything with NotFound.
    pub fn new() -> (r: Router<H>)
        ensures
            r.rules@ =~= Seq::<Rule<H>>::empty(),
    {
        Router { rules: Vec::new() }
    }

    /// Appends a rule; rules added earlier keep priority.
    pub fn add(&mut self, method: HttpMethod, path: String, handler: H)
        ensures
            final(self).rules@ == old(self).rules@.push(
                Rule { method: method, path: path, handler: handler },
            ),
    {
        self.rules.push(Rule { method, path, handler });
    }

    /// Dispatches `req`: the first rule whose method and path equal the
    /// request's, scanned in insertion order, answers it; with no match the
    /// NotFound response is synthesized.
    pub fn handle(&self, req: &HttpRequest) -> (r: Result<HttpResponse, HttpError>)
        requires
            handlers_ready(self.rules@),
        ensures
            dispatch_post(self.rules@, req, r),
    {
        let ghost m = req.method;
        let ghost p = req.path@;
        let mut i: usize = 0;
        while i < self.rules.len()
            invariant
                handlers_ready(self.rules@),
                m == req.method,
                p == req.path@,
                0 <= i <= self.rules@.len(),
                forall|j: int|
                    0 <= j < i ==> !(self.rules@[j].method == m && self.rules@[j].path@ == p),
            decreases self.rules@.len() - i,
        {
            if req.method == self.rules[i].method && req.path == self.rules[i].path {
                proof {
                    assert(rule_first_at(self.rules@, m, p, i as int));
                    lemma_rule_first_unique(
                        self.rules@,
                        m,
                        p,
                        i as int,
                        choose|j: int| rule_first_at(self.rules@, m, p, j),
                    );
                }
                return self.rules[i].handler.handle(req);
            }
            i = i + 1;
        }
        proof {
            if exists|j: int| rule_first_at(self.rules@, m, p, j) {
                let j = choose|j: int| rule_first_at(self.rules@, m, p, j);
                assert(!(self.rules@[j].method == m && self.rules@[j].path@ == p));
            }
        }
        let resp = HttpResponse {
            version: req.version,
            status: HttpStatus::NotFound,
            headers: HttpHeaders::new(),
            body: Vec::new(),
        };
        proof {
            assert(resp@ =~= not_found_view(req.version));
        }
        Ok(resp)
    }
}

impl<H: Handler> Handler for Router<H> {
    /// A router is ready when every registered handler is.
    open spec fn ready(&self) -> bool {
        handlers_ready(self.rules@)
    }

    /// A router answers as its dispatch contract says.
    open spec fn post(&self, req: &HttpRequest, r: Result<HttpResponse, HttpError>) -> bool {
        dispatch_post(self.rules@, req, r)
    }

    fn handle(&self, req: &HttpRequest) -> Result<HttpResponse, HttpError> {
        Router::handle(self, req)
    }
}

} // verus!
