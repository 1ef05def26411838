//! HTTP handler logic: health reporting, error bodies and a method/path
//! router.
use vstd::prelude::*;
use crate::registry::StrategyRegistry;
use crate::storage::ResultStore;
use crate::text::{string_views, text_le, sort_strings, all_ascii, ascii_upper};

verus! {

/// Version reported by the health endpoint.
pub const SERVICE_VERSION: &'static str = "0.1.0";

/// Body of the health endpoint.
#[derive(Debug, Clone)]
pub struct HealthResponse {
    pub status: String,
    pub version: String,
    pub uptime_ms: u64,
}

/// Error body with an HTTP status code.
#[derive(Debug, Clone)]
pub struct ApiError {
    pub code: u16,
    pub message: String,
}

impl ApiError {
    pub fn not_found(msg: &str) -> (r: Self)
        ensures
            r.code == 404,
            r.message@ == msg@,
    {
        Self { code: 404, message: msg.to_owned() }
    }

    pub fn bad_request(msg: &str) -> (r: Self)
        ensures
            r.code == 400,
            r.message@ == msg@,
    {
        Self { code: 400, message: msg.to_owned() }
    }

    pub fn internal(msg: &str) -> (r: Self)
        ensures
            r.code == 500,
            r.message@ == msg@,
    {
        Self { code: 500, message: msg.to_owned() }
    }
}

/// Uptime in milliseconds: the time since start, never negative.
pub open spec fn uptime_of(started_at_ms: i64, current_ts_ms: i64) -> int {
    if current_ts_ms - started_at_ms > 0 {
        current_ts_ms - started_at_ms
    } else {
        0
    }
}

pub fn handle_health(started_at_ms: i64, current_ts_ms: i64) -> (r: HealthResponse)
    requires
        i64::MIN <= current_ts_ms - started_at_ms <= i64::MAX,
    ensures
        r.status@ == "ok"@,
        r.version@ == SERVICE_VERSION@,
        r.uptime_ms == uptime_of(started_at_ms, current_ts_ms),
{
    let elapsed = current_ts_ms - started_at_ms;
    let uptime_ms: u64 = if elapsed > 0 {
        elapsed as u64
    } else {
        0
    };
    HealthResponse {
        status: String::from_str("ok"),
        version: String::from_str(SERVICE_VERSION),
        uptime_ms,
    }
}

/// The text of a not-found error for `what` named `id`: `what 'id' not found`.
pub open spec fn not_found_text(what: Seq<char>, id: Seq<char>) -> Seq<char> {
    what + " '"@ + id + "' not found"@
}

fn not_found_error(what: &str, id: &str) -> (r: ApiError)
    ensures
        r.code == 404,
        r.message@ == not_found_text(what@, id@),
{
    let mut msg = String::from_str(what);
    msg.append(" '");
    msg.append(id);
    msg.append("' not found");
    ApiError::not_found(msg.as_str())
}

/// The registered strategy ids, in code-point order.
pub fn handle_list_strategies<S, C>(registry: &StrategyRegistry<S, C>) -> (r: Vec<String>)
    ensures
        string_views(r@) == registry.ids().sort_by(|a: Seq<char>, b: Seq<char>| text_le(a, b)),
{
    let ids = registry.list();
    assert(string_views(ids@) =~= registry.ids());
    sort_strings(&ids)
}

/// The config of strategy `id`, or a not-found error naming it.
pub fn handle_get_strategy_config<'a, S, C>(registry: &'a StrategyRegistry<S, C>, id: &str) -> (r: Result<&'a C, ApiError>)
    requires
        registry.wf(),
    ensures
        match registry.entry(id@) {
            Some(e) => r == Ok::<&C, ApiError>(&e.config),
            None => r matches Err(err) && err.code == 404 && err.message@ == not_found_text("strategy"@, id@),
        },
{
    match registry.get_config(id) {
        Some(c) => Ok(c),
        None => Err(not_found_error("strategy", id)),
    }
}

/// The stored backtest result `id`, or a not-found error naming it.
pub fn handle_get_backtest_result<'a, R>(store: &'a ResultStore<R>, id: &str) -> (r: Result<&'a R, ApiError>)
    requires
        store.wf(),
    ensures
        match store.result(id@) {
            Some(x) => r matches Ok(y) && *y == x,
            None => r matches Err(err) && err.code == 404 && err.message@ == not_found_text("backtest result"@, id@),
        },
{
    match store.get(id) {
        Some(x) => Ok(x),
        None => Err(not_found_error("backtest result", id)),
    }
}

/// The stored backtest result ids, in code-point order.
pub fn handle_list_backtest_results<R>(store: &ResultStore<R>) -> (r: Vec<String>)
    ensures
        string_views(r@) == store.ids().sort_by(|a: Seq<char>, b: Seq<char>| text_le(a, b)),
{
    store.list_ids()
}

/// `str::to_uppercase`: the Unicode upper-case form of a text, which
/// depends on the text alone.
pub uninterp spec fn uppercase_of(s: Seq<char>) -> Seq<char>;

/// The method name a request is routed by: its upper-case form.
pub open spec fn routing_method(method: Seq<char>) -> Seq<char> {
    if all_ascii(method) {
        ascii_upper(method)
    } else {
        uppercase_of(method)
    }
}

/// `str::to_uppercase`; the result is named by `uppercase_of`. On an ASCII
/// text the Unicode upper-case mapping turns `a`..`z` into `A`..`Z` and
/// keeps every other character, as `char::to_ascii_uppercase` does.
#[verifier::external_body]
fn to_uppercase(s: &str) -> (r: String)
    ensures
        r@ == uppercase_of(s@),
        all_ascii(s@) ==> r@ == ascii_upper(s@),
{
    s.to_uppercase()
}

/// Routes `(method, path, handler)` tried in registration order.
pub struct HttpRouter<H> {
    pub routes: Vec<(String, String, H)>,
}

/// Route `i` answers `method` (already upper-cased) on `path`.
pub open spec fn route_matches<H>(routes: Seq<(String, String, H)>, i: int, method: Seq<char>, path: Seq<char>) -> bool {
    routes[i].0@ == method && routes[i].1@ == path
}

/// The first route answering `method` on `path`, or `-1`.
pub open spec fn first_route<H>(routes: Seq<(String, String, H)>, method: Seq<char>, path: Seq<char>) -> int {
    if exists|i: int| 0 <= i < routes.len() && route_matches(routes, i, method, path) {
        choose|i: int|
            0 <= i < routes.len() && route_matches(routes, i, method, path) && forall|j: int|
                0 <= j < i ==> !route_matches(routes, j, method, path)
    } else {
        -1
    }
}

/// Every handler accepts every body.
pub open spec fn handlers_total<H: Fn(&str) -> String>(routes: Seq<(String, String, H)>) -> bool {
    forall|i: int, b: &str| 0 <= i < routes.len() ==> #[trigger] routes[i].2.requires((b,))
}

impl<H: Fn(&str) -> String> HttpRouter<H> {
    pub fn new() -> (r: Self)
        ensures
            r.routes@.len() == 0,
    {
        Self { routes: Vec::new() }
    }

    pub fn get(self, path: &str, handler: H) -> (r: Self)
        ensures
            r.routes@.len() == self.routes@.len() + 1,
            r.routes@.drop_last() == self.routes@,
            r.routes@.last().0@ == "GET"@,
            r.routes@.last().1@ == path@,
            r.routes@.last().2 == handler,
    {
        let mut this = self;
        this.routes.push((String::from_str("GET"), path.to_owned(), handler));
        proof {
            assert(this.routes@.drop_last() =~= self.routes@);
        }
        this
    }

    pub fn post(self, path: &str, handler: H) -> (r: Self)
        ensures
            r.routes@.len() == self.routes@.len() + 1,
            r.routes@.drop_last() == self.routes@,
            r.routes@.last().0@ == "POST"@,
            r.routes@.last().1@ == path@,
            r.routes@.last().2 == handler,
    {
        let mut this = self;
        this.routes.push((String::from_str("POST"), path.to_owned(), handler));
        proof {
            assert(this.routes@.drop_last() =~= self.routes@);
        }
        this
    }

    /// Runs the handler of the first route for `method` (case-insensitive
    /// through upper-casing) and `path`; `None` when no route matches.
    pub fn dispatch(&self, method: &str, path: &str, body: &str) -> (r: Option<String>)
        requires
            handlers_total(self.routes@),
        ensures
            ({
                let i = first_route(self.routes@, routing_method(method@), path@);
                &&& (r is None <==> i == -1)
                &&& (r matches Some(out) ==> self.routes@[i].2.ensures((body,), out))
            }),
    {
        let method_up = to_uppercase(method);
        let path_owned = path.to_owned();
        let mut i: usize = 0;
        while i < self.routes.len()
            invariant
                0 <= i <= self.routes@.len(),
                handlers_total(self.routes@),
                method_up@ == routing_method(method@),
                path_owned@ == path@,
                forall|j: int| 0 <= j < i ==> !route_matches(self.routes@, j, method_up@, path@),
            decreases self.routes@.len() - i,
        {
            if self.routes[i].0 == method_up && self.routes[i].1 == path_owned {
                proof {
                    assert(route_matches(self.routes@, i as int, method_up@, path@));
                    let k = first_route(self.routes@, method_up@, path@);
                    assert(k == i as int) by {
                        if k < i {
                            assert(!route_matches(self.routes@, k, method_up@, path@));
                        }
                        if k > i {
                        }
                    }
                }
                let handler = &self.routes[i].2;
                proof {
                    assert(self.routes@[i as int].2.requires((body,)));
                }
                return Some(handler(body));
            }
            i = i + 1;
        }
        None
    }
}

/// Method names that differ only in the case of ASCII letters are routed
/// alike: with `get` and `GET`, the same route (or none) answers.
pub proof fn lemma_method_case_ignored<H>(
    routes: Seq<(String, String, H)>,
    m1: Seq<char>,
    m2: Seq<char>,
    path: Seq<char>,
)
    requires
        all_ascii(m1),
        all_ascii(m2),
        ascii_upper(m1) == ascii_upper(m2),
    ensures
        first_route(routes, routing_method(m1), path) == first_route(routes, routing_method(m2), path),
{
}

} // verus!
