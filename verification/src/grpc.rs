//! Request and response shapes of the strategy services, and how their text
//! fields are read.
use vstd::prelude::*;
use std::sync::Arc;
use crate::metrics::{MetricsRegistry, StrategyMetrics};
use crate::types::{InstrumentId, Venue, Side};
use crate::text::{all_ascii, ascii_lower};

verus! {

/// Answer to a strategy registration.
#[derive(Debug, Clone)]
pub struct RegisterStrategyResponse {
    pub success: bool,
    pub message: String,
}

/// Answer to an order submission.
#[derive(Debug, Clone)]
pub struct SubmitOrderResponse {
    pub order_id: u64,
    pub status: String,
}

/// Request for one strategy's metrics.
#[derive(Debug, Clone)]
pub struct GetMetricsRequest {
    pub strategy_id: String,
}

/// Position of the first `:` at or after `from`, or `-1`.
pub open spec fn colon_from(s: Seq<char>, from: int) -> int
    decreases s.len() - from,
{
    if from < 0 || from >= s.len() {
        -1
    } else if s[from] == ':' {
        from
    } else {
        colon_from(s, from + 1)
    }
}

/// The symbol an instrument field names: what follows its first `:`
/// (`venue:symbol`), or the whole field.
pub open spec fn request_symbol(s: Seq<char>) -> Seq<char> {
    let i = colon_from(s, 0);
    if i < 0 {
        s
    } else {
        s.subrange(i + 1, s.len() as int)
    }
}

/// The instrument a request names; requests always trade on the crypto
/// venue.
pub fn request_instrument(field: &str) -> (r: InstrumentId)
    ensures
        r.venue == Venue::Crypto,
        r.symbol@ == request_symbol(field@),
{
    let n = field.unicode_len();
    let mut i: usize = 0;
    while i < n
        invariant
            n == field@.len(),
            0 <= i <= n,
            colon_from(field@, 0) == colon_from(field@, i as int),
        decreases n - i,
    {
        if field.get_char(i) == ':' {
            let symbol = field.substring_char(i + 1, n);
            return InstrumentId::new(Venue::Crypto, symbol);
        }
        i = i + 1;
    }
    InstrumentId::new(Venue::Crypto, field)
}

/// `str::to_lowercase`: the Unicode lower-case form of a text, which depends
/// on the text alone.
pub uninterp spec fn lowercase_of(s: Seq<char>) -> Seq<char>;

/// The lower-case form a side field is compared by.
pub open spec fn side_text(field: Seq<char>) -> Seq<char> {
    if all_ascii(field) {
        ascii_lower(field)
    } else {
        lowercase_of(field)
    }
}

/// `str::to_lowercase`; the result is named by `lowercase_of`. On an ASCII
/// text the Unicode lower-case mapping turns `A`..`Z` into `a`..`z` and
/// keeps every other character, as `char::to_ascii_lowercase` does.
#[verifier::external_body]
fn to_lowercase(s: &str) -> (r: String)
    ensures
        r@ == lowercase_of(s@),
        all_ascii(s@) ==> r@ == ascii_lower(s@),
{
    s.to_lowercase()
}

/// The side a request's side field names: buy when it reads `buy` in any
/// case, sell otherwise.
pub fn request_side(field: &str) -> (r: Side)
    ensures
        r == (if side_text(field@) == "buy"@ {
            Side::Buy
        } else {
            Side::Sell
        }),
{
    let lower = to_lowercase(field);
    let buy = String::from_str("buy");
    if lower == buy {
        Side::Buy
    } else {
        Side::Sell
    }
}

/// Serves the metrics a registry holds.
pub struct MetricsService {
    registry: Arc<MetricsRegistry>,
}

impl MetricsService {
    /// The registry served.
    pub closed spec fn registry(&self) -> MetricsRegistry {
        *self.registry
    }

    pub fn new(registry: Arc<MetricsRegistry>) -> (r: Self)
        ensures
            r.registry() == *registry,
    {
        Self { registry }
    }

    /// The metrics of the requested strategy, if it has any.
    pub fn metrics_for(&self, req: &GetMetricsRequest) -> (r: Option<StrategyMetrics>)
        requires
            self.registry().wf(),
        ensures
            r == if self.registry()@.contains_key(req.strategy_id@) {
                Some(self.registry()@[req.strategy_id@])
            } else {
                None
            },
    {
        self.registry.snapshot(req.strategy_id.as_str())
    }
}

} // verus!
