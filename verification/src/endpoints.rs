//! The quantd HTTP API's endpoints, as the terminal client addresses them.
use vstd::prelude::*;
use crate::text::{trim_end, trim_end_char};

verus! {

/// The URLs of the quantd API under one base URL.
#[derive(Debug, Clone)]
pub struct QuantdEndpoints {
    base_url: String,
}

impl QuantdEndpoints {
    /// The base URL, without trailing slashes.
    pub closed spec fn base(&self) -> Seq<char> {
        self.base_url@
    }

    pub fn new(base_url: &str) -> (r: Self)
        ensures
            r.base() == trim_end(base_url@, '/'),
    {
        Self { base_url: trim_end_char(base_url, '/').to_owned() }
    }

    /// The base URL.
    pub fn base_url(&self) -> (r: &str)
        ensures
            r@ == self.base(),
    {
        self.base_url.as_str()
    }

    /// The base URL followed by `path`.
    fn at(&self, path: &str) -> (r: String)
        ensures
            r@ == self.base() + path@,
    {
        let mut out = self.base_url.clone();
        out.append(path);
        out
    }

    /// Where orders are submitted.
    pub fn submit_order_url(&self) -> (r: String)
        ensures
            r@ == self.base() + "/v1/orders"@,
    {
        self.at("/v1/orders")
    }

    /// Where an order is cancelled.
    pub fn cancel_order_url(&self, order_id: &str) -> (r: String)
        ensures
            r@ == self.base() + "/v1/orders/"@ + order_id@ + "/cancel"@,
    {
        let mut r = self.at("/v1/orders/");
        r.append(order_id);
        r.append("/cancel");
        r
    }

    /// Where an order is amended.
    pub fn amend_order_url(&self, order_id: &str) -> (r: String)
        ensures
            r@ == self.base() + "/v1/orders/"@ + order_id@ + "/amend"@,
    {
        let mut r = self.at("/v1/orders/");
        r.append(order_id);
        r.append("/amend");
        r
    }

    /// Where an account's terminal overview is read.
    pub fn overview_url(&self, account_id: &str) -> (r: String)
        ensures
            r@ == self.base() + "/v1/terminal/overview?account_id="@ + account_id@,
    {
        let mut r = self.at("/v1/terminal/overview?account_id=");
        r.append(account_id);
        r
    }

    /// Where a symbol's quote is read.
    pub fn quote_url(&self, symbol: &str) -> (r: String)
        ensures
            r@ == self.base() + "/v1/quotes/"@ + symbol@,
    {
        let mut r = self.at("/v1/quotes/");
        r.append(symbol);
        r
    }

    /// Where an account's orders are listed.
    pub fn orders_url(&self, account_id: &str) -> (r: String)
        ensures
            r@ == self.base() + "/v1/orders?account_id="@ + account_id@,
    {
        let mut r = self.at("/v1/orders?account_id=");
        r.append(account_id);
        r
    }
}

} // verus!
