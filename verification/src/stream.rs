//! Client settings for the quantd event stream.
use vstd::prelude::*;
use crate::text::{has_prefix, trim_end, starts_with, trim_end_char, skip_chars};

verus! {

/// The stream endpoint for a service base URL: trailing slashes are dropped,
/// `http://` becomes `ws://`, `https://` becomes `wss://`, and `/v1/stream`
/// is appended.
pub open spec fn stream_url_for(base_url: Seq<char>) -> Seq<char> {
    let base = trim_end(base_url, '/');
    if has_prefix(base, "http://"@) {
        "ws://"@ + base.skip(7) + "/v1/stream"@
    } else if has_prefix(base, "https://"@) {
        "wss://"@ + base.skip(8) + "/v1/stream"@
    } else {
        base + "/v1/stream"@
    }
}

/// Where and how to open the quantd event stream.
#[derive(Debug, Clone)]
pub struct QuantdStreamClient {
    stream_url: String,
    api_key: Option<String>,
}

impl QuantdStreamClient {
    /// The stream URL.
    pub closed spec fn url(&self) -> Seq<char> {
        self.stream_url@
    }

    /// The bearer key sent when connecting.
    pub closed spec fn key(&self) -> Option<String> {
        self.api_key
    }

    pub fn new(base_url: &str, api_key: Option<String>) -> (r: Self)
        ensures
            r.url() == stream_url_for(base_url@),
            r.key() == api_key,
    {
        proof {
            reveal_strlit("http://");
            reveal_strlit("https://");
            reveal_strlit("ws://");
            reveal_strlit("wss://");
            reveal_strlit("/v1/stream");
        }
        let base = trim_end_char(base_url, '/');
        let mut url;
        if starts_with(base, "http://") {
            url = String::from_str("ws://");
            url.append(skip_chars(base, 7));
        } else if starts_with(base, "https://") {
            url = String::from_str("wss://");
            url.append(skip_chars(base, 8));
        } else {
            url = String::from_str(base);
        }
        url.append("/v1/stream");
        Self { stream_url: url, api_key }
    }

    /// The stream URL.
    pub fn stream_url(&self) -> (r: &str)
        ensures
            r@ == self.url(),
    {
        self.stream_url.as_str()
    }

    /// The value of the `Authorization` header sent when connecting: the key
    /// as a bearer token, when there is one.
    pub fn authorization(&self) -> (r: Option<String>)
        ensures
            match self.key() {
                Some(k) => r matches Some(v) && v@ == "Bearer "@ + k@,
                None => r is None,
            },
    {
        match &self.api_key {
            Some(k) => {
                let mut v = String::from_str("Bearer ");
                v.append(k.as_str());
                Some(v)
            },
            None => None,
        }
    }
}

} // verus!
