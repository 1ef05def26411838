//! Instrument, venue, side and time-resolution identifiers.
use vstd::prelude::*;
use crate::text::{decimal, decimal_string};

verus! {

/// Trading venue.
#[derive(Debug, Clone, Copy, PartialEq, Eq, Structural, Hash)]
pub enum Venue {
    UsEquity,
    HkEquity,
    Crypto,
    Polymarket,
}

/// The short code a venue is written with.
pub open spec fn venue_code(v: Venue) -> Seq<char> {
    match v {
        Venue::UsEquity => "USE"@,
        Venue::HkEquity => "HKE"@,
        Venue::Crypto => "CRYPTO"@,
        Venue::Polymarket => "POLY"@,
    }
}

impl Venue {
    pub fn as_str(&self) -> (r: &'static str)
        ensures
            r@ == venue_code(*self),
    {
        proof {
            reveal_strlit("USE");
            reveal_strlit("HKE");
            reveal_strlit("CRYPTO");
            reveal_strlit("POLY");
        }
        match self {
            Venue::UsEquity => "USE",
            Venue::HkEquity => "HKE",
            Venue::Crypto => "CRYPTO",
            Venue::Polymarket => "POLY",
        }
    }
}

/// Instrument identifier.
#[derive(Debug, Clone, PartialEq, Eq, Hash)]
pub struct InstrumentId {
    pub venue: Venue,
    pub symbol: String,
}

impl InstrumentId {
    pub fn new(venue: Venue, symbol: &str) -> (r: Self)
        ensures
            r.venue == venue,
            r.symbol@ == symbol@,
    {
        Self { venue, symbol: symbol.to_owned() }
    }

    pub fn as_str(&self) -> (r: &str)
        ensures
            r@ == self.symbol@,
    {
        self.symbol.as_str()
    }

    /// `VENUE:SYMBOL`, e.g. `USE:AAPL`.
    pub fn display(&self) -> (r: String)
        ensures
            r@ == venue_code(self.venue) + ":"@ + self.symbol@,
    {
        let mut out = String::from_str(self.venue.as_str());
        out.append(":");
        out.append(self.symbol.as_str());
        proof {
            reveal_strlit(":");
        }
        out
    }
}

/// Order side.
#[derive(Debug, Clone, Copy, PartialEq, Eq, Structural, Hash)]
pub enum Side {
    Buy,
    Sell,
}

/// The upper-case name of a side.
pub open spec fn side_code(s: Side) -> Seq<char> {
    match s {
        Side::Buy => "BUY"@,
        Side::Sell => "SELL"@,
    }
}

impl Side {
    pub fn as_str(&self) -> (r: &'static str)
        ensures
            r@ == side_code(*self),
    {
        proof {
            reveal_strlit("BUY");
            reveal_strlit("SELL");
        }
        match self {
            Side::Buy => "BUY",
            Side::Sell => "SELL",
        }
    }
}

/// Granularity for time series data.
#[derive(Debug, Clone, Copy, PartialEq, Eq, Hash)]
pub enum Granularity {
    Tick,
    Minute(u32),
    Hour(u32),
    Day,
}

impl Default for Granularity {
    fn default() -> (r: Self)
        ensures
            r == Granularity::Minute(1),
    {
        Granularity::Minute(1)
    }
}

/// How a granularity is written: `tick`, `<n>m`, `<n>h` or `day`.
pub open spec fn granularity_label(g: Granularity) -> Seq<char> {
    match g {
        Granularity::Tick => "tick"@,
        Granularity::Minute(m) => decimal(m as nat) + "m"@,
        Granularity::Hour(h) => decimal(h as nat) + "h"@,
        Granularity::Day => "day"@,
    }
}

impl Granularity {
    /// The granularity as it is written.
    pub fn label(&self) -> (r: String)
        ensures
            r@ == granularity_label(*self),
    {
        match self {
            Granularity::Tick => String::from_str("tick"),
            Granularity::Minute(m) => {
                let mut out = decimal_string(*m as usize);
                out.append("m");
                out
            },
            Granularity::Hour(h) => {
                let mut out = decimal_string(*h as usize);
                out.append("h");
                out
            },
            Granularity::Day => String::from_str("day"),
        }
    }
}

} // verus!
