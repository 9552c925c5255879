use vstd::prelude::*;
use vstd::utf8::encode_utf8;

use crate::decimal::{
    lemma_pow10_18, lemma_pow10_add, lemma_pow10_monotonic, lemma_pow10_positive, parse_decimal,
    pow10, Decimal, MAX_DIGITS,
};

verus! {

#[derive(Debug, Clone, PartialEq, Default)]
pub struct Pricing {
    pub prices: Vec<Price>,
}

/// One price snapshot of an instrument. The first ask and the first bid are
/// the best prices.
#[derive(Debug, Clone, PartialEq, Default)]
pub struct Price {
    pub asks: Vec<Ask>,
    pub bids: Vec<Bid>,
    pub closeout_ask: String,
    pub closeout_bid: String,
    pub instrument: String,
    pub quote_home_conversion_factors: Option<QuoteHomeConversionFactors>,
    pub status: String,
    pub time: String,
    pub units_available: Option<UnitsAvailable>,
}

#[derive(Debug, Clone, PartialEq, Default)]
pub struct Ask {
    pub liquidity: i64,
    pub price: String,
}

#[derive(Debug, Clone, PartialEq, Default)]
pub struct Bid {
    pub liquidity: i64,
    pub price: String,
}

#[derive(Debug, Clone, PartialEq, Default)]
pub struct QuoteHomeConversionFactors {
    pub negative_units: String,
    pub positive_units: String,
}

#[derive(Debug, Clone, PartialEq, Default)]
pub struct UnitsAvailable {
    pub default: Default,
    pub open_only: OpenOnly,
    pub reduce_first: ReduceFirst,
    pub reduce_only: ReduceOnly,
}

#[derive(Debug, Clone, PartialEq, Default)]
pub struct Default {
    pub long: String,
    pub short: String,
}

#[derive(Debug, Clone, PartialEq, Default)]
pub struct OpenOnly {
    pub long: String,
    pub short: String,
}

#[derive(Debug, Clone, PartialEq, Default)]
pub struct ReduceFirst {
    pub long: String,
    pub short: String,
}

#[derive(Debug, Clone, PartialEq, Default)]
pub struct ReduceOnly {
    pub long: String,
    pub short: String,
}

/// Best bid and ask of a snapshot, both at the same scale, and the snapshot's
/// time in milliseconds since the epoch.
#[derive(Debug, Clone, Copy, PartialEq, Eq)]
pub struct Tick {
    pub time: i64,
    pub bid: i128,
    pub ask: i128,
    pub scale: u32,
}

/// Why no tick could be derived from a snapshot.
#[derive(Debug, Clone, Copy, PartialEq, Eq)]
pub enum TickError {
    NoPrices,
    NoBids,
    NoAsks,
    BadTime,
    BadBid,
    BadAsk,
}

/// Milliseconds since the epoch of an RFC 3339 timestamp, if it is one.
pub uninterp spec fn rfc3339_millis(s: Seq<char>) -> Option<i64>;

/// Relies on chrono's `DateTime::parse_from_rfc3339` to read the timestamp,
/// and on `DateTime::timestamp_millis` to count its milliseconds.
#[verifier::external_body]
fn parse_rfc3339_millis(s: &str) -> (r: Option<i64>)
    ensures
        r == rfc3339_millis(s@),
{
    match chrono::DateTime::parse_from_rfc3339(s) {
        Ok(d) => Some(d.timestamp_millis()),
        Err(_) => None,
    }
}

/// Mantissa and scale of a decimal price text.
pub open spec fn price_text(s: Seq<char>) -> Option<(int, nat)> {
    crate::decimal::decimal_text(encode_utf8(s))
}

pub open spec fn max_nat(a: nat, b: nat) -> nat {
    if a >= b {
        a
    } else {
        b
    }
}

/// The failure, if any, of deriving a tick from `p` when its first
/// snapshot's time reads as `millis`; checked in this order.
pub open spec fn tick_failure(p: Pricing, millis: Option<i64>) -> Option<TickError> {
    if p.prices@.len() == 0 {
        Some(TickError::NoPrices)
    } else if p.prices@[0].bids@.len() == 0 {
        Some(TickError::NoBids)
    } else if p.prices@[0].asks@.len() == 0 {
        Some(TickError::NoAsks)
    } else if millis is None {
        Some(TickError::BadTime)
    } else if price_text(p.prices@[0].bids@[0].price@) is None {
        Some(TickError::BadBid)
    } else if price_text(p.prices@[0].asks@[0].price@) is None {
        Some(TickError::BadAsk)
    } else {
        None
    }
}

/// `t` holds the time `millis` and the best bid and ask of `p`, both brought
/// to the larger of their two scales.
pub open spec fn tick_from(t: Tick, p: Pricing, millis: Option<i64>) -> bool {
    let (bm, bs) = price_text(p.prices@[0].bids@[0].price@)->0;
    let (am, as_) = price_text(p.prices@[0].asks@[0].price@)->0;
    let s = max_nat(bs, as_);
    &&& millis == Some(t.time)
    &&& t.scale == s
    &&& t.bid == bm * pow10((s - bs) as nat)
    &&& t.ask == am * pow10((s - as_) as nat)
}

/// What deriving a tick from `p` gives, when its first snapshot's time reads
/// as `millis`.
pub open spec fn tick_result(r: Result<Tick, TickError>, p: Pricing, millis: Option<i64>) -> bool {
    match tick_failure(p, millis) {
        Some(e) => r == Err::<Tick, TickError>(e),
        None => r matches Ok(t) && tick_from(t, p, millis) && t.wf(),
    }
}

/// `m * 10^k`.
fn scale_up(m: i128, k: u32) -> (r: i128)
    requires
        -pow10(18) < m < pow10(18),
        k <= MAX_DIGITS,
    ensures
        r == m * pow10(k as nat),
        -pow10(36) < r < pow10(36),
{
    let mut r: i128 = m;
    let mut i: u32 = 0;
    proof {
        lemma_pow10_18();
        lemma_pow10_add(18, 18);
    }
    while i < k
        invariant
            i <= k <= MAX_DIGITS,
            r == m * pow10(i as nat),
            pow10(18) == 1_000_000_000_000_000_000,
            pow10(36) == pow10(18) * pow10(18),
            -pow10(18) < m < pow10(18),
        decreases k - i,
    {
        proof {
            lemma_pow10_positive(i as nat);
            lemma_pow10_monotonic((i + 1) as nat, 18);
            assert(pow10((i + 1) as nat) == 10 * pow10(i as nat));
            let p = pow10(i as nat);
            assert(-(pow10(18) * p) < m * p < pow10(18) * p) by (nonlinear_arith)
                requires
                    -pow10(18) < m < pow10(18),
                    p >= 1,
            ;
            assert(pow10(18) * (10 * p) <= pow10(18) * pow10(18)) by (nonlinear_arith)
                requires
                    10 * p <= pow10(18),
                    pow10(18) >= 1,
            ;
            assert(m * (10 * p) == (m * p) * 10) by (nonlinear_arith);
        }
        r = r * 10;
        i = i + 1;
    }
    proof {
        let p = pow10(k as nat);
        lemma_pow10_positive(k as nat);
        lemma_pow10_monotonic(k as nat, 18);
        assert(-(pow10(18) * p) < m * p < pow10(18) * p) by (nonlinear_arith)
            requires
                -pow10(18) < m < pow10(18),
                p >= 1,
        ;
        assert(pow10(18) * p <= pow10(18) * pow10(18)) by (nonlinear_arith)
            requires
                p <= pow10(18),
                pow10(18) >= 1,
        ;
    }
    r
}

impl Tick {
    /// Scale at most `MAX_DIGITS`, bid and ask below `10^36` in size.
    pub open spec fn wf(&self) -> bool {
        &&& self.scale <= MAX_DIGITS
        &&& -pow10(36) < self.bid < pow10(36)
        &&& -pow10(36) < self.ask < pow10(36)
    }

    /// The time in whole seconds since the epoch, rounded down.
    pub fn time(&self) -> (r: i64)
        ensures
            r == self.time / 1000,
    {
        if self.time >= 0 {
            self.time / 1000
        } else {
            let r = -((-(self.time + 1)) / 1000) - 1;
            proof {
                let t = self.time as int;
                let q = (-(t + 1)) / 1000;
                assert(-(t + 1) == 1000 * q + (-(t + 1)) % 1000);
                assert(0 <= (-(t + 1)) % 1000 < 1000);
                assert(t == 1000 * (-q - 1) + (999 - (-(t + 1)) % 1000));
                vstd::arithmetic::div_mod::lemma_fundamental_div_mod_converse(
                    t,
                    1000,
                    -q - 1,
                    999 - (-(t + 1)) % 1000,
                );
            }
            r
        }
    }

    /// The mid price, `(bid + ask) / 2`, exact at one more decimal place.
    pub fn price(&self) -> (r: Decimal)
        requires
            self.wf(),
        ensures
            r.mantissa == 5 * (self.bid + self.ask),
            r.scale == self.scale + 1,
            2 * r.mantissa * pow10(self.scale as nat) == (self.bid + self.ask) * pow10(
                r.scale as nat,
            ),
    {
        proof {
            lemma_pow10_18();
            lemma_pow10_add(18, 18);
            let p = pow10(self.scale as nat);
            assert(pow10((self.scale + 1) as nat) == 10 * p);
            assert(2 * (5 * (self.bid + self.ask)) * p == (self.bid + self.ask) * (10 * p))
                by (nonlinear_arith);
        }
        Decimal { mantissa: 5 * (self.bid + self.ask), scale: self.scale + 1 }
    }

    /// The price to buy at: the ask.
    pub fn buy_price(&self) -> (r: Decimal)
        ensures
            r.mantissa == self.ask,
            r.scale == self.scale,
    {
        Decimal { mantissa: self.ask, scale: self.scale }
    }

    /// The price to sell at: the bid.
    pub fn sell_price(&self) -> (r: Decimal)
        ensures
            r.mantissa == self.bid,
            r.scale == self.scale,
    {
        Decimal { mantissa: self.bid, scale: self.scale }
    }

    /// Bid minus ask, signed: negative in an ordinary market.
    pub fn spread(&self) -> (r: Decimal)
        requires
            self.wf(),
        ensures
            r.mantissa == self.bid - self.ask,
            r.scale == self.scale,
    {
        proof {
            lemma_pow10_18();
            lemma_pow10_add(18, 18);
        }
        Decimal { mantissa: self.bid - self.ask, scale: self.scale }
    }
}

impl Pricing {
    /// Derives the tick of the first snapshot, whose time reads as `millis`.
    pub fn tick_at(&self, millis: Option<i64>) -> (r: Result<Tick, TickError>)
        ensures
            tick_result(r, *self, millis),
    {
        if self.prices.len() == 0 {
            return Err(TickError::NoPrices);
        }
        let first = &self.prices[0];
        if first.bids.len() == 0 {
            return Err(TickError::NoBids);
        }
        if first.asks.len() == 0 {
            return Err(TickError::NoAsks);
        }
        let time = match millis {
            Some(t) => t,
            None => {
                return Err(TickError::BadTime);
            },
        };
        let bid = match parse_decimal(first.bids[0].price.as_str()) {
            Some(d) => d,
            None => {
                return Err(TickError::BadBid);
            },
        };
        let ask = match parse_decimal(first.asks[0].price.as_str()) {
            Some(d) => d,
            None => {
                return Err(TickError::BadAsk);
            },
        };
        let scale = if bid.scale >= ask.scale {
            bid.scale
        } else {
            ask.scale
        };
        let b = scale_up(bid.mantissa, scale - bid.scale);
        let a = scale_up(ask.mantissa, scale - ask.scale);
        Ok(Tick { time, bid: b, ask: a, scale })
    }

    /// Derives the tick of the first snapshot: its best bid and ask, and its
    /// time read as RFC 3339.
    pub fn get_tick(&self) -> (r: Result<Tick, TickError>)
        ensures
            self.prices@.len() == 0 ==> r == Err::<Tick, TickError>(TickError::NoPrices),
            self.prices@.len() > 0 ==> tick_result(r, *self, rfc3339_millis(self.prices@[0].time@)),
    {
        if self.prices.len() == 0 {
            return Err(TickError::NoPrices);
        }
        let millis = parse_rfc3339_millis(self.prices[0].time.as_str());
        self.tick_at(millis)
    }

    /// Whether the first snapshot's status is `tradeable`; false when there is
    /// no snapshot.
    pub fn is_tradeable(&self) -> (r: bool)
        ensures
            r == (self.prices@.len() > 0 && self.prices@[0].status@ == "tradeable"@),
    {
        if self.prices.len() == 0 {
            return false;
        }
        let expected = "tradeable".to_owned();
        proof {
            reveal_strlit("tradeable");
        }
        self.prices[0].status == expected
    }
}

} // verus!
