//! The option-chain snapshot and the selection of eligible strikes.
//!
//! Every price in this library is a whole number of hundredths of a currency
//! unit (a strike of 105.00 is `10500`).
use vstd::prelude::*;

verus! {

/// The widest ask-minus-bid gap, in hundredths, that a quote may show when
/// the liquidity screen is on (2.00 currency units).
pub const MAX_BID_ASK_GAP: u64 = 200;

/// The two sides of a strike.
#[derive(Clone, Copy, Debug, PartialEq, Eq, Structural)]
pub enum OptionSide {
    Call,
    Put,
}

impl OptionSide {
    /// The exchange code of the side: `"CE"` for calls, `"PE"` for puts.
    pub fn code(&self) -> (r: &'static str)
        ensures
            r@ == (match *self {
                OptionSide::Call => "CE"@,
                OptionSide::Put => "PE"@,
            }),
    {
        match self {
            OptionSide::Call => "CE",
            OptionSide::Put => "PE",
        }
    }
}

/// A market snapshot of one leg. Prices are in hundredths.
#[derive(Clone, Debug)]
pub struct MarketData {
    pub ltp: Option<u64>,
    pub volume: Option<u64>,
    pub oi: Option<u64>,
    pub close_price: Option<u64>,
    pub bid_price: Option<u64>,
    pub bid_qty: Option<u64>,
    pub ask_price: Option<u64>,
    pub ask_qty: Option<u64>,
    pub prev_oi: Option<u64>,
}

/// One side (call or put) of a strike.
#[derive(Clone, Debug)]
pub struct OptionData {
    pub instrument_key: String,
    pub market_data: Option<MarketData>,
}

/// One strike of the chain, as decoded. Both prices are required: a chain
/// holding an entry without one of them is malformed as a whole.
#[derive(Clone, Debug)]
pub struct Instrument {
    pub expiry: String,
    pub strike_price: Option<u64>,
    pub underlying_key: String,
    pub underlying_spot_price: Option<u64>,
    pub call_options: Option<OptionData>,
    pub put_options: Option<OptionData>,
}

/// What the scoring reads of an eligible strike on one side.
#[derive(Clone, Copy, Debug, PartialEq, Eq, Structural)]
pub struct Quote {
    pub strike: u64,
    pub spot: u64,
    pub ltp: u64,
    pub side: OptionSide,
}

/// Every entry carries both its strike and the spot price.
pub open spec fn chain_complete(chain: Seq<Instrument>) -> bool {
    forall|i: int|
        0 <= i < chain.len() ==> {
            &&& (#[trigger] chain[i]).strike_price is Some
            &&& chain[i].underlying_spot_price is Some
        }
}

pub open spec fn leg_of(e: Instrument, side: OptionSide) -> Option<OptionData> {
    match side {
        OptionSide::Call => e.call_options,
        OptionSide::Put => e.put_options,
    }
}

/// Calls above spot, puts below it; a strike at spot is neither.
pub open spec fn out_of_the_money(strike: int, spot: int, side: OptionSide) -> bool {
    match side {
        OptionSide::Call => strike > spot,
        OptionSide::Put => strike < spot,
    }
}

pub open spec fn abs(x: int) -> int {
    if x < 0 {
        -x
    } else {
        x
    }
}

/// Both bid and ask are quoted and lie at most `MAX_BID_ASK_GAP` apart.
pub open spec fn tight_market(m: MarketData) -> bool {
    match (m.bid_price, m.ask_price) {
        (Some(bid), Some(ask)) => abs(ask - bid) <= MAX_BID_ASK_GAP,
        _ => false,
    }
}

/// The quote of `e` on `side` when the entry is eligible there: both prices
/// known, out of the money, a leg with a market snapshot and a last traded
/// price, and, when `tight` is set, a tight market.
pub open spec fn eligible_quote(e: Instrument, side: OptionSide, tight: bool) -> Option<Quote> {
    match (e.strike_price, e.underlying_spot_price, leg_of(e, side)) {
        (Some(strike), Some(spot), Some(leg)) => match leg.market_data {
            Some(m) => match m.ltp {
                Some(ltp) => if out_of_the_money(strike as int, spot as int, side) && (!tight
                    || tight_market(m)) {
                    Some(Quote { strike, spot, ltp, side })
                } else {
                    None
                },
                None => None,
            },
            None => None,
        },
        _ => None,
    }
}

/// The quotes of the eligible entries of `chain`, in chain order.
pub open spec fn eligible(chain: Seq<Instrument>, side: OptionSide, tight: bool) -> Seq<Quote>
    decreases chain.len(),
{
    if chain.len() == 0 {
        Seq::empty()
    } else {
        let rest = eligible(chain.drop_last(), side, tight);
        match eligible_quote(chain.last(), side, tight) {
            Some(q) => rest.push(q),
            None => rest,
        }
    }
}

fn tight_market_exec(m: &MarketData) -> (r: bool)
    ensures
        r == tight_market(*m),
{
    match (m.bid_price, m.ask_price) {
        (Some(bid), Some(ask)) => if ask >= bid {
            ask - bid <= MAX_BID_ASK_GAP
        } else {
            bid - ask <= MAX_BID_ASK_GAP
        },
        _ => false,
    }
}

/// The quote of one entry on `side`, if the entry is eligible there.
pub fn quote_of(e: &Instrument, side: OptionSide, tight: bool) -> (r: Option<Quote>)
    ensures
        r == eligible_quote(*e, side, tight),
{
    let leg = match side {
        OptionSide::Call => &e.call_options,
        OptionSide::Put => &e.put_options,
    };
    match (e.strike_price, e.underlying_spot_price, leg) {
        (Some(strike), Some(spot), Some(leg)) => match &leg.market_data {
            Some(m) => match m.ltp {
                Some(ltp) => {
                    let otm = match side {
                        OptionSide::Call => strike > spot,
                        OptionSide::Put => strike < spot,
                    };
                    if otm && (!tight || tight_market_exec(m)) {
                        Some(Quote { strike, spot, ltp, side })
                    } else {
                        None
                    }
                },
                None => None,
            },
            None => None,
        },
        _ => None,
    }
}

pub open spec fn entry_complete(e: Instrument) -> bool {
    e.strike_price is Some && e.underlying_spot_price is Some
}

/// The index of the first entry of the chain that lacks its strike or spot
/// price, if there is one.
pub fn first_incomplete(chain: &Vec<Instrument>) -> (r: Option<usize>)
    ensures
        r is None <==> chain_complete(chain@),
        r matches Some(i) ==> i < chain@.len() && !entry_complete(chain@[i as int]) && forall|
            k: int,
        | 0 <= k < i ==> entry_complete(#[trigger] chain@[k]),
{
    let mut i: usize = 0;
    while i < chain.len()
        invariant
            i <= chain@.len(),
            forall|k: int| 0 <= k < i ==> entry_complete(#[trigger] chain@[k]),
        decreases chain@.len() - i,
    {
        if chain[i].strike_price.is_none() || chain[i].underlying_spot_price.is_none() {
            return Some(i);
        }
        i += 1;
    }
    assert forall|k: int| 0 <= k < chain@.len() implies {
        &&& (#[trigger] chain@[k]).strike_price is Some
        &&& chain@[k].underlying_spot_price is Some
    } by {
        assert(entry_complete(chain@[k]));
    }
    None
}

/// The quotes of the entries of `chain` that are eligible on `side`, in chain
/// order; with `tight`, only those whose market is tight.
pub fn eligible_quotes(chain: &Vec<Instrument>, side: OptionSide, tight: bool) -> (r: Vec<Quote>)
    ensures
        r@ == eligible(chain@, side, tight),
{
    let mut out: Vec<Quote> = Vec::new();
    let mut i: usize = 0;
    while i < chain.len()
        invariant
            i <= chain@.len(),
            out@ == eligible(chain@.subrange(0, i as int), side, tight),
        decreases chain@.len() - i,
    {
        let q = quote_of(&chain[i], side, tight);
        assert(chain@.subrange(0, i + 1).drop_last() =~= chain@.subrange(0, i as int));
        match q {
            Some(q) => out.push(q),
            None => {},
        }
        i += 1;
    }
    assert(chain@.subrange(0, i as int) =~= chain@);
    out
}

} // verus!
