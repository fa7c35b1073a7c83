//! The whole pipeline: eligible strikes, ordered nearest the money first,
//! paired and scored, then screened and ordered as the caller asks.
use vstd::prelude::*;
use crate::chain::{
    chain_complete, eligible, eligible_quotes, entry_complete, first_incomplete, Instrument,
    OptionSide,
};
use crate::ranking::{by_rank, sort_by_rank};
use crate::scoring::{
    favourable_only, generate_spreads, generated, retain_favourable, CreditSpread, LOT_SIZE,
};

verus! {

/// The caller's choices. Every flag is independent of the others.
#[derive(Clone, Copy, Debug, PartialEq, Eq, Structural)]
pub struct BearCallSpreadParams {
    /// Keep only strikes whose market is tight.
    pub bid_ask_spread: bool,
    /// Keep only spreads that pass the risk/reward screen.
    pub risk_reward_ratio: bool,
    /// Order the spreads by breakeven distance, farthest first.
    pub breakeven_percentage_sort: bool,
}

/// Why a chain could not be worked on.
#[derive(Clone, Copy, Debug, PartialEq, Eq, Structural)]
pub enum SpreadError {
    /// The entry at this index lacks its strike or spot price.
    MalformedInput { entry: usize },
}

/// The spreads of a complete chain on `side`, `lot` units per contract.
pub open spec fn spreads_for(
    chain: Seq<Instrument>,
    side: OptionSide,
    params: BearCallSpreadParams,
    lot: int,
) -> Seq<CreditSpread> {
    let all = generated(by_rank(eligible(chain, side, params.bid_ask_spread)), lot);
    let kept = if params.risk_reward_ratio {
        favourable_only(all)
    } else {
        all
    };
    if params.breakeven_percentage_sort {
        by_rank(kept)
    } else {
        kept
    }
}

/// The outcome for a chain: the spreads when every entry is complete, else
/// the first incomplete entry.
pub open spec fn outcome(
    chain: Seq<Instrument>,
    side: OptionSide,
    params: BearCallSpreadParams,
    lot: int,
    r: Result<Vec<CreditSpread>, SpreadError>,
) -> bool {
    match r {
        Ok(v) => chain_complete(chain) && v@ == spreads_for(chain, side, params, lot),
        Err(SpreadError::MalformedInput { entry }) => {
            &&& entry < chain.len()
            &&& !entry_complete(chain[entry as int])
            &&& forall|k: int| 0 <= k < entry ==> entry_complete(#[trigger] chain[k])
        },
    }
}

/// The credit spreads of `chain` on `side`, `lot` units per contract.
pub fn credit_spreads(
    chain: &Vec<Instrument>,
    side: OptionSide,
    params: &BearCallSpreadParams,
    lot: u32,
) -> (r: Result<Vec<CreditSpread>, SpreadError>)
    ensures
        outcome(chain@, side, *params, lot as int, r),
        r is Ok <==> chain_complete(chain@),
{
    if let Some(entry) = first_incomplete(chain) {
        return Err(SpreadError::MalformedInput { entry });
    }
    let quotes = eligible_quotes(chain, side, params.bid_ask_spread);
    let ordered = sort_by_rank(&quotes);
    let all = generate_spreads(&ordered, lot);
    let kept = if params.risk_reward_ratio {
        retain_favourable(&all)
    } else {
        all
    };
    if params.breakeven_percentage_sort {
        Ok(sort_by_rank(&kept))
    } else {
        Ok(kept)
    }
}

/// Bear call spreads: sell a call, buy a higher one.
pub fn bear_call_spread(chain: &Vec<Instrument>, params: &BearCallSpreadParams) -> (r: Result<
    Vec<CreditSpread>,
    SpreadError,
>)
    ensures
        outcome(chain@, OptionSide::Call, *params, LOT_SIZE as int, r),
        r is Ok <==> chain_complete(chain@),
{
    credit_spreads(chain, OptionSide::Call, params, LOT_SIZE)
}

/// Bull put spreads: sell a put, buy a lower one.
pub fn bull_put_spread(chain: &Vec<Instrument>, params: &BearCallSpreadParams) -> (r: Result<
    Vec<CreditSpread>,
    SpreadError,
>)
    ensures
        outcome(chain@, OptionSide::Put, *params, LOT_SIZE as int, r),
        r is Ok <==> chain_complete(chain@),
{
    credit_spreads(chain, OptionSide::Put, params, LOT_SIZE)
}

} // verus!
