//! Properties of the pipeline, proved over the specifications of its stages.
use vstd::prelude::*;
use vstd::arithmetic::div_mod::lemma_fundamental_div_mod;
use crate::chain::{
    abs, eligible, eligible_quote, out_of_the_money, Instrument, OptionSide, Quote,
};
use crate::engine::{spreads_for, BearCallSpreadParams};
use crate::ranking::{by_rank, descending, insert_ranked, lemma_by_rank, of_rank, Ranked};
use crate::scoring::{
    breakeven, favourable_only, generated, net_credit, reference_spot, round_up, row,
    rows, score, spread_width, CreditSpread,
};

verus! {

/// A strike exactly at the spot price is eligible on neither side.
pub proof fn lemma_at_the_money_excluded(e: Instrument, tight: bool)
    requires
        e.strike_price is Some,
        e.strike_price == e.underlying_spot_price,
    ensures
        eligible_quote(e, OptionSide::Call, tight) is None,
        eligible_quote(e, OptionSide::Put, tight) is None,
{
}

/// Every eligible quote lies strictly out of the money on its side, so no
/// strike at the spot price is ever eligible.
pub proof fn lemma_eligible_out_of_the_money(chain: Seq<Instrument>, side: OptionSide, tight: bool)
    ensures
        forall|k: int|
            0 <= k < eligible(chain, side, tight).len() ==> {
                let q = #[trigger] eligible(chain, side, tight)[k];
                &&& q.side == side
                &&& out_of_the_money(q.strike as int, q.spot as int, side)
                &&& q.strike != q.spot
            },
    decreases chain.len(),
{
    if chain.len() > 0 {
        lemma_eligible_out_of_the_money(chain.drop_last(), side, tight);
        let rest = eligible(chain.drop_last(), side, tight);
        if let Some(q) = eligible_quote(chain.last(), side, tight) {
            assert forall|k: int| 0 <= k < rest.push(q).len() implies #[trigger] rest.push(q)[k]
                == q || rest.push(q)[k] == rest[k] by {}
        }
    }
}

/// The sold strike lies strictly nearer the money than the bought one:
/// lower for calls, higher for puts.
pub open spec fn sells_nearer(c: CreditSpread) -> bool {
    match c.type_ {
        OptionSide::Call => c.sell_strike < c.buy_strike,
        OptionSide::Put => c.sell_strike > c.buy_strike,
    }
}

proof fn lemma_row_sells_nearer(q: Seq<Quote>, i: int, j: int, lot: int)
    requires
        0 <= i,
        j <= q.len(),
    ensures
        forall|k: int|
            0 <= k < row(q, i, j, lot).len() ==> sells_nearer(#[trigger] row(q, i, j, lot)[k]),
    decreases j - i,
{
    if j > i + 1 {
        lemma_row_sells_nearer(q, i, j - 1, lot);
        let before = row(q, i, j - 1, lot);
        let c = score(q[i], q[j - 1], lot);
        assert forall|k: int| 0 <= k < before.push(c).len() implies #[trigger] before.push(c)[k]
            == c || before.push(c)[k] == before[k] by {}
    }
}

proof fn lemma_rows_sell_nearer(q: Seq<Quote>, i: int, lot: int)
    requires
        i <= q.len(),
    ensures
        forall|k: int|
            0 <= k < rows(q, i, lot).len() ==> sells_nearer(#[trigger] rows(q, i, lot)[k]),
    decreases i,
{
    if i > 0 {
        lemma_rows_sell_nearer(q, i - 1, lot);
        lemma_row_sells_nearer(q, i - 1, q.len() as int, lot);
        let a = rows(q, i - 1, lot);
        let b = row(q, i - 1, q.len() as int, lot);
        assert forall|k: int| 0 <= k < (a + b).len() implies sells_nearer(#[trigger] (a + b)[k]) by {
            if k >= a.len() {
                assert((a + b)[k] == b[k - a.len()]);
            }
        }
    }
}

/// Every generated spread sells the strike nearer the money.
pub proof fn lemma_generated_sell_nearer(q: Seq<Quote>, lot: int)
    ensures
        forall|k: int|
            0 <= k < generated(q, lot).len() ==> sells_nearer(#[trigger] generated(q, lot)[k]),
{
    lemma_rows_sell_nearer(q, q.len() as int, lot);
}

proof fn lemma_favourable_only_keeps(s: Seq<CreditSpread>, p: spec_fn(CreditSpread) -> bool)
    requires
        forall|k: int| 0 <= k < s.len() ==> p(#[trigger] s[k]),
    ensures
        favourable_only(s).len() <= s.len(),
        forall|k: int| 0 <= k < favourable_only(s).len() ==> p(#[trigger] favourable_only(s)[k]),
    decreases s.len(),
{
    if s.len() > 0 {
        lemma_favourable_only_keeps(s.drop_last(), p);
    }
}

proof fn lemma_insert_keeps<T: Ranked>(r: Seq<T>, x: T, p: spec_fn(T) -> bool)
    requires
        forall|k: int| 0 <= k < r.len() ==> p(#[trigger] r[k]),
        p(x),
    ensures
        forall|k: int| 0 <= k < insert_ranked(r, x).len() ==> p(#[trigger] insert_ranked(r, x)[k]),
    decreases r.len(),
{
    if r.len() == 0 {
        assert(seq![x][0] == x);
    } else if r.last().rank() < x.rank() {
        lemma_insert_keeps(r.drop_last(), x, p);
        let m = insert_ranked(r.drop_last(), x);
        assert forall|k: int| 0 <= k < m.push(r.last()).len() implies p(
            #[trigger] m.push(r.last())[k],
        ) by {
            if k < m.len() {
                assert(m.push(r.last())[k] == m[k]);
            }
        }
    } else {
        assert forall|k: int| 0 <= k < r.push(x).len() implies p(#[trigger] r.push(x)[k]) by {
            if k < r.len() {
                assert(r.push(x)[k] == r[k]);
            }
        }
    }
}

proof fn lemma_by_rank_keeps<T: Ranked>(s: Seq<T>, p: spec_fn(T) -> bool)
    requires
        forall|k: int| 0 <= k < s.len() ==> p(#[trigger] s[k]),
    ensures
        forall|k: int| 0 <= k < by_rank(s).len() ==> p(#[trigger] by_rank(s)[k]),
    decreases s.len(),
{
    if s.len() > 0 {
        lemma_by_rank_keeps(s.drop_last(), p);
        lemma_insert_keeps(by_rank(s.drop_last()), s.last(), p);
    }
}

/// Every spread that the pipeline returns sells the strike nearer the money.
pub proof fn lemma_spreads_sell_nearer(
    chain: Seq<Instrument>,
    side: OptionSide,
    params: BearCallSpreadParams,
    lot: int,
)
    ensures
        forall|k: int|
            0 <= k < spreads_for(chain, side, params, lot).len() ==> sells_nearer(
                #[trigger] spreads_for(chain, side, params, lot)[k],
            ),
{
    let p = |c: CreditSpread| sells_nearer(c);
    let all = generated(by_rank(eligible(chain, side, params.bid_ask_spread)), lot);
    lemma_generated_sell_nearer(
        by_rank(eligible(chain, side, params.bid_ask_spread)),
        lot,
    );
    lemma_favourable_only_keeps(all, p);
    let kept = if params.risk_reward_ratio {
        favourable_only(all)
    } else {
        all
    };
    lemma_by_rank_keeps(kept, p);
}

proof fn lemma_round_up_bounds(a: int)
    ensures
        a <= round_up(a) < a + 100,
        round_up(a) == a <==> a % 100 == 0,
{
    lemma_fundamental_div_mod(-a, 100);
    lemma_fundamental_div_mod(a, 100);
}

proof fn lemma_round_up_sum(a: int, b: int)
    ensures
        round_up(a + b) <= round_up(a) + round_up(b) <= round_up(a + b) + 100,
        a % 100 == 0 ==> round_up(a) + round_up(b) == round_up(a + b),
{
    lemma_fundamental_div_mod(-a, 100);
    lemma_fundamental_div_mod(-b, 100);
    lemma_fundamental_div_mod(-(a + b), 100);
    lemma_fundamental_div_mod(a, 100);
}

proof fn lemma_score_in_range(sell: Quote, buy: Quote, lot: int)
    requires
        0 <= lot <= u32::MAX,
    ensures
        -0x1_0000_0000_0000_0000_0000_0000 <= net_credit(sell, buy, lot)
            <= 0x1_0000_0000_0000_0000_0000_0000,
        0 <= spread_width(sell, buy, lot) <= 0x1_0000_0000_0000_0000_0000_0000,
        -0x1_0000_0000_0000_0000_0000 <= breakeven(sell, buy) <= 0x1_0000_0000_0000_0000_0000,
{
    let gap = abs(buy.strike - sell.strike);
    let diff = sell.ltp - buy.ltp;
    assert(0 <= gap * lot <= 0x1_0000_0000_0000_0000 * 0x1_0000_0000) by (nonlinear_arith)
        requires
            0 <= gap <= 0x1_0000_0000_0000_0000,
            0 <= lot <= 0x1_0000_0000,
    ;
    assert(-0x1_0000_0000_0000_0000 * 0x1_0000_0000 <= diff * lot <= 0x1_0000_0000_0000_0000
        * 0x1_0000_0000) by (nonlinear_arith)
        requires
            -0x1_0000_0000_0000_0000 <= diff <= 0x1_0000_0000_0000_0000,
            0 <= lot <= 0x1_0000_0000,
    ;
    lemma_round_up_bounds(sell.strike + diff);
    lemma_round_up_bounds(buy.strike - diff);
}

/// Maximum profit and maximum loss, each rounded up on its own, add up to the
/// spread width rounded up, or to one currency unit more; exactly to it when
/// the net credit is a whole amount.
pub proof fn lemma_profit_plus_loss(sell: Quote, buy: Quote, lot: u32)
    ensures
        ({
            let c = score(sell, buy, lot as int);
            &&& round_up(c.spread as int) <= c.max_profit + c.max_loss <= round_up(c.spread as int)
                + 100
            &&& c.net_credit % 100 == 0 ==> c.max_profit + c.max_loss == round_up(
                c.spread as int,
            )
        }),
{
    let l = lot as int;
    let credit = net_credit(sell, buy, l);
    let width = spread_width(sell, buy, l);
    lemma_score_in_range(sell, buy, l);
    lemma_round_up_bounds(credit);
    lemma_round_up_bounds(width - credit);
    lemma_round_up_sum(credit, width - credit);
    assert(credit + (width - credit) == width);
}

/// The breakeven distance is the exact percentage truncated to hundredths of
/// a percent, never rounded up; it is absent exactly when the spot is zero.
pub proof fn lemma_distance_truncated(sell: Quote, buy: Quote, lot: u32)
    ensures
        ({
            let c = score(sell, buy, lot as int);
            let spot = reference_spot(sell, buy);
            let gap = abs(c.breakeven - spot) * 10000;
            &&& c.breakeven as int == breakeven(sell, buy)
            &&& c.breakeven_percentage is None <==> spot == 0
            &&& c.breakeven_percentage matches Some(d) ==> d * spot <= gap < (d + 1) * spot
        }),
{
    let spot = reference_spot(sell, buy);
    let be = breakeven(sell, buy);
    lemma_score_in_range(sell, buy, lot as int);
    if spot != 0 {
        let gap = abs(be - spot) * 10000;
        lemma_fundamental_div_mod(gap, spot);
        let d = gap / spot;
        assert(0 <= d <= gap) by {
            vstd::arithmetic::div_mod::lemma_div_is_ordered_by_denominator(gap, 1, spot);
        }
        assert(d * spot <= gap < (d + 1) * spot) by (nonlinear_arith)
            requires
                gap == spot * d + gap % spot,
                0 <= gap % spot < spot,
        ;
    }
}

/// `params` with the risk/reward screen set to `on`.
pub open spec fn with_screen(params: BearCallSpreadParams, on: bool) -> BearCallSpreadParams {
    BearCallSpreadParams {
        bid_ask_spread: params.bid_ask_spread,
        risk_reward_ratio: on,
        breakeven_percentage_sort: params.breakeven_percentage_sort,
    }
}

/// `params` with the ordering by breakeven distance set to `on`.
pub open spec fn with_sort(params: BearCallSpreadParams, on: bool) -> BearCallSpreadParams {
    BearCallSpreadParams {
        bid_ask_spread: params.bid_ask_spread,
        risk_reward_ratio: params.risk_reward_ratio,
        breakeven_percentage_sort: on,
    }
}

/// Turning the risk/reward screen on never yields more spreads than leaving
/// it off, for the same chain and the same other choices.
pub proof fn lemma_screen_never_adds(
    chain: Seq<Instrument>,
    side: OptionSide,
    params: BearCallSpreadParams,
    lot: int,
)
    ensures
        spreads_for(chain, side, with_screen(params, true), lot).len() <= spreads_for(
            chain,
            side,
            with_screen(params, false),
            lot,
        ).len(),
{
    let all = generated(by_rank(eligible(chain, side, params.bid_ask_spread)), lot);
    lemma_favourable_only_keeps(all, |c: CreditSpread| true);
    lemma_by_rank(all);
    lemma_by_rank(favourable_only(all));
}

/// With the ordering on, the spreads come farthest breakeven distance first,
/// and spreads of equal distance keep the order that they have with it off;
/// with it off, they come in generation order.
pub proof fn lemma_sort_order(
    chain: Seq<Instrument>,
    side: OptionSide,
    params: BearCallSpreadParams,
    lot: int,
)
    ensures
        ({
            let all = generated(
                by_rank(eligible(chain, side, params.bid_ask_spread)),
                lot,
            );
            let kept = if params.risk_reward_ratio {
                favourable_only(all)
            } else {
                all
            };
            let sorted = spreads_for(chain, side, with_sort(params, true), lot);
            &&& spreads_for(chain, side, with_sort(params, false), lot) == kept
            &&& descending(sorted)
            &&& sorted.len() == kept.len()
            &&& forall|k: int| #[trigger] of_rank(sorted, k) == of_rank(kept, k)
        }),
{
    let all = generated(by_rank(eligible(chain, side, params.bid_ask_spread)), lot);
    let kept = if params.risk_reward_ratio {
        favourable_only(all)
    } else {
        all
    };
    lemma_by_rank(kept);
}

} // verus!
