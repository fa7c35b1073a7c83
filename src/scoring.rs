//! Pairing eligible strikes and scoring each pair as a credit spread.
use vstd::prelude::*;
use crate::chain::{abs, OptionSide, Quote};
use crate::ranking::Ranked;

verus! {

/// Units of the underlying in one contract.
pub const LOT_SIZE: u32 = 25;

/// A spread is kept by the risk/reward screen when its maximum loss is at most
/// this many times its maximum profit.
pub const RISK_REWARD_MULTIPLE: i128 = 3;

/// A scored two-leg spread. Money amounts are in hundredths of a currency
/// unit; `breakeven_percentage` is in hundredths of a percent, and is absent
/// when the spot price is zero.
#[derive(Clone, Copy, Debug, PartialEq, Eq, Structural)]
pub struct CreditSpread {
    pub sell_strike: u64,
    pub buy_strike: u64,
    pub spread: i128,
    pub net_credit: i128,
    pub max_profit: i128,
    pub max_loss: i128,
    pub breakeven: i128,
    pub breakeven_percentage: Option<i128>,
    pub type_: OptionSide,
}

/// The smallest integer `q` with `q * d >= a` (for `d > 0`).
pub open spec fn ceil_div(a: int, d: int) -> int {
    -((-a) / d)
}

/// `a` hundredths rounded up to a whole currency unit.
pub open spec fn round_up(a: int) -> int {
    ceil_div(a, 100) * 100
}

/// The distance of `be` from `spot` in hundredths of a percent of `spot`,
/// truncated; undefined at a zero spot.
pub open spec fn distance_percent(be: int, spot: int) -> Option<int> {
    if spot == 0 {
        None
    } else {
        Some(abs(be - spot) * 10000 / spot)
    }
}

pub open spec fn spread_width(sell: Quote, buy: Quote, lot: int) -> int {
    abs(buy.strike - sell.strike) * lot
}

pub open spec fn net_credit(sell: Quote, buy: Quote, lot: int) -> int {
    (sell.ltp - buy.ltp) * lot
}

/// The breakeven, rounded up: the sold strike plus the credit per unit for
/// calls, the bought strike minus it for puts.
pub open spec fn breakeven(sell: Quote, buy: Quote) -> int {
    match sell.side {
        OptionSide::Call => round_up(sell.strike + (sell.ltp - buy.ltp)),
        OptionSide::Put => round_up(buy.strike - (sell.ltp - buy.ltp)),
    }
}

/// The spot price of the lower of the two strikes.
pub open spec fn reference_spot(sell: Quote, buy: Quote) -> int {
    match sell.side {
        OptionSide::Call => sell.spot as int,
        OptionSide::Put => buy.spot as int,
    }
}

/// The spread that sells `sell` and buys `buy`, `lot` units per contract.
pub open spec fn score(sell: Quote, buy: Quote, lot: int) -> CreditSpread {
    let width = spread_width(sell, buy, lot);
    let credit = net_credit(sell, buy, lot);
    let be = breakeven(sell, buy);
    CreditSpread {
        sell_strike: sell.strike,
        buy_strike: buy.strike,
        spread: width as i128,
        net_credit: credit as i128,
        max_profit: round_up(credit) as i128,
        max_loss: round_up(width - credit) as i128,
        breakeven: be as i128,
        breakeven_percentage: match distance_percent(be, reference_spot(sell, buy)) {
            Some(d) => Some(d as i128),
            None => None,
        },
        type_: sell.side,
    }
}

const U64_MAX: i128 = 0xffff_ffff_ffff_ffff;

const U32_MAX: i128 = 0xffff_ffff;

fn round_up_exec(a: i128) -> (r: i128)
    requires
        -0x1_0000_0000_0000_0000_0000_0000_0000 <= a <= 0x1_0000_0000_0000_0000_0000_0000_0000,
    ensures
        r as int == round_up(a as int),
{
    if a >= 0 {
        let q = ((a as u128 + 99) / 100) as i128;
        proof {
            let q0 = (a + 99) / 100;
            let r0 = (a + 99) % 100;
            assert(a + 99 == 100 * q0 + r0 && 0 <= r0 < 100);
            assert(-(a as int) == 100 * (-q0) + (99 - r0));
            assert((-(a as int)) / 100 == -q0) by {
                vstd::arithmetic::div_mod::lemma_fundamental_div_mod_converse(
                    -(a as int),
                    100,
                    -q0,
                    99 - r0,
                );
            }
        }
        q * 100
    } else {
        let q = ((-a) as u128 / 100) as i128;
        -(q * 100)
    }
}

fn distance_percent_exec(be: i128, spot: u64) -> (r: Option<i128>)
    requires
        -0x1_0000_0000_0000_0000_0000 <= be <= 0x1_0000_0000_0000_0000_0000,
    ensures
        r == (match distance_percent(be as int, spot as int) {
            Some(d) => Some(d as i128),
            None => None,
        }),
{
    if spot == 0 {
        None
    } else {
        let s = spot as i128;
        let gap: u128 = if be >= s {
            (be - s) as u128
        } else {
            (s - be) as u128
        };
        let d = gap * 10000 / (spot as u128);
        assert(d <= gap * 10000) by {
            vstd::arithmetic::div_mod::lemma_div_is_ordered_by_denominator(
                (gap * 10000) as int,
                1,
                spot as int,
            );
        }
        Some(d as i128)
    }
}

/// Scores the spread that sells `sell` and buys `buy`, `lot` units per contract.
pub fn score_spread(sell: Quote, buy: Quote, lot: u32) -> (r: CreditSpread)
    ensures
        r == score(sell, buy, lot as int),
{
    let l = lot as i128;
    let gap: i128 = if buy.strike >= sell.strike {
        buy.strike as i128 - sell.strike as i128
    } else {
        sell.strike as i128 - buy.strike as i128
    };
    let diff: i128 = sell.ltp as i128 - buy.ltp as i128;
    assert(0 <= gap * l <= U64_MAX * U32_MAX) by (nonlinear_arith)
        requires
            0 <= gap <= U64_MAX,
            0 <= l <= U32_MAX,
    ;
    assert(-U64_MAX * U32_MAX <= diff * l <= U64_MAX * U32_MAX) by (nonlinear_arith)
        requires
            -U64_MAX <= diff <= U64_MAX,
            0 <= l <= U32_MAX,
    ;
    let width = gap * l;
    let credit = diff * l;
    let max_profit = round_up_exec(credit);
    let max_loss = round_up_exec(width - credit);
    let be = match sell.side {
        OptionSide::Call => round_up_exec(sell.strike as i128 + diff),
        OptionSide::Put => round_up_exec(buy.strike as i128 - diff),
    };
    let spot = match sell.side {
        OptionSide::Call => sell.spot,
        OptionSide::Put => buy.spot,
    };
    let pct = distance_percent_exec(be, spot);
    CreditSpread {
        sell_strike: sell.strike,
        buy_strike: buy.strike,
        spread: width,
        net_credit: credit,
        max_profit,
        max_loss,
        breakeven: be,
        breakeven_percentage: pct,
        type_: sell.side,
    }
}

/// Nearness to the money: the lower strike for calls, the higher for puts.
impl Ranked for Quote {
    open spec fn rank(&self) -> int {
        match self.side {
            OptionSide::Call => -(self.strike as int),
            OptionSide::Put => self.strike as int,
        }
    }

    fn rank_of(&self) -> (r: i128) {
        match self.side {
            OptionSide::Call => -(self.strike as i128),
            OptionSide::Put => self.strike as i128,
        }
    }
}

/// The breakeven distance; a spread without one ranks below every distance
/// that scoring gives.
impl Ranked for CreditSpread {
    open spec fn rank(&self) -> int {
        match self.breakeven_percentage {
            Some(d) => d as int,
            None => -1,
        }
    }

    fn rank_of(&self) -> (r: i128) {
        match self.breakeven_percentage {
            Some(d) => d,
            None => -1,
        }
    }
}

/// `far` lies strictly farther from the money than `near`, on `near`'s side.
pub open spec fn farther(near: Quote, far: Quote) -> bool {
    match near.side {
        OptionSide::Call => far.strike > near.strike,
        OptionSide::Put => far.strike < near.strike,
    }
}

/// The spreads that sell `q[i]` and buy one of `q[i + 1 .. j]` lying farther
/// out, in the order of `q`.
pub open spec fn row(q: Seq<Quote>, i: int, j: int, lot: int) -> Seq<CreditSpread>
    decreases j - i,
{
    if j <= i + 1 {
        Seq::empty()
    } else {
        let before = row(q, i, j - 1, lot);
        if farther(q[i], q[j - 1]) {
            before.push(score(q[i], q[j - 1], lot))
        } else {
            before
        }
    }
}

/// The rows of the first `i` quotes of `q`, one after another.
pub open spec fn rows(q: Seq<Quote>, i: int, lot: int) -> Seq<CreditSpread>
    decreases i,
{
    if i <= 0 {
        Seq::empty()
    } else {
        rows(q, i - 1, lot) + row(q, i - 1, q.len() as int, lot)
    }
}

/// Every spread that sells one quote of `q` and buys a later one lying
/// farther from the money: by sold quote, then by bought quote, in the order
/// of `q`.
pub open spec fn generated(q: Seq<Quote>, lot: int) -> Seq<CreditSpread> {
    rows(q, q.len() as int, lot)
}

/// Scores every pair of `quotes` (ordered nearest the money first) that sells
/// a quote and buys a later, farther one.
pub fn generate_spreads(quotes: &Vec<Quote>, lot: u32) -> (r: Vec<CreditSpread>)
    ensures
        r@ == generated(quotes@, lot as int),
{
    let n = quotes.len();
    let mut out: Vec<CreditSpread> = Vec::new();
    let mut i: usize = 0;
    while i < n
        invariant
            n == quotes@.len(),
            i <= n,
            out@ == rows(quotes@, i as int, lot as int),
        decreases n - i,
    {
        let ghost start = out@;
        let near = quotes[i];
        let mut j: usize = i + 1;
        while j < n
            invariant
                n == quotes@.len(),
                i < n,
                i + 1 <= j <= n,
                near == quotes@[i as int],
                out@ == start + row(quotes@, i as int, j as int, lot as int),
            decreases n - j,
        {
            let far = quotes[j];
            let is_farther = match near.side {
                OptionSide::Call => far.strike > near.strike,
                OptionSide::Put => far.strike < near.strike,
            };
            if is_farther {
                out.push(score_spread(near, far, lot));
            }
            proof {
                let before = row(quotes@, i as int, j as int, lot as int);
                if is_farther {
                    assert(start + before.push(score(near, far, lot as int)) =~= (start
                        + before).push(score(near, far, lot as int)));
                }
            }
            j += 1;
        }
        i += 1;
    }
    out
}

/// The maximum loss is at most `RISK_REWARD_MULTIPLE` times the maximum profit.
pub open spec fn favourable(c: CreditSpread) -> bool {
    c.max_loss <= RISK_REWARD_MULTIPLE * c.max_profit
}

/// The favourable spreads of `s`, in order.
pub open spec fn favourable_only(s: Seq<CreditSpread>) -> Seq<CreditSpread>
    decreases s.len(),
{
    if s.len() == 0 {
        s
    } else {
        let rest = favourable_only(s.drop_last());
        if favourable(s.last()) {
            rest.push(s.last())
        } else {
            rest
        }
    }
}

/// Whether the spread passes the risk/reward screen.
pub fn is_favourable(c: &CreditSpread) -> (r: bool)
    ensures
        r == favourable(*c),
{
    match c.max_profit.checked_mul(RISK_REWARD_MULTIPLE) {
        Some(limit) => c.max_loss <= limit,
        None => c.max_profit > 0,
    }
}

/// The spreads of `spreads` that pass the risk/reward screen, in order.
pub fn retain_favourable(spreads: &Vec<CreditSpread>) -> (r: Vec<CreditSpread>)
    ensures
        r@ == favourable_only(spreads@),
{
    let mut out: Vec<CreditSpread> = Vec::new();
    let mut i: usize = 0;
    while i < spreads.len()
        invariant
            i <= spreads@.len(),
            out@ == favourable_only(spreads@.subrange(0, i as int)),
        decreases spreads@.len() - i,
    {
        assert(spreads@.subrange(0, i + 1).drop_last() =~= spreads@.subrange(0, i as int));
        if is_favourable(&spreads[i]) {
            out.push(spreads[i]);
        }
        i += 1;
    }
    assert(spreads@.subrange(0, i as int) =~= spreads@);
    out
}

} // verus!
