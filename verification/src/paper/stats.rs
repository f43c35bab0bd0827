//! Totals over the closed trades.
use vstd::prelude::*;
use vstd::arithmetic::power2::lemma_pow2_pos;

use crate::numeric::Double;
use crate::numeric::order::{
    law_integer_is_a_number, law_nearest_exists, law_quotient_by_one, law_quotient_keeps_sign,
    law_rounding_keeps_doubles, law_self_ratio_is_one, law_sum_commutes, law_sum_keeps_order,
    law_sum_of_one_value, law_sum_with_zero, lemma_sum_is_not_negative,
};
use crate::numeric::rounding::magnitude;
use crate::paper::simulator::{ClosedTrade, PaperSimulator};
use crate::probability::edge::Direction;
use crate::risk::engine::RiskEngine;

verus! {

/// Sums over trades; those that are suspicious are only counted.
#[derive(Clone, Copy, Debug)]
pub struct Tally {
    pub total_pnl: Double,
    pub wins_sum: Double,
    pub losses_sum: Double,
    pub best_trade: Double,
    pub worst_trade: Double,
    pub edge_sum: Double,
    pub hold_sum_ms: u64,
    pub win_count: u64,
    pub loss_count: u64,
    pub suspicious_count: u64,
    pub yes_trades: u64,
    pub yes_wins: u64,
    pub no_trades: u64,
    pub no_wins: u64,
}

impl Tally {
    /// No trades.
    pub open spec fn empty() -> Tally {
        Tally {
            total_pnl: Double::zero(),
            wins_sum: Double::zero(),
            losses_sum: Double::zero(),
            best_trade: Double::zero(),
            worst_trade: Double::zero(),
            edge_sum: Double::zero(),
            hold_sum_ms: 0,
            win_count: 0,
            loss_count: 0,
            suspicious_count: 0,
            yes_trades: 0,
            yes_wins: 0,
            no_trades: 0,
            no_wins: 0,
        }
    }

    /// One more trade.
    pub open spec fn with(self, trade: ClosedTrade) -> Tally {
        let pnl = trade.pnl_usd;
        let won = pnl.ge(Double::zero());
        let yes = trade.direction == Direction::Yes;
        if trade.is_suspicious {
            Tally { suspicious_count: (self.suspicious_count + 1) as u64, ..self }
        } else {
            Tally {
                total_pnl: self.total_pnl.add(pnl),
                wins_sum: if won {
                    self.wins_sum.add(pnl)
                } else {
                    self.wins_sum
                },
                losses_sum: if won {
                    self.losses_sum
                } else {
                    self.losses_sum.add(pnl)
                },
                best_trade: if won && pnl.gt(self.best_trade) {
                    pnl
                } else {
                    self.best_trade
                },
                worst_trade: if !won && pnl.lt(self.worst_trade) {
                    pnl
                } else {
                    self.worst_trade
                },
                edge_sum: self.edge_sum.add(trade.edge_pct),
                hold_sum_ms: (self.hold_sum_ms + trade.hold_duration_ms) as u64,
                win_count: (self.win_count + if won { 1int } else { 0 }) as u64,
                loss_count: (self.loss_count + if won { 0int } else { 1 }) as u64,
                yes_trades: (self.yes_trades + if yes { 1int } else { 0 }) as u64,
                yes_wins: (self.yes_wins + if yes && won { 1int } else { 0 }) as u64,
                no_trades: (self.no_trades + if yes { 0int } else { 1 }) as u64,
                no_wins: (self.no_wins + if !yes && won { 1int } else { 0 }) as u64,
                ..self
            }
        }
    }

    /// The sums over trades, from the first on.
    pub open spec fn of(trades: Seq<ClosedTrade>) -> Tally
        decreases trades.len(),
    {
        if trades.len() == 0 {
            Tally::empty()
        } else {
            Tally::of(trades.drop_last()).with(trades.last())
        }
    }
}

/// The time that the trades that count were held, together.
pub open spec fn held_ms(trades: Seq<ClosedTrade>) -> nat
    decreases trades.len(),
{
    if trades.len() == 0 {
        0
    } else {
        let before = held_ms(trades.drop_last());
        if trades.last().is_suspicious {
            before
        } else {
            before + trades.last().hold_duration_ms as nat
        }
    }
}

proof fn lemma_held_grows(trades: Seq<ClosedTrade>, n: int)
    requires
        0 <= n <= trades.len(),
    ensures
        held_ms(trades.take(n)) <= held_ms(trades),
    decreases trades.len() - n,
{
    if n < trades.len() {
        lemma_held_grows(trades, n + 1);
        assert(trades.take(n + 1).drop_last() =~= trades.take(n));
    } else {
        assert(trades.take(n) =~= trades);
    }
}

/// Adds up trades; nothing where the time they were held does not fit into 64 bits.
pub fn tally(trades: &Vec<ClosedTrade>) -> (r: Option<Tally>)
    ensures
        r == if held_ms(trades@) <= u64::MAX {
            Some(Tally::of(trades@))
        } else {
            None
        },
{
    let mut t: Tally = Tally {
        total_pnl: Double::zero(),
        wins_sum: Double::zero(),
        losses_sum: Double::zero(),
        best_trade: Double::zero(),
        worst_trade: Double::zero(),
        edge_sum: Double::zero(),
        hold_sum_ms: 0,
        win_count: 0,
        loss_count: 0,
        suspicious_count: 0,
        yes_trades: 0,
        yes_wins: 0,
        no_trades: 0,
        no_wins: 0,
    };
    let mut i: usize = 0;
    while i < trades.len()
        invariant
            i <= trades@.len(),
            t == Tally::of(trades@.take(i as int)),
            t.hold_sum_ms == held_ms(trades@.take(i as int)),
            t.win_count + t.loss_count + t.suspicious_count == i,
            t.yes_trades + t.no_trades == t.win_count + t.loss_count,
            t.yes_wins + t.no_wins == t.win_count,
        decreases trades@.len() - i,
    {
        let trade: &ClosedTrade = &trades[i];
        proof {
            assert(trades@.take(i + 1).drop_last() =~= trades@.take(i as int));
            lemma_held_grows(trades@, i + 1);
        }
        i = i + 1;
        if trade.is_suspicious {
            t.suspicious_count = t.suspicious_count + 1;
            continue;
        }
        if trade.hold_duration_ms > u64::MAX - t.hold_sum_ms {
            return None;
        }
        let pnl: Double = trade.pnl_usd;
        let won: bool = pnl.ge(Double::zero());
        t.total_pnl = t.total_pnl.add(pnl);
        if won {
            t.wins_sum = t.wins_sum.add(pnl);
            t.win_count = t.win_count + 1;
            if pnl.gt(t.best_trade) {
                t.best_trade = pnl;
            }
        } else {
            t.losses_sum = t.losses_sum.add(pnl);
            t.loss_count = t.loss_count + 1;
            if pnl.lt(t.worst_trade) {
                t.worst_trade = pnl;
            }
        }
        t.edge_sum = t.edge_sum.add(trade.edge_pct);
        t.hold_sum_ms = t.hold_sum_ms + trade.hold_duration_ms;
        match trade.direction {
            Direction::Yes => {
                t.yes_trades = t.yes_trades + 1;
                if won {
                    t.yes_wins = t.yes_wins + 1;
                }
            },
            Direction::No => {
                t.no_trades = t.no_trades + 1;
                if won {
                    t.no_wins = t.no_wins + 1;
                }
            },
        }
    }
    assert(trades@.take(i as int) =~= trades@);
    Some(t)
}

/// The totals that are published.
#[derive(Clone, Copy, Debug)]
pub struct PaperStats {
    pub total_pnl: Double,
    pub win_count: u64,
    pub loss_count: u64,
    pub trade_count: u64,
    pub suspicious_count: u64,
    pub open_positions: u64,
    pub consecutive_losses: u32,
    pub cooldown_until_ms: u64,
    pub avg_win: Double,
    pub avg_loss: Double,
    pub best_trade: Double,
    pub worst_trade: Double,
    pub edge_avg: Double,
    pub avg_hold_secs: Double,
    pub yes_trades: u64,
    pub yes_wins: u64,
    pub no_trades: u64,
    pub no_wins: u64,
}

/// A sum over a count; zero where there is nothing to count.
pub open spec fn average_of(sum: Double, count: u64) -> Double {
    if count > 0 {
        sum.div(Double::from_u64(count))
    } else {
        Double::zero()
    }
}

fn average(sum: Double, count: u64) -> (r: Double)
    ensures
        r == average_of(sum, count),
{
    if count > 0 {
        sum.div(Double::from_u64(count))
    } else {
        Double::zero()
    }
}

impl PaperStats {
    /// The totals of a tally, with the state of the simulator and the risk engine.
    pub open spec fn of(
        t: Tally,
        open_positions: nat,
        consecutive_losses: u32,
        cooldown_until_ms: Option<u64>,
    ) -> PaperStats {
        let trade_count = (t.win_count + t.loss_count) as u64;
        PaperStats {
            total_pnl: t.total_pnl,
            win_count: t.win_count,
            loss_count: t.loss_count,
            trade_count,
            suspicious_count: t.suspicious_count,
            open_positions: open_positions as u64,
            consecutive_losses,
            cooldown_until_ms: match cooldown_until_ms {
                Some(ms) => ms,
                None => 0,
            },
            avg_win: average_of(t.wins_sum, t.win_count),
            avg_loss: average_of(t.losses_sum, t.loss_count),
            best_trade: t.best_trade,
            worst_trade: t.worst_trade,
            edge_avg: average_of(t.edge_sum, trade_count),
            avg_hold_secs: if trade_count > 0 {
                average_of(Double::from_u64(t.hold_sum_ms), trade_count).div(
                    Double::from_u64(1000),
                )
            } else {
                Double::zero()
            },
            yes_trades: t.yes_trades,
            yes_wins: t.yes_wins,
            no_trades: t.no_trades,
            no_wins: t.no_wins,
        }
    }

    /// Computes the totals; nothing where the time that trades were held does not fit
    /// into 64 bits.
    pub fn compute(simulator: &PaperSimulator, risk: &RiskEngine) -> (r: Option<PaperStats>)
        ensures
            r == if held_ms(simulator@.closed_trades) <= u64::MAX {
                Some(
                    PaperStats::of(
                        Tally::of(simulator@.closed_trades),
                        simulator@.positions.len(),
                        risk@.consecutive_losses,
                        risk@.cooldown_until_ms,
                    ),
                )
            } else {
                None
            },
    {
        let t: Tally = match tally(&simulator.closed_trades) {
            Some(t) => t,
            None => return None,
        };
        let recorded: usize = simulator.closed_trades.len();
        proof {
            assert(recorded == simulator@.closed_trades.len());
            law_every_trade_counts_once(simulator@.closed_trades);
        }
        let trade_count: u64 = t.win_count + t.loss_count;
        Some(
            PaperStats {
                total_pnl: t.total_pnl,
                win_count: t.win_count,
                loss_count: t.loss_count,
                trade_count,
                suspicious_count: t.suspicious_count,
                open_positions: simulator.positions.len() as u64,
                consecutive_losses: risk.consecutive_losses,
                cooldown_until_ms: match risk.cooldown_until_ms {
                    Some(ms) => ms,
                    None => 0,
                },
                avg_win: average(t.wins_sum, t.win_count),
                avg_loss: average(t.losses_sum, t.loss_count),
                best_trade: t.best_trade,
                worst_trade: t.worst_trade,
                edge_avg: average(t.edge_sum, trade_count),
                avg_hold_secs: if trade_count > 0 {
                    average(Double::from_u64(t.hold_sum_ms), trade_count).div(
                        Double::from_u64(1000),
                    )
                } else {
                    Double::zero()
                },
                yes_trades: t.yes_trades,
                yes_wins: t.yes_wins,
                no_trades: t.no_trades,
                no_wins: t.no_wins,
            },
        )
    }
}

/// Every trade counts once, as won, lost or suspicious; those that are won or lost
/// count once by direction, and so do those that are won.
pub proof fn law_every_trade_counts_once(trades: Seq<ClosedTrade>)
    requires
        trades.len() <= u64::MAX,
    ensures
        ({
            let t = Tally::of(trades);
            &&& t.win_count + t.loss_count + t.suspicious_count == trades.len()
            &&& t.yes_trades + t.no_trades == t.win_count + t.loss_count
            &&& t.yes_wins + t.no_wins == t.win_count
        }),
    decreases trades.len(),
{
    if trades.len() > 0 {
        law_every_trade_counts_once(trades.drop_last());
    }
}

/// Of the trades that are not suspicious, the best makes at least as much as each, and the
/// worst at most as much; neither crosses zero.
pub proof fn law_best_and_worst_bound_every_trade(trades: Seq<ClosedTrade>, i: int)
    requires
        forall|j: int| 0 <= j < trades.len() ==> !(#[trigger] trades[j]).pnl_usd.is_nan(),
        0 <= i < trades.len(),
    ensures
        ({
            let t = Tally::of(trades);
            &&& !t.best_trade.is_nan()
            &&& !t.worst_trade.is_nan()
            &&& t.worst_trade.value() <= 0 <= t.best_trade.value()
            &&& !trades[i].is_suspicious ==> t.worst_trade.value() <= trades[i].pnl_usd.value()
                <= t.best_trade.value()
        }),
    decreases trades.len(),
{
    reveal(Double::spec_lt);
    reveal(Double::spec_equals);
    assert(magnitude(0) == 0);
    let front = trades.drop_last();
    assert forall|j: int| 0 <= j < front.len() implies !(#[trigger] front[j]).pnl_usd.is_nan() by {
        assert(!trades[j].pnl_usd.is_nan());
    }
    assert(!trades[trades.len() - 1].pnl_usd.is_nan());
    if i < front.len() {
        law_best_and_worst_bound_every_trade(front, i);
    } else if front.len() > 0 {
        law_best_and_worst_bound_every_trade(front, 0);
    }
}

/// The best and the worst trade are trades, or zero.
pub proof fn law_best_and_worst_are_trades(trades: Seq<ClosedTrade>)
    ensures
        ({
            let t = Tally::of(trades);
            &&& t.best_trade == Double::zero() || exists|j: int|
                0 <= j < trades.len() && !(#[trigger] trades[j]).is_suspicious && t.best_trade
                    == trades[j].pnl_usd
            &&& t.worst_trade == Double::zero() || exists|j: int|
                0 <= j < trades.len() && !(#[trigger] trades[j]).is_suspicious && t.worst_trade
                    == trades[j].pnl_usd
        }),
    decreases trades.len(),
{
    if trades.len() > 0 {
        let front = trades.drop_last();
        law_best_and_worst_are_trades(front);
        let (t, before) = (Tally::of(trades), Tally::of(front));
        assert(trades[trades.len() - 1] == trades.last());
        if t.best_trade == before.best_trade && t.best_trade != Double::zero() {
            let j = choose|j: int|
                0 <= j < front.len() && !(#[trigger] front[j]).is_suspicious && t.best_trade
                    == front[j].pnl_usd;
            assert(trades[j] == front[j]);
        }
        if t.worst_trade == before.worst_trade && t.worst_trade != Double::zero() {
            let j = choose|j: int|
                0 <= j < front.len() && !(#[trigger] front[j]).is_suspicious && t.worst_trade
                    == front[j].pnl_usd;
            assert(trades[j] == front[j]);
        }
    }
}

/// Trades are counted by what they are: as won where they made nothing or more, as lost where
/// they made less, and by the side that they bet on; suspicious ones only as such.
pub proof fn law_trades_are_counted_by_kind(trades: Seq<ClosedTrade>)
    requires
        trades.len() <= u64::MAX,
        forall|j: int| 0 <= j < trades.len() ==> !(#[trigger] trades[j]).pnl_usd.is_nan(),
    ensures
        ({
            let t = Tally::of(trades);
            &&& t.win_count == trades.filter(
                |x: ClosedTrade| !x.is_suspicious && x.pnl_usd.value() >= 0,
            ).len()
            &&& t.loss_count == trades.filter(
                |x: ClosedTrade| !x.is_suspicious && x.pnl_usd.value() < 0,
            ).len()
            &&& t.suspicious_count == trades.filter(|x: ClosedTrade| x.is_suspicious).len()
            &&& t.yes_trades == trades.filter(
                |x: ClosedTrade| !x.is_suspicious && x.direction == Direction::Yes,
            ).len()
            &&& t.no_trades == trades.filter(
                |x: ClosedTrade| !x.is_suspicious && x.direction == Direction::No,
            ).len()
            &&& t.yes_wins == trades.filter(
                |x: ClosedTrade|
                    !x.is_suspicious && x.direction == Direction::Yes && x.pnl_usd.value() >= 0,
            ).len()
            &&& t.no_wins == trades.filter(
                |x: ClosedTrade|
                    !x.is_suspicious && x.direction == Direction::No && x.pnl_usd.value() >= 0,
            ).len()
        }),
    decreases trades.len(),
{
    reveal(Seq::filter);
    reveal(Double::spec_lt);
    reveal(Double::spec_equals);
    assert(magnitude(0) == 0);
    if trades.len() > 0 {
        let front = trades.drop_last();
        assert forall|j: int| 0 <= j < front.len() implies !(
        #[trigger] front[j]).pnl_usd.is_nan() by {
            assert(!trades[j].pnl_usd.is_nan());
        }
        assert(!trades[trades.len() - 1].pnl_usd.is_nan());
        law_trades_are_counted_by_kind(front);
        law_every_trade_counts_once(front);
    }
}

/// Gains and losses do not mix: the sum of what was won is not below zero, the sum of what
/// was lost not above, and so are their averages.
pub proof fn law_gains_and_losses_keep_their_sign(
    trades: Seq<ClosedTrade>,
    open_positions: nat,
    consecutive_losses: u32,
    cooldown_until_ms: Option<u64>,
)
    requires
        forall|j: int| 0 <= j < trades.len() ==> (#[trigger] trades[j]).pnl_usd.is_finite(),
        Tally::of(trades).wins_sum.is_finite(),
        Tally::of(trades).losses_sum.is_finite(),
    ensures
        ({
            let t = Tally::of(trades);
            let s = PaperStats::of(t, open_positions, consecutive_losses, cooldown_until_ms);
            &&& t.losses_sum.value() <= 0 <= t.wins_sum.value()
            &&& s.avg_loss.value() <= 0 <= s.avg_win.value()
            &&& s.win_count == 1 && t.win_count == 1 ==> s.avg_win == t.wins_sum
            &&& s.loss_count == 1 && t.loss_count == 1 ==> s.avg_loss == t.losses_sum
            &&& s.total_pnl == t.total_pnl
            &&& s.trade_count == (t.win_count + t.loss_count) as u64
            &&& s.best_trade == t.best_trade
            &&& s.worst_trade == t.worst_trade
            &&& s.consecutive_losses == consecutive_losses
        }),
{
    let t = Tally::of(trades);
    lemma_sums_have_a_sign(trades);
    assert(magnitude(0) == 0);
    lemma_pow2_pos(1074);
    law_integer_is_a_number(t.win_count);
    law_integer_is_a_number(t.loss_count);
    if t.win_count > 0 {
        law_quotient_keeps_sign(t.wins_sum, Double::from_u64(t.win_count));
    }
    if t.loss_count > 0 {
        law_quotient_keeps_sign(t.losses_sum, Double::from_u64(t.loss_count));
    }
    law_self_ratio_is_one(1);
    law_quotient_by_one(t.wins_sum);
    law_quotient_by_one(t.losses_sum);
}

proof fn lemma_sums_have_a_sign(trades: Seq<ClosedTrade>)
    requires
        forall|j: int| 0 <= j < trades.len() ==> (#[trigger] trades[j]).pnl_usd.is_finite(),
    ensures
        !Tally::of(trades).wins_sum.is_nan(),
        !Tally::of(trades).losses_sum.is_nan(),
        Tally::of(trades).losses_sum.value() <= 0 <= Tally::of(trades).wins_sum.value(),
    decreases trades.len(),
{
    reveal(Double::spec_lt);
    reveal(Double::spec_equals);
    assert(magnitude(0) == 0);
    if trades.len() > 0 {
        let front = trades.drop_last();
        assert forall|j: int| 0 <= j < front.len() implies (
        #[trigger] front[j]).pnl_usd.is_finite() by {
            assert(trades[j].pnl_usd.is_finite());
        }
        lemma_sums_have_a_sign(front);
        let pnl = trades[trades.len() - 1].pnl_usd;
        let before = Tally::of(front);
        if pnl.value() >= 0 {
            lemma_sum_is_not_negative(before.wins_sum, pnl);
        } else {
            law_sum_keeps_order(before.losses_sum, Double::zero(), pnl);
            law_sum_commutes(Double::zero(), pnl);
            law_sum_with_zero(pnl);
        }
    }
}

/// A suspicious trade is counted as such and changes nothing else.
pub proof fn law_suspicious_trades_do_not_count(trades: Seq<ClosedTrade>, trade: ClosedTrade)
    requires
        trade.is_suspicious,
        trades.len() < u64::MAX,
    ensures
        ({
            let (a, b) = (Tally::of(trades), Tally::of(trades.push(trade)));
            &&& b.suspicious_count == a.suspicious_count + 1
            &&& b == (Tally { suspicious_count: b.suspicious_count, ..a })
            &&& held_ms(trades.push(trade)) == held_ms(trades)
        }),
{
    assert(trades.push(trade).drop_last() =~= trades);
    law_every_trade_counts_once(trades);
}

/// A lone trade is its own total and its own average.
pub proof fn law_lone_trade_is_its_own_average(
    trade: ClosedTrade,
    open_positions: nat,
    consecutive_losses: u32,
    cooldown_until_ms: Option<u64>,
)
    requires
        !trade.is_suspicious,
        trade.pnl_usd.is_finite(),
        trade.edge_pct.is_finite(),
        open_positions <= u64::MAX,
    ensures
        ({
            let s = PaperStats::of(
                Tally::of(seq![trade]),
                open_positions,
                consecutive_losses,
                cooldown_until_ms,
            );
            &&& s.trade_count == 1
            &&& s.total_pnl.value() == trade.pnl_usd.value()
            &&& s.edge_avg.value() == trade.edge_pct.value()
            &&& s.avg_hold_secs == Double::from_u64(trade.hold_duration_ms).div(
                Double::from_u64(1000),
            )
            &&& s.avg_win.value() + s.avg_loss.value() == trade.pnl_usd.value()
            &&& s.yes_trades == 1 <==> trade.direction == Direction::Yes
            &&& s.no_trades == 1 <==> trade.direction == Direction::No
            &&& s.yes_wins + s.no_wins == s.win_count
            &&& s.open_positions == open_positions
            &&& s.cooldown_until_ms == match cooldown_until_ms {
                Some(ms) => ms,
                None => 0,
            }
        }),
{
    reveal(Double::spec_lt);
    reveal(Double::spec_equals);
    assert(magnitude(0) == 0);
    let trades = seq![trade];
    assert(trades.drop_last() =~= Seq::<ClosedTrade>::empty());
    assert(Tally::of(Seq::<ClosedTrade>::empty()) == Tally::empty());
    let t = Tally::of(trades);
    assert(t == Tally::empty().with(trade));
    let zero = Double::zero();
    law_sum_commutes(zero, trade.pnl_usd);
    law_sum_commutes(zero, trade.edge_pct);
    law_sum_with_zero(trade.pnl_usd);
    law_sum_with_zero(trade.edge_pct);
    law_sum_of_one_value(zero, trade.pnl_usd);
    law_sum_of_one_value(zero, trade.edge_pct);
    law_self_ratio_is_one(1);
    lemma_sum_of_zero_is_finite(trade.pnl_usd);
    lemma_sum_of_zero_is_finite(trade.edge_pct);
    law_quotient_by_one(t.edge_sum);
    law_quotient_by_one(zero.add(trade.pnl_usd));
    law_integer_is_a_number(trade.hold_duration_ms);
    law_quotient_by_one(Double::from_u64(trade.hold_duration_ms));
}

/// Adding to zero leaves a finite number finite.
proof fn lemma_sum_of_zero_is_finite(a: Double)
    requires
        a.is_finite(),
    ensures
        Double::zero().add(a).is_finite(),
{
    reveal(Double::spec_add);
    assert(magnitude(0) == 0);
    law_rounding_keeps_doubles(a.pattern());
    law_nearest_exists(a.size(), 1);
}

/// The trades that count are held for as long as each of them together.
pub proof fn law_holding_times_add_up(trades: Seq<ClosedTrade>, more: Seq<ClosedTrade>)
    ensures
        held_ms(trades + more) == held_ms(trades) + held_ms(more),
        held_ms(trades) <= u64::MAX ==> Tally::of(trades).hold_sum_ms == held_ms(trades),
    decreases more.len(), trades.len(),
{
    if more.len() > 0 {
        law_holding_times_add_up(trades, more.drop_last());
        assert((trades + more).drop_last() =~= trades + more.drop_last());
        assert((trades + more).last() == more.last());
    } else {
        assert(trades + more =~= trades);
    }
    lemma_hold_sum(trades);
}

proof fn lemma_hold_sum(trades: Seq<ClosedTrade>)
    ensures
        held_ms(trades) <= u64::MAX ==> Tally::of(trades).hold_sum_ms == held_ms(trades),
    decreases trades.len(),
{
    if trades.len() > 0 {
        lemma_hold_sum(trades.drop_last());
    }
}

/// A trade that makes more makes no less of the total.
pub proof fn law_total_grows_with_a_trade(
    trades: Seq<ClosedTrade>,
    less: ClosedTrade,
    more: ClosedTrade,
)
    requires
        Tally::of(trades).total_pnl.is_finite(),
        !less.is_suspicious,
        !more.is_suspicious,
        less.pnl_usd.is_finite(),
        more.pnl_usd.is_finite(),
        less.pnl_usd.value() <= more.pnl_usd.value(),
    ensures
        Tally::of(trades.push(less)).total_pnl.value() <= Tally::of(
            trades.push(more),
        ).total_pnl.value(),
        more.pnl_usd.value() >= 0 ==> Tally::of(trades).total_pnl.value() <= Tally::of(
            trades.push(more),
        ).total_pnl.value(),
{
    assert(trades.push(less).drop_last() =~= trades);
    assert(trades.push(more).drop_last() =~= trades);
    let sum = Tally::of(trades).total_pnl;
    let zero = Double::zero();
    assert(magnitude(0) == 0);
    law_sum_keeps_order(less.pnl_usd, more.pnl_usd, sum);
    law_sum_commutes(sum, less.pnl_usd);
    law_sum_commutes(sum, more.pnl_usd);
    if more.pnl_usd.value() >= 0 {
        law_sum_keeps_order(zero, more.pnl_usd, sum);
        law_sum_commutes(sum, zero);
        law_sum_of_one_value(sum, zero);
    }
}

} // verus!
