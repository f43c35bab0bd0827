//! Open paper positions, the rules that close them, and what they made.
use vstd::prelude::*;
use vstd::arithmetic::power2::lemma_pow2_pos;

use crate::config::{AppConfig, PaperConfig};
use crate::market_data::state::{Btc5mMarket, MarketPhase, MarketState};
use crate::numeric::Double;
use crate::numeric::order::{
    law_difference_has_a_sign, law_difference_is_exact, law_difference_reaches,
    law_integer_is_a_number, law_integers_keep_order, law_product_has_no_value,
    law_product_keeps_order, law_product_keeps_sign, law_product_with_one, law_quotient_by_one,
    law_quotient_keeps_order, law_quotient_keeps_sign, law_quotient_of_no_value,
    law_ratio_up_to_one, law_self_quotient_is_one, law_sum_commutes, law_sum_keeps_order,
    law_sum_with_zero, law_swapped_difference_is_opposite, lemma_one,
};
use crate::numeric::rounding::magnitude;
use crate::probability::edge::Direction;
use crate::strategy::traits::{ExitReason, TradeSignal};
use crate::text::same_text;
use crate::time::{millis_of, now_millis};

verus! {

/// An open paper position.
#[derive(Debug)]
pub struct PaperPosition {
    pub market_id: String,
    pub direction: Direction,
    pub entry_price: Double,
    pub size_usd: Double,
    /// Size over entry price.
    pub share_qty: Double,
    pub entry_at_ms: u64,
    pub strategy_name: String,
    pub edge_pct: Double,
    pub profit_target_pct: Double,
    pub stop_loss_pct: Double,
    pub exit_before_final_secs: i64,
}

impl Clone for PaperPosition {
    fn clone(&self) -> (r: Self)
        ensures
            r == *self,
    {
        PaperPosition {
            market_id: self.market_id.clone(),
            direction: self.direction,
            entry_price: self.entry_price,
            size_usd: self.size_usd,
            share_qty: self.share_qty,
            entry_at_ms: self.entry_at_ms,
            strategy_name: self.strategy_name.clone(),
            edge_pct: self.edge_pct,
            profit_target_pct: self.profit_target_pct,
            stop_loss_pct: self.stop_loss_pct,
            exit_before_final_secs: self.exit_before_final_secs,
        }
    }
}

/// Why a trade looks like an artefact of bad data.
#[derive(Clone, Copy, Debug)]
pub enum SuspicionReason {
    /// Too much made or lost in too short a time.
    FastPnl { pnl_pct: Double, hold_secs: u64 },
    /// The entry price was close to zero or one.
    ExtremeEntry { entry_price: Double },
}

/// A completed paper trade.
#[derive(Debug)]
pub struct ClosedTrade {
    pub market_id: String,
    pub direction: Direction,
    pub entry_price: Double,
    pub exit_price: Double,
    pub size_usd: Double,
    pub pnl_usd: Double,
    pub pnl_pct: Double,
    pub hold_duration_ms: u64,
    pub exit_reason: ExitReason,
    pub strategy_name: String,
    pub edge_pct: Double,
    pub is_suspicious: bool,
    pub suspicious_reason: Option<SuspicionReason>,
}

impl Clone for ClosedTrade {
    fn clone(&self) -> (r: Self)
        ensures
            r == *self,
    {
        ClosedTrade {
            market_id: self.market_id.clone(),
            direction: self.direction,
            entry_price: self.entry_price,
            exit_price: self.exit_price,
            size_usd: self.size_usd,
            pnl_usd: self.pnl_usd,
            pnl_pct: self.pnl_pct,
            hold_duration_ms: self.hold_duration_ms,
            exit_reason: self.exit_reason,
            strategy_name: self.strategy_name.clone(),
            edge_pct: self.edge_pct,
            is_suspicious: self.is_suspicious,
            suspicious_reason: self.suspicious_reason,
        }
    }
}

/// The limits beyond which a trade is suspicious.
#[derive(Clone, Copy, Debug)]
pub struct PaperTradeValidator {
    pub max_realistic_pnl_pct: Double,
    pub max_hold_to_profit_ratio: Double,
}

#[derive(Clone, Copy, Debug)]
pub enum TradeValidity {
    Valid,
    Suspicious { reason: SuspicionReason },
}

impl PaperTradeValidator {
    /// What is wrong with a trade: first a gain or loss beyond the limit in less than the
    /// limit of seconds, then an entry price below five or above ninety-five cents.
    pub open spec fn suspicion(
        self,
        pnl_pct: Double,
        hold_duration_ms: u64,
        entry_price: Double,
    ) -> Option<SuspicionReason> {
        let hold_secs = hold_duration_ms / 1000;
        if pnl_pct.abs().gt(self.max_realistic_pnl_pct) && hold_secs
            < self.max_hold_to_profit_ratio.to_u64() {
            Some(SuspicionReason::FastPnl { pnl_pct: pnl_pct.abs(), hold_secs })
        } else if entry_price.lt(Double::ratio(5, 100)) || entry_price.gt(Double::ratio(95, 100)) {
            Some(SuspicionReason::ExtremeEntry { entry_price })
        } else {
            None
        }
    }

    pub fn validate_closed_trade(&self, trade: &ClosedTrade) -> (r: TradeValidity)
        ensures
            r == match self.suspicion(trade.pnl_pct, trade.hold_duration_ms, trade.entry_price) {
                Some(reason) => TradeValidity::Suspicious { reason },
                None => TradeValidity::Valid,
            },
    {
        let pnl_pct: Double = trade.pnl_pct.abs();
        let hold_secs: u64 = trade.hold_duration_ms / 1000;
        if pnl_pct.gt(self.max_realistic_pnl_pct) && hold_secs
            < self.max_hold_to_profit_ratio.to_u64() {
            return TradeValidity::Suspicious {
                reason: SuspicionReason::FastPnl { pnl_pct, hold_secs },
            };
        }
        if trade.entry_price.lt(Double::ratio(5, 100)) || trade.entry_price.gt(
            Double::ratio(95, 100),
        ) {
            return TradeValidity::Suspicious {
                reason: SuspicionReason::ExtremeEntry { entry_price: trade.entry_price },
            };
        }
        TradeValidity::Valid
    }
}

/// Open positions, closed trades and their totals.
pub struct PaperSimulator {
    /// In the order in which they were opened, no market twice.
    pub positions: Vec<PaperPosition>,
    pub closed_trades: Vec<ClosedTrade>,
    pub total_pnl_usd: Double,
    pub win_count: u64,
    pub loss_count: u64,
}

/// The contents of a simulator.
pub struct SimulatorView {
    pub positions: Seq<PaperPosition>,
    pub closed_trades: Seq<ClosedTrade>,
    pub total_pnl_usd: Double,
    pub win_count: u64,
    pub loss_count: u64,
}

impl View for PaperSimulator {
    type V = SimulatorView;

    open spec fn view(&self) -> SimulatorView {
        SimulatorView {
            positions: self.positions@,
            closed_trades: self.closed_trades@,
            total_pnl_usd: self.total_pnl_usd,
            win_count: self.win_count,
            loss_count: self.loss_count,
        }
    }
}

/// The place of a market's position; the number of positions where it has none.
pub open spec fn position_index(positions: Seq<PaperPosition>, market_id: Seq<char>) -> nat
    decreases positions.len(),
{
    if positions.len() == 0 || positions[0].market_id@ == market_id {
        0
    } else {
        1 + position_index(positions.drop_first(), market_id)
    }
}

/// No market has two positions.
pub open spec fn one_per_market(positions: Seq<PaperPosition>) -> bool {
    forall|i: int, j: int|
        0 <= i < j < positions.len() ==> (#[trigger] positions[i]).market_id@ != (
        #[trigger] positions[j]).market_id@
}

/// The sizes added up.
pub open spec fn exposure(positions: Seq<PaperPosition>) -> Double
    decreases positions.len(),
{
    if positions.len() == 0 {
        Double::negative_zero()
    } else {
        exposure(positions.drop_last()).add(positions.last().size_usd)
    }
}

/// The position that a signal opens at a time.
pub open spec fn position_of(signal: TradeSignal, now_ms: u64) -> PaperPosition {
    PaperPosition {
        market_id: signal.market_id,
        direction: signal.direction,
        entry_price: signal.target_entry_price,
        size_usd: signal.size_usd,
        share_qty: if signal.target_entry_price.gt(Double::zero()) {
            signal.size_usd.div(signal.target_entry_price)
        } else {
            Double::zero()
        },
        entry_at_ms: now_ms,
        strategy_name: signal.strategy_name,
        edge_pct: signal.edge_pct,
        profit_target_pct: signal.profit_target_pct,
        stop_loss_pct: signal.stop_loss_pct,
        exit_before_final_secs: signal.exit_before_final_secs,
    }
}

/// When and at what price a position is left: a position whose market is not the
/// active one leaves at its entry price; otherwise it leaves at the target, at the
/// stop, or near the end of the market.
pub open spec fn exit_of(pos: PaperPosition, market: Option<Btc5mMarket>) -> Option<
    (Double, ExitReason),
> {
    if market is None || market->0.slug@ != pos.market_id@ {
        Some((pos.entry_price, ExitReason::TimeExit))
    } else {
        let m = market->0;
        let price = match pos.direction {
            Direction::Yes => m.yes_price,
            Direction::No => m.no_price,
        };
        let profit = price.sub(pos.entry_price);
        if profit.ge(pos.profit_target_pct) {
            Some((price, ExitReason::ProfitTarget))
        } else if profit.le(pos.stop_loss_pct.neg()) {
            Some((price, ExitReason::StopLoss))
        } else if m.time_remaining_secs <= pos.exit_before_final_secs || m.phase
            == MarketPhase::Final || m.phase == MarketPhase::Settled {
            Some((price, ExitReason::TimeExit))
        } else {
            None
        }
    }
}

/// The trade that leaving a position at a price makes.
pub open spec fn trade_of(
    pos: PaperPosition,
    exit_price: Double,
    exit_reason: ExitReason,
    now_ms: u64,
    config: PaperConfig,
) -> ClosedTrade {
    let gain = exit_price.sub(pos.entry_price);
    let pnl_pct = if pos.entry_price.gt(Double::zero()) {
        gain.div(pos.entry_price).mul(Double::from_u64(100))
    } else {
        Double::zero()
    };
    let hold_duration_ms = if now_ms < pos.entry_at_ms {
        0
    } else {
        (now_ms - pos.entry_at_ms) as u64
    };
    let limits = PaperTradeValidator {
        max_realistic_pnl_pct: config.suspicious_pnl_threshold_pct,
        max_hold_to_profit_ratio: Double::from_u64(config.suspicious_hold_max_secs),
    };
    let suspicious_reason = if config.flag_suspicious_trades {
        limits.suspicion(pnl_pct, hold_duration_ms, pos.entry_price)
    } else {
        None
    };
    ClosedTrade {
        market_id: pos.market_id,
        direction: pos.direction,
        entry_price: pos.entry_price,
        exit_price,
        size_usd: pos.size_usd,
        pnl_usd: gain.mul(pos.share_qty),
        pnl_pct,
        hold_duration_ms,
        exit_reason,
        strategy_name: pos.strategy_name,
        edge_pct: pos.edge_pct,
        is_suspicious: suspicious_reason is Some,
        suspicious_reason,
    }
}

/// The positions that are not left.
pub open spec fn kept_positions(
    positions: Seq<PaperPosition>,
    market: Option<Btc5mMarket>,
) -> Seq<PaperPosition> {
    positions.filter(|p: PaperPosition| exit_of(p, market) is None)
}

/// The trades that the positions that are left make, in order.
pub open spec fn closing_trades(
    positions: Seq<PaperPosition>,
    market: Option<Btc5mMarket>,
    now_ms: u64,
    config: PaperConfig,
) -> Seq<ClosedTrade>
    decreases positions.len(),
{
    if positions.len() == 0 {
        Seq::empty()
    } else {
        let before = closing_trades(positions.drop_last(), market, now_ms, config);
        match exit_of(positions.last(), market) {
            Some((price, reason)) => before.push(
                trade_of(positions.last(), price, reason, now_ms, config),
            ),
            None => before,
        }
    }
}

impl SimulatorView {
    pub open spec fn has_position(self, market_id: Seq<char>) -> bool {
        exists|i: int|
            0 <= i < self.positions.len() && (#[trigger] self.positions[i]).market_id@ == market_id
    }

    /// A position takes the place of an earlier one in its market, or comes last.
    pub open spec fn with_position(self, pos: PaperPosition) -> SimulatorView {
        let i = position_index(self.positions, pos.market_id@);
        SimulatorView {
            positions: if i < self.positions.len() {
                self.positions.update(i as int, pos)
            } else {
                self.positions.push(pos)
            },
            ..self
        }
    }

    /// Trades are recorded in order, and those that are not suspicious are counted.
    pub open spec fn with_trades(self, trades: Seq<ClosedTrade>) -> SimulatorView
        decreases trades.len(),
    {
        if trades.len() == 0 {
            self
        } else {
            let before = self.with_trades(trades.drop_last());
            let trade = trades.last();
            let won = trade.pnl_usd.ge(Double::zero());
            SimulatorView {
                closed_trades: before.closed_trades.push(trade),
                total_pnl_usd: if trade.is_suspicious {
                    before.total_pnl_usd
                } else {
                    before.total_pnl_usd.add(trade.pnl_usd)
                },
                win_count: if !trade.is_suspicious && won {
                    (before.win_count + 1) as u64
                } else {
                    before.win_count
                },
                loss_count: if !trade.is_suspicious && !won {
                    (before.loss_count + 1) as u64
                } else {
                    before.loss_count
                },
                ..before
            }
        }
    }

    /// The simulator after every position that is to be left has been left.
    pub open spec fn after_exits(
        self,
        market: Option<Btc5mMarket>,
        now_ms: u64,
        config: PaperConfig,
    ) -> SimulatorView {
        let trades = closing_trades(self.positions, market, now_ms, config);
        SimulatorView {
            positions: kept_positions(self.positions, market),
            ..self.with_trades(trades)
        }
    }

    /// There is room to count one more trade for each open position.
    pub open spec fn can_count(self) -> bool {
        self.win_count + self.loss_count + self.positions.len() <= u64::MAX
    }
}

/// The share of trades that were won, in per cent; zero where there are none.
pub open spec fn win_share(won: u64, lost: u64) -> Double {
    if won + lost > 0 {
        Double::from_u64(won).div(Double::from_u64((won + lost) as u64)).mul(
            Double::from_u64(100),
        )
    } else {
        Double::zero()
    }
}

impl PaperSimulator {
    pub fn new() -> (r: Self)
        ensures
            r@ == (SimulatorView {
                positions: Seq::empty(),
                closed_trades: Seq::empty(),
                total_pnl_usd: Double::zero(),
                win_count: 0,
                loss_count: 0,
            }),
    {
        PaperSimulator {
            positions: Vec::new(),
            closed_trades: Vec::new(),
            total_pnl_usd: Double::zero(),
            win_count: 0,
            loss_count: 0,
        }
    }

    fn index_of(&self, market_id: &str) -> (r: usize)
        ensures
            r == position_index(self.positions@, market_id@),
            r <= self.positions@.len(),
            r < self.positions@.len() ==> self.positions@[r as int].market_id@ == market_id@,
            forall|j: int|
                0 <= j < r ==> (#[trigger] self.positions@[j]).market_id@ != market_id@,
    {
        let mut i: usize = 0;
        assert(self.positions@.skip(0) =~= self.positions@);
        while i < self.positions.len()
            invariant
                i <= self.positions@.len(),
                position_index(self.positions@, market_id@) == i + position_index(
                    self.positions@.skip(i as int),
                    market_id@,
                ),
                forall|j: int|
                    0 <= j < i ==> (#[trigger] self.positions@[j]).market_id@ != market_id@,
            decreases self.positions@.len() - i,
        {
            if same_text(self.positions[i].market_id.as_str(), market_id) {
                return i;
            }
            assert(self.positions@.skip(i as int).drop_first() =~= self.positions@.skip(i + 1));
            i = i + 1;
        }
        i
    }

    /// Whether a market has an open position.
    pub fn has_position(&self, market_id: &str) -> (r: bool)
        ensures
            r == self@.has_position(market_id@),
    {
        let i: usize = self.index_of(market_id);
        if i < self.positions.len() {
            assert(self@.positions[i as int].market_id@ == market_id@);
            true
        } else {
            false
        }
    }

    /// The sizes of all open positions together.
    pub fn total_exposure_usd(&self) -> (r: Double)
        ensures
            r == exposure(self@.positions),
    {
        let mut sum: Double = Double::negative_zero();
        let mut i: usize = 0;
        while i < self.positions.len()
            invariant
                i <= self.positions@.len(),
                sum == exposure(self.positions@.take(i as int)),
            decreases self.positions@.len() - i,
        {
            assert(self.positions@.take(i + 1).drop_last() =~= self.positions@.take(i as int));
            sum = sum.add(self.positions[i].size_usd);
            i = i + 1;
        }
        assert(self.positions@.take(i as int) =~= self.positions@);
        sum
    }

    /// Opens the position of a signal at a time.
    pub fn open_position_at(&mut self, signal: &TradeSignal, now_ms: u64) -> (r: PaperPosition)
        ensures
            r == position_of(*signal, now_ms),
            final(self)@ == old(self)@.with_position(r),
    {
        let entry_price: Double = signal.target_entry_price;
        let share_qty: Double = if entry_price.gt(Double::zero()) {
            signal.size_usd.div(entry_price)
        } else {
            Double::zero()
        };
        let position: PaperPosition = PaperPosition {
            market_id: signal.market_id.clone(),
            direction: signal.direction,
            entry_price,
            size_usd: signal.size_usd,
            share_qty,
            entry_at_ms: now_ms,
            strategy_name: signal.strategy_name.clone(),
            edge_pct: signal.edge_pct,
            profit_target_pct: signal.profit_target_pct,
            stop_loss_pct: signal.stop_loss_pct,
            exit_before_final_secs: signal.exit_before_final_secs,
        };
        let i: usize = self.index_of(signal.market_id.as_str());
        if i < self.positions.len() {
            self.positions.set(i, position.clone());
        } else {
            self.positions.push(position.clone());
        }
        position
    }

    /// Opens the position of a signal now.
    pub fn open_position(&mut self, signal: &TradeSignal) -> (r: PaperPosition)
        ensures
            exists|reading: Option<(u64, u32)>|
                r == position_of(*signal, #[trigger] millis_of(reading)),
            final(self)@ == old(self)@.with_position(r),
    {
        self.open_position_at(signal, now_millis())
    }

    fn exit_for(pos: &PaperPosition, market: &Option<Btc5mMarket>) -> (r: Option<
        (Double, ExitReason),
    >)
        ensures
            r == exit_of(*pos, *market),
    {
        let m: &Btc5mMarket = match market {
            Some(m) => m,
            None => return Some((pos.entry_price, ExitReason::TimeExit)),
        };
        if !same_text(m.slug.as_str(), pos.market_id.as_str()) {
            return Some((pos.entry_price, ExitReason::TimeExit));
        }
        let price: Double = match pos.direction {
            Direction::Yes => m.yes_price,
            Direction::No => m.no_price,
        };
        let profit: Double = price.sub(pos.entry_price);
        if profit.ge(pos.profit_target_pct) {
            return Some((price, ExitReason::ProfitTarget));
        }
        if profit.le(pos.stop_loss_pct.neg()) {
            return Some((price, ExitReason::StopLoss));
        }
        if m.time_remaining_secs <= pos.exit_before_final_secs || m.phase == MarketPhase::Final
            || m.phase == MarketPhase::Settled {
            return Some((price, ExitReason::TimeExit));
        }
        None
    }

    fn close(
        pos: &PaperPosition,
        exit_price: Double,
        exit_reason: ExitReason,
        now_ms: u64,
        config: &PaperConfig,
    ) -> (r: ClosedTrade)
        ensures
            r == trade_of(*pos, exit_price, exit_reason, now_ms, *config),
    {
        let gain: Double = exit_price.sub(pos.entry_price);
        let pnl_pct: Double = if pos.entry_price.gt(Double::zero()) {
            gain.div(pos.entry_price).mul(Double::from_u64(100))
        } else {
            Double::zero()
        };
        let mut trade: ClosedTrade = ClosedTrade {
            market_id: pos.market_id.clone(),
            direction: pos.direction,
            entry_price: pos.entry_price,
            exit_price,
            size_usd: pos.size_usd,
            pnl_usd: gain.mul(pos.share_qty),
            pnl_pct,
            hold_duration_ms: now_ms.saturating_sub(pos.entry_at_ms),
            exit_reason,
            strategy_name: pos.strategy_name.clone(),
            edge_pct: pos.edge_pct,
            is_suspicious: false,
            suspicious_reason: None,
        };
        if config.flag_suspicious_trades {
            let validator: PaperTradeValidator = PaperTradeValidator {
                max_realistic_pnl_pct: config.suspicious_pnl_threshold_pct,
                max_hold_to_profit_ratio: Double::from_u64(config.suspicious_hold_max_secs),
            };
            match validator.validate_closed_trade(&trade) {
                TradeValidity::Suspicious { reason } => {
                    trade.is_suspicious = true;
                    trade.suspicious_reason = Some(reason);
                },
                TradeValidity::Valid => {},
            }
        }
        trade
    }

    fn record(&mut self, trade: ClosedTrade)
        requires
            old(self).win_count + old(self).loss_count < u64::MAX,
        ensures
            final(self)@ == old(self)@.with_trades(seq![trade]),
            final(self).win_count + final(self).loss_count <= old(self).win_count + old(
                self,
            ).loss_count + 1,
    {
        let ghost before = self@;
        assert(seq![trade].drop_last() =~= Seq::<ClosedTrade>::empty());
        assert(before.with_trades(Seq::empty()) == before);
        reveal_with_fuel(SimulatorView::with_trades, 2);
        if !trade.is_suspicious {
            self.total_pnl_usd = self.total_pnl_usd.add(trade.pnl_usd);
            if trade.pnl_usd.ge(Double::zero()) {
                self.win_count = self.win_count + 1;
            } else {
                self.loss_count = self.loss_count + 1;
            }
        }
        self.closed_trades.push(trade);
    }

    /// The trades that leaving positions at a time would make.
    pub fn closes_due_at(&self, state: &MarketState, config: &AppConfig, now_ms: u64) -> (r: Vec<
        ClosedTrade,
    >)
        ensures
            r@ == closing_trades(self@.positions, state.btc5m_market, now_ms, config.paper),
    {
        let mut closed: Vec<ClosedTrade> = Vec::new();
        let mut i: usize = 0;
        while i < self.positions.len()
            invariant
                i <= self.positions@.len(),
                closed@ == closing_trades(
                    self.positions@.take(i as int),
                    state.btc5m_market,
                    now_ms,
                    config.paper,
                ),
            decreases self.positions@.len() - i,
        {
            assert(self.positions@.take(i + 1).drop_last() =~= self.positions@.take(i as int));
            match Self::exit_for(&self.positions[i], &state.btc5m_market) {
                Some((price, reason)) => {
                    closed.push(
                        Self::close(&self.positions[i], price, reason, now_ms, &config.paper),
                    );
                },
                None => {},
            }
            i = i + 1;
        }
        assert(self.positions@.take(i as int) =~= self.positions@);
        closed
    }

    /// Whether there is room to count one more trade for each open position.
    pub fn has_room(&self) -> (r: bool)
        ensures
            r == self@.can_count(),
    {
        self.win_count as u128 + self.loss_count as u128 + self.positions.len() as u128
            <= u64::MAX as u128
    }

    /// Takes back the positions beyond the first so many.
    pub(crate) fn take_back(&mut self, kept: usize)
        requires
            kept <= old(self).positions@.len(),
        ensures
            final(self)@ == (SimulatorView {
                positions: old(self)@.positions.take(kept as int),
                ..old(self)@
            }),
    {
        self.positions.truncate(kept);
    }

    /// Leaves the positions that are to be left at a time, and returns the trades that
    /// this makes.
    pub fn evaluate_exits_at(&mut self, state: &MarketState, config: &AppConfig, now_ms: u64) -> (r:
        Vec<ClosedTrade>)
        requires
            old(self)@.can_count(),
        ensures
            r@ == closing_trades(
                old(self)@.positions,
                state.btc5m_market,
                now_ms,
                config.paper,
            ),
            final(self)@ == old(self)@.after_exits(state.btc5m_market, now_ms, config.paper),
    {
        let ghost start = self@;
        let closed: Vec<ClosedTrade> = self.closes_due_at(state, config, now_ms);
        proof {
            law_exits_split_positions(start, state.btc5m_market, now_ms, config.paper);
        }
        let mut i: usize = 0;
        assert(closed@.take(0) =~= Seq::empty());
        while i < closed.len()
            invariant
                i <= closed@.len() <= start.positions.len(),
                start.can_count(),
                self@ == start.with_trades(closed@.take(i as int)),
                self@.positions == start.positions,
                self.win_count + self.loss_count <= start.win_count + start.loss_count + i,
            decreases closed@.len() - i,
        {
            proof {
                assert(closed@.take(i + 1).drop_last() =~= closed@.take(i as int));
                let trade = closed@[i as int];
                assert(seq![trade].drop_last() =~= Seq::<ClosedTrade>::empty());
                reveal_with_fuel(SimulatorView::with_trades, 2);
            }
            self.record(closed[i].clone());
            i = i + 1;
        }
        assert(closed@.take(i as int) =~= closed@);
        let mut positions: Vec<PaperPosition> = Vec::new();
        let ghost keep = |p: PaperPosition| exit_of(p, state.btc5m_market) is None;
        let mut j: usize = 0;
        proof {
            reveal(Seq::filter);
        }
        while j < self.positions.len()
            invariant
                j <= start.positions.len(),
                self@.positions == start.positions,
                self@ == start.with_trades(closed@),
                keep == (|p: PaperPosition| exit_of(p, state.btc5m_market) is None),
                positions@ == start.positions.take(j as int).filter(keep),
            decreases start.positions.len() - j,
        {
            proof {
                reveal(Seq::filter);
                assert(start.positions.take(j + 1).drop_last() =~= start.positions.take(j as int));
                assert(start.positions.take(j + 1).last() == start.positions[j as int]);
            }
            if Self::exit_for(&self.positions[j], &state.btc5m_market).is_none() {
                positions.push(self.positions[j].clone());
            }
            j = j + 1;
        }
        assert(start.positions.take(j as int) =~= start.positions);
        self.positions = positions;
        closed
    }

    /// Leaves the positions that are to be left now.
    pub fn evaluate_exits(&mut self, state: &MarketState, config: &AppConfig) -> (r: Vec<
        ClosedTrade,
    >)
        requires
            old(self)@.can_count(),
        ensures
            exists|reading: Option<(u64, u32)>|
                {
                    let now_ms = #[trigger] millis_of(reading);
                    &&& r@ == closing_trades(
                        old(self)@.positions,
                        state.btc5m_market,
                        now_ms,
                        config.paper,
                    )
                    &&& final(self)@ == old(self)@.after_exits(
                        state.btc5m_market,
                        now_ms,
                        config.paper,
                    )
                },
    {
        self.evaluate_exits_at(state, config, now_millis())
    }

    /// The share of counted trades that were won, in per cent; zero where there are none.
    pub fn win_rate(&self) -> (r: Double)
        requires
            self.win_count + self.loss_count <= u64::MAX,
        ensures
            r == win_share(self.win_count, self.loss_count),
    {
        let total: u64 = self.win_count + self.loss_count;
        if total > 0 {
            Double::from_u64(self.win_count).div(Double::from_u64(total)).mul(
                Double::from_u64(100),
            )
        } else {
            Double::zero()
        }
    }
}

/// The place of a market's position is the first with its name.
pub proof fn lemma_position_index(positions: Seq<PaperPosition>, market_id: Seq<char>)
    ensures
        ({
            let i = position_index(positions, market_id);
            &&& i <= positions.len()
            &&& i < positions.len() ==> positions[i as int].market_id@ == market_id
            &&& i == positions.len() ==> forall|j: int|
                0 <= j < positions.len() ==> (#[trigger] positions[j]).market_id@ != market_id
        }),
    decreases positions.len(),
{
    if positions.len() > 0 && positions[0].market_id@ != market_id {
        lemma_position_index(positions.drop_first(), market_id);
        let rest = positions.drop_first();
        assert(forall|j: int| 0 < j < positions.len() ==> positions[j] == rest[j - 1]);
    }
}

/// Opening a position keeps one position to a market and gives its market one.
pub proof fn law_open_keeps_one_per_market(sim: SimulatorView, pos: PaperPosition)
    requires
        one_per_market(sim.positions),
    ensures
        one_per_market(sim.with_position(pos).positions),
        sim.with_position(pos).has_position(pos.market_id@),
{
    lemma_position_index(sim.positions, pos.market_id@);
    let i = position_index(sim.positions, pos.market_id@);
    let after = sim.with_position(pos).positions;
    if i < sim.positions.len() {
        assert(after[i as int].market_id@ == pos.market_id@);
    } else {
        assert(after[after.len() - 1].market_id@ == pos.market_id@);
    }
}

proof fn lemma_closing_splits(
    positions: Seq<PaperPosition>,
    market: Option<Btc5mMarket>,
    now_ms: u64,
    config: PaperConfig,
)
    ensures
        kept_positions(positions, market).len() + closing_trades(
            positions,
            market,
            now_ms,
            config,
        ).len() == positions.len(),
        forall|i: int|
            0 <= i < kept_positions(positions, market).len() ==> exists|j: int|
                0 <= j < positions.len() && positions[j] == #[trigger] kept_positions(
                    positions,
                    market,
                )[i],
        one_per_market(positions) ==> one_per_market(kept_positions(positions, market)),
        forall|i: int|
            0 <= i < kept_positions(positions, market).len() ==> exit_of(
                #[trigger] kept_positions(positions, market)[i],
                market,
            ) is None,
    decreases positions.len(),
{
    reveal(Seq::filter);
    if positions.len() > 0 {
        let front = positions.drop_last();
        lemma_closing_splits(front, market, now_ms, config);
        let kept = kept_positions(positions, market);
        let before = kept_positions(front, market);
        assert forall|i: int| 0 <= i < kept.len() implies exists|j: int|
            0 <= j < positions.len() && positions[j] == #[trigger] kept[i] by {
            if i < before.len() {
                let j = choose|j: int| 0 <= j < front.len() && front[j] == before[i];
                assert(positions[j] == kept[i]);
            } else {
                assert(positions[positions.len() - 1] == kept[i]);
            }
        }
        if one_per_market(positions) {
            assert(one_per_market(front)) by {
                assert forall|i: int, j: int| 0 <= i < j < front.len() implies (
                #[trigger] front[i]).market_id@ != (#[trigger] front[j]).market_id@ by {
                    assert(front[i] == positions[i] && front[j] == positions[j]);
                }
            }
            assert forall|i: int, j: int| 0 <= i < j < kept.len() implies (
            #[trigger] kept[i]).market_id@ != (#[trigger] kept[j]).market_id@ by {
                if j < before.len() {
                    assert(kept[i] == before[i] && kept[j] == before[j]);
                } else {
                    let k = choose|k: int| 0 <= k < front.len() && front[k] == before[i];
                    assert(positions[k] == kept[i]);
                    assert(kept[j] == positions[positions.len() - 1]);
                }
            }
        }
    }
}

/// Every open position is either kept or turned into one trade; those that are kept
/// have no cause to be left, and a market still has at most one.
pub proof fn law_exits_split_positions(
    sim: SimulatorView,
    market: Option<Btc5mMarket>,
    now_ms: u64,
    config: PaperConfig,
)
    ensures
        ({
            let after = sim.after_exits(market, now_ms, config);
            let trades = closing_trades(sim.positions, market, now_ms, config);
            &&& after.positions.len() + trades.len() == sim.positions.len()
            &&& one_per_market(sim.positions) ==> one_per_market(after.positions)
            &&& forall|i: int|
                0 <= i < after.positions.len() ==> exit_of(
                    #[trigger] after.positions[i],
                    market,
                ) is None
        }),
{
    lemma_closing_splits(sim.positions, market, now_ms, config);
}

/// Recording trades appends them to the history, and each trade that is not suspicious
/// is counted once, as won or as lost.
pub proof fn law_trades_are_recorded(sim: SimulatorView, trades: Seq<ClosedTrade>)
    requires
        sim.win_count + sim.loss_count + trades.len() <= u64::MAX,
    ensures
        sim.with_trades(trades).closed_trades == sim.closed_trades + trades,
        sim.with_trades(trades).positions == sim.positions,
        sim.with_trades(trades).win_count + sim.with_trades(trades).loss_count == sim.win_count
            + sim.loss_count + trades.filter(|t: ClosedTrade| !t.is_suspicious).len(),
        trades.filter(|t: ClosedTrade| !t.is_suspicious).len() <= trades.len(),
    decreases trades.len(),
{
    reveal(Seq::filter);
    if trades.len() > 0 {
        law_trades_are_recorded(sim, trades.drop_last());
        assert(sim.closed_trades + trades =~= (sim.closed_trades + trades.drop_last()).push(
            trades.last(),
        ));
    } else {
        assert(sim.closed_trades + trades =~= sim.closed_trades);
    }
}

/// A market that is no longer the active one leaves no position behind.
pub proof fn law_inactive_markets_are_left(
    sim: SimulatorView,
    market: Option<Btc5mMarket>,
    now_ms: u64,
    config: PaperConfig,
    i: int,
)
    requires
        0 <= i < sim.after_exits(market, now_ms, config).positions.len(),
    ensures
        market is Some,
        sim.after_exits(market, now_ms, config).positions[i].market_id@ == market->0.slug@,
        market->0.phase != MarketPhase::Final,
        market->0.phase != MarketPhase::Settled,
{
    lemma_closing_splits(sim.positions, market, now_ms, config);
    assert(exit_of(sim.after_exits(market, now_ms, config).positions[i], market) is None);
}

/// A trade in the active market closes at the price of its own side: that of NO for a bet on
/// NO, that of YES for one on YES. A trade in any other market closes where it was entered.
pub proof fn law_trades_close_at_the_price_of_their_side(
    positions: Seq<PaperPosition>,
    market: Option<Btc5mMarket>,
    now_ms: u64,
    config: PaperConfig,
    i: int,
)
    requires
        0 <= i < closing_trades(positions, market, now_ms, config).len(),
    ensures
        ({
            let trade = closing_trades(positions, market, now_ms, config)[i];
            let active = market is Some && market->0.slug@ == trade.market_id@;
            &&& active && trade.direction == Direction::No ==> trade.exit_price
                == market->0.no_price
            &&& active && trade.direction == Direction::Yes ==> trade.exit_price
                == market->0.yes_price
            &&& !active ==> trade.exit_price == trade.entry_price && trade.exit_reason
                == ExitReason::TimeExit
        }),
    decreases positions.len(),
{
    if positions.len() > 0 {
        let before = closing_trades(positions.drop_last(), market, now_ms, config);
        if i < before.len() {
            law_trades_close_at_the_price_of_their_side(
                positions.drop_last(),
                market,
                now_ms,
                config,
                i,
            );
        }
    }
}

/// A position in the active market stays open, with time left before its last seconds and
/// the end phases, exactly while the price of its own side is short of the target and of the
/// stop; the price of the other side does not matter.
pub proof fn law_position_watches_its_own_side(pos: PaperPosition, market: Btc5mMarket)
    requires
        market.slug@ == pos.market_id@,
        pos.entry_price.is_finite(),
        market.yes_price.is_finite(),
        market.no_price.is_finite(),
        pos.profit_target_pct.is_finite(),
        pos.stop_loss_pct.is_finite(),
    ensures
        ({
            let own = if pos.direction == Direction::No {
                market.no_price
            } else {
                market.yes_price
            };
            let gain = own.sub(pos.entry_price).value();
            exit_of(pos, Some(market)) is None <==> {
                &&& -pos.stop_loss_pct.value() < gain < pos.profit_target_pct.value()
                &&& market.time_remaining_secs > pos.exit_before_final_secs
                &&& market.phase == MarketPhase::Active || market.phase == MarketPhase::PreOpen
            }
        }),
{
    reveal(Double::spec_lt);
    reveal(Double::spec_equals);
    reveal(Double::spec_neg);
    law_difference_has_a_sign(market.yes_price, pos.entry_price);
    law_difference_has_a_sign(market.no_price, pos.entry_price);
}

/// Two markets with the same price for a position's side, time and phase treat it alike.
pub proof fn law_other_side_does_not_matter(
    pos: PaperPosition,
    one: Btc5mMarket,
    other: Btc5mMarket,
)
    requires
        one.slug@ == other.slug@,
        one.time_remaining_secs == other.time_remaining_secs,
        one.phase == other.phase,
        pos.direction == Direction::No ==> one.no_price == other.no_price,
        pos.direction == Direction::Yes ==> one.yes_price == other.yes_price,
    ensures
        exit_of(pos, Some(one)) == exit_of(pos, Some(other)),
{
}

/// A gain of the target or more takes the profit, a loss of the stop or more stops the loss,
/// and neither happens the wrong way round: profit is taken above the entry price, and
/// losses are stopped below it.
pub proof fn law_target_takes_profit_and_stop_stops_loss(pos: PaperPosition, market: Btc5mMarket)
    requires
        market.slug@ == pos.market_id@,
        pos.entry_price.is_finite(),
        market.yes_price.is_finite(),
        market.no_price.is_finite(),
        pos.profit_target_pct.is_finite(),
        pos.stop_loss_pct.is_finite(),
        pos.profit_target_pct.value() > 0,
        pos.stop_loss_pct.value() > 0,
    ensures
        ({
            let own = if pos.direction == Direction::No {
                market.no_price
            } else {
                market.yes_price
            };
            let gain = own.value() - pos.entry_price.value();
            let exit = exit_of(pos, Some(market));
            &&& gain >= pos.profit_target_pct.value() ==> exit == Some(
                (own, ExitReason::ProfitTarget),
            )
            &&& gain <= -pos.stop_loss_pct.value() ==> exit == Some((own, ExitReason::StopLoss))
            &&& exit is Some && (exit->0).1 == ExitReason::ProfitTarget ==> gain > 0
            &&& exit is Some && (exit->0).1 == ExitReason::StopLoss ==> gain < 0
            &&& gain == 0 ==> (exit is Some ==> (exit->0).1 == ExitReason::TimeExit)
        }),
{
    reveal(Double::spec_lt);
    reveal(Double::spec_equals);
    reveal(Double::spec_neg);
    law_difference_has_a_sign(market.yes_price, pos.entry_price);
    law_difference_has_a_sign(market.no_price, pos.entry_price);
    let own = if pos.direction == Direction::No {
        market.no_price
    } else {
        market.yes_price
    };
    law_difference_reaches(own, pos.entry_price, pos.profit_target_pct);
    law_difference_reaches(pos.entry_price, own, pos.stop_loss_pct);
    law_swapped_difference_is_opposite(own, pos.entry_price);
}

/// A trade keeps what its position was, notes how long it was held, and makes money exactly
/// on the right side: a price above the entry makes no loss, one below it no gain, the entry
/// price nothing, and a higher price never less.
pub proof fn law_trade_makes_the_difference(
    pos: PaperPosition,
    exit_price: Double,
    higher_price: Double,
    exit_reason: ExitReason,
    now_ms: u64,
    config: PaperConfig,
)
    requires
        pos.entry_price.is_finite(),
        pos.entry_price.value() > 0,
        pos.share_qty.is_finite(),
        pos.share_qty.value() > 0,
        exit_price.is_finite(),
        higher_price.is_finite(),
        exit_price.value() <= higher_price.value(),
    ensures
        ({
            let t = trade_of(pos, exit_price, exit_reason, now_ms, config);
            let u = trade_of(pos, higher_price, exit_reason, now_ms, config);
            &&& t.market_id == pos.market_id
            &&& t.direction == pos.direction
            &&& t.entry_price == pos.entry_price
            &&& t.exit_price == exit_price
            &&& t.size_usd == pos.size_usd
            &&& t.exit_reason == exit_reason
            &&& t.strategy_name == pos.strategy_name
            &&& t.edge_pct == pos.edge_pct
            &&& now_ms >= pos.entry_at_ms ==> t.hold_duration_ms == now_ms - pos.entry_at_ms
            &&& now_ms < pos.entry_at_ms ==> t.hold_duration_ms == 0
            &&& exit_price.value() >= pos.entry_price.value() ==> t.pnl_usd.value() >= 0
                && t.pnl_pct.value() >= 0
            &&& exit_price.value() <= pos.entry_price.value() ==> t.pnl_usd.value() <= 0
                && t.pnl_pct.value() <= 0
            &&& t.pnl_usd.value() <= u.pnl_usd.value()
            &&& t.pnl_pct.value() <= u.pnl_pct.value()
            &&& exit_price.value() == 2 * pos.entry_price.value() ==> t.pnl_pct
                == Double::from_u64(100) && t.pnl_usd == pos.entry_price.mul(pos.share_qty)
        }),
{
    reveal(Double::spec_lt);
    assert(magnitude(0) == 0);
    let gain = exit_price.sub(pos.entry_price);
    let more = higher_price.sub(pos.entry_price);
    let hundred = Double::from_u64(100);
    law_integer_is_a_number(100);
    lemma_pow2_pos(1074);
    law_difference_has_a_sign(exit_price, pos.entry_price);
    reveal(Double::spec_neg);
    law_sum_keeps_order(exit_price, higher_price, pos.entry_price.neg());
    law_product_keeps_sign(gain, pos.share_qty);
    law_product_keeps_order(gain, more, pos.share_qty);
    law_quotient_keeps_sign(gain, pos.entry_price);
    law_quotient_keeps_order(gain, more, pos.entry_price);
    law_product_keeps_sign(gain.div(pos.entry_price), hundred);
    law_product_keeps_order(gain.div(pos.entry_price), more.div(pos.entry_price), hundred);
    if exit_price.value() == 2 * pos.entry_price.value() {
        law_difference_is_exact(exit_price, pos.entry_price, pos.entry_price);
        law_self_quotient_is_one(pos.entry_price);
        law_product_with_one(hundred);
    }
}

/// The side of a position has no part in what a trade makes of its prices.
pub proof fn law_side_does_not_change_the_result(
    yes: PaperPosition,
    no: PaperPosition,
    exit_price: Double,
    exit_reason: ExitReason,
    now_ms: u64,
    config: PaperConfig,
)
    requires
        no == (PaperPosition { direction: Direction::No, ..yes }),
    ensures
        trade_of(no, exit_price, exit_reason, now_ms, config).pnl_usd == trade_of(
            yes,
            exit_price,
            exit_reason,
            now_ms,
            config,
        ).pnl_usd,
        trade_of(no, exit_price, exit_reason, now_ms, config).pnl_pct == trade_of(
            yes,
            exit_price,
            exit_reason,
            now_ms,
            config,
        ).pnl_pct,
{
}

/// A trade is suspicious exactly where that is watched and it made or lost more than the
/// limit in less than the limit of seconds, or was entered below five or above ninety-five
/// cents.
pub proof fn law_suspicion_is_of_fast_or_extreme_trades(
    pos: PaperPosition,
    exit_price: Double,
    exit_reason: ExitReason,
    now_ms: u64,
    config: PaperConfig,
)
    requires
        pos.entry_price.is_finite(),
        pos.entry_price.value() > 0,
        exit_price.is_finite(),
        config.suspicious_pnl_threshold_pct.is_finite(),
    ensures
        ({
            let t = trade_of(pos, exit_price, exit_reason, now_ms, config);
            let secs = t.hold_duration_ms / 1000;
            t.is_suspicious <==> config.flag_suspicious_trades && {
                ||| t.pnl_pct.size() > config.suspicious_pnl_threshold_pct.value() && secs
                    < Double::from_u64(config.suspicious_hold_max_secs).to_u64()
                ||| pos.entry_price.value() < Double::ratio(5, 100).value()
                ||| pos.entry_price.value() > Double::ratio(95, 100).value()
            }
        }),
        ({
            let t = trade_of(pos, exit_price, exit_reason, now_ms, config);
            t.is_suspicious <==> t.suspicious_reason is Some
        }),
{
    reveal(Double::spec_lt);
    reveal(Double::spec_abs);
    assert(magnitude(0) == 0);
    law_integer_is_a_number(100);
    lemma_pow2_pos(1074);
    law_ratio_up_to_one(5, 100);
    law_ratio_up_to_one(95, 100);
    let gain = exit_price.sub(pos.entry_price);
    law_difference_has_a_sign(exit_price, pos.entry_price);
    law_quotient_keeps_sign(gain, pos.entry_price);
    law_product_keeps_sign(gain.div(pos.entry_price), Double::from_u64(100));
}

/// The trades that count as won are those that are not suspicious and made nothing or more;
/// those that count as lost made less. Suspicious trades leave the total as it is.
pub proof fn law_wins_and_losses_are_told_apart(sim: SimulatorView, trades: Seq<ClosedTrade>)
    requires
        sim.win_count + sim.loss_count + trades.len() <= u64::MAX,
        forall|i: int| 0 <= i < trades.len() ==> !(#[trigger] trades[i]).pnl_usd.is_nan(),
    ensures
        sim.with_trades(trades).win_count == sim.win_count + trades.filter(
            |t: ClosedTrade| !t.is_suspicious && t.pnl_usd.value() >= 0,
        ).len(),
        sim.with_trades(trades).loss_count == sim.loss_count + trades.filter(
            |t: ClosedTrade| !t.is_suspicious && t.pnl_usd.value() < 0,
        ).len(),
        (forall|i: int| 0 <= i < trades.len() ==> (#[trigger] trades[i]).is_suspicious)
            ==> sim.with_trades(trades).total_pnl_usd == sim.total_pnl_usd,
        trades.len() == 1 && !trades[0].is_suspicious ==> sim.with_trades(trades).total_pnl_usd
            == sim.total_pnl_usd.add(trades[0].pnl_usd),
    decreases trades.len(),
{
    reveal(Seq::filter);
    reveal(Double::spec_lt);
    reveal(Double::spec_equals);
    assert(magnitude(0) == 0);
    if trades.len() > 0 {
        let front = trades.drop_last();
        assert forall|i: int| 0 <= i < front.len() implies !(#[trigger] front[i]).pnl_usd.is_nan() by {
            assert(!trades[i].pnl_usd.is_nan());
        }
        law_wins_and_losses_are_told_apart(sim, front);
        law_trades_are_recorded(sim, front);
        assert(!trades[trades.len() - 1].pnl_usd.is_nan());
        if forall|i: int| 0 <= i < trades.len() ==> (#[trigger] trades[i]).is_suspicious {
            assert forall|i: int| 0 <= i < front.len() implies (#[trigger] front[i]).is_suspicious by {
                assert(trades[i].is_suspicious);
            }
            assert(trades[trades.len() - 1].is_suspicious);
        }
        if trades.len() == 1 {
            assert(front =~= Seq::empty());
        }
        lemma_filters_fit(trades);
        lemma_filters_fit(front);
    }
}

proof fn lemma_filters_fit(trades: Seq<ClosedTrade>)
    ensures
        trades.filter(|t: ClosedTrade| !t.is_suspicious && t.pnl_usd.value() >= 0).len()
            + trades.filter(|t: ClosedTrade| !t.is_suspicious && t.pnl_usd.value() < 0).len()
            <= trades.len(),
    decreases trades.len(),
{
    reveal(Seq::filter);
    if trades.len() > 0 {
        lemma_filters_fit(trades.drop_last());
    }
}

/// A position buys as many shares as its size pays for, at the price of its signal.
pub proof fn law_position_is_what_was_signalled(signal: TradeSignal, now_ms: u64)
    ensures
        ({
            let p = position_of(signal, now_ms);
            &&& p.market_id == signal.market_id
            &&& p.direction == signal.direction
            &&& p.entry_price == signal.target_entry_price
            &&& p.size_usd == signal.size_usd
            &&& p.entry_at_ms == now_ms
            &&& p.profit_target_pct == signal.profit_target_pct
            &&& p.stop_loss_pct == signal.stop_loss_pct
            &&& p.exit_before_final_secs == signal.exit_before_final_secs
            &&& signal.target_entry_price.is_finite() && signal.target_entry_price.value() > 0
                && signal.size_usd == signal.target_entry_price ==> p.share_qty == Double::one()
            &&& signal.target_entry_price == Double::one() && signal.size_usd.is_finite()
                ==> p.share_qty == signal.size_usd
        }),
{
    reveal(Double::spec_lt);
    assert(magnitude(0) == 0);
    lemma_one();
    lemma_pow2_pos(1074);
    if signal.target_entry_price.is_finite() && signal.target_entry_price.value() > 0 {
        law_self_quotient_is_one(signal.target_entry_price);
    }
    if signal.size_usd.is_finite() {
        law_quotient_by_one(signal.size_usd);
    }
}

/// More positions are not less exposure.
pub proof fn law_exposure_grows_with_positions(
    positions: Seq<PaperPosition>,
    pos: PaperPosition,
)
    requires
        exposure(positions).is_finite(),
        pos.size_usd.is_finite(),
        pos.size_usd.value() >= 0,
    ensures
        exposure(positions).value() <= exposure(positions.push(pos)).value(),
        positions.len() == 0 ==> exposure(positions.push(pos)).value() == pos.size_usd.value(),
{
    assert(positions.push(pos).drop_last() =~= positions);
    assert(magnitude(0) == 0);
    reveal(Double::spec_add);
    law_sum_keeps_order(Double::zero(), pos.size_usd, exposure(positions));
    law_sum_commutes(exposure(positions), pos.size_usd);
    law_sum_with_zero(exposure(positions));
    law_sum_with_zero(pos.size_usd);
    law_sum_commutes(Double::zero(), exposure(positions));
}

/// A hundred per cent of the trades are won where none is lost, none where none is won, and
/// of as many trades a larger share where more are won.
pub proof fn law_win_share_counts_the_won(won: u64, lost: u64, more: u64, fewer: u64)
    requires
        won + lost <= u64::MAX,
        won <= more,
        more + fewer == won + lost,
        won + lost > 0,
    ensures
        lost == 0 ==> win_share(won, lost) == Double::from_u64(100),
        won == 0 ==> win_share(won, lost).value() == 0,
        win_share(won, lost).value() <= win_share(more, fewer).value(),
{
    let total = (won + lost) as u64;
    let (n, hundred) = (Double::from_u64(total), Double::from_u64(100));
    lemma_pow2_pos(1074);
    assert(magnitude(0) == 0);
    law_integer_is_a_number(total);
    law_integer_is_a_number(won);
    law_integer_is_a_number(more);
    law_integer_is_a_number(100);
    law_integers_keep_order(won, more);
    law_quotient_keeps_order(Double::from_u64(won), Double::from_u64(more), n);
    law_product_keeps_order(
        Double::from_u64(won).div(n),
        Double::from_u64(more).div(n),
        hundred,
    );
    if lost == 0 {
        law_self_quotient_is_one(n);
        law_product_with_one(hundred);
    }
    if won == 0 {
        law_integers_keep_order(0, 0);
        let zero = Double::from_u64(0);
        law_quotient_of_no_value(zero, n);
        law_product_has_no_value(zero.div(n), hundred);
    }
}

} // verus!
