//! The limits that a new position has to keep, and what losses do to them.
use vstd::prelude::*;

use crate::config::RiskConfig;
use crate::numeric::Double;
use crate::numeric::rounding::magnitude;
use crate::paper::simulator::{exposure, ClosedTrade, PaperSimulator, SimulatorView};
use crate::text::{decimal, decimal_text, same_text, shows};
use crate::time::{millis_of, now_millis};

verus! {

/// Why a new position is not allowed.
#[derive(Clone, Copy, Debug)]
pub enum RiskReason {
    Cooldown { remaining_secs: u64, consecutive_losses: u32 },
    MaxPositions { max: usize },
    MaxExposure { max_usd: Double, exposure_usd: Double },
    MinInterval { elapsed_secs: u64, min_secs: u64 },
}

impl RiskReason {
    /// The reason, for a market, in words, where they show no double.
    pub open spec fn words(self, market_id: Seq<char>) -> Option<Seq<char>> {
        match self {
            RiskReason::Cooldown { remaining_secs, consecutive_losses } => Some(
                "cooldown active until +"@ + decimal(remaining_secs as nat) + "s ("@ + decimal(
                    consecutive_losses as nat,
                ) + " consecutive losses)"@,
            ),
            RiskReason::MaxPositions { max } => Some(
                "max concurrent positions "@ + decimal(max as nat) + " reached"@,
            ),
            RiskReason::MinInterval { elapsed_secs, min_secs } => Some(
                "min trade interval: "@ + decimal(elapsed_secs as nat) + "s since last trade on "@
                    + market_id + " (min "@ + decimal(min_secs as nat) + "s)"@,
            ),
            RiskReason::MaxExposure { .. } => None,
        }
    }

    pub fn text(&self, market_id: &str) -> (r: Option<String>)
        ensures
            shows(r, self.words(market_id@)),
    {
        match *self {
            RiskReason::Cooldown { remaining_secs, consecutive_losses } => Some(
                "cooldown active until +".to_owned().concat(
                    decimal_text(remaining_secs).as_str(),
                ).concat("s (").concat(decimal_text(consecutive_losses as u64).as_str()).concat(
                    " consecutive losses)",
                ),
            ),
            RiskReason::MaxPositions { max } => Some(
                "max concurrent positions ".to_owned().concat(
                    decimal_text(max as u64).as_str(),
                ).concat(" reached"),
            ),
            RiskReason::MinInterval { elapsed_secs, min_secs } => Some(
                "min trade interval: ".to_owned().concat(
                    decimal_text(elapsed_secs).as_str(),
                ).concat("s since last trade on ").concat(market_id).concat(" (min ").concat(
                    decimal_text(min_secs).as_str(),
                ).concat("s)"),
            ),
            RiskReason::MaxExposure { .. } => None,
        }
    }
}

#[derive(Clone, Copy, Debug)]
pub struct RiskResult {
    pub allowed: bool,
    pub reason: Option<RiskReason>,
}

pub struct RiskEngine {
    pub config: RiskConfig,
    pub consecutive_losses: u32,
    pub cooldown_until_ms: Option<u64>,
    /// When a trade last closed in each market.
    pub last_trade_per_market: Vec<(String, u64)>,
}

/// The contents of a risk engine.
pub struct RiskView {
    pub config: RiskConfig,
    pub consecutive_losses: u32,
    pub cooldown_until_ms: Option<u64>,
    pub last_trade_per_market: Map<Seq<char>, u64>,
}

/// The time noted for a market.
pub open spec fn noted(entries: Seq<(String, u64)>, market_id: Seq<char>) -> Option<u64>
    decreases entries.len(),
{
    if entries.len() == 0 {
        None
    } else if entries[0].0@ == market_id {
        Some(entries[0].1)
    } else {
        noted(entries.drop_first(), market_id)
    }
}

impl View for RiskEngine {
    type V = RiskView;

    open spec fn view(&self) -> RiskView {
        RiskView {
            config: self.config,
            consecutive_losses: self.consecutive_losses,
            cooldown_until_ms: self.cooldown_until_ms,
            last_trade_per_market: Map::new(
                |id: Seq<char>| noted(self.last_trade_per_market@, id) is Some,
                |id: Seq<char>| noted(self.last_trade_per_market@, id)->0,
            ),
        }
    }
}

impl RiskView {
    /// The first limit that a new position in a market would not keep: no cooldown may
    /// be running, positions and exposure have to be below their limits, and the market's
    /// last trade has to be long enough ago.
    pub open spec fn verdict(
        self,
        market_id: Seq<char>,
        sim: SimulatorView,
        now_ms: u64,
    ) -> Option<RiskReason> {
        let last = self.last_trade_per_market;
        let since = if last.dom().contains(market_id) && last[market_id] <= now_ms {
            ((now_ms - last[market_id]) / 1000) as u64
        } else {
            0
        };
        if self.cooldown_until_ms is Some && now_ms < self.cooldown_until_ms->0 {
            Some(
                RiskReason::Cooldown {
                    remaining_secs: ((self.cooldown_until_ms->0 - now_ms) / 1000) as u64,
                    consecutive_losses: self.consecutive_losses,
                },
            )
        } else if sim.positions.len() >= self.config.max_concurrent_positions {
            Some(RiskReason::MaxPositions { max: self.config.max_concurrent_positions })
        } else if exposure(sim.positions).ge(self.config.max_exposure_usd) {
            Some(
                RiskReason::MaxExposure {
                    max_usd: self.config.max_exposure_usd,
                    exposure_usd: exposure(sim.positions),
                },
            )
        } else if last.dom().contains(market_id) && since < self.config.min_trade_interval_secs {
            Some(
                RiskReason::MinInterval {
                    elapsed_secs: since,
                    min_secs: self.config.min_trade_interval_secs,
                },
            )
        } else {
            None
        }
    }

    /// The end of a cooldown that starts at a time fits into 64 bits.
    pub open spec fn cooldown_fits(self, now_ms: u64) -> bool {
        now_ms + self.config.cooldown_after_loss_secs * 1000 <= u64::MAX
    }

    /// A trade is the loss that a cooldown starts with.
    pub open spec fn starts_cooldown(self, trade: ClosedTrade) -> bool {
        trade.pnl_usd.lt(Double::zero()) && self.consecutive_losses + 1
            >= self.config.consecutive_loss_limit
    }

    /// The loss count and the cooldown that a trade starts, if any, leave room for it.
    pub open spec fn can_take(self, trade: ClosedTrade, now_ms: u64) -> bool {
        &&& trade.pnl_usd.lt(Double::zero()) ==> self.consecutive_losses < u32::MAX
        &&& self.starts_cooldown(trade) ==> self.cooldown_fits(now_ms)
    }

    /// There is room for each of several trades, one after the other.
    pub open spec fn can_take_all(self, trades: Seq<ClosedTrade>, now_ms: u64) -> bool
        decreases trades.len(),
    {
        trades.len() > 0 ==> self.can_take(trades[0], now_ms) && self.after_close(
            trades[0],
            now_ms,
        ).can_take_all(trades.drop_first(), now_ms)
    }

    /// The engine after a trade closed at a time: a loss counts up and, at the limit,
    /// starts a cooldown; anything else clears both.
    pub open spec fn after_close(self, trade: ClosedTrade, now_ms: u64) -> RiskView {
        let noted = RiskView {
            last_trade_per_market: self.last_trade_per_market.insert(trade.market_id@, now_ms),
            ..self
        };
        if trade.pnl_usd.lt(Double::zero()) {
            let losses = (self.consecutive_losses + 1) as u32;
            RiskView {
                consecutive_losses: losses,
                cooldown_until_ms: if losses >= self.config.consecutive_loss_limit {
                    Some((now_ms + self.config.cooldown_after_loss_secs * 1000) as u64)
                } else {
                    self.cooldown_until_ms
                },
                ..noted
            }
        } else {
            RiskView { consecutive_losses: 0, cooldown_until_ms: None, ..noted }
        }
    }

    /// The engine after trades closed at a time, one after the other.
    pub open spec fn after_closes(self, trades: Seq<ClosedTrade>, now_ms: u64) -> RiskView
        decreases trades.len(),
    {
        if trades.len() == 0 {
            self
        } else {
            self.after_closes(trades.drop_last(), now_ms).after_close(trades.last(), now_ms)
        }
    }
}

impl RiskEngine {
    pub fn new(config: RiskConfig) -> (r: Self)
        ensures
            r@ == (RiskView {
                config,
                consecutive_losses: 0,
                cooldown_until_ms: None,
                last_trade_per_market: Map::empty(),
            }),
    {
        let r: RiskEngine = RiskEngine {
            config,
            consecutive_losses: 0,
            cooldown_until_ms: None,
            last_trade_per_market: Vec::new(),
        };
        assert(r@.last_trade_per_market =~= Map::empty());
        r
    }

    fn index_of(&self, market_id: &str) -> (r: usize)
        ensures
            r <= self.last_trade_per_market@.len(),
            r == self.last_trade_per_market@.len() ==> noted(
                self.last_trade_per_market@,
                market_id@,
            ) is None,
            r < self.last_trade_per_market@.len() ==> self.last_trade_per_market@[r as int].0@
                == market_id@ && noted(self.last_trade_per_market@, market_id@) == Some(
                self.last_trade_per_market@[r as int].1,
            ),
            forall|j: int|
                0 <= j < r ==> (#[trigger] self.last_trade_per_market@[j]).0@ != market_id@,
    {
        let ghost all = self.last_trade_per_market@;
        let mut i: usize = 0;
        assert(all.skip(0) =~= all);
        while i < self.last_trade_per_market.len()
            invariant
                all == self.last_trade_per_market@,
                i <= all.len(),
                noted(all, market_id@) == noted(all.skip(i as int), market_id@),
                forall|j: int| 0 <= j < i ==> (#[trigger] all[j]).0@ != market_id@,
            decreases all.len() - i,
        {
            if same_text(self.last_trade_per_market[i].0.as_str(), market_id) {
                return i;
            }
            assert(all.skip(i as int).drop_first() =~= all.skip(i + 1));
            i = i + 1;
        }
        i
    }

    /// Whether a new position in a market is allowed at a time.
    pub fn check_allowed_at(&self, market_id: &str, simulator: &PaperSimulator, now_ms: u64) -> (r:
        RiskResult)
        ensures
            r == (RiskResult {
                allowed: self@.verdict(market_id@, simulator@, now_ms) is None,
                reason: self@.verdict(market_id@, simulator@, now_ms),
            }),
    {
        if let Some(cooldown_until) = self.cooldown_until_ms {
            if now_ms < cooldown_until {
                return RiskResult {
                    allowed: false,
                    reason: Some(
                        RiskReason::Cooldown {
                            remaining_secs: (cooldown_until - now_ms) / 1000,
                            consecutive_losses: self.consecutive_losses,
                        },
                    ),
                };
            }
        }
        if simulator.positions.len() >= self.config.max_concurrent_positions {
            return RiskResult {
                allowed: false,
                reason: Some(
                    RiskReason::MaxPositions { max: self.config.max_concurrent_positions },
                ),
            };
        }
        let exposure_usd: Double = simulator.total_exposure_usd();
        if exposure_usd.ge(self.config.max_exposure_usd) {
            return RiskResult {
                allowed: false,
                reason: Some(
                    RiskReason::MaxExposure { max_usd: self.config.max_exposure_usd, exposure_usd },
                ),
            };
        }
        let i: usize = self.index_of(market_id);
        if i < self.last_trade_per_market.len() {
            let elapsed_secs: u64 = now_ms.saturating_sub(self.last_trade_per_market[i].1) / 1000;
            if elapsed_secs < self.config.min_trade_interval_secs {
                return RiskResult {
                    allowed: false,
                    reason: Some(
                        RiskReason::MinInterval {
                            elapsed_secs,
                            min_secs: self.config.min_trade_interval_secs,
                        },
                    ),
                };
            }
        }
        RiskResult { allowed: true, reason: None }
    }

    /// Whether a new position in a market is allowed now.
    pub fn check_allowed(&self, market_id: &str, simulator: &PaperSimulator) -> (r: RiskResult)
        ensures
            exists|reading: Option<(u64, u32)>|
                r.reason == self@.verdict(market_id@, simulator@, #[trigger] millis_of(reading)),
            r.allowed == (r.reason is None),
    {
        self.check_allowed_at(market_id, simulator, now_millis())
    }

    fn note(&mut self, market_id: &String, now_ms: u64)
        ensures
            final(self)@ == (RiskView {
                last_trade_per_market: old(self)@.last_trade_per_market.insert(market_id@, now_ms),
                ..old(self)@
            }),
    {
        let ghost all = self.last_trade_per_market@;
        let i: usize = self.index_of(market_id.as_str());
        if i < self.last_trade_per_market.len() {
            let entry: (String, u64) = (market_id.clone(), now_ms);
            self.last_trade_per_market.set(i, entry);
            proof {
                lemma_noted_update(all, i as int, entry);
            }
        } else {
            let entry: (String, u64) = (market_id.clone(), now_ms);
            self.last_trade_per_market.push(entry);
            proof {
                lemma_noted_push(all, entry);
            }
        }
        assert(self@.last_trade_per_market =~= old(self)@.last_trade_per_market.insert(
            market_id@,
            now_ms,
        ));
    }

    /// Takes in a trade that closed at a time.
    pub fn record_close_at(&mut self, trade: &ClosedTrade, now_ms: u64)
        requires
            old(self)@.can_take(*trade, now_ms),
        ensures
            final(self)@ == old(self)@.after_close(*trade, now_ms),
    {
        self.note(&trade.market_id, now_ms);
        if trade.pnl_usd.lt(Double::zero()) {
            self.consecutive_losses = self.consecutive_losses + 1;
            if self.consecutive_losses >= self.config.consecutive_loss_limit {
                let cooldown_ms: u64 = self.config.cooldown_after_loss_secs * 1000;
                self.cooldown_until_ms = Some(now_ms + cooldown_ms);
            }
        } else {
            self.consecutive_losses = 0;
            self.cooldown_until_ms = None;
        }
    }

    /// Takes in a trade that closed now. Where the loss count is full, or the trade starts a
    /// cooldown that would not fit into 64 bits, nothing is changed and the result is false.
    pub fn record_close(&mut self, trade: &ClosedTrade) -> (recorded: bool)
        ensures
            exists|reading: Option<(u64, u32)>|
                {
                    let now_ms = #[trigger] millis_of(reading);
                    &&& recorded == old(self)@.can_take(*trade, now_ms)
                    &&& recorded ==> final(self)@ == old(self)@.after_close(*trade, now_ms)
                    &&& !recorded ==> *final(self) == *old(self)
                },
    {
        let now_ms: u64 = now_millis();
        if trade.pnl_usd.lt(Double::zero()) {
            if self.consecutive_losses == u32::MAX {
                return false;
            }
            if self.consecutive_losses + 1 >= self.config.consecutive_loss_limit
                && !self.cooldown_is_in_range(now_ms) {
                return false;
            }
        }
        self.record_close_at(trade, now_ms);
        true
    }

    /// Whether a cooldown from a time would end within 64 bits.
    pub fn cooldown_is_in_range(&self, now_ms: u64) -> (r: bool)
        ensures
            r == self@.cooldown_fits(now_ms),
    {
        self.config.cooldown_after_loss_secs <= (u64::MAX - now_ms) / 1000
    }

    /// Whether the loss count and the cooldowns that trades start leave room for them.
    pub fn has_room_for(&self, trades: &Vec<ClosedTrade>, now_ms: u64) -> (r: bool)
        ensures
            r == self@.can_take_all(trades@, now_ms),
    {
        let ghost mut then = self@;
        let mut losses: u32 = self.consecutive_losses;
        let mut i: usize = 0;
        assert(trades@.skip(0) =~= trades@);
        while i < trades.len()
            invariant
                i <= trades@.len(),
                then.config == self.config,
                then.consecutive_losses == losses,
                self@.can_take_all(trades@, now_ms) == then.can_take_all(
                    trades@.skip(i as int),
                    now_ms,
                ),
            decreases trades@.len() - i,
        {
            assert(trades@.skip(i as int).drop_first() =~= trades@.skip(i + 1));
            if trades[i].pnl_usd.lt(Double::zero()) {
                if losses == u32::MAX {
                    return false;
                }
                losses = losses + 1;
                if losses >= self.config.consecutive_loss_limit && !self.cooldown_is_in_range(
                    now_ms,
                ) {
                    return false;
                }
            } else {
                losses = 0;
            }
            proof {
                then = then.after_close(trades@[i as int], now_ms);
            }
            i = i + 1;
        }
        true
    }

    /// Takes in trades that closed at a time, one after the other.
    pub fn record_closes_at(&mut self, trades: &Vec<ClosedTrade>, now_ms: u64)
        requires
            old(self)@.can_take_all(trades@, now_ms),
        ensures
            final(self)@ == old(self)@.after_closes(trades@, now_ms),
    {
        let ghost start = self@;
        let mut i: usize = 0;
        assert(trades@.take(0) =~= Seq::empty());
        assert(trades@.skip(0) =~= trades@);
        while i < trades.len()
            invariant
                i <= trades@.len(),
                self@ == start.after_closes(trades@.take(i as int), now_ms),
                self@.can_take_all(trades@.skip(i as int), now_ms),
            decreases trades@.len() - i,
        {
            assert(trades@.take(i + 1).drop_last() =~= trades@.take(i as int));
            assert(trades@.skip(i as int).drop_first() =~= trades@.skip(i + 1));
            self.record_close_at(&trades[i], now_ms);
            i = i + 1;
        }
        assert(trades@.take(i as int) =~= trades@);
    }
}

proof fn lemma_noted_update(all: Seq<(String, u64)>, i: int, entry: (String, u64))
    requires
        0 <= i < all.len(),
        all[i].0@ == entry.0@,
        forall|j: int| 0 <= j < i ==> (#[trigger] all[j]).0@ != entry.0@,
    ensures
        forall|id: Seq<char>|
            #[trigger] noted(all.update(i, entry), id) == if id == entry.0@ {
                Some(entry.1)
            } else {
                noted(all, id)
            },
    decreases all.len(),
{
    let after = all.update(i, entry);
    if i > 0 {
        let rest = all.drop_first();
        assert forall|j: int| 0 <= j < i - 1 implies (#[trigger] rest[j]).0@ != entry.0@ by {
            assert(rest[j] == all[j + 1]);
        }
        lemma_noted_update(rest, i - 1, entry);
        assert(after.drop_first() =~= rest.update(i - 1, entry));
        assert(all[0].0@ != entry.0@);
        assert forall|id: Seq<char>| #[trigger] noted(after, id) == if id == entry.0@ {
            Some(entry.1)
        } else {
            noted(all, id)
        } by {
            assert(noted(rest.update(i - 1, entry), id) == noted(after.drop_first(), id));
            assert(after[0] == all[0]);
        }
    } else {
        assert(after.drop_first() =~= all.drop_first());
        assert forall|id: Seq<char>| #[trigger] noted(after, id) == if id == entry.0@ {
            Some(entry.1)
        } else {
            noted(all, id)
        } by {
            assert(after[0] == entry);
        }
    }
}

proof fn lemma_noted_push(all: Seq<(String, u64)>, entry: (String, u64))
    requires
        noted(all, entry.0@) is None,
    ensures
        forall|id: Seq<char>|
            #[trigger] noted(all.push(entry), id) == if id == entry.0@ {
                Some(entry.1)
            } else {
                noted(all, id)
            },
    decreases all.len(),
{
    let after = all.push(entry);
    if all.len() > 0 {
        lemma_noted_push(all.drop_first(), entry);
        assert(after.drop_first() =~= all.drop_first().push(entry));
        assert forall|id: Seq<char>| #[trigger] noted(after, id) == if id == entry.0@ {
            Some(entry.1)
        } else {
            noted(all, id)
        } by {
            assert(noted(all.drop_first().push(entry), id) == noted(after.drop_first(), id));
            assert(after[0] == all[0]);
        }
    } else {
        assert(after.drop_first() =~= Seq::empty());
        assert forall|id: Seq<char>| #[trigger] noted(after, id) == if id == entry.0@ {
            Some(entry.1)
        } else {
            noted(all, id)
        } by {
            assert(after[0] == entry);
            assert(noted(after.drop_first(), id) is None);
        }
    }
}

/// A trade that does not lose clears the count of losses and any cooldown.
pub proof fn law_win_clears_losses(risk: RiskView, trade: ClosedTrade, now_ms: u64)
    requires
        !trade.pnl_usd.lt(Double::zero()),
    ensures
        risk.after_close(trade, now_ms).consecutive_losses == 0,
        risk.after_close(trade, now_ms).cooldown_until_ms is None,
{
}

/// The loss that reaches the limit blocks every market until the cooldown is over.
pub proof fn law_losses_start_a_cooldown(
    risk: RiskView,
    trade: ClosedTrade,
    closed_ms: u64,
    market_id: Seq<char>,
    sim: SimulatorView,
    now_ms: u64,
)
    requires
        trade.pnl_usd.lt(Double::zero()),
        risk.consecutive_losses < u32::MAX,
        risk.consecutive_losses + 1 >= risk.config.consecutive_loss_limit,
        risk.cooldown_fits(closed_ms),
        now_ms < closed_ms + risk.config.cooldown_after_loss_secs * 1000,
    ensures
        risk.after_close(trade, closed_ms).verdict(market_id, sim, now_ms) is Some,
{
}

/// A market in which a trade closed is blocked for the minimal interval.
pub proof fn law_market_rests_after_a_trade(
    risk: RiskView,
    trade: ClosedTrade,
    closed_ms: u64,
    sim: SimulatorView,
    now_ms: u64,
)
    requires
        closed_ms <= now_ms < closed_ms + risk.config.min_trade_interval_secs * 1000,
    ensures
        risk.after_close(trade, closed_ms).verdict(trade.market_id@, sim, now_ms) is Some,
{
}

/// At the limit of positions nothing more is allowed.
pub proof fn law_positions_are_limited(
    risk: RiskView,
    market_id: Seq<char>,
    sim: SimulatorView,
    now_ms: u64,
)
    requires
        risk.verdict(market_id, sim, now_ms) is None,
    ensures
        sim.positions.len() < risk.config.max_concurrent_positions,
        !exposure(sim.positions).ge(risk.config.max_exposure_usd),
{
}

/// A new position is allowed exactly where no cooldown runs, there are fewer positions than
/// the limit, the exposure is below its limit, and the market's last trade is at least the
/// minimal interval ago.
pub proof fn law_entry_keeps_every_limit(
    risk: RiskView,
    market_id: Seq<char>,
    sim: SimulatorView,
    now_ms: u64,
)
    requires
        !exposure(sim.positions).is_nan(),
        !risk.config.max_exposure_usd.is_nan(),
    ensures
        ({
            let last = risk.last_trade_per_market;
            let rested = last.dom().contains(market_id) ==> (if now_ms >= last[market_id] {
                (now_ms - last[market_id]) / 1000
            } else {
                0
            }) >= risk.config.min_trade_interval_secs;
            risk.verdict(market_id, sim, now_ms) is None <==> {
                &&& risk.cooldown_until_ms is Some ==> now_ms >= risk.cooldown_until_ms->0
                &&& sim.positions.len() < risk.config.max_concurrent_positions
                &&& exposure(sim.positions).value() < risk.config.max_exposure_usd.value()
                &&& rested
            }
        }),
{
    reveal(Double::spec_lt);
    reveal(Double::spec_equals);
}

/// The limit that a position is blocked by is one that it would not keep, and the first such.
pub proof fn law_blocking_limit_is_named(
    risk: RiskView,
    market_id: Seq<char>,
    sim: SimulatorView,
    now_ms: u64,
)
    ensures
        match risk.verdict(market_id, sim, now_ms) {
            Some(RiskReason::Cooldown { remaining_secs, consecutive_losses }) => {
                &&& risk.cooldown_until_ms is Some
                &&& now_ms < risk.cooldown_until_ms->0
                &&& remaining_secs * 1000 <= risk.cooldown_until_ms->0 - now_ms < remaining_secs
                    * 1000 + 1000
                &&& consecutive_losses == risk.consecutive_losses
            },
            Some(RiskReason::MaxPositions { max }) => {
                &&& max == risk.config.max_concurrent_positions
                &&& sim.positions.len() >= max
                &&& risk.cooldown_until_ms is Some ==> risk.cooldown_until_ms->0 <= now_ms
            },
            Some(RiskReason::MaxExposure { max_usd, exposure_usd }) => {
                &&& max_usd == risk.config.max_exposure_usd
                &&& exposure_usd == exposure(sim.positions)
                &&& exposure_usd.value() >= max_usd.value()
                &&& sim.positions.len() < risk.config.max_concurrent_positions
                &&& risk.cooldown_until_ms is Some ==> risk.cooldown_until_ms->0 <= now_ms
            },
            Some(RiskReason::MinInterval { elapsed_secs, min_secs }) => {
                &&& sim.positions.len() < risk.config.max_concurrent_positions
                &&& !exposure(sim.positions).ge(risk.config.max_exposure_usd)
                &&& risk.cooldown_until_ms is Some ==> risk.cooldown_until_ms->0 <= now_ms
                &&& min_secs == risk.config.min_trade_interval_secs
                &&& elapsed_secs < min_secs
                &&& risk.last_trade_per_market.dom().contains(market_id)
                &&& now_ms >= risk.last_trade_per_market[market_id] ==> elapsed_secs * 1000
                    <= now_ms - risk.last_trade_per_market[market_id] < elapsed_secs * 1000 + 1000
            },
            None => true,
        },
{
    reveal(Double::spec_lt);
    reveal(Double::spec_equals);
}

/// A loss counts as one more in a row, and starts a cooldown of the configured seconds
/// exactly where it brings the row to the limit; a trade is noted for its own market alone,
/// and no trade changes the limits.
pub proof fn law_losses_count_in_a_row(risk: RiskView, trade: ClosedTrade, now_ms: u64)
    requires
        !trade.pnl_usd.is_nan(),
        risk.consecutive_losses < u32::MAX,
        risk.cooldown_fits(now_ms),
    ensures
        ({
            let after = risk.after_close(trade, now_ms);
            &&& trade.pnl_usd.value() < 0 ==> {
                &&& after.consecutive_losses == risk.consecutive_losses + 1
                &&& after.consecutive_losses >= risk.config.consecutive_loss_limit
                    ==> after.cooldown_until_ms == Some(
                    (now_ms + 1000 * risk.config.cooldown_after_loss_secs) as u64,
                )
                &&& after.consecutive_losses < risk.config.consecutive_loss_limit
                    ==> after.cooldown_until_ms == risk.cooldown_until_ms
            }
            &&& trade.pnl_usd.value() >= 0 ==> after.consecutive_losses == 0
                && after.cooldown_until_ms is None
            &&& after.last_trade_per_market == risk.last_trade_per_market.insert(
                trade.market_id@,
                now_ms,
            )
            &&& after.config == risk.config
        }),
{
    reveal(Double::spec_lt);
    assert(magnitude(0) == 0);
}

} // verus!
