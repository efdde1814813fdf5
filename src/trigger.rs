use vstd::prelude::*;

verus! {

/// How a price is compared with the threshold.
#[derive(Debug, Clone, Copy, PartialEq, Eq, Structural)]
pub enum Comparator {
    Gt,
    Ge,
    Lt,
    Le,
}

pub open spec fn compares(c: Comparator, price: u64, threshold: u64) -> bool {
    match c {
        Comparator::Gt => price > threshold,
        Comparator::Ge => price >= threshold,
        Comparator::Lt => price < threshold,
        Comparator::Le => price <= threshold,
    }
}

impl Comparator {
    /// Whether `price` stands in this relation to `threshold`.
    pub fn holds(&self, price: u64, threshold: u64) -> (r: bool)
        ensures
            r == compares(*self, price, threshold),
    {
        match self {
            Comparator::Gt => price > threshold,
            Comparator::Ge => price >= threshold,
            Comparator::Lt => price < threshold,
            Comparator::Le => price <= threshold,
        }
    }
}

/// A price observed for a symbol; prices are fixed-point numbers in units
/// of 10^-8 (see `crate::price`).
pub struct TickerQuote {
    pub symbol: String,
    pub price: u64,
}

/// The condition that triggers an order.
pub struct TriggerRule {
    pub symbol: String,
    pub comparator: Comparator,
    pub threshold: u64,
}

pub open spec fn rule_holds(rule: TriggerRule, quote: TickerQuote) -> bool {
    rule.symbol@ == quote.symbol@ && compares(rule.comparator, quote.price, rule.threshold)
}

impl TriggerRule {
    /// Whether the quote is for the rule's symbol and its price meets the rule.
    pub fn fires(&self, quote: &TickerQuote) -> (r: bool)
        ensures
            r == rule_holds(*self, *quote),
    {
        self.symbol == quote.symbol && self.comparator.holds(quote.price, self.threshold)
    }
}

/// What to do while a trigger condition stays true over several quotes.
#[derive(Debug, Clone, Copy, PartialEq, Eq, Structural)]
pub enum FirePolicy {
    /// Fire once, then stay disarmed until a quote no longer meets the rule.
    FireOnce,
    /// Fire on every quote that meets the rule.
    EveryPoll,
}

/// Whether the loop ends after its first order.
#[derive(Debug, Clone, Copy, PartialEq, Eq, Structural)]
pub enum RunMode {
    RunOnce,
    UntilCancelled,
}

/// Static configuration of the loop.
#[derive(Debug, Clone, Copy, PartialEq, Eq, Structural)]
pub struct LoopConfig {
    pub policy: FirePolicy,
    pub mode: RunMode,
    /// Pause between polls, in milliseconds.
    pub poll_interval_ms: u64,
    /// Largest pause after repeated transport failures, in milliseconds.
    pub max_backoff_ms: u64,
}

#[derive(Debug, Clone, Copy, PartialEq, Eq, Structural)]
pub enum Phase {
    Idle,
    Executing,
    Stopped,
}

/// Mutable state of the loop.
#[derive(Debug, Clone, Copy, PartialEq, Eq, Structural)]
pub struct LoopState {
    pub phase: Phase,
    /// Whether a quote that meets the rule may start an order.
    pub armed: bool,
    /// A stop was asked for while an order was in flight.
    pub stop_requested: bool,
    /// Consecutive transport failures, counted up to `MAX_BACKOFF_STEPS`.
    pub transport_failures: u32,
}

/// What the driver of the loop does next.
#[derive(Debug, Clone, Copy, PartialEq, Eq, Structural)]
pub enum Action {
    /// Submit the order, then report its outcome.
    Execute,
    /// Wait this many milliseconds, then poll again.
    Poll { delay_ms: u64 },
    /// End the loop.
    Stop,
}

/// How an order submission ended, as far as the loop cares.
#[derive(Debug, Clone, Copy, PartialEq, Eq, Structural)]
pub enum Outcome {
    Placed,
    TransportFailed,
    Failed,
}

/// Doublings after which the backoff no longer grows.
pub const MAX_BACKOFF_STEPS: u32 = 64;

/// Pause before the next poll after `n` consecutive transport failures:
/// the poll interval, doubled for each failure, never above the cap once doubled.
pub open spec fn backoff(base: u64, cap: u64, n: nat) -> nat
    decreases n,
{
    if n == 0 {
        base as nat
    } else {
        let d = 2 * backoff(base, cap, (n - 1) as nat);
        if d > cap { cap as nat } else { d }
    }
}

/// The pause that the configuration asks for after `failures` transport failures.
pub fn backoff_delay(config: LoopConfig, failures: u32) -> (r: u64)
    ensures
        r == backoff(config.poll_interval_ms, config.max_backoff_ms, failures as nat),
{
    let cap = config.max_backoff_ms;
    let mut d: u64 = config.poll_interval_ms;
    let mut k: u32 = 0;
    while k < failures
        invariant
            k <= failures,
            d == backoff(config.poll_interval_ms, cap, k as nat),
        decreases failures - k,
    {
        if d > cap / 2 {
            d = cap;
        } else {
            d = 2 * d;
        }
        k = k + 1;
    }
    d
}

pub open spec fn poll_after(config: LoopConfig, failures: u32) -> Action {
    Action::Poll {
        delay_ms: backoff(config.poll_interval_ms, config.max_backoff_ms, failures as nat) as u64,
    }
}

/// The transition on a new quote, given whether it meets the rule.
pub open spec fn quote_step(config: LoopConfig, s: LoopState, holds: bool) -> (LoopState, Action) {
    match s.phase {
        Phase::Stopped => (s, Action::Stop),
        Phase::Executing => (s, poll_after(config, s.transport_failures)),
        Phase::Idle => {
            let cleared = LoopState { transport_failures: 0, ..s };
            if !holds {
                (LoopState { armed: true, ..cleared }, poll_after(config, 0))
            } else if s.armed {
                (
                    LoopState {
                        phase: Phase::Executing,
                        armed: config.policy == FirePolicy::EveryPoll,
                        ..cleared
                    },
                    Action::Execute,
                )
            } else {
                (cleared, poll_after(config, 0))
            }
        },
    }
}

/// The transition when a poll brought no quote.
pub open spec fn poll_failure_step(config: LoopConfig, s: LoopState, transport: bool) -> (LoopState, Action) {
    match s.phase {
        Phase::Stopped => (s, Action::Stop),
        _ => {
            let n: u32 = if !transport {
                0
            } else if s.transport_failures < MAX_BACKOFF_STEPS {
                (s.transport_failures + 1) as u32
            } else {
                MAX_BACKOFF_STEPS
            };
            (LoopState { transport_failures: n, ..s }, poll_after(config, n))
        },
    }
}

/// The transition when an order submission has ended.
pub open spec fn finish_step(config: LoopConfig, s: LoopState, outcome: Outcome) -> (LoopState, Action) {
    match s.phase {
        Phase::Executing => {
            let n: u32 = if outcome != Outcome::TransportFailed {
                0
            } else if s.transport_failures < MAX_BACKOFF_STEPS {
                (s.transport_failures + 1) as u32
            } else {
                MAX_BACKOFF_STEPS
            };
            if s.stop_requested || config.mode == RunMode::RunOnce {
                (LoopState { phase: Phase::Stopped, transport_failures: n, ..s }, Action::Stop)
            } else {
                (LoopState { phase: Phase::Idle, transport_failures: n, ..s }, poll_after(config, n))
            }
        },
        Phase::Stopped => (s, Action::Stop),
        Phase::Idle => (s, poll_after(config, s.transport_failures)),
    }
}

/// The transition on an outside stop signal: an order in flight completes first.
pub open spec fn cancel_step(s: LoopState) -> (LoopState, Action) {
    match s.phase {
        Phase::Executing => (LoopState { stop_requested: true, ..s }, Action::Poll { delay_ms: 0 }),
        _ => (LoopState { phase: Phase::Stopped, ..s }, Action::Stop),
    }
}

pub open spec fn initial_state() -> LoopState {
    LoopState { phase: Phase::Idle, armed: true, stop_requested: false, transport_failures: 0 }
}

/// The control loop that turns quotes into at most one order at a time.
pub struct TriggerLoop {
    pub rule: TriggerRule,
    pub config: LoopConfig,
    pub state: LoopState,
}

impl TriggerLoop {
    /// A loop waiting for its first quote, armed.
    pub fn new(rule: TriggerRule, config: LoopConfig) -> (r: TriggerLoop)
        ensures
            r.rule == rule,
            r.config == config,
            r.state == initial_state(),
    {
        TriggerLoop {
            rule,
            config,
            state: LoopState {
                phase: Phase::Idle,
                armed: true,
                stop_requested: false,
                transport_failures: 0,
            },
        }
    }

    fn poll_action(&self, failures: u32) -> (r: Action)
        ensures
            r == poll_after(self.config, failures),
    {
        Action::Poll { delay_ms: backoff_delay(self.config, failures) }
    }

    /// Evaluates a new quote against the rule.
    pub fn on_quote(&mut self, quote: &TickerQuote) -> (r: Action)
        ensures
            final(self).rule == old(self).rule,
            final(self).config == old(self).config,
            (final(self).state, r) == quote_step(
                old(self).config,
                old(self).state,
                rule_holds(old(self).rule, *quote),
            ),
    {
        let holds = self.rule.fires(quote);
        match self.state.phase {
            Phase::Stopped => Action::Stop,
            Phase::Executing => self.poll_action(self.state.transport_failures),
            Phase::Idle => {
                self.state.transport_failures = 0;
                if !holds {
                    self.state.armed = true;
                    self.poll_action(0)
                } else if self.state.armed {
                    self.state.phase = Phase::Executing;
                    self.state.armed = self.config.policy == FirePolicy::EveryPoll;
                    Action::Execute
                } else {
                    self.poll_action(0)
                }
            },
        }
    }

    fn next_failures(&self, transport: bool) -> (r: u32)
        ensures
            r == (if !transport {
                0
            } else if self.state.transport_failures < MAX_BACKOFF_STEPS {
                (self.state.transport_failures + 1) as u32
            } else {
                MAX_BACKOFF_STEPS
            }),
    {
        if !transport {
            0
        } else if self.state.transport_failures < MAX_BACKOFF_STEPS {
            self.state.transport_failures + 1
        } else {
            MAX_BACKOFF_STEPS
        }
    }

    /// Records a poll that brought no quote; `transport` tells a transport
    /// failure from a reply that could not be decoded.
    pub fn on_poll_failure(&mut self, transport: bool) -> (r: Action)
        ensures
            final(self).rule == old(self).rule,
            final(self).config == old(self).config,
            (final(self).state, r) == poll_failure_step(old(self).config, old(self).state, transport),
    {
        match self.state.phase {
            Phase::Stopped => Action::Stop,
            _ => {
                let n = self.next_failures(transport);
                self.state.transport_failures = n;
                self.poll_action(n)
            },
        }
    }

    /// Records how the order submission ended.
    pub fn on_execution_finished(&mut self, outcome: Outcome) -> (r: Action)
        ensures
            final(self).rule == old(self).rule,
            final(self).config == old(self).config,
            (final(self).state, r) == finish_step(old(self).config, old(self).state, outcome),
    {
        match self.state.phase {
            Phase::Executing => {
                let n = self.next_failures(outcome == Outcome::TransportFailed);
                self.state.transport_failures = n;
                if self.state.stop_requested || self.config.mode == RunMode::RunOnce {
                    self.state.phase = Phase::Stopped;
                    Action::Stop
                } else {
                    self.state.phase = Phase::Idle;
                    self.poll_action(n)
                }
            },
            Phase::Stopped => Action::Stop,
            Phase::Idle => self.poll_action(self.state.transport_failures),
        }
    }

    /// Handles an outside stop signal.
    pub fn cancel(&mut self) -> (r: Action)
        ensures
            final(self).rule == old(self).rule,
            final(self).config == old(self).config,
            (final(self).state, r) == cancel_step(old(self).state),
    {
        match self.state.phase {
            Phase::Executing => {
                self.state.stop_requested = true;
                Action::Poll { delay_ms: 0 }
            },
            _ => {
                self.state.phase = Phase::Stopped;
                Action::Stop
            },
        }
    }
}


/// At the threshold itself `Gt` does not fire and `Ge` does.
pub proof fn lemma_threshold_boundary(threshold: u64)
    ensures
        !compares(Comparator::Gt, threshold, threshold),
        compares(Comparator::Ge, threshold, threshold),
{
}

/// Feeds quotes to the loop (each given by whether it meets the rule); after
/// each `Execute` the submission is reported as ending with `outcome`.
/// Yields the final state and the number of `Execute` actions.
pub open spec fn drive(config: LoopConfig, s: LoopState, quotes: Seq<bool>, outcome: Outcome) -> (LoopState, nat)
    decreases quotes.len(),
{
    if quotes.len() == 0 {
        (s, 0)
    } else {
        let (s1, a) = quote_step(config, s, quotes[0]);
        let s2 = if a == Action::Execute { finish_step(config, s1, outcome).0 } else { s1 };
        let (s3, n) = drive(config, s2, quotes.drop_first(), outcome);
        (s3, n + if a == Action::Execute { 1nat } else { 0nat })
    }
}

proof fn lemma_disarmed_stays_quiet(config: LoopConfig, s: LoopState, quotes: Seq<bool>, outcome: Outcome)
    requires
        config.policy == FirePolicy::FireOnce,
        s.phase != Phase::Executing,
        !s.armed,
        forall|i: int| 0 <= i < quotes.len() ==> #[trigger] quotes[i],
    ensures
        drive(config, s, quotes, outcome).1 == 0,
    decreases quotes.len(),
{
    if quotes.len() > 0 {
        let (s1, a) = quote_step(config, s, quotes[0]);
        assert(a != Action::Execute);
        assert(s1.phase != Phase::Executing && !s1.armed);
        let rest = quotes.drop_first();
        assert forall|i: int| 0 <= i < rest.len() implies #[trigger] rest[i] by {
            assert(quotes[i + 1]);
        }
        lemma_disarmed_stays_quiet(config, s1, rest, outcome);
    }
}

/// Under the fire-once policy, a run of quotes that all meet the rule,
/// starting from an armed idle loop, submits exactly one order, whatever
/// the outcome of that submission.
pub proof fn lemma_fire_once_no_duplicate(config: LoopConfig, s: LoopState, quotes: Seq<bool>, outcome: Outcome)
    requires
        config.policy == FirePolicy::FireOnce,
        s.phase == Phase::Idle,
        s.armed,
        quotes.len() > 0,
        forall|i: int| 0 <= i < quotes.len() ==> #[trigger] quotes[i],
    ensures
        drive(config, s, quotes, outcome).1 == 1,
{
    assert(quotes[0]);
    let (s1, a) = quote_step(config, s, quotes[0]);
    assert(a == Action::Execute);
    assert(s1.phase == Phase::Executing && !s1.armed);
    let s2 = finish_step(config, s1, outcome).0;
    assert(s2.phase != Phase::Executing && !s2.armed);
    let rest = quotes.drop_first();
    assert forall|i: int| 0 <= i < rest.len() implies #[trigger] rest[i] by {
        assert(quotes[i + 1]);
    }
    lemma_disarmed_stays_quiet(config, s2, rest, outcome);
}

/// A transport failure, whether of a poll or of a submission, never stops a
/// loop that runs until cancelled: it polls again after the backoff pause.
pub proof fn lemma_transport_failure_continues(config: LoopConfig, s: LoopState)
    requires
        config.mode == RunMode::UntilCancelled,
        s.phase != Phase::Stopped,
        !s.stop_requested,
    ensures
        ({
            let (t, a) = poll_failure_step(config, s, true);
            t.phase == s.phase && a == poll_after(config, t.transport_failures)
        }),
        s.phase == Phase::Executing ==> ({
            let (t, a) = finish_step(config, s, Outcome::TransportFailed);
            t.phase == Phase::Idle && a == poll_after(config, t.transport_failures)
        }),
{
}

} // verus!
