use trading_bot::price::parse_price;
use trading_bot::trigger::{
    backoff_delay, Action, Comparator, FirePolicy, LoopConfig, Outcome, Phase, RunMode, TickerQuote,
    TriggerLoop, TriggerRule,
};

fn config(policy: FirePolicy, mode: RunMode) -> LoopConfig {
    LoopConfig { policy, mode, poll_interval_ms: 1000, max_backoff_ms: 30000 }
}

fn rule(symbol: &str, comparator: Comparator, threshold: &str) -> TriggerRule {
    TriggerRule { symbol: symbol.to_string(), comparator, threshold: parse_price(threshold).unwrap() }
}

fn quote(symbol: &str, price: &str) -> TickerQuote {
    TickerQuote { symbol: symbol.to_string(), price: parse_price(price).unwrap() }
}

#[test]
fn gt_does_not_fire_at_threshold_but_ge_does() {
    let q = quote("ETHUSD", "1800.0");
    assert!(!rule("ETHUSD", Comparator::Gt, "1800").fires(&q));
    assert!(rule("ETHUSD", Comparator::Ge, "1800").fires(&q));
    assert!(rule("ETHUSD", Comparator::Le, "1800").fires(&q));
    assert!(!rule("ETHUSD", Comparator::Lt, "1800").fires(&q));
    assert!(rule("ETHUSD", Comparator::Lt, "1800.00000001").fires(&q));
}

#[test]
fn quote_for_another_symbol_does_not_fire() {
    assert!(!rule("ETHUSD", Comparator::Gt, "1").fires(&quote("BTCUSD", "50000")));
}

#[test]
fn quote_stream_triggers_once_on_third_quote() {
    let mut l = TriggerLoop::new(rule("ETHUSD", Comparator::Gt, "1800.0"), config(FirePolicy::FireOnce, RunMode::UntilCancelled));
    let mut executes = 0;
    let mut actions = Vec::new();
    for p in ["1600.0", "1650.5", "1830.1"] {
        let a = l.on_quote(&quote("ETHUSD", p));
        if a == Action::Execute {
            executes += 1;
            l.on_execution_finished(Outcome::Placed);
        }
        actions.push(a);
    }
    assert_eq!(actions, vec![Action::Poll { delay_ms: 1000 }, Action::Poll { delay_ms: 1000 }, Action::Execute]);
    assert_eq!(executes, 1);
}

#[test]
fn sustained_trigger_fires_once_until_condition_clears() {
    let mut l = TriggerLoop::new(rule("ETHUSD", Comparator::Ge, "100"), config(FirePolicy::FireOnce, RunMode::UntilCancelled));
    let mut executes = 0;
    for _ in 0..10 {
        if l.on_quote(&quote("ETHUSD", "150")) == Action::Execute {
            executes += 1;
            l.on_execution_finished(Outcome::Placed);
        }
    }
    assert_eq!(executes, 1);
    assert_eq!(l.on_quote(&quote("ETHUSD", "50")), Action::Poll { delay_ms: 1000 });
    assert_eq!(l.on_quote(&quote("ETHUSD", "150")), Action::Execute);
}

#[test]
fn every_poll_policy_fires_on_each_quote() {
    let mut l = TriggerLoop::new(rule("ETHUSD", Comparator::Ge, "100"), config(FirePolicy::EveryPoll, RunMode::UntilCancelled));
    let mut executes = 0;
    for _ in 0..4 {
        if l.on_quote(&quote("ETHUSD", "150")) == Action::Execute {
            executes += 1;
            l.on_execution_finished(Outcome::Placed);
        }
    }
    assert_eq!(executes, 4);
}

#[test]
fn no_new_order_while_one_is_in_flight() {
    let mut l = TriggerLoop::new(rule("ETHUSD", Comparator::Ge, "100"), config(FirePolicy::EveryPoll, RunMode::UntilCancelled));
    assert_eq!(l.on_quote(&quote("ETHUSD", "150")), Action::Execute);
    assert_eq!(l.on_quote(&quote("ETHUSD", "150")), Action::Poll { delay_ms: 1000 });
    assert_eq!(l.state.phase, Phase::Executing);
}

#[test]
fn transport_failure_keeps_the_loop_polling() {
    let mut l = TriggerLoop::new(rule("ETHUSD", Comparator::Gt, "1800"), config(FirePolicy::FireOnce, RunMode::UntilCancelled));
    assert_eq!(l.on_quote(&quote("ETHUSD", "1900")), Action::Execute);
    assert_eq!(l.on_execution_finished(Outcome::TransportFailed), Action::Poll { delay_ms: 2000 });
    assert_eq!(l.state.phase, Phase::Idle);
    assert_eq!(l.on_poll_failure(true), Action::Poll { delay_ms: 4000 });
    assert_eq!(l.on_poll_failure(true), Action::Poll { delay_ms: 8000 });
    assert_eq!(l.on_quote(&quote("ETHUSD", "1700")), Action::Poll { delay_ms: 1000 });
    assert_eq!(l.state.transport_failures, 0);
}

#[test]
fn decode_failure_does_not_back_off() {
    let mut l = TriggerLoop::new(rule("ETHUSD", Comparator::Gt, "1800"), config(FirePolicy::FireOnce, RunMode::UntilCancelled));
    assert_eq!(l.on_poll_failure(true), Action::Poll { delay_ms: 2000 });
    assert_eq!(l.on_poll_failure(false), Action::Poll { delay_ms: 1000 });
}

#[test]
fn backoff_doubles_up_to_the_cap() {
    let c = config(FirePolicy::FireOnce, RunMode::UntilCancelled);
    assert_eq!(backoff_delay(c, 0), 1000);
    assert_eq!(backoff_delay(c, 1), 2000);
    assert_eq!(backoff_delay(c, 4), 16000);
    assert_eq!(backoff_delay(c, 5), 30000);
    assert_eq!(backoff_delay(c, 64), 30000);
    let big = LoopConfig { policy: FirePolicy::FireOnce, mode: RunMode::UntilCancelled, poll_interval_ms: u64::MAX, max_backoff_ms: u64::MAX };
    assert_eq!(backoff_delay(big, 3), u64::MAX);
}

#[test]
fn run_once_stops_after_the_order() {
    let mut l = TriggerLoop::new(rule("ETHUSD", Comparator::Gt, "1800"), config(FirePolicy::FireOnce, RunMode::RunOnce));
    assert_eq!(l.on_quote(&quote("ETHUSD", "1900")), Action::Execute);
    assert_eq!(l.on_execution_finished(Outcome::Failed), Action::Stop);
    assert_eq!(l.on_quote(&quote("ETHUSD", "1900")), Action::Stop);
}

#[test]
fn cancel_waits_for_the_order_in_flight() {
    let mut l = TriggerLoop::new(rule("ETHUSD", Comparator::Gt, "1800"), config(FirePolicy::FireOnce, RunMode::UntilCancelled));
    assert_eq!(l.on_quote(&quote("ETHUSD", "1900")), Action::Execute);
    assert_eq!(l.cancel(), Action::Poll { delay_ms: 0 });
    assert_eq!(l.state.phase, Phase::Executing);
    assert_eq!(l.on_execution_finished(Outcome::Placed), Action::Stop);
    assert_eq!(l.state.phase, Phase::Stopped);
    let mut idle = TriggerLoop::new(rule("ETHUSD", Comparator::Gt, "1800"), config(FirePolicy::FireOnce, RunMode::UntilCancelled));
    assert_eq!(idle.cancel(), Action::Stop);
    assert_eq!(idle.on_poll_failure(true), Action::Stop);
}

#[test]
fn prices_parse_to_fixed_point() {
    assert_eq!(parse_price("1830.1"), Some(183010000000));
    assert_eq!(parse_price("1650.5"), Some(165050000000));
    assert_eq!(parse_price("1600"), Some(160000000000));
    assert_eq!(parse_price("0.00000001"), Some(1));
    assert_eq!(parse_price("0.000000001"), None);
    assert_eq!(parse_price(""), None);
    assert_eq!(parse_price(".5"), None);
    assert_eq!(parse_price("5."), None);
    assert_eq!(parse_price("1.2.3"), None);
    assert_eq!(parse_price("-1"), None);
    assert_eq!(parse_price("184467440737.09551615"), Some(u64::MAX));
    assert_eq!(parse_price("184467440737.09551616"), None);
}
