use nautilus_mint::dynamic_aggregation::{
    aggregator_kind, AggregatorKind, DynamicAggregatorManager, TradeTickAction,
};
use nautilus_mint::model::{
    AggregationSource, AggressorSide, BarAggregation, BarIntervalType, BarSpecification, BarType,
    InstrumentId, Price, PriceType, Quantity, TradeId,
};
use nautilus_mint::trade::TradeTick;

const NANOS_IN_SECOND: u64 = 1_000_000_000;

fn instrument_id() -> InstrumentId {
    InstrumentId::new("ETHUSDT-PERP".to_string(), "BINANCE".to_string())
}

fn make_test_bar_spec(step: usize, agg: BarAggregation) -> BarSpecification {
    BarSpecification::new(step, agg, PriceType::Last)
}

fn make_test_bar_type(step: usize, agg: BarAggregation) -> BarType {
    BarType::new(instrument_id(), make_test_bar_spec(step, agg), AggregationSource::Internal)
}

fn make_dummy_mint_address(val: u8) -> Option<[u8; 32]> {
    let mut addr = [0u8; 32];
    addr[0] = val;
    Some(addr)
}

fn setup_manager(agg: BarAggregation, step: usize, inactivity_timeout_s: u64) -> DynamicAggregatorManager {
    DynamicAggregatorManager::new(
        instrument_id(),
        make_test_bar_type(step, agg),
        inactivity_timeout_s * NANOS_IN_SECOND,
        2,
        0,
        Some(true),
        Some(true),
        Some(BarIntervalType::LeftOpen),
    )
}

fn trade(id: &str, ts: u64, mint: Option<[u8; 32]>) -> TradeTick {
    TradeTick::new(
        instrument_id(),
        Price::new(10000, 2),
        Quantity::new(10, 0),
        AggressorSide::Buyer,
        TradeId::new(id.to_string()),
        ts,
        ts,
        mint,
    )
}

#[test]
fn test_dynamic_aggregator_manager_new() {
    let manager = setup_manager(BarAggregation::Tick, 1, 10);
    assert_eq!(*manager.instrument_id(), instrument_id());
    assert_eq!(manager.base_bar_spec(), make_test_bar_spec(1, BarAggregation::Tick));
    assert_eq!(manager.inactivity_timeout_ns(), 10 * NANOS_IN_SECOND);
    assert_eq!(manager.aggregator_count(), 0);
    assert!(!manager.has_aggregator(&None));
}

#[test]
fn test_handle_trade_tick_creates_one_aggregator_per_mint() {
    let mut manager = setup_manager(BarAggregation::Tick, 2, 10);
    let mint_addr1 = make_dummy_mint_address(1);
    let mint_addr2 = make_dummy_mint_address(2);

    let first = manager.handle_trade_tick(&trade("t1", 0, mint_addr1), 0);
    match first {
        TradeTickAction::Forward { mint, create: Some(new_agg) } => {
            assert_eq!(mint, mint_addr1);
            assert_eq!(new_agg.kind, AggregatorKind::Tick);
            assert_eq!(new_agg.mint, mint_addr1);
            assert_eq!(new_agg.bar_type, make_test_bar_type(2, BarAggregation::Tick));
            assert_eq!(new_agg.price_precision, 2);
            assert_eq!(new_agg.size_precision, 0);
        }
        other => panic!("unexpected action {:?}", other),
    }
    assert_eq!(manager.aggregator_count(), 1);

    let second = manager.handle_trade_tick(&trade("t2", 1000, mint_addr1), 1000);
    assert_eq!(second, TradeTickAction::Forward { mint: mint_addr1, create: None });
    assert_eq!(manager.aggregator_count(), 1);
    assert_eq!(manager.last_activity(&mint_addr1), Some(1000));

    let third = manager.handle_trade_tick(&trade("t3", 2000, mint_addr2), 2000);
    assert!(matches!(third, TradeTickAction::Forward { create: Some(_), .. }));
    assert_eq!(manager.aggregator_count(), 2);

    let fourth = manager.handle_trade_tick(&trade("t5", 3000, None), 3000);
    assert!(matches!(fourth, TradeTickAction::Forward { mint: None, create: Some(_) }));
    assert_eq!(manager.aggregator_count(), 3);
    assert!(manager.has_aggregator(&None));
}

#[test]
fn test_check_timeouts_removes_inactive_aggregators() {
    let mut manager = setup_manager(BarAggregation::Tick, 2, 10);
    let mint_addr1 = make_dummy_mint_address(1);
    manager.handle_trade_tick(&trade("t1", 0, mint_addr1), 0);
    assert_eq!(manager.aggregator_count(), 1);

    let removed = manager.check_timeouts(10 * NANOS_IN_SECOND + 1);
    assert_eq!(removed, vec![mint_addr1]);
    assert_eq!(manager.aggregator_count(), 0);
    assert_eq!(manager.last_activity(&mint_addr1), None);
}

#[test]
fn test_timeout_reset_by_activity() {
    let mut manager = setup_manager(BarAggregation::Tick, 2, 10);
    let mint_addr1 = make_dummy_mint_address(1);
    let mut now = 0;

    manager.handle_trade_tick(&trade("t1", now, mint_addr1), now);

    now += 5 * NANOS_IN_SECOND;
    manager.check_timeouts(now);
    assert_eq!(manager.aggregator_count(), 1, "Aggregator should not time out yet");

    manager.handle_trade_tick(&trade("t2", now, mint_addr1), now);

    now += 6 * NANOS_IN_SECOND;
    manager.check_timeouts(now);
    assert_eq!(manager.aggregator_count(), 1, "Aggregator should not time out due to reset activity");

    now += 5 * NANOS_IN_SECOND;
    manager.check_timeouts(now);
    assert_eq!(manager.aggregator_count(), 0, "Aggregator should time out eventually");
}

#[test]
fn test_zero_inactivity_timeout() {
    let mut manager = setup_manager(BarAggregation::Tick, 2, 0);
    let mint_addr = make_dummy_mint_address(1);
    let ts = 0;

    manager.handle_trade_tick(&trade("zt1", ts, mint_addr), ts);
    assert_eq!(manager.aggregator_count(), 1);

    // Checking at the same instant drops the aggregator; the caller stops it,
    // which flushes its partial bar.
    let removed = manager.check_timeouts(ts);
    assert_eq!(removed, vec![mint_addr]);
    assert_eq!(
        manager.aggregator_count(),
        0,
        "Aggregator should be removed immediately with zero timeout if no new tick follows instantly"
    );
}

#[test]
fn test_timeout_is_strict_and_idempotent() {
    let mut manager = DynamicAggregatorManager::new(
        instrument_id(),
        make_test_bar_type(2, BarAggregation::Tick),
        1,
        2,
        0,
        None,
        None,
        None,
    );
    let mint = make_dummy_mint_address(1);
    manager.handle_trade_tick(&trade("s1", 100, mint), 100);
    // Idle for exactly the timeout: not longer than it, so kept.
    assert!(manager.check_timeouts(101).is_empty());
    // A clock that reads earlier than the last trade counts as no time passed.
    assert!(manager.check_timeouts(50).is_empty());
    assert_eq!(manager.aggregator_count(), 1);
    // One nanosecond more and it times out, once.
    assert_eq!(manager.check_timeouts(102), vec![mint]);
    assert!(manager.check_timeouts(102).is_empty());
    assert_eq!(manager.aggregator_count(), 0);
}

#[test]
fn test_volume_aggregator_dynamic_creation() {
    let mut manager = setup_manager(BarAggregation::Volume, 100, 10);
    let mint_addr_vol = make_dummy_mint_address(10);
    match manager.handle_trade_tick(&trade("v1", 0, mint_addr_vol), 0) {
        TradeTickAction::Forward { mint, create: Some(new_agg) } => {
            assert_eq!(mint, mint_addr_vol);
            assert_eq!(new_agg.kind, AggregatorKind::Volume);
            assert_eq!(new_agg.mint, mint_addr_vol);
            assert_eq!(new_agg.bar_type.spec, make_test_bar_spec(100, BarAggregation::Volume));
            assert_eq!(new_agg.bar_type.spec.aggregation, BarAggregation::Volume);
            assert_eq!(new_agg.bar_type.aggregation_source, AggregationSource::Internal);
        }
        other => panic!("unexpected action {:?}", other),
    }
    assert_eq!(
        manager.handle_trade_tick(&trade("v2", 1000, mint_addr_vol), 1000),
        TradeTickAction::Forward { mint: mint_addr_vol, create: None }
    );
    assert_eq!(manager.base_bar_spec().aggregation, BarAggregation::Volume);
}

#[test]
fn test_value_aggregator_dynamic_creation() {
    let mut manager = setup_manager(BarAggregation::Value, 5000, 10);
    let mint_addr_val = make_dummy_mint_address(11);
    match manager.handle_trade_tick(&trade("val1", 0, mint_addr_val), 0) {
        TradeTickAction::Forward { mint, create: Some(new_agg) } => {
            assert_eq!(mint, mint_addr_val);
            assert_eq!(new_agg.kind, AggregatorKind::Value);
            assert_eq!(new_agg.mint, mint_addr_val);
            assert_eq!(new_agg.bar_type.spec, make_test_bar_spec(5000, BarAggregation::Value));
            assert_eq!(new_agg.bar_type.spec.aggregation, BarAggregation::Value);
            assert_eq!(new_agg.bar_type.instrument_id, instrument_id());
        }
        other => panic!("unexpected action {:?}", other),
    }
    assert_eq!(
        manager.handle_trade_tick(&trade("val2", 1000, mint_addr_val), 1000),
        TradeTickAction::Forward { mint: mint_addr_val, create: None }
    );
}

#[test]
fn test_check_timeouts_keeps_recent_mints() {
    let mut manager = setup_manager(BarAggregation::Volume, 100, 10);
    let old_mint = make_dummy_mint_address(3);
    let new_mint = make_dummy_mint_address(4);
    manager.handle_trade_tick(&trade("a", 0, old_mint), 0);
    manager.handle_trade_tick(&trade("b", 0, None), 0);
    manager.handle_trade_tick(&trade("c", 8 * NANOS_IN_SECOND, new_mint), 8 * NANOS_IN_SECOND);
    let mut removed = manager.check_timeouts(12 * NANOS_IN_SECOND);
    removed.sort();
    assert_eq!(removed, vec![None, old_mint]);
    assert_eq!(manager.aggregator_count(), 1);
    assert_eq!(manager.last_activity(&new_mint), Some(8 * NANOS_IN_SECOND));
}

#[test]
fn test_time_aggregation_creates_time_aggregator() {
    let mut manager = setup_manager(BarAggregation::Second, 1, 5);
    let mint = make_dummy_mint_address(12);
    match manager.handle_trade_tick(&trade("time1", 0, mint), 0) {
        TradeTickAction::Forward { create: Some(new_agg), .. } => {
            assert_eq!(new_agg.kind, AggregatorKind::Time);
            assert!(new_agg.build_with_no_updates);
            assert!(new_agg.timestamp_on_close);
            assert_eq!(new_agg.interval_type, BarIntervalType::LeftOpen);
        }
        other => panic!("unexpected action {:?}", other),
    }
    assert_eq!(manager.check_timeouts(6 * NANOS_IN_SECOND), vec![mint]);
}

#[test]
fn test_unsupported_aggregation_drops_trades() {
    let mut manager = setup_manager(BarAggregation::TickImbalance, 1, 5);
    let mint = make_dummy_mint_address(7);
    let action = manager.handle_trade_tick(&trade("u1", 0, mint), 0);
    assert_eq!(
        action,
        TradeTickAction::Unsupported { mint, aggregation: BarAggregation::TickImbalance }
    );
    assert_eq!(manager.aggregator_count(), 0);
    assert_eq!(manager.last_activity(&mint), None);
}

#[test]
fn test_time_bar_defaults() {
    let mut manager = DynamicAggregatorManager::new(
        instrument_id(),
        make_test_bar_type(1, BarAggregation::Minute),
        0,
        2,
        0,
        None,
        None,
        None,
    );
    match manager.handle_trade_tick(&trade("d", 0, None), 0) {
        TradeTickAction::Forward { create: Some(new_agg), .. } => {
            assert!(new_agg.build_with_no_updates);
            assert!(new_agg.timestamp_on_close);
            assert_eq!(new_agg.interval_type, BarIntervalType::LeftOpen);
        }
        other => panic!("unexpected action {:?}", other),
    }
}

#[test]
fn test_aggregator_kinds() {
    assert_eq!(aggregator_kind(BarAggregation::Tick), Some(AggregatorKind::Tick));
    assert_eq!(aggregator_kind(BarAggregation::Volume), Some(AggregatorKind::Volume));
    assert_eq!(aggregator_kind(BarAggregation::Value), Some(AggregatorKind::Value));
    for agg in [
        BarAggregation::Millisecond,
        BarAggregation::Second,
        BarAggregation::Minute,
        BarAggregation::Hour,
        BarAggregation::Day,
        BarAggregation::Week,
        BarAggregation::Month,
    ] {
        assert_eq!(aggregator_kind(agg), Some(AggregatorKind::Time));
    }
    for agg in [
        BarAggregation::TickImbalance,
        BarAggregation::TickRuns,
        BarAggregation::VolumeImbalance,
        BarAggregation::VolumeRuns,
        BarAggregation::ValueImbalance,
        BarAggregation::ValueRuns,
    ] {
        assert_eq!(aggregator_kind(agg), None);
    }
}
