use nautilus_mint::model::{AggressorSide, InstrumentId, Price, Quantity, TradeId};
use nautilus_mint::trade::{TradeTick, TradeTickError};

fn ethusdt() -> InstrumentId {
    InstrumentId::new("ETHUSDT-PERP".to_string(), "BINANCE".to_string())
}

fn dummy_mint_address() -> [u8; 32] {
    [
        1, 2, 3, 4, 5, 6, 7, 8, 1, 2, 3, 4, 5, 6, 7, 8, 1, 2, 3, 4, 5, 6, 7, 8, 1, 2, 3, 4, 5, 6,
        7, 8,
    ]
}

fn stub_trade(mint_address: Option<[u8; 32]>) -> TradeTick {
    TradeTick::new(
        ethusdt(),
        Price::new(100000000, 4),
        Quantity::new(100000000, 8),
        AggressorSide::Buyer,
        TradeId::new("123456789".to_string()),
        0,
        1,
        mint_address,
    )
}

#[test]
fn test_trade_tick_new_checked_with_zero_size_error() {
    let result = TradeTick::new_checked(
        InstrumentId::new("ETH-USDT-SWAP".to_string(), "OKX".to_string()),
        Price::new(1000000, 2),
        Quantity::new(0, 0),
        AggressorSide::Buyer,
        TradeId::new("123456789".to_string()),
        0,
        1,
        None,
    );
    assert!(result.is_err());
    let err = result.unwrap_err();
    assert_eq!(err, TradeTickError::NonPositiveSize { size: Quantity::new(0, 0) });
    assert_eq!(err.message(), "invalid `Quantity` for 'size' not positive, was 0");
}

#[test]
fn test_trade_tick_new_checked_keeps_fields() {
    let mint = dummy_mint_address();
    let trade = TradeTick::new_checked(
        ethusdt(),
        Price::new(-25, 1),
        Quantity::new(3, 0),
        AggressorSide::Seller,
        TradeId::new("t1".to_string()),
        10,
        20,
        Some(mint),
    )
    .unwrap();
    assert_eq!(trade.instrument_id, ethusdt());
    assert_eq!(trade.price, Price::new(-25, 1));
    assert_eq!(trade.size, Quantity::new(3, 0));
    assert_eq!(trade.aggressor_side, AggressorSide::Seller);
    assert_eq!(trade.trade_id, TradeId::new("t1".to_string()));
    assert_eq!(trade.ts_event, 10);
    assert_eq!(trade.ts_init(), 20);
    assert_eq!(trade.mint_address, Some(mint));
}

#[test]
fn test_to_string() {
    let trade = stub_trade(None);
    assert_eq!(
        trade.to_string(),
        "ETHUSDT-PERP.BINANCE,10000.0000,1.00000000,BUYER,123456789,0"
    );
}

#[test]
fn test_price_and_quantity_text() {
    assert_eq!(Price::new(-25, 1).to_string(), "-2.5");
    assert_eq!(Price::new(5, 3).to_string(), "0.005");
    assert_eq!(Price::new(42, 0).to_string(), "42");
    assert_eq!(Price::new(i64::MIN, 0).to_string(), "-9223372036854775808");
    assert_eq!(Quantity::new(0, 2).to_string(), "0.00");
    assert_eq!(Quantity::new(u64::MAX, 3).to_string(), "18446744073709551.615");
    assert_eq!(AggressorSide::NoAggressor.to_string(), "NO_AGGRESSOR");
    assert_eq!(AggressorSide::Seller.to_string(), "SELLER");
}

#[test]
fn test_stub_trade_with_none_and_some_mint_address() {
    assert_eq!(stub_trade(None).mint_address, None);
    let mint = dummy_mint_address();
    assert_eq!(stub_trade(Some(mint)).mint_address, Some(mint));
}

#[test]
fn test_get_metadata() {
    let metadata = TradeTick::get_metadata(&ethusdt(), 4, 12);
    assert_eq!(metadata.len(), 3);
    assert_eq!(metadata.get("instrument_id").unwrap(), "ETHUSDT-PERP.BINANCE");
    assert_eq!(metadata.get("price_precision").unwrap(), "4");
    assert_eq!(metadata.get("size_precision").unwrap(), "12");
}

#[test]
fn test_get_fields() {
    let fields = TradeTick::get_fields();
    let pairs: Vec<(&str, &str)> = fields.iter().map(|(k, v)| (k.as_str(), v.as_str())).collect();
    assert_eq!(
        pairs,
        vec![
            ("price", "FixedSizeBinary(8)"),
            ("size", "FixedSizeBinary(8)"),
            ("aggressor_side", "UInt8"),
            ("trade_id", "Utf8"),
            ("ts_event", "UInt64"),
            ("ts_init", "UInt64"),
        ]
    );
}
