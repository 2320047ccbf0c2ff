//! A trade tick: a single trade in a market, optionally tagged with the Solana
//! mint address of the traded token.

use indexmap::IndexMap;
use vstd::hash_map::StringHashMap;
use vstd::prelude::*;
use vstd::string::*;

use crate::decimal::{decimal, push_decimal};
use crate::model::{AggressorSide, InstrumentId, Price, Quantity, TradeId};

verus! {

/// The Arrow type name of a fixed-point price or quantity column.
pub const FIXED_SIZE_BINARY: &'static str = "FixedSizeBinary(8)";

/// A trade tick.
#[derive(Clone, Debug, PartialEq, Eq, Hash)]
pub struct TradeTick {
    /// The trade instrument ID.
    pub instrument_id: InstrumentId,
    /// The traded price.
    pub price: Price,
    /// The traded size.
    pub size: Quantity,
    /// The trade aggressor side.
    pub aggressor_side: AggressorSide,
    /// The trade match ID (assigned by the venue).
    pub trade_id: TradeId,
    /// UNIX timestamp (nanoseconds) when the trade event occurred.
    pub ts_event: u64,
    /// UNIX timestamp (nanoseconds) when the value was initialized.
    pub ts_init: u64,
    /// Optional 32-byte Solana mint address of the traded token; `None` when the
    /// trade is linked to no mint.
    pub mint_address: Option<[u8; 32]>,
}

/// Why a trade tick could not be created.
#[derive(Clone, Copy, Debug, PartialEq, Eq)]
pub enum TradeTickError {
    /// The size was not positive.
    NonPositiveSize { size: Quantity },
}

/// The message of a trade tick error.
pub open spec fn trade_tick_error_message(e: TradeTickError) -> Seq<char> {
    match e {
        TradeTickError::NonPositiveSize { size } => "invalid `Quantity` for 'size' not positive, was "@
            + size.repr(),
    }
}

impl TradeTickError {
    /// The human-readable message of the error.
    pub fn message(&self) -> (res: String)
        ensures
            res@ == trade_tick_error_message(*self),
    {
        match *self {
            TradeTickError::NonPositiveSize { size } => {
                let mut s = String::new();
                s.append("invalid `Quantity` for 'size' not positive, was ");
                s.append(size.to_string().as_str());
                assert(s@ =~= trade_tick_error_message(*self));
                s
            },
        }
    }
}

/// The trade tick made of the given fields.
pub open spec fn spec_trade_tick(
    instrument_id: InstrumentId,
    price: Price,
    size: Quantity,
    aggressor_side: AggressorSide,
    trade_id: TradeId,
    ts_event: u64,
    ts_init: u64,
    mint_address: Option<[u8; 32]>,
) -> TradeTick {
    TradeTick {
        instrument_id,
        price,
        size,
        aggressor_side,
        trade_id,
        ts_event,
        ts_init,
        mint_address,
    }
}

/// A trade tick built from given fields holds each of them unchanged.
pub proof fn lemma_trade_tick_holds_arguments(
    instrument_id: InstrumentId,
    price: Price,
    size: Quantity,
    aggressor_side: AggressorSide,
    trade_id: TradeId,
    ts_event: u64,
    ts_init: u64,
    mint_address: Option<[u8; 32]>,
)
    ensures
        ({
            let t = spec_trade_tick(
                instrument_id,
                price,
                size,
                aggressor_side,
                trade_id,
                ts_event,
                ts_init,
                mint_address,
            );
                &&& t.instrument_id == instrument_id
                &&& t.price == price
                &&& t.size == size
                &&& t.aggressor_side == aggressor_side
                &&& t.trade_id == trade_id
                &&& t.ts_event == ts_event
                &&& t.ts_init == ts_init
                &&& t.mint_address == mint_address
        }),
{
}

/// The text of a trade tick: instrument, price, size, aggressor side, trade ID and
/// event time, separated by commas.
pub open spec fn trade_tick_repr(t: TradeTick) -> Seq<char> {
    t.instrument_id.repr() + ","@ + t.price.repr() + ","@ + t.size.repr() + ","@
        + t.aggressor_side.repr() + ","@ + t.trade_id.value@ + ","@ + decimal(t.ts_event as nat)
}

/// The Arrow schema fields of a trade tick, in order.
pub open spec fn trade_tick_fields() -> Seq<(Seq<char>, Seq<char>)> {
    seq![
        ("price"@, FIXED_SIZE_BINARY@),
        ("size"@, FIXED_SIZE_BINARY@),
        ("aggressor_side"@, "UInt8"@),
        ("trade_id"@, "Utf8"@),
        ("ts_event"@, "UInt64"@),
        ("ts_init"@, "UInt64"@),
    ]
}

impl TradeTick {
    /// Creates a trade tick, checking that `size` is positive.
    pub fn new_checked(
        instrument_id: InstrumentId,
        price: Price,
        size: Quantity,
        aggressor_side: AggressorSide,
        trade_id: TradeId,
        ts_event: u64,
        ts_init: u64,
        mint_address: Option<[u8; 32]>,
    ) -> (res: Result<Self, TradeTickError>)
        ensures
            size.raw > 0 ==> res == Ok::<Self, TradeTickError>(
                spec_trade_tick(
                    instrument_id,
                    price,
                    size,
                    aggressor_side,
                    trade_id,
                    ts_event,
                    ts_init,
                    mint_address,
                ),
            ),
            size.raw == 0 ==> res == Err::<Self, TradeTickError>(
                TradeTickError::NonPositiveSize { size },
            ),
            res is Ok <==> size.raw > 0,
            res matches Ok(t) ==> {
                &&& t.instrument_id == instrument_id
                &&& t.price == price
                &&& t.size == size
                &&& t.aggressor_side == aggressor_side
                &&& t.trade_id == trade_id
                &&& t.ts_event == ts_event
                &&& t.ts_init == ts_init
                &&& t.mint_address == mint_address
            },
    {
        if !size.is_positive() {
            return Err(TradeTickError::NonPositiveSize { size });
        }
        Ok(TradeTick {
            instrument_id,
            price,
            size,
            aggressor_side,
            trade_id,
            ts_event,
            ts_init,
            mint_address,
        })
    }

    /// Creates a trade tick whose `size` is positive.
    pub fn new(
        instrument_id: InstrumentId,
        price: Price,
        size: Quantity,
        aggressor_side: AggressorSide,
        trade_id: TradeId,
        ts_event: u64,
        ts_init: u64,
        mint_address: Option<[u8; 32]>,
    ) -> (res: Self)
        requires
            size.raw > 0,
        ensures
            res == spec_trade_tick(
                instrument_id,
                price,
                size,
                aggressor_side,
                trade_id,
                ts_event,
                ts_init,
                mint_address,
            ),
            ({
                let t = res;
                &&& t.instrument_id == instrument_id
                &&& t.price == price
                &&& t.size == size
                &&& t.aggressor_side == aggressor_side
                &&& t.trade_id == trade_id
                &&& t.ts_event == ts_event
                &&& t.ts_init == ts_init
                &&& t.mint_address == mint_address
            }),
    {
        Self::new_checked(
            instrument_id,
            price,
            size,
            aggressor_side,
            trade_id,
            ts_event,
            ts_init,
            mint_address,
        ).unwrap()
    }

    /// The metadata of the type for serialization formats: the instrument ID and
    /// the price and size precisions, as text.
    pub fn get_metadata(
        instrument_id: &InstrumentId,
        price_precision: u8,
        size_precision: u8,
    ) -> (res: StringHashMap<String>)
        ensures
            res@.dom() =~= set!["instrument_id"@, "price_precision"@, "size_precision"@],
            res@["instrument_id"@]@ == instrument_id.repr(),
            res@["price_precision"@]@ == decimal(price_precision as nat),
            res@["size_precision"@]@ == decimal(size_precision as nat),
    {
        proof {
            reveal_strlit("instrument_id");
            reveal_strlit("price_precision");
            reveal_strlit("size_precision");
            assert("instrument_id"@.len() != "price_precision"@.len());
            assert("instrument_id"@.len() != "size_precision"@.len());
            assert("price_precision"@.len() != "size_precision"@.len());
        }
        let mut metadata = StringHashMap::new();
        metadata.insert("instrument_id".to_owned(), instrument_id.to_string());
        let mut p = String::new();
        push_decimal(&mut p, price_precision as u64);
        metadata.insert("price_precision".to_owned(), p);
        let mut q = String::new();
        push_decimal(&mut q, size_precision as u64);
        metadata.insert("size_precision".to_owned(), q);
        metadata
    }

    /// The Arrow schema fields of the type, in column order.
    pub fn get_fields() -> (res: IndexMap<String, String>)
        ensures
            index_map_entries(res) == trade_tick_fields(),
    {
        proof {
            reveal_strlit("price");
            reveal_strlit("size");
            reveal_strlit("aggressor_side");
            reveal_strlit("trade_id");
            reveal_strlit("ts_event");
            reveal_strlit("ts_init");
        }
        let ghost fields = trade_tick_fields();
        let mut metadata = index_map_new();
        index_map_insert(&mut metadata, "price".to_owned(), FIXED_SIZE_BINARY.to_owned());
        assert(index_map_entries(metadata) =~= fields.take(1));
        proof {
            assert("price"@.len() != "size"@.len());
        }
        index_map_insert(&mut metadata, "size".to_owned(), FIXED_SIZE_BINARY.to_owned());
        assert(index_map_entries(metadata) =~= fields.take(2));
        proof {
            assert("price"@.len() != "aggressor_side"@.len());
            assert("size"@.len() != "aggressor_side"@.len());
        }
        index_map_insert(&mut metadata, "aggressor_side".to_owned(), "UInt8".to_owned());
        assert(index_map_entries(metadata) =~= fields.take(3));
        index_map_insert(&mut metadata, "trade_id".to_owned(), "Utf8".to_owned());
        assert(index_map_entries(metadata) =~= fields.take(4));
        proof {
            assert("ts_event"@[1] != "trade_id"@[1]);
            assert("ts_event"@ != "trade_id"@);
        }
        index_map_insert(&mut metadata, "ts_event".to_owned(), "UInt64".to_owned());
        assert(index_map_entries(metadata) =~= fields.take(5));
        proof {
            assert("ts_init"@[3] != "ts_event"@[3]);
            assert("ts_init"@ != "ts_event"@);
        }
        index_map_insert(&mut metadata, "ts_init".to_owned(), "UInt64".to_owned());
        assert(index_map_entries(metadata) =~= fields);
        metadata
    }

    /// The trade as text (its `Display` form).
    pub fn to_string(&self) -> (res: String)
        ensures
            res@ == trade_tick_repr(*self),
    {
        let mut s = self.instrument_id.to_string();
        s.append(",");
        s.append(self.price.to_string().as_str());
        s.append(",");
        s.append(self.size.to_string().as_str());
        s.append(",");
        s.append(self.aggressor_side.to_string().as_str());
        s.append(",");
        s.append(self.trade_id.value.as_str());
        s.append(",");
        push_decimal(&mut s, self.ts_event);
        assert(s@ =~= trade_tick_repr(*self));
        s
    }

    /// The time the value was initialized (UNIX nanoseconds).
    pub fn ts_init(&self) -> (res: u64)
        ensures
            res == self.ts_init,
    {
        self.ts_init
    }
}

/// The insertion-ordered map `indexmap::IndexMap`.
#[verifier::external_type_specification]
#[verifier::external_body]
#[verifier::reject_recursive_types(K)]
#[verifier::reject_recursive_types(V)]
#[verifier::reject_recursive_types(S)]
pub struct ExIndexMap<K, V, S>(IndexMap<K, V, S>);

/// The entries of a string map, as (key, value) texts in the map's order.
pub uninterp spec fn index_map_entries(m: IndexMap<String, String>) -> Seq<(Seq<char>, Seq<char>)>;

/// `e` with `(k, v)` inserted as `IndexMap::insert` does: an entry with key `k`
/// keeps its place and takes the value `v`; otherwise `(k, v)` is appended last.
pub open spec fn entries_insert(e: Seq<(Seq<char>, Seq<char>)>, k: Seq<char>, v: Seq<char>) -> Seq<
    (Seq<char>, Seq<char>),
> {
    if exists|i: int| 0 <= i < e.len() && e[i].0 == k {
        e.map_values(|p: (Seq<char>, Seq<char>)| if p.0 == k { (k, v) } else { p })
    } else {
        e.push((k, v))
    }
}

/// Calls `IndexMap::new`, which creates an empty map.
#[verifier::external_body]
fn index_map_new() -> (res: IndexMap<String, String>)
    ensures
        index_map_entries(res) == Seq::<(Seq<char>, Seq<char>)>::empty(),
{
    IndexMap::new()
}

/// Calls `IndexMap::insert`. Its documentation says: when an equal key is present,
/// the key keeps its place in the order, its value is replaced and the old value
/// returned in `Some`; otherwise the pair is inserted last and `None` is returned.
#[verifier::external_body]
fn index_map_insert(m: &mut IndexMap<String, String>, key: String, value: String) -> (res: Option<
    String,
>)
    ensures
        index_map_entries(*final(m)) == entries_insert(index_map_entries(*old(m)), key@, value@),
        res is Some == exists|i: int|
            0 <= i < index_map_entries(*old(m)).len() && index_map_entries(*old(m))[i].0 == key@,
        res matches Some(old_value) ==> exists|i: int|
            0 <= i < index_map_entries(*old(m)).len() && index_map_entries(*old(m))[i] == (
                key@,
                old_value@,
            ),
{
    m.insert(key, value)
}

} // verus!
