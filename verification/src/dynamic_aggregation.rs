//! The bookkeeping of a manager that keeps one bar aggregator per Solana mint
//! address seen in incoming trades, and drops aggregators that stay inactive for
//! longer than a timeout.
//!
//! The manager decides; its caller acts. For each trade the manager says which
//! aggregator receives it, and whether that aggregator must first be created
//! (and with which settings). On each timeout check it says which aggregators
//! must be stopped and dropped. The aggregators themselves, the clock and the bar
//! handler live with the caller.

use vstd::prelude::*;

use crate::model::{
    AggregationSource, BarAggregation, BarIntervalType, BarSpecification, BarType, InstrumentId,
};
use crate::trade::TradeTick;

verus! {

/// The kind of bar aggregator that a bar aggregation calls for.
#[derive(Clone, Copy, Debug, PartialEq, Eq, Hash)]
pub enum AggregatorKind {
    /// Closes a bar every `step` trades.
    Tick,
    /// Closes a bar every `step` units of volume.
    Volume,
    /// Closes a bar every `step` units of notional value.
    Value,
    /// Closes a bar every `step` units of time.
    Time,
}

/// The aggregator kind for an aggregation: tick, volume and value aggregations
/// have their own kind, every time unit from milliseconds to months is a time
/// aggregation, and imbalance and runs aggregations have none.
pub open spec fn aggregator_kind_for(agg: BarAggregation) -> Option<AggregatorKind> {
    match agg {
        BarAggregation::Tick => Some(AggregatorKind::Tick),
        BarAggregation::Volume => Some(AggregatorKind::Volume),
        BarAggregation::Value => Some(AggregatorKind::Value),
        BarAggregation::Millisecond => Some(AggregatorKind::Time),
        BarAggregation::Second => Some(AggregatorKind::Time),
        BarAggregation::Minute => Some(AggregatorKind::Time),
        BarAggregation::Hour => Some(AggregatorKind::Time),
        BarAggregation::Day => Some(AggregatorKind::Time),
        BarAggregation::Week => Some(AggregatorKind::Time),
        BarAggregation::Month => Some(AggregatorKind::Time),
        _ => None,
    }
}

/// The aggregator kind for an aggregation, if it has one.
pub fn aggregator_kind(agg: BarAggregation) -> (res: Option<AggregatorKind>)
    ensures
        res == aggregator_kind_for(agg),
{
    match agg {
        BarAggregation::Tick => Some(AggregatorKind::Tick),
        BarAggregation::Volume => Some(AggregatorKind::Volume),
        BarAggregation::Value => Some(AggregatorKind::Value),
        BarAggregation::Millisecond | BarAggregation::Second | BarAggregation::Minute
        | BarAggregation::Hour | BarAggregation::Day | BarAggregation::Week
        | BarAggregation::Month => Some(AggregatorKind::Time),
        _ => None,
    }
}

/// The settings of an aggregator to create for a mint.
#[derive(Clone, Debug, PartialEq, Eq)]
pub struct NewAggregator {
    /// The kind of aggregator.
    pub kind: AggregatorKind,
    /// The manager's instrument with its base bar specification, aggregated internally.
    pub bar_type: BarType,
    /// The price precision of the instrument.
    pub price_precision: u8,
    /// The size precision of the instrument.
    pub size_precision: u8,
    /// For a time aggregator: whether bars are built when no trade arrived.
    pub build_with_no_updates: bool,
    /// For a time aggregator: whether a bar is stamped with its close time.
    pub timestamp_on_close: bool,
    /// For a time aggregator: which end of the interval is open.
    pub interval_type: BarIntervalType,
    /// The mint whose trades the aggregator receives.
    pub mint: Option<[u8; 32]>,
}

/// What the caller must do with a trade.
#[derive(Clone, Debug, PartialEq, Eq)]
pub enum TradeTickAction {
    /// Create the aggregator described by `create` when it is given, then hand the
    /// trade to the aggregator of `mint`.
    Forward { mint: Option<[u8; 32]>, create: Option<NewAggregator> },
    /// The base bar specification's aggregation has no aggregator kind: no
    /// aggregator was created and the trade is dropped.
    Unsupported { mint: Option<[u8; 32]>, aggregation: BarAggregation },
}

/// The abstract state of a manager: its settings and, for each mint that has an
/// aggregator, the time of its last trade.
pub struct ManagerView {
    pub instrument_id: InstrumentId,
    pub base_bar_spec: BarSpecification,
    pub inactivity_timeout_ns: u64,
    pub price_precision: u8,
    pub size_precision: u8,
    pub time_bar_build_with_no_updates: bool,
    pub time_bar_timestamp_on_close: bool,
    pub time_bar_interval_type: BarIntervalType,
    /// The mints that have an aggregator, each with the time of its last trade.
    pub last_activity: Map<Option<[u8; 32]>, u64>,
}

/// The nanoseconds from `last` to `now`, or zero when `now` is not later.
pub open spec fn idle_ns(now: u64, last: u64) -> nat {
    if now > last {
        (now - last) as nat
    } else {
        0
    }
}

/// Whether a mint last active at `last` is, at `now`, inactive for longer than
/// the manager's timeout. A zero timeout means no inactivity at all is kept:
/// every mint times out at every check.
pub open spec fn is_timed_out(v: ManagerView, last: u64, now: u64) -> bool {
    v.inactivity_timeout_ns == 0 || idle_ns(now, last) > v.inactivity_timeout_ns
}

/// The mints whose aggregators time out at `now`.
pub open spec fn timed_out_mints(v: ManagerView, now: u64) -> Set<Option<[u8; 32]>> {
    Set::new(
        |m: Option<[u8; 32]>|
            v.last_activity.contains_key(m) && is_timed_out(v, v.last_activity[m], now),
    )
}

/// The settings of the aggregator that the manager creates for `mint`.
pub open spec fn new_aggregator_for(
    v: ManagerView,
    mint: Option<[u8; 32]>,
    kind: AggregatorKind,
) -> NewAggregator {
    NewAggregator {
        kind,
        bar_type: BarType {
            instrument_id: v.instrument_id,
            spec: v.base_bar_spec,
            aggregation_source: AggregationSource::Internal,
        },
        price_precision: v.price_precision,
        size_precision: v.size_precision,
        build_with_no_updates: v.time_bar_build_with_no_updates,
        timestamp_on_close: v.time_bar_timestamp_on_close,
        interval_type: v.time_bar_interval_type,
        mint,
    }
}

/// What the manager answers to a trade of `mint`.
pub open spec fn trade_action(v: ManagerView, mint: Option<[u8; 32]>) -> TradeTickAction {
    match aggregator_kind_for(v.base_bar_spec.aggregation) {
        Some(kind) => TradeTickAction::Forward {
            mint,
            create: if v.last_activity.contains_key(mint) {
                None
            } else {
                Some(new_aggregator_for(v, mint, kind))
            },
        },
        None => TradeTickAction::Unsupported { mint, aggregation: v.base_bar_spec.aggregation },
    }
}

/// The state after a trade of `mint` at `now`: the mint's aggregator exists and
/// was last active at `now`, unless the aggregation is unsupported.
pub open spec fn after_trade(v: ManagerView, mint: Option<[u8; 32]>, now: u64) -> ManagerView {
    if aggregator_kind_for(v.base_bar_spec.aggregation) is Some {
        ManagerView { last_activity: v.last_activity.insert(mint, now), ..v }
    } else {
        v
    }
}

/// The state after a timeout check at `now`: the timed-out mints are gone, the
/// others keep their last activity.
pub open spec fn after_timeouts(v: ManagerView, now: u64) -> ManagerView {
    ManagerView {
        last_activity: v.last_activity.remove_keys(timed_out_mints(v, now)),
        ..v
    }
}

/// The invariant of a manager's state: finitely many aggregators, and none at all
/// when the base aggregation has no aggregator kind.
pub open spec fn manager_valid(v: ManagerView) -> bool {
    &&& v.last_activity.dom().finite()
    &&& aggregator_kind_for(v.base_bar_spec.aggregation) is None ==> v.last_activity.is_empty()
}

/// The map from the mints of `entries` to their times.
pub open spec fn entries_map(entries: Seq<(Option<[u8; 32]>, u64)>) -> Map<Option<[u8; 32]>, u64> {
    Map::new(
        |m: Option<[u8; 32]>| exists|i: int| 0 <= i < entries.len() && entries[i].0 == m,
        |m: Option<[u8; 32]>|
            entries[choose|i: int| 0 <= i < entries.len() && entries[i].0 == m].1,
    )
}

/// No mint occurs twice in `entries`.
pub open spec fn unique_mints(entries: Seq<(Option<[u8; 32]>, u64)>) -> bool {
    forall|i: int, j: int|
        0 <= i < entries.len() && 0 <= j < entries.len() && i != j ==> entries[i].0
            != entries[j].0
}

/// With unique mints, the map holds each entry's time.
proof fn lemma_entries_map_at(entries: Seq<(Option<[u8; 32]>, u64)>, i: int)
    requires
        unique_mints(entries),
        0 <= i < entries.len(),
    ensures
        entries_map(entries).contains_key(entries[i].0),
        entries_map(entries)[entries[i].0] == entries[i].1,
{
    let m = entries[i].0;
    assert(0 <= i < entries.len() && entries[i].0 == m);
    let c = choose|j: int| 0 <= j < entries.len() && entries[j].0 == m;
    assert(c == i);
}

/// The map of finitely many entries is finite.
proof fn lemma_entries_map_finite(entries: Seq<(Option<[u8; 32]>, u64)>)
    ensures
        entries_map(entries).dom().finite(),
{
    let m = entries_map(entries);
    let keys = entries.map_values(|e: (Option<[u8; 32]>, u64)| e.0).to_set();
    assert(m.dom() =~= keys) by {
        assert forall|k| m.dom().contains(k) implies keys.contains(k) by {
            let i = choose|i: int| 0 <= i < entries.len() && entries[i].0 == k;
            assert(entries.map_values(|e: (Option<[u8; 32]>, u64)| e.0)[i] == k);
        }
        assert forall|k| keys.contains(k) implies m.dom().contains(k) by {
            let s = entries.map_values(|e: (Option<[u8; 32]>, u64)| e.0);
            let i = choose|i: int| 0 <= i < s.len() && s[i] == k;
            assert(entries[i].0 == k);
        }
    }
    vstd::seq_lib::seq_to_set_is_finite(entries.map_values(|e: (Option<[u8; 32]>, u64)| e.0));
}

/// Whether two mint keys are equal.
fn mint_eq(a: &Option<[u8; 32]>, b: &Option<[u8; 32]>) -> (res: bool)
    ensures
        res == (*a == *b),
{
    if a.is_none() || b.is_none() {
        return a.is_none() && b.is_none();
    }
    let x: [u8; 32] = a.unwrap();
    let y: [u8; 32] = b.unwrap();
    let mut i: usize = 0;
    while i < 32
        invariant
            0 <= i <= 32,
            *a == Some(x),
            *b == Some(y),
            forall|j: int| 0 <= j < i ==> x@[j] == y@[j],
        decreases 32 - i,
    {
        if x[i] != y[i] {
            assert(x@[i as int] != y@[i as int]);
            return false;
        }
        i = i + 1;
    }
    assert(x@ =~= y@);
    assert(x =~= y);
    true
}

/// Manages a collection of bar aggregators, one per mint address seen in
/// incoming trades (trades without a mint address share one aggregator too).
pub struct DynamicAggregatorManager {
    instrument_id: InstrumentId,
    base_bar_spec: BarSpecification,
    inactivity_timeout_ns: u64,
    price_precision: u8,
    size_precision: u8,
    time_bar_build_with_no_updates: bool,
    time_bar_timestamp_on_close: bool,
    time_bar_interval_type: BarIntervalType,
    /// One entry per mint that has an aggregator, with the time of its last trade.
    entries: Vec<(Option<[u8; 32]>, u64)>,
}

impl View for DynamicAggregatorManager {
    type V = ManagerView;

    closed spec fn view(&self) -> ManagerView {
        ManagerView {
            instrument_id: self.instrument_id,
            base_bar_spec: self.base_bar_spec,
            inactivity_timeout_ns: self.inactivity_timeout_ns,
            price_precision: self.price_precision,
            size_precision: self.size_precision,
            time_bar_build_with_no_updates: self.time_bar_build_with_no_updates,
            time_bar_timestamp_on_close: self.time_bar_timestamp_on_close,
            time_bar_interval_type: self.time_bar_interval_type,
            last_activity: entries_map(self.entries@),
        }
    }
}

/// Replacing the time of entry `i` sets the time of its mint in the map.
proof fn lemma_entries_map_set(entries: Seq<(Option<[u8; 32]>, u64)>, i: int, now: u64)
    requires
        unique_mints(entries),
        0 <= i < entries.len(),
    ensures
        unique_mints(entries.update(i, (entries[i].0, now))),
        entries_map(entries.update(i, (entries[i].0, now))) == entries_map(entries).insert(
            entries[i].0,
            now,
        ),
{
    let n = entries.update(i, (entries[i].0, now));
    let m = entries[i].0;
    assert(unique_mints(n)) by {
        assert forall|a: int, b: int|
            0 <= a < n.len() && 0 <= b < n.len() && a != b implies n[a].0 != n[b].0 by {
            assert(n[a].0 == entries[a].0);
            assert(n[b].0 == entries[b].0);
        }
    }
    let lhs = entries_map(n);
    let rhs = entries_map(entries).insert(m, now);
    assert forall|k| lhs.contains_key(k) <==> rhs.contains_key(k) by {
        if lhs.contains_key(k) {
            let j = choose|j: int| 0 <= j < n.len() && n[j].0 == k;
            assert(entries[j].0 == k);
        }
        if entries_map(entries).contains_key(k) {
            let j = choose|j: int| 0 <= j < entries.len() && entries[j].0 == k;
            assert(n[j].0 == k);
        }
        if k == m {
            assert(n[i].0 == k);
        }
    }
    assert forall|k| lhs.contains_key(k) implies lhs[k] == rhs[k] by {
        let j = choose|j: int| 0 <= j < n.len() && n[j].0 == k;
        lemma_entries_map_at(n, j);
        if j != i {
            lemma_entries_map_at(entries, j);
        }
    }
    assert(lhs =~= rhs);
}

/// Appending an entry for a new mint adds that mint to the map.
proof fn lemma_entries_map_push(entries: Seq<(Option<[u8; 32]>, u64)>, e: (Option<[u8; 32]>, u64))
    requires
        unique_mints(entries),
        forall|i: int| 0 <= i < entries.len() ==> entries[i].0 != e.0,
    ensures
        unique_mints(entries.push(e)),
        entries_map(entries.push(e)) == entries_map(entries).insert(e.0, e.1),
{
    let n = entries.push(e);
    assert(unique_mints(n)) by {
        assert forall|a: int, b: int|
            0 <= a < n.len() && 0 <= b < n.len() && a != b implies n[a].0 != n[b].0 by {
            if a < entries.len() && b < entries.len() {
                assert(n[a] == entries[a]);
                assert(n[b] == entries[b]);
            } else if a < entries.len() {
                assert(n[a] == entries[a]);
            } else {
                assert(n[b] == entries[b]);
            }
        }
    }
    let lhs = entries_map(n);
    let rhs = entries_map(entries).insert(e.0, e.1);
    assert forall|k| lhs.contains_key(k) <==> rhs.contains_key(k) by {
        if lhs.contains_key(k) && k != e.0 {
            let j = choose|j: int| 0 <= j < n.len() && n[j].0 == k;
            assert(entries[j].0 == k);
        }
        if entries_map(entries).contains_key(k) {
            let j = choose|j: int| 0 <= j < entries.len() && entries[j].0 == k;
            assert(n[j].0 == k);
        }
        assert(n[entries.len() as int].0 == e.0);
    }
    assert forall|k| lhs.contains_key(k) implies lhs[k] == rhs[k] by {
        let j = choose|j: int| 0 <= j < n.len() && n[j].0 == k;
        lemma_entries_map_at(n, j);
        if j < entries.len() {
            assert(n[j] == entries[j]);
            lemma_entries_map_at(entries, j);
        }
    }
    assert(lhs =~= rhs);
}

/// The index of the entry of `mint`, if there is one.
fn find_mint(entries: &Vec<(Option<[u8; 32]>, u64)>, mint: &Option<[u8; 32]>) -> (res: Option<
    usize,
>)
    ensures
        match res {
            Some(i) => i < entries@.len() && entries@[i as int].0 == *mint,
            None => forall|i: int| 0 <= i < entries@.len() ==> entries@[i].0 != *mint,
        },
{
    let mut i: usize = 0;
    while i < entries.len()
        invariant
            0 <= i <= entries@.len(),
            forall|j: int| 0 <= j < i ==> entries@[j].0 != *mint,
        decreases entries@.len() - i,
    {
        if mint_eq(&entries[i].0, mint) {
            return Some(i);
        }
        i = i + 1;
    }
    None
}

impl DynamicAggregatorManager {
    /// Mints occur once each, and there are none when the base aggregation has no
    /// aggregator kind.
    #[verifier::type_invariant]
    spec fn well_formed(self) -> bool {
        &&& unique_mints(self.entries@)
        &&& aggregator_kind_for(self.base_bar_spec.aggregation) is None ==> self.entries@.len()
            == 0
    }

    /// Creates a manager with no aggregators. The time-bar settings default to
    /// building bars without updates, stamping bars at their close, and
    /// left-open intervals.
    pub fn new(
        instrument_id: InstrumentId,
        base_bar_type: BarType,
        inactivity_timeout_ns: u64,
        price_precision: u8,
        size_precision: u8,
        time_bar_build_with_no_updates: Option<bool>,
        time_bar_timestamp_on_close: Option<bool>,
        time_bar_interval_type: Option<BarIntervalType>,
    ) -> (res: Self)
        ensures
            res@ == (ManagerView {
                instrument_id,
                base_bar_spec: base_bar_type.spec,
                inactivity_timeout_ns,
                price_precision,
                size_precision,
                time_bar_build_with_no_updates: time_bar_build_with_no_updates.unwrap_or(true),
                time_bar_timestamp_on_close: time_bar_timestamp_on_close.unwrap_or(true),
                time_bar_interval_type: time_bar_interval_type.unwrap_or(BarIntervalType::LeftOpen),
                last_activity: Map::empty(),
            }),
            manager_valid(res@),
    {
        let base_bar_spec = base_bar_type.spec();
        let res = DynamicAggregatorManager {
            instrument_id,
            base_bar_spec,
            inactivity_timeout_ns,
            price_precision,
            size_precision,
            time_bar_build_with_no_updates: time_bar_build_with_no_updates.unwrap_or(true),
            time_bar_timestamp_on_close: time_bar_timestamp_on_close.unwrap_or(true),
            time_bar_interval_type: time_bar_interval_type.unwrap_or(BarIntervalType::LeftOpen),
            entries: Vec::new(),
        };
        assert(entries_map(res.entries@) =~= Map::empty());
        proof {
            lemma_entries_map_finite(res.entries@);
        }
        res
    }

    /// Takes a trade into account at time `now`. The trade's mint (or `None`)
    /// gets an aggregator if it has none, and its last activity becomes `now`.
    /// The answer tells the caller whether to create that aggregator, and to hand
    /// it the trade; when the base aggregation has no aggregator kind, nothing
    /// changes and the trade is dropped.
    pub fn handle_trade_tick(&mut self, trade: &TradeTick, now: u64) -> (action: TradeTickAction)
        ensures
            final(self)@ == after_trade(old(self)@, trade.mint_address, now),
            action == trade_action(old(self)@, trade.mint_address),
            manager_valid(final(self)@),
    {
        proof {
            use_type_invariant(&*self);
            lemma_entries_map_finite(self.entries@);
        }
        let mint = trade.mint_address;
        match aggregator_kind(self.base_bar_spec.aggregation) {
            None => {
                TradeTickAction::Unsupported { mint, aggregation: self.base_bar_spec.aggregation }
            },
            Some(kind) => {
                let mut entries = Vec::new();
                std::mem::swap(&mut entries, &mut self.entries);
                let ghost old_entries = entries@;
                assert(old_entries == old(self).entries@);
                match find_mint(&entries, &mint) {
                    Some(i) => {
                        entries.set(i, (mint, now));
                        proof {
                            lemma_entries_map_set(old_entries, i as int, now);
                            assert(entries@ == old_entries.update(i as int, (old_entries[i as int].0, now)));
                            lemma_entries_map_at(old_entries, i as int);
                        }
                        self.entries = entries;
                        TradeTickAction::Forward { mint, create: None }
                    },
                    None => {
                        entries.push((mint, now));
                        proof {
                            lemma_entries_map_push(old_entries, (mint, now));
                        }
                        self.entries = entries;
                        let bar_type = BarType {
                            instrument_id: self.instrument_id.clone(),
                            spec: self.base_bar_spec,
                            aggregation_source: AggregationSource::Internal,
                        };
                        TradeTickAction::Forward {
                            mint,
                            create: Some(
                                NewAggregator {
                                    kind,
                                    bar_type,
                                    price_precision: self.price_precision,
                                    size_precision: self.size_precision,
                                    build_with_no_updates: self.time_bar_build_with_no_updates,
                                    timestamp_on_close: self.time_bar_timestamp_on_close,
                                    interval_type: self.time_bar_interval_type,
                                    mint,
                                },
                            ),
                        }
                    },
                }
            },
        }
    }

    /// Drops the aggregators of the mints inactive for longer than the timeout at
    /// `now` (more than `inactivity_timeout_ns` nanoseconds since their last trade,
    /// counting zero when `now` is earlier; with a zero timeout, every mint).
    /// Returns those mints, each once; the caller stops their aggregators.
    pub fn check_timeouts(&mut self, now: u64) -> (removed: Vec<Option<[u8; 32]>>)
        ensures
            final(self)@ == after_timeouts(old(self)@, now),
            removed@.to_set() == timed_out_mints(old(self)@, now),
            removed@.no_duplicates(),
            manager_valid(final(self)@),
    {
        proof {
            use_type_invariant(&*self);
            lemma_entries_map_finite(self.entries@);
        }
        let mut entries = Vec::new();
        std::mem::swap(&mut entries, &mut self.entries);
        let ghost old_entries = entries@;
        let ghost v = old(self)@;
        assert(v.last_activity == entries_map(old_entries));
        let timeout = self.inactivity_timeout_ns;
        let mut kept: Vec<(Option<[u8; 32]>, u64)> = Vec::new();
        let mut removed: Vec<Option<[u8; 32]>> = Vec::new();
        let ghost mut kept_idx: Seq<int> = Seq::empty();
        let ghost mut removed_idx: Seq<int> = Seq::empty();
        let mut i: usize = 0;
        while i < entries.len()
            invariant
                0 <= i <= entries@.len(),
                entries@ == old_entries,
                unique_mints(old_entries),
                timeout == v.inactivity_timeout_ns,
                kept@.len() == kept_idx.len(),
                removed@.len() == removed_idx.len(),
                kept@.len() + removed@.len() == i,
                forall|m: int|
                    0 <= m < kept_idx.len() ==> 0 <= #[trigger] kept_idx[m] < i && kept@[m]
                        == old_entries[kept_idx[m]] && !is_timed_out(v, kept@[m].1, now),
                forall|a: int, b: int|
                    0 <= a < b < kept_idx.len() ==> #[trigger] kept_idx[a] < #[trigger] kept_idx[b],
                forall|j: int|
                    0 <= j < i && !is_timed_out(v, old_entries[j].1, now) ==> exists|m: int|
                        0 <= m < kept_idx.len() && #[trigger] kept_idx[m] == j,
                forall|m: int|
                    0 <= m < removed_idx.len() ==> 0 <= #[trigger] removed_idx[m] < i
                        && removed@[m] == old_entries[removed_idx[m]].0 && is_timed_out(
                        v,
                        old_entries[removed_idx[m]].1,
                        now,
                    ),
                forall|a: int, b: int|
                    0 <= a < b < removed_idx.len() ==> #[trigger] removed_idx[a]
                        < #[trigger] removed_idx[b],
                forall|j: int|
                    0 <= j < i && is_timed_out(v, old_entries[j].1, now) ==> exists|m: int|
                        0 <= m < removed_idx.len() && #[trigger] removed_idx[m] == j,
            decreases entries@.len() - i,
        {
            let e = entries[i];
            let ghost prev_kept_idx = kept_idx;
            let ghost prev_removed_idx = removed_idx;
            if timeout == 0 || now.saturating_sub(e.1) > timeout {
                removed.push(e.0);
                proof {
                    removed_idx = removed_idx.push(i as int);
                    assert(removed_idx[removed_idx.len() - 1] == i);
                }
            } else {
                let ghost prev_kept = kept@;
                kept.push(e);
                proof {
                    assert(!is_timed_out(v, e.1, now));
                    assert forall|m: int| 0 <= m < prev_kept.len() implies kept@[m] == prev_kept[m] by {}
                    kept_idx = kept_idx.push(i as int);
                    assert(kept_idx[kept_idx.len() - 1] == i);
                    assert(e == old_entries[i as int]);
                    assert forall|m: int| 0 <= m < kept_idx.len() implies 0 <= #[trigger] kept_idx[m]
                        < i + 1 && kept@[m] == old_entries[kept_idx[m]] && !is_timed_out(
                        v,
                        kept@[m].1,
                        now,
                    ) by {
                        if m < prev_kept.len() {
                            assert(kept_idx[m] == prev_kept_idx[m]);
                        }
                    }
                }
            }
            proof {
                assert forall|j: int|
                    0 <= j < i + 1 && !is_timed_out(v, old_entries[j].1, now) implies exists|m: int|
                    0 <= m < kept_idx.len() && #[trigger] kept_idx[m] == j by {
                    if j == i {
                        assert(kept_idx[kept_idx.len() - 1] == j);
                    } else {
                        let m = choose|m: int|
                            0 <= m < prev_kept_idx.len() && #[trigger] prev_kept_idx[m] == j;
                        assert(kept_idx[m] == j);
                    }
                }
                assert forall|j: int|
                    0 <= j < i + 1 && is_timed_out(v, old_entries[j].1, now) implies exists|m: int|
                    0 <= m < removed_idx.len() && #[trigger] removed_idx[m] == j by {
                    if j == i {
                        assert(removed_idx[removed_idx.len() - 1] == j);
                    } else {
                        let m = choose|m: int|
                            0 <= m < prev_removed_idx.len() && #[trigger] prev_removed_idx[m] == j;
                        assert(removed_idx[m] == j);
                    }
                }
            }
            i = i + 1;
        }
        proof {
            lemma_filtered_entries(old_entries, kept@, kept_idx, removed@, removed_idx, v, now);
        }
        self.entries = kept;
        proof {
            if aggregator_kind_for(v.base_bar_spec.aggregation) is None {
                assert(v.last_activity =~= Map::<Option<[u8; 32]>, u64>::empty());
            }
            lemma_operations_keep_valid(v, None, now);
        }
        removed
    }
}

impl DynamicAggregatorManager {
    /// The instrument of the manager.
    pub fn instrument_id(&self) -> (res: &InstrumentId)
        ensures
            *res == self@.instrument_id,
    {
        &self.instrument_id
    }

    /// The bar specification every aggregator is created with.
    pub fn base_bar_spec(&self) -> (res: BarSpecification)
        ensures
            res == self@.base_bar_spec,
    {
        self.base_bar_spec
    }

    /// The inactivity timeout, in nanoseconds.
    pub fn inactivity_timeout_ns(&self) -> (res: u64)
        ensures
            res == self@.inactivity_timeout_ns,
    {
        self.inactivity_timeout_ns
    }

    /// The number of aggregators (one per active mint).
    pub fn aggregator_count(&self) -> (res: usize)
        ensures
            res == self@.last_activity.len(),
    {
        proof {
            use_type_invariant(self);
            lemma_entries_map_len(self.entries@);
        }
        self.entries.len()
    }

    /// Whether `mint` has an aggregator.
    pub fn has_aggregator(&self, mint: &Option<[u8; 32]>) -> (res: bool)
        ensures
            res == self@.last_activity.contains_key(*mint),
    {
        find_mint(&self.entries, mint).is_some()
    }

    /// The time of the last trade of `mint`, if it has an aggregator.
    pub fn last_activity(&self, mint: &Option<[u8; 32]>) -> (res: Option<u64>)
        ensures
            match res {
                Some(t) => self@.last_activity.contains_key(*mint) && self@.last_activity[*mint]
                    == t,
                None => !self@.last_activity.contains_key(*mint),
            },
    {
        proof {
            use_type_invariant(self);
        }
        match find_mint(&self.entries, mint) {
            Some(i) => {
                proof {
                    lemma_entries_map_at(self.entries@, i as int);
                }
                Some(self.entries[i].1)
            },
            None => None,
        }
    }
}

/// The map of entries with unique mints has one key per entry.
proof fn lemma_entries_map_len(entries: Seq<(Option<[u8; 32]>, u64)>)
    requires
        unique_mints(entries),
    ensures
        entries_map(entries).len() == entries.len(),
{
    let keys = entries.map_values(|e: (Option<[u8; 32]>, u64)| e.0);
    assert(keys.no_duplicates()) by {
        assert forall|a: int, b: int|
            0 <= a < keys.len() && 0 <= b < keys.len() && a != b implies keys[a] != keys[b] by {
            assert(keys[a] == entries[a].0);
            assert(keys[b] == entries[b].0);
        }
    }
    keys.unique_seq_to_set();
    let m = entries_map(entries);
    assert(m.dom() =~= keys.to_set()) by {
        assert forall|k| m.dom().contains(k) implies keys.to_set().contains(k) by {
            let i = choose|i: int| 0 <= i < entries.len() && entries[i].0 == k;
            assert(keys[i] == k);
        }
        assert forall|k| keys.to_set().contains(k) implies m.dom().contains(k) by {
            let i = choose|i: int| 0 <= i < keys.len() && keys[i] == k;
            assert(entries[i].0 == k);
        }
    }
}

/// Every operation keeps a manager valid.
pub proof fn lemma_operations_keep_valid(v: ManagerView, mint: Option<[u8; 32]>, now: u64)
    requires
        manager_valid(v),
    ensures
        manager_valid(after_trade(v, mint, now)),
        manager_valid(after_timeouts(v, now)),
{
    let w = after_timeouts(v, now);
    assert(w.last_activity.dom() =~= v.last_activity.dom().difference(timed_out_mints(v, now)));
    if v.last_activity.is_empty() {
        assert(w.last_activity =~= v.last_activity);
    }
}

/// A timeout check leaves no timed-out mint behind, and a second check at the
/// same time changes nothing and removes nothing.
pub proof fn lemma_timeouts_idempotent(v: ManagerView, now: u64)
    ensures
        forall|m: Option<[u8; 32]>|
            #[trigger] after_timeouts(v, now).last_activity.contains_key(m) ==> !is_timed_out(
                v,
                after_timeouts(v, now).last_activity[m],
                now,
            ),
        timed_out_mints(after_timeouts(v, now), now) == Set::<Option<[u8; 32]>>::empty(),
        after_timeouts(after_timeouts(v, now), now) == after_timeouts(v, now),
{
    let w = after_timeouts(v, now);
    assert(timed_out_mints(w, now) =~= Set::<Option<[u8; 32]>>::empty());
    assert(after_timeouts(w, now).last_activity =~= w.last_activity);
}

/// A trade keeps its mint's aggregator alive: with a nonzero timeout, at any time
/// no later than the timeout after the trade, a timeout check keeps that mint,
/// with the trade's time.
pub proof fn lemma_trade_resets_timeout(v: ManagerView, mint: Option<[u8; 32]>, t: u64, now: u64)
    requires
        aggregator_kind_for(v.base_bar_spec.aggregation) is Some,
        v.inactivity_timeout_ns > 0,
        idle_ns(now, t) <= v.inactivity_timeout_ns,
    ensures
        after_timeouts(after_trade(v, mint, t), now).last_activity.contains_key(mint),
        after_timeouts(after_trade(v, mint, t), now).last_activity[mint] == t,
{
}

/// With a zero timeout, a timeout check drops every aggregator.
pub proof fn lemma_zero_timeout_drops_all(v: ManagerView, now: u64)
    requires
        v.inactivity_timeout_ns == 0,
    ensures
        after_timeouts(v, now).last_activity == Map::<Option<[u8; 32]>, u64>::empty(),
        timed_out_mints(v, now) == v.last_activity.dom(),
{
    assert(timed_out_mints(v, now) =~= v.last_activity.dom());
    assert(after_timeouts(v, now).last_activity =~= Map::<Option<[u8; 32]>, u64>::empty());
}

/// The aggregator that a trade of a new mint asks for carries the manager's own
/// settings: its instrument, its base bar specification aggregated internally, its
/// precisions, and its time-bar settings, each as given to the manager; and it
/// receives that mint's trades. A mint that already has an aggregator gets none.
pub proof fn lemma_created_aggregator_settings(v: ManagerView, mint: Option<[u8; 32]>)
    requires
        aggregator_kind_for(v.base_bar_spec.aggregation) is Some,
    ensures
        match trade_action(v, mint) {
            TradeTickAction::Forward { mint: m, create } => {
                &&& m == mint
                &&& v.last_activity.contains_key(mint) <==> create is None
                &&& create matches Some(n) ==> {
                    &&& n.mint == mint
                    &&& n.kind == aggregator_kind_for(v.base_bar_spec.aggregation)->Some_0
                    &&& n.bar_type.instrument_id == v.instrument_id
                    &&& n.bar_type.spec == v.base_bar_spec
                    &&& n.bar_type.aggregation_source == AggregationSource::Internal
                    &&& n.price_precision == v.price_precision
                    &&& n.size_precision == v.size_precision
                    &&& n.build_with_no_updates == v.time_bar_build_with_no_updates
                    &&& n.timestamp_on_close == v.time_bar_timestamp_on_close
                    &&& n.interval_type == v.time_bar_interval_type
                }
            },
            TradeTickAction::Unsupported { .. } => false,
        },
{
}

/// A trade touches only its own mint: afterwards that mint has an aggregator last
/// active at the trade's time, and every other mint keeps its aggregator (or
/// lack of one) and its last activity. The settings do not change.
pub proof fn lemma_trade_touches_only_its_mint(
    v: ManagerView,
    mint: Option<[u8; 32]>,
    now: u64,
    other: Option<[u8; 32]>,
)
    requires
        aggregator_kind_for(v.base_bar_spec.aggregation) is Some,
        other != mint,
    ensures
        after_trade(v, mint, now).last_activity.contains_key(mint),
        after_trade(v, mint, now).last_activity[mint] == now,
        after_trade(v, mint, now).last_activity.contains_key(other)
            == v.last_activity.contains_key(other),
        v.last_activity.contains_key(other) ==> after_trade(v, mint, now).last_activity[other]
            == v.last_activity[other],
        after_trade(v, mint, now).inactivity_timeout_ns == v.inactivity_timeout_ns,
        after_trade(v, mint, now).base_bar_spec == v.base_bar_spec,
        after_trade(v, mint, now).time_bar_build_with_no_updates
            == v.time_bar_build_with_no_updates,
        after_trade(v, mint, now).time_bar_timestamp_on_close == v.time_bar_timestamp_on_close,
{
}

/// A timeout check with a positive timeout removes exactly the mints whose last
/// trade lies more than the timeout before `now` (a clock reading earlier than the
/// last trade counts as no time passed), reports them, and keeps every other mint
/// with its last activity. With a zero timeout it removes and reports every mint.
pub proof fn lemma_timeout_removal_exact(v: ManagerView, now: u64, m: Option<[u8; 32]>)
    requires
        v.last_activity.contains_key(m),
    ensures
        ({
            let last = v.last_activity[m];
            let expired = v.inactivity_timeout_ns == 0 || (now > last && now - last
                > v.inactivity_timeout_ns);
            &&& timed_out_mints(v, now).contains(m) == expired
            &&& after_timeouts(v, now).last_activity.contains_key(m) == !expired
            &&& !expired ==> after_timeouts(v, now).last_activity[m] == last
        }),
{
}

/// A timeout check removes no mint that had no aggregator.
pub proof fn lemma_timeout_removes_only_present(v: ManagerView, now: u64, m: Option<[u8; 32]>)
    requires
        !v.last_activity.contains_key(m),
    ensures
        !timed_out_mints(v, now).contains(m),
        !after_timeouts(v, now).last_activity.contains_key(m),
{
}

/// Timing out is monotone in time: a mint removed at `now` would also be removed
/// at any later time, and one kept at `now` was also kept at any earlier time.
pub proof fn lemma_timeout_monotone(v: ManagerView, m: Option<[u8; 32]>, t1: u64, t2: u64)
    requires
        t1 <= t2,
        timed_out_mints(v, t1).contains(m),
    ensures
        timed_out_mints(v, t2).contains(m),
{
}

/// Once a mint has traded, its next trade creates no aggregator: it goes to the
/// aggregator created before.
pub proof fn lemma_aggregator_created_once(v: ManagerView, mint: Option<[u8; 32]>, t: u64)
    requires
        aggregator_kind_for(v.base_bar_spec.aggregation) is Some,
    ensures
        trade_action(after_trade(v, mint, t), mint) == (TradeTickAction::Forward {
            mint,
            create: None,
        }),
{
}

/// When the base aggregation has no aggregator kind, a valid manager has no
/// aggregator, and trades change nothing.
pub proof fn lemma_unsupported_aggregation_inert(v: ManagerView, mint: Option<[u8; 32]>, t: u64)
    requires
        manager_valid(v),
        aggregator_kind_for(v.base_bar_spec.aggregation) is None,
    ensures
        v.last_activity == Map::<Option<[u8; 32]>, u64>::empty(),
        after_trade(v, mint, t) == v,
        trade_action(v, mint) == (TradeTickAction::Unsupported {
            mint,
            aggregation: v.base_bar_spec.aggregation,
        }),
{
    assert(v.last_activity =~= Map::<Option<[u8; 32]>, u64>::empty());
}

/// The entries kept by a timeout check form the map without the timed-out mints,
/// and the mints removed are exactly the timed-out ones, each once.
proof fn lemma_filtered_entries(
    old_entries: Seq<(Option<[u8; 32]>, u64)>,
    kept: Seq<(Option<[u8; 32]>, u64)>,
    kept_idx: Seq<int>,
    removed: Seq<Option<[u8; 32]>>,
    removed_idx: Seq<int>,
    v: ManagerView,
    now: u64,
)
    requires
        unique_mints(old_entries),
        v.last_activity == entries_map(old_entries),
        kept.len() == kept_idx.len(),
        removed.len() == removed_idx.len(),
        forall|m: int|
            0 <= m < kept_idx.len() ==> 0 <= #[trigger] kept_idx[m] < old_entries.len() && kept[m]
                == old_entries[kept_idx[m]] && !is_timed_out(v, kept[m].1, now),
        forall|a: int, b: int|
            0 <= a < b < kept_idx.len() ==> #[trigger] kept_idx[a] < #[trigger] kept_idx[b],
        forall|j: int|
            0 <= j < old_entries.len() && !is_timed_out(v, old_entries[j].1, now) ==> exists|m: int|
                0 <= m < kept_idx.len() && #[trigger] kept_idx[m] == j,
        forall|m: int|
            0 <= m < removed_idx.len() ==> 0 <= #[trigger] removed_idx[m] < old_entries.len()
                && removed[m] == old_entries[removed_idx[m]].0 && is_timed_out(
                v,
                old_entries[removed_idx[m]].1,
                now,
            ),
        forall|a: int, b: int|
            0 <= a < b < removed_idx.len() ==> #[trigger] removed_idx[a] < #[trigger] removed_idx[b],
        forall|j: int|
            0 <= j < old_entries.len() && is_timed_out(v, old_entries[j].1, now) ==> exists|m: int|
                0 <= m < removed_idx.len() && #[trigger] removed_idx[m] == j,
    ensures
        unique_mints(kept),
        entries_map(kept) == v.last_activity.remove_keys(timed_out_mints(v, now)),
        removed.to_set() == timed_out_mints(v, now),
        removed.no_duplicates(),
{
    assert(unique_mints(kept)) by {
        assert forall|a: int, b: int|
            0 <= a < kept.len() && 0 <= b < kept.len() && a != b implies kept[a].0 != kept[b].0 by {
            if a < b {
                assert(kept_idx[a] < kept_idx[b]);
            } else {
                assert(kept_idx[b] < kept_idx[a]);
            }
        }
    }
    assert(removed.no_duplicates()) by {
        assert forall|a: int, b: int|
            0 <= a < removed.len() && 0 <= b < removed.len() && a != b implies removed[a]
            != removed[b] by {
            if a < b {
                assert(removed_idx[a] < removed_idx[b]);
            } else {
                assert(removed_idx[b] < removed_idx[a]);
            }
        }
    }
    let timed = timed_out_mints(v, now);
    let lhs = entries_map(kept);
    let rhs = v.last_activity.remove_keys(timed);
    assert forall|k| #[trigger] lhs.dom().contains(k) == rhs.dom().contains(k) by {
        if lhs.dom().contains(k) {
            let m = choose|m: int| 0 <= m < kept.len() && kept[m].0 == k;
            let j = kept_idx[m];
            lemma_entries_map_at(old_entries, j);
            assert(v.last_activity.contains_key(k));
            assert(!timed.contains(k));
        }
        if rhs.dom().contains(k) {
            assert(v.last_activity.contains_key(k));
            assert(!timed.contains(k));
            let j = choose|j: int| 0 <= j < old_entries.len() && old_entries[j].0 == k;
            lemma_entries_map_at(old_entries, j);
            assert(!is_timed_out(v, old_entries[j].1, now));
            let m = choose|m: int| 0 <= m < kept_idx.len() && #[trigger] kept_idx[m] == j;
            assert(0 <= m < kept.len() && kept[m].0 == k);
        }
    }
    assert forall|k| #[trigger] lhs.dom().contains(k) implies lhs[k] == rhs[k] by {
        let m = choose|m: int| 0 <= m < kept.len() && kept[m].0 == k;
        let j = kept_idx[m];
        lemma_entries_map_at(kept, m);
        lemma_entries_map_at(old_entries, j);
    }
    assert(lhs.dom() =~= rhs.dom());
    assert(lhs =~= rhs);
    assert forall|k| removed.to_set().contains(k) <==> timed.contains(k) by {
        if removed.to_set().contains(k) {
            let m = choose|m: int| 0 <= m < removed.len() && removed[m] == k;
            lemma_entries_map_at(old_entries, removed_idx[m]);
        }
        if timed.contains(k) {
            let j = choose|j: int| 0 <= j < old_entries.len() && old_entries[j].0 == k;
            lemma_entries_map_at(old_entries, j);
            let m = choose|m: int| 0 <= m < removed_idx.len() && #[trigger] removed_idx[m] == j;
            assert(removed[m] == k);
        }
    }
    assert(removed.to_set() =~= timed);
}

} // verus!
