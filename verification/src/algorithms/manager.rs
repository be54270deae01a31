//! The registry of running execution algorithms: submitting, pausing,
//! resuming and cancelling them by id, sending each running algorithm's next
//! slice to the engine, and dropping finished ones.  An algorithm is found
//! by the first entry with its id; submitting an id already present replaces
//! that entry, so each id occurs once.
use vstd::prelude::*;

use crate::decimal::{dec_add, dec_sub, Dec};
use crate::engine::matching::min_dec;
use crate::engine::errors::OrderBookError;
use crate::engine::orderbook::{order_added, EngineView, OrderBookEngine};
use crate::engine::types::{Order, OrderSide, TimeInForce, Trade};
use crate::ids::{id_text, uuid_text};
use crate::text::push_str;

use super::twap::{is_child_order, AlgorithmStatus, TwapAlgorithm};
use super::vwap::{after_fill, target_in, VwapAlgorithm};

verus! {

broadcast use crate::decimal::group_dec_parts;

/// The first position at which `ids` holds `id`, if any.
pub open spec fn first_index(ids: Seq<u128>, id: u128) -> Option<int> {
    if exists|i: int| 0 <= i < ids.len() && ids[i] == id {
        Some(
            choose|i: int|
                0 <= i < ids.len() && ids[i] == id && forall|k: int| 0 <= k < i ==> ids[k] != id,
        )
    } else {
        None
    }
}

proof fn lemma_first_index(ids: Seq<u128>, id: u128, i: int)
    requires
        0 <= i < ids.len(),
        ids[i] == id,
        forall|k: int| 0 <= k < i ==> ids[k] != id,
    ensures
        first_index(ids, id) == Some(i),
{
    let j = choose|j: int|
        0 <= j < ids.len() && ids[j] == id && forall|k: int| 0 <= k < j ==> ids[k] != id;
    assert(0 <= j < ids.len() && ids[j] == id && forall|k: int| 0 <= k < j ==> ids[k] != id);
    if j < i {
        assert(ids[j] != id);
    }
    if i < j {
        assert(ids[i] != id);
    }
}

/// Ids of the TWAP algorithms.
pub open spec fn twap_ids(s: Seq<TwapAlgorithm>) -> Seq<u128> {
    s.map_values(|a: TwapAlgorithm| a.id)
}

/// Ids of the VWAP algorithms.
pub open spec fn vwap_ids(s: Seq<VwapAlgorithm>) -> Seq<u128> {
    s.map_values(|a: VwapAlgorithm| a.id)
}

/// The TWAP list after submitting `a`: it replaces the entry with its id,
/// or is appended.
pub open spec fn twap_upsert(s: Seq<TwapAlgorithm>, a: TwapAlgorithm) -> Seq<TwapAlgorithm> {
    match first_index(twap_ids(s), a.id) {
        Some(i) => s.update(i, a),
        None => s.push(a),
    }
}

/// The VWAP list after submitting `a`.
pub open spec fn vwap_upsert(s: Seq<VwapAlgorithm>, a: VwapAlgorithm) -> Seq<VwapAlgorithm> {
    match first_index(vwap_ids(s), a.id) {
        Some(i) => s.update(i, a),
        None => s.push(a),
    }
}

/// `"Algorithm <id> not found"`.
pub open spec fn not_found_text(id: u128) -> Seq<char> {
    "Algorithm "@ + uuid_text(id) + " not found"@
}

/// Whether an algorithm stays in the registry: it has not completed and
/// was not cancelled.
pub open spec fn is_live(status: AlgorithmStatus) -> bool {
    status != AlgorithmStatus::Completed && status != AlgorithmStatus::Cancelled
}

/// The live TWAP algorithms, in order.
pub open spec fn live_twaps(s: Seq<TwapAlgorithm>) -> Seq<TwapAlgorithm>
    decreases s.len(),
{
    if s.len() == 0 {
        s
    } else {
        (if is_live(s[0].status) {
            seq![s[0]]
        } else {
            Seq::empty()
        }) + live_twaps(s.drop_first())
    }
}

/// The live VWAP algorithms, in order.
pub open spec fn live_vwaps(s: Seq<VwapAlgorithm>) -> Seq<VwapAlgorithm>
    decreases s.len(),
{
    if s.len() == 0 {
        s
    } else {
        (if is_live(s[0].status) {
            seq![s[0]]
        } else {
            Seq::empty()
        }) + live_vwaps(s.drop_first())
    }
}

/// A TWAP after a fill of `filled`: executed quantity grows, and it
/// completes once everything is executed (`None` on decimal overflow).
pub open spec fn twap_filled(a: TwapAlgorithm, filled: Dec) -> Option<TwapAlgorithm> {
    match dec_add(a.executed_quantity, filled) {
        Some(e) => Some(
            TwapAlgorithm {
                executed_quantity: e,
                status: if e.value() >= a.total_quantity.value() {
                    AlgorithmStatus::Completed
                } else {
                    a.status
                },
                ..a
            },
        ),
        None => None,
    }
}

/// The quantity an answer of the engine filled of the child order, when it
/// is positive.
pub open spec fn positive_fill(r: Result<(Order, Vec<Trade>), OrderBookError>) -> Option<Dec> {
    match r {
        Ok((o, _)) => if o.filled_quantity.value() > 0 {
            Some(o.filled_quantity)
        } else {
            None
        },
        Err(_) => None,
    }
}

/// The price at which an answer of the engine is recorded: the child
/// order's price, zero for a market order.
pub open spec fn fill_price(r: Result<(Order, Vec<Trade>), OrderBookError>) -> Dec {
    match r {
        Ok((o, _)) => match o.price {
            Some(p) => p,
            None => Dec::spec_zero(),
        },
        Err(_) => Dec::spec_zero(),
    }
}

/// A TWAP `s` after the engine answered `r` to its child order: the
/// positive quantity filled is recorded (unless that overflows).
pub open spec fn twap_after(s: TwapAlgorithm, r: Result<(Order, Vec<Trade>), OrderBookError>) -> TwapAlgorithm {
    match positive_fill(r) {
        Some(f) => match twap_filled(s, f) {
            Some(b) => b,
            None => s,
        },
        None => s,
    }
}

/// A VWAP `a` after the engine answered `r` to its child order: the
/// positive quantity filled is recorded at the child order's price (unless
/// that overflows).
pub open spec fn vwap_after(a: VwapAlgorithm, r: Result<(Order, Vec<Trade>), OrderBookError>) -> VwapAlgorithm {
    match positive_fill(r) {
        Some(f) => match after_fill(a, f, fill_price(r)) {
            Some(b) => b,
            None => a,
        },
        None => a,
    }
}

/// How one TWAP algorithm `a` becomes `b`, and the engine goes from `e0`
/// to `e1`, in an executor round at `now`, with `target` the quantity it
/// should have executed by then: one not running is untouched; one past
/// its window or fully executed completes; one behind its target counts a
/// slice, adds its child order for what it is behind (capped at what
/// remains) to the engine, and records the positive quantity filled.  The
/// engine changes only by that addition.
pub open spec fn twap_round(
    a: TwapAlgorithm,
    b: TwapAlgorithm,
    now: i64,
    target: Dec,
    e0: EngineView,
    e1: EngineView,
) -> bool {
    if a.status != AlgorithmStatus::Running {
        b == a && e1 == e0
    } else if !(now < a.end_time && a.executed_quantity.value() < a.total_quantity.value()) {
        b == TwapAlgorithm { status: AlgorithmStatus::Completed, ..a } && e1 == e0
    } else if a.slices_completed == u32::MAX {
        b == a && e1 == e0
    } else {
        match (dec_sub(target, a.executed_quantity), dec_sub(a.total_quantity, a.executed_quantity)) {
            (Some(behind), Some(remaining)) => {
                let q = min_dec(behind, remaining);
                if behind.value() <= 0 || q.value() <= 0 {
                    b == a && e1 == e0
                } else {
                    let s = TwapAlgorithm { slices_completed: (a.slices_completed + 1) as u32, ..a };
                    exists|o: Order, r: Result<(Order, Vec<Trade>), OrderBookError>|
                        is_child_order(o, a.symbol@, a.side, a.user_id@, a.limit_price, q, now)
                            && #[trigger] order_added(e0, o, r, e1) && b == twap_after(s, r)
                }
            },
            _ => b == a && e1 == e0,
        }
    }
}

/// How one VWAP algorithm `a` becomes `b`, and the engine goes from `e0`
/// to `e1`, in an executor round at `now`: one not running is untouched;
/// one past its window completes; one behind its target curve adds its
/// child market order for what it is behind (capped at what remains) to
/// the engine and records the positive quantity filled.  The engine
/// changes only by that addition.
pub open spec fn vwap_round(a: VwapAlgorithm, b: VwapAlgorithm, now: i64, e0: EngineView, e1: EngineView) -> bool {
    if a.status != AlgorithmStatus::Running {
        b == a && e1 == e0
    } else if now >= a.end_time {
        b == VwapAlgorithm { status: AlgorithmStatus::Completed, ..a } && e1 == e0
    } else {
        match (
            dec_sub(target_in(a.curve(), now, a.curve().len()), a.executed_quantity),
            dec_sub(a.total_quantity, a.executed_quantity),
        ) {
            (Some(behind), Some(remaining)) => {
                let q = min_dec(behind, remaining);
                if behind.value() <= 0 || q.value() <= 0 {
                    b == a && e1 == e0
                } else {
                    exists|o: Order, r: Result<(Order, Vec<Trade>), OrderBookError>|
                        is_child_order(o, a.symbol@, a.side, a.user_id@, None, q, now)
                            && #[trigger] order_added(e0, o, r, e1) && b == vwap_after(a, r)
                }
            },
            _ => b == a && e1 == e0,
        }
    }
}

/// The TWAP algorithms `olds` became `news` over one executor round each,
/// in order, the engine going through `states` from `e0` to `e1`
/// (`states[i]` before the `i`-th round, `states[i + 1]` after it).
pub open spec fn twap_rounds(
    olds: Seq<TwapAlgorithm>,
    news: Seq<TwapAlgorithm>,
    now: i64,
    targets: Seq<Dec>,
    states: Seq<EngineView>,
    e0: EngineView,
    e1: EngineView,
) -> bool {
    &&& news.len() == olds.len()
    &&& states.len() == olds.len() + 1
    &&& states[0] == e0
    &&& states.last() == e1
    &&& forall|i: int|
        0 <= i < olds.len() ==> twap_round(olds[i], #[trigger] news[i], now, targets[i], states[i], states[i + 1])
}

/// The VWAP algorithms `olds` became `news` over one executor round each,
/// in order, the engine going through `states` from `e0` to `e1`.
pub open spec fn vwap_rounds(
    olds: Seq<VwapAlgorithm>,
    news: Seq<VwapAlgorithm>,
    now: i64,
    states: Seq<EngineView>,
    e0: EngineView,
    e1: EngineView,
) -> bool {
    &&& news.len() == olds.len()
    &&& states.len() == olds.len() + 1
    &&& states[0] == e0
    &&& states.last() == e1
    &&& forall|i: int| 0 <= i < olds.len() ==> vwap_round(olds[i], #[trigger] news[i], now, states[i], states[i + 1])
}

/// Running TWAP and VWAP algorithms.
pub struct AlgorithmManager {
    twap_algos: Vec<TwapAlgorithm>,
    vwap_algos: Vec<VwapAlgorithm>,
}

/// The registered algorithms, in submission order.
pub struct AlgorithmsView {
    pub twaps: Seq<TwapAlgorithm>,
    pub vwaps: Seq<VwapAlgorithm>,
}

impl View for AlgorithmManager {
    type V = AlgorithmsView;

    closed spec fn view(&self) -> AlgorithmsView {
        AlgorithmsView { twaps: self.twap_algos@, vwaps: self.vwap_algos@ }
    }
}

/// `"Algorithm <id> not found"` as a string.
fn not_found(id: u128) -> (s: String)
    ensures
        s@ == not_found_text(id),
{
    let mut out: Vec<char> = Vec::new();
    push_str(&mut out, "Algorithm ");
    let t = id_text(id);
    push_str(&mut out, t.as_str());
    push_str(&mut out, " not found");
    crate::text::string_from_chars(out.as_slice())
}

/// Position of the first TWAP with this id.
fn twap_position(v: &Vec<TwapAlgorithm>, id: u128) -> (r: Option<usize>)
    ensures
        match r {
            Some(i) => i < v@.len() && v@[i as int].id == id && first_index(twap_ids(v@), id) == Some(
                i as int,
            ),
            None => first_index(twap_ids(v@), id) is None,
        },
{
    let mut i: usize = 0;
    while i < v.len()
        invariant
            i <= v@.len(),
            forall|k: int| 0 <= k < i ==> twap_ids(v@)[k] != id,
        decreases v.len() - i,
    {
        if v[i].id == id {
            proof {
                lemma_first_index(twap_ids(v@), id, i as int);
            }
            return Some(i);
        }
        i = i + 1;
    }
    None
}

/// Position of the first VWAP with this id.
fn vwap_position(v: &Vec<VwapAlgorithm>, id: u128) -> (r: Option<usize>)
    ensures
        match r {
            Some(i) => i < v@.len() && v@[i as int].id == id && first_index(vwap_ids(v@), id) == Some(
                i as int,
            ),
            None => first_index(vwap_ids(v@), id) is None,
        },
{
    let mut i: usize = 0;
    while i < v.len()
        invariant
            i <= v@.len(),
            forall|k: int| 0 <= k < i ==> vwap_ids(v@)[k] != id,
        decreases v.len() - i,
    {
        if v[i].id == id {
            proof {
                lemma_first_index(vwap_ids(v@), id, i as int);
            }
            return Some(i);
        }
        i = i + 1;
    }
    None
}

/// Give the `i`-th TWAP algorithm this status.
fn set_twap_status(v: &mut Vec<TwapAlgorithm>, i: usize, status: AlgorithmStatus)
    requires
        i < old(v)@.len(),
    ensures
        final(v)@ == old(v)@.update(i as int, TwapAlgorithm { status, ..old(v)@[i as int] }),
{
    let mut a = v.remove(i);
    a.status = status;
    v.insert(i, a);
    assert(v@ =~= old(v)@.update(i as int, TwapAlgorithm { status, ..old(v)@[i as int] }));
}

/// Give the `i`-th VWAP algorithm this status.
fn set_vwap_status(v: &mut Vec<VwapAlgorithm>, i: usize, status: AlgorithmStatus)
    requires
        i < old(v)@.len(),
    ensures
        final(v)@ == old(v)@.update(i as int, VwapAlgorithm { status, ..old(v)@[i as int] }),
{
    let mut a = v.remove(i);
    a.status = status;
    v.insert(i, a);
    assert(v@ =~= old(v)@.update(i as int, VwapAlgorithm { status, ..old(v)@[i as int] }));
}

/// One executor round for a TWAP algorithm.
fn twap_round_exec(a: &mut TwapAlgorithm, engine: &mut OrderBookEngine, now: i64, target: Dec)
    ensures
        twap_round(*old(a), *final(a), now, target, old(engine)@, final(engine)@),
{
    if a.status != AlgorithmStatus::Running {
        return;
    }
    if !a.slice_due(now) {
        return;
    }
    if a.slices_completed == u32::MAX {
        return;
    }
    match a.slice_for_target(now, target) {
        None => {},
        Some(child) => {
            let ghost s = *a;
            let ghost o = child;
            let r = engine.add_order(child);
            match &r {
                Ok((order, _trades)) => {
                    let filled = order.filled_quantity;
                    if Dec::zero().lt(&filled) {
                        let price = match order.price {
                            Some(p) => p,
                            None => Dec::zero(),
                        };
                        let ok = a.record_fill(filled, price);
                        proof {
                            if ok {
                                assert(twap_filled(s, filled) == Some(*a));
                            }
                        }
                    }
                },
                Err(_) => {},
            }
            proof {
                assert(*a == twap_after(s, r));
                assert(order_added(old(engine)@, o, r, engine@));
            }
        },
    }
}

/// One executor round for a VWAP algorithm.
fn vwap_round_exec(a: &mut VwapAlgorithm, engine: &mut OrderBookEngine, now: i64)
    ensures
        vwap_round(*old(a), *final(a), now, old(engine)@, final(engine)@),
{
    if a.status != AlgorithmStatus::Running {
        return;
    }
    let ghost s = *a;
    match a.next_slice(now) {
        None => {},
        Some(child) => {
            let ghost o = child;
            let r = engine.add_order(child);
            match &r {
                Ok((order, _trades)) => {
                    let filled = order.filled_quantity;
                    if Dec::zero().lt(&filled) {
                        let price = match order.price {
                            Some(p) => p,
                            None => Dec::zero(),
                        };
                        let ok = a.record_fill(filled, price);
                        proof {
                            if ok {
                                assert(after_fill(s, filled, price) == Some(*a));
                            }
                        }
                    }
                },
                Err(_) => {},
            }
            proof {
                assert(*a == vwap_after(s, r));
                assert(order_added(old(engine)@, o, r, engine@));
            }
        },
    }
}

impl AlgorithmManager {
    /// No algorithms.
    pub fn new() -> (m: Self)
        ensures
            m@.twaps.len() == 0,
            m@.vwaps.len() == 0,
    {
        AlgorithmManager { twap_algos: Vec::new(), vwap_algos: Vec::new() }
    }

    /// Start a TWAP algorithm and register it under its id.
    pub fn submit_twap(&mut self, twap: TwapAlgorithm) -> (r: Result<u128, String>)
        ensures
            r == Ok::<u128, String>(twap.id),
            final(self)@.twaps == twap_upsert(
                old(self)@.twaps,
                TwapAlgorithm { status: AlgorithmStatus::Running, ..twap },
            ),
            final(self)@.vwaps == old(self)@.vwaps,
    {
        let mut twap = twap;
        twap.start();
        let id = twap.id;
        match twap_position(&self.twap_algos, id) {
            Some(i) => {
                self.twap_algos.set(i, twap);
            },
            None => {
                self.twap_algos.push(twap);
            },
        }
        Ok(id)
    }

    /// Start a VWAP algorithm and register it under its id.
    pub fn submit_vwap(&mut self, vwap: VwapAlgorithm) -> (r: Result<u128, String>)
        ensures
            r == Ok::<u128, String>(vwap.id),
            final(self)@.vwaps == vwap_upsert(
                old(self)@.vwaps,
                VwapAlgorithm { status: AlgorithmStatus::Running, ..vwap },
            ),
            final(self)@.twaps == old(self)@.twaps,
    {
        let mut vwap = vwap;
        vwap.start();
        let id = vwap.id;
        match vwap_position(&self.vwap_algos, id) {
            Some(i) => {
                self.vwap_algos.set(i, vwap);
            },
            None => {
                self.vwap_algos.push(vwap);
            },
        }
        Ok(id)
    }

    /// Give the algorithm with this id (TWAP first, then VWAP) the status
    /// `status`; `Err("Algorithm <id> not found")` when there is none.
    fn set_status(&mut self, id: u128, status: AlgorithmStatus) -> (r: Result<(), String>)
        ensures
            match first_index(twap_ids(old(self)@.twaps), id) {
                Some(i) => r is Ok && final(self)@.twaps == old(self)@.twaps.update(
                    i,
                    TwapAlgorithm { status, ..old(self)@.twaps[i] },
                ) && final(self)@.vwaps == old(self)@.vwaps,
                None => match first_index(vwap_ids(old(self)@.vwaps), id) {
                    Some(j) => r is Ok && final(self)@.vwaps == old(self)@.vwaps.update(
                        j,
                        VwapAlgorithm { status, ..old(self)@.vwaps[j] },
                    ) && final(self)@.twaps == old(self)@.twaps,
                    None => r matches Err(e) && e@ == not_found_text(id) && final(self)@
                        == old(self)@,
                },
            },
    {
        if let Some(i) = twap_position(&self.twap_algos, id) {
            set_twap_status(&mut self.twap_algos, i, status);
            return Ok(());
        }
        if let Some(j) = vwap_position(&self.vwap_algos, id) {
            set_vwap_status(&mut self.vwap_algos, j, status);
            return Ok(());
        }
        Err(not_found(id))
    }

    /// Pause the algorithm with this id (see `set_status`).
    pub fn pause(&mut self, id: u128) -> (r: Result<(), String>)
        ensures
            match first_index(twap_ids(old(self)@.twaps), id) {
                Some(i) => r is Ok && final(self)@.twaps == old(self)@.twaps.update(
                    i,
                    TwapAlgorithm { status: AlgorithmStatus::Paused, ..old(self)@.twaps[i] },
                ) && final(self)@.vwaps == old(self)@.vwaps,
                None => match first_index(vwap_ids(old(self)@.vwaps), id) {
                    Some(j) => r is Ok && final(self)@.vwaps == old(self)@.vwaps.update(
                        j,
                        VwapAlgorithm { status: AlgorithmStatus::Paused, ..old(self)@.vwaps[j] },
                    ) && final(self)@.twaps == old(self)@.twaps,
                    None => r matches Err(e) && e@ == not_found_text(id) && final(self)@
                        == old(self)@,
                },
            },
    {
        self.set_status(id, AlgorithmStatus::Paused)
    }

    /// Resume (start) the algorithm with this id.
    pub fn resume(&mut self, id: u128) -> (r: Result<(), String>)
        ensures
            match first_index(twap_ids(old(self)@.twaps), id) {
                Some(i) => r is Ok && final(self)@.twaps == old(self)@.twaps.update(
                    i,
                    TwapAlgorithm { status: AlgorithmStatus::Running, ..old(self)@.twaps[i] },
                ) && final(self)@.vwaps == old(self)@.vwaps,
                None => match first_index(vwap_ids(old(self)@.vwaps), id) {
                    Some(j) => r is Ok && final(self)@.vwaps == old(self)@.vwaps.update(
                        j,
                        VwapAlgorithm { status: AlgorithmStatus::Running, ..old(self)@.vwaps[j] },
                    ) && final(self)@.twaps == old(self)@.twaps,
                    None => r matches Err(e) && e@ == not_found_text(id) && final(self)@
                        == old(self)@,
                },
            },
    {
        self.set_status(id, AlgorithmStatus::Running)
    }

    /// Cancel the algorithm with this id.
    pub fn cancel(&mut self, id: u128) -> (r: Result<(), String>)
        ensures
            match first_index(twap_ids(old(self)@.twaps), id) {
                Some(i) => r is Ok && final(self)@.twaps == old(self)@.twaps.update(
                    i,
                    TwapAlgorithm { status: AlgorithmStatus::Cancelled, ..old(self)@.twaps[i] },
                ) && final(self)@.vwaps == old(self)@.vwaps,
                None => match first_index(vwap_ids(old(self)@.vwaps), id) {
                    Some(j) => r is Ok && final(self)@.vwaps == old(self)@.vwaps.update(
                        j,
                        VwapAlgorithm { status: AlgorithmStatus::Cancelled, ..old(self)@.vwaps[j] },
                    ) && final(self)@.twaps == old(self)@.twaps,
                    None => r matches Err(e) && e@ == not_found_text(id) && final(self)@
                        == old(self)@,
                },
            },
    {
        self.set_status(id, AlgorithmStatus::Cancelled)
    }

    /// A copy of the TWAP algorithm with this id, if registered.
    pub fn get_twap(&self, id: u128) -> (r: Result<Option<TwapAlgorithm>, String>)
        ensures
            r == Ok::<Option<TwapAlgorithm>, String>(
                match first_index(twap_ids(self@.twaps), id) {
                    Some(i) => Some(self@.twaps[i]),
                    None => None,
                },
            ),
    {
        match twap_position(&self.twap_algos, id) {
            Some(i) => Ok(Some(self.twap_algos[i].duplicate())),
            None => Ok(None),
        }
    }

    /// A copy of the VWAP algorithm with this id, if registered.
    pub fn get_vwap(&self, id: u128) -> (r: Result<Option<VwapAlgorithm>, String>)
        ensures
            r matches Ok(found) && match first_index(vwap_ids(self@.vwaps), id) {
                Some(i) => found matches Some(a) && a.same_as(self@.vwaps[i]),
                None => found is None,
            },
    {
        match vwap_position(&self.vwap_algos, id) {
            Some(i) => Ok(Some(self.vwap_algos[i].duplicate())),
            None => Ok(None),
        }
    }

    /// Copies of all TWAP algorithms.
    pub fn get_all_twap(&self) -> (r: Result<Vec<TwapAlgorithm>, String>)
        ensures
            r matches Ok(v) && v@ == self@.twaps,
    {
        let mut out: Vec<TwapAlgorithm> = Vec::new();
        let mut i: usize = 0;
        while i < self.twap_algos.len()
            invariant
                i <= self.twap_algos@.len(),
                out@ == self.twap_algos@.take(i as int),
            decreases self.twap_algos.len() - i,
        {
            out.push(self.twap_algos[i].duplicate());
            i = i + 1;
            assert(out@ =~= self.twap_algos@.take(i as int));
        }
        assert(self.twap_algos@.take(i as int) =~= self.twap_algos@);
        Ok(out)
    }

    /// Copies of all VWAP algorithms.
    pub fn get_all_vwap(&self) -> (r: Result<Vec<VwapAlgorithm>, String>)
        ensures
            r matches Ok(v) && v@.len() == self@.vwaps.len() && forall|i: int|
                0 <= i < v@.len() ==> (#[trigger] v@[i]).same_as(self@.vwaps[i]),
    {
        let mut out: Vec<VwapAlgorithm> = Vec::new();
        let mut i: usize = 0;
        while i < self.vwap_algos.len()
            invariant
                i <= self.vwap_algos@.len(),
                out@.len() == i,
                forall|k: int| 0 <= k < i ==> (#[trigger] out@[k]).same_as(self.vwap_algos@[k]),
            decreases self.vwap_algos.len() - i,
        {
            out.push(self.vwap_algos[i].duplicate());
            i = i + 1;
        }
        Ok(out)
    }

    /// Run every TWAP algorithm's round at `now` against the engine, in
    /// order; `targets[i]` is what the `i`-th algorithm should have executed
    /// by `now`.
    pub fn execute_twap_slice(
        &mut self,
        engine: &mut OrderBookEngine,
        now: i64,
        targets: &Vec<Dec>,
    )
        requires
            targets@.len() == old(self)@.twaps.len(),
        ensures
            exists|states: Seq<EngineView>|
                #[trigger] twap_rounds(
                    old(self)@.twaps,
                    final(self)@.twaps,
                    now,
                    targets@,
                    states,
                    old(engine)@,
                    final(engine)@,
                ),
            final(self)@.vwaps == old(self)@.vwaps,
    {
        let n = self.twap_algos.len();
        let ghost mut states: Seq<EngineView> = seq![engine@];
        let mut i: usize = 0;
        while i < n
            invariant
                n == old(self)@.twaps.len(),
                targets@.len() == n,
                self.twap_algos@.len() == n,
                i <= n,
                states.len() == i + 1,
                states[0] == old(engine)@,
                states[i as int] == engine@,
                forall|k: int|
                    0 <= k < i ==> twap_round(
                        old(self)@.twaps[k],
                        #[trigger] self.twap_algos@[k],
                        now,
                        targets@[k],
                        states[k],
                        states[k + 1],
                    ),
                forall|k: int| i <= k < n ==> self.twap_algos@[k] == old(self)@.twaps[k],
                self.vwap_algos@ == old(self)@.vwaps,
            decreases n - i,
        {
            let mut a = self.twap_algos.remove(i);
            twap_round_exec(&mut a, engine, now, targets[i]);
            self.twap_algos.insert(i, a);
            proof {
                states = states.push(engine@);
            }
            i = i + 1;
        }
        assert(twap_rounds(old(self)@.twaps, self@.twaps, now, targets@, states, old(engine)@, engine@));
    }

    /// Run every VWAP algorithm's round at `now` against the engine, in
    /// order.
    pub fn execute_vwap_slice(&mut self, engine: &mut OrderBookEngine, now: i64)
        ensures
            exists|states: Seq<EngineView>|
                #[trigger] vwap_rounds(old(self)@.vwaps, final(self)@.vwaps, now, states, old(engine)@, final(engine)@),
            final(self)@.twaps == old(self)@.twaps,
    {
        let n = self.vwap_algos.len();
        let ghost mut states: Seq<EngineView> = seq![engine@];
        let mut i: usize = 0;
        while i < n
            invariant
                n == old(self)@.vwaps.len(),
                self.vwap_algos@.len() == n,
                i <= n,
                states.len() == i + 1,
                states[0] == old(engine)@,
                states[i as int] == engine@,
                forall|k: int|
                    0 <= k < i ==> vwap_round(
                        old(self)@.vwaps[k],
                        #[trigger] self.vwap_algos@[k],
                        now,
                        states[k],
                        states[k + 1],
                    ),
                forall|k: int| i <= k < n ==> self.vwap_algos@[k] == old(self)@.vwaps[k],
                self.twap_algos@ == old(self)@.twaps,
            decreases n - i,
        {
            let mut a = self.vwap_algos.remove(i);
            vwap_round_exec(&mut a, engine, now);
            self.vwap_algos.insert(i, a);
            proof {
                states = states.push(engine@);
            }
            i = i + 1;
        }
        assert(vwap_rounds(old(self)@.vwaps, self@.vwaps, now, states, old(engine)@, engine@));
    }

    /// Drop the algorithms that completed or were cancelled.
    pub fn cleanup_finished_algorithms(&mut self)
        ensures
            final(self)@.twaps == live_twaps(old(self)@.twaps),
            final(self)@.vwaps == live_vwaps(old(self)@.vwaps),
    {
        let mut rest: Vec<TwapAlgorithm> = Vec::new();
        std::mem::swap(&mut rest, &mut self.twap_algos);
        let ghost all = rest@;
        let mut kept: Vec<TwapAlgorithm> = Vec::new();
        assert(kept@ + live_twaps(rest@) =~= live_twaps(all));
        while rest.len() > 0
            invariant
                kept@ + live_twaps(rest@) == live_twaps(all),
            decreases rest.len(),
        {
            let ghost before = rest@;
            let ghost kept_before = kept@;
            let a = rest.remove(0);
            proof {
                assert(before.drop_first() =~= rest@);
                assert(live_twaps(before) == (if is_live(a.status) {
                    seq![a]
                } else {
                    Seq::empty()
                }) + live_twaps(rest@));
            }
            if is_live_status(a.status) {
                kept.push(a);
            }
            proof {
                if is_live(a.status) {
                    assert(kept@ + live_twaps(rest@) =~= kept_before + (seq![a] + live_twaps(rest@)));
                } else {
                    assert((Seq::<TwapAlgorithm>::empty() + live_twaps(rest@)) =~= live_twaps(rest@));
                }
            }
        }
        assert(live_twaps(rest@) =~= Seq::<TwapAlgorithm>::empty());
        assert(kept@ =~= live_twaps(all));
        self.twap_algos = kept;
        let mut vrest: Vec<VwapAlgorithm> = Vec::new();
        std::mem::swap(&mut vrest, &mut self.vwap_algos);
        let ghost vall = vrest@;
        let mut vkept: Vec<VwapAlgorithm> = Vec::new();
        assert(vkept@ + live_vwaps(vrest@) =~= live_vwaps(vall));
        while vrest.len() > 0
            invariant
                vkept@ + live_vwaps(vrest@) == live_vwaps(vall),
            decreases vrest.len(),
        {
            let ghost before = vrest@;
            let ghost kept_before = vkept@;
            let a = vrest.remove(0);
            proof {
                assert(before.drop_first() =~= vrest@);
                assert(live_vwaps(before) == (if is_live(a.status) {
                    seq![a]
                } else {
                    Seq::empty()
                }) + live_vwaps(vrest@));
            }
            if is_live_status(a.status) {
                vkept.push(a);
            }
            proof {
                if is_live(a.status) {
                    assert(vkept@ + live_vwaps(vrest@) =~= kept_before + (seq![a] + live_vwaps(vrest@)));
                } else {
                    assert((Seq::<VwapAlgorithm>::empty() + live_vwaps(vrest@)) =~= live_vwaps(vrest@));
                }
            }
        }
        assert(live_vwaps(vrest@) =~= Seq::<VwapAlgorithm>::empty());
        assert(vkept@ =~= live_vwaps(vall));
        self.vwap_algos = vkept;
    }

    /// Number of registered algorithms (`Err` if it does not fit a `usize`).
    pub fn get_total_algorithms(&self) -> (r: Result<usize, String>)
        ensures
            match r {
                Ok(n) => n == self@.twaps.len() + self@.vwaps.len(),
                Err(_) => self@.twaps.len() + self@.vwaps.len() > usize::MAX,
            },
    {
        match self.twap_algos.len().checked_add(self.vwap_algos.len()) {
            Some(n) => Ok(n),
            None => Err("Algorithm count overflow".to_owned()),
        }
    }
}

/// Whether an algorithm with this status stays registered.
fn is_live_status(s: AlgorithmStatus) -> (b: bool)
    ensures
        b == is_live(s),
{
    s != AlgorithmStatus::Completed && s != AlgorithmStatus::Cancelled
}

/// A child order sent at `now`: an immediate-or-cancel order of the
/// algorithm's symbol, side and user at `limit_price` (a market order
/// without one), for a positive quantity no larger than what the algorithm
/// is behind its `target` nor than what remains of its `total`.
pub open spec fn child_within(
    o: Order,
    symbol: Seq<char>,
    side: OrderSide,
    user_id: Seq<char>,
    limit_price: Option<Dec>,
    now: i64,
    target: Dec,
    executed: Dec,
    total: Dec,
) -> bool {
    &&& o.symbol@ == symbol
    &&& o.side == side
    &&& o.user_id@ == user_id
    &&& o.price == limit_price
    &&& o.time_in_force == TimeInForce::IOC
    &&& o.timestamp == now
    &&& o.quantity.value() > 0
    &&& (dec_sub(target, executed) matches Some(behind) && o.quantity.value() <= behind.value())
    &&& (dec_sub(total, executed) matches Some(remaining) && o.quantity.value()
        <= remaining.value())
}

/// What an executor round does with a TWAP's child order: the child order
/// asks for a positive quantity no larger than what the algorithm is behind
/// nor than what remains, and the executed quantity grows by exactly the
/// quantity the engine filled of the order it returned for the child (by
/// nothing when that is zero or the engine refused the order); a round that
/// adds no child order leaves the engine and the executed quantity as they
/// were.
pub proof fn law_twap_round_records_engine_fill(
    a: TwapAlgorithm,
    b: TwapAlgorithm,
    now: i64,
    target: Dec,
    e0: EngineView,
    e1: EngineView,
)
    requires
        twap_round(a, b, now, target, e0, e1),
    ensures
        (e1 == e0 && b.executed_quantity == a.executed_quantity) || exists|
            o: Order,
            r: Result<(Order, Vec<Trade>), OrderBookError>,
        |
            #[trigger] order_added(e0, o, r, e1) && child_within(
                o,
                a.symbol@,
                a.side,
                a.user_id@,
                a.limit_price,
                now,
                target,
                a.executed_quantity,
                a.total_quantity,
            ) && b.executed_quantity == match r {
                Ok((child, _)) => if child.filled_quantity.value() > 0 {
                    match dec_add(a.executed_quantity, child.filled_quantity) {
                        Some(e) => e,
                        None => a.executed_quantity,
                    }
                } else {
                    a.executed_quantity
                },
                Err(_) => a.executed_quantity,
            },
{
    if a.status == AlgorithmStatus::Running && now < a.end_time && a.executed_quantity.value()
        < a.total_quantity.value() && a.slices_completed != u32::MAX {
        match (dec_sub(target, a.executed_quantity), dec_sub(a.total_quantity, a.executed_quantity)) {
            (Some(behind), Some(remaining)) => {
                let q = min_dec(behind, remaining);
                if !(behind.value() <= 0 || q.value() <= 0) {
                    let s = TwapAlgorithm { slices_completed: (a.slices_completed + 1) as u32, ..a };
                    let (o, r) = choose|o: Order, r: Result<(Order, Vec<Trade>), OrderBookError>|
                        is_child_order(o, a.symbol@, a.side, a.user_id@, a.limit_price, q, now)
                            && #[trigger] order_added(e0, o, r, e1) && b == twap_after(s, r);
                    assert(order_added(e0, o, r, e1));
                }
            },
            _ => {},
        }
    }
}

/// What an executor round does with a VWAP's child order: the child market
/// order asks for a positive quantity no larger than what the algorithm is
/// behind its target curve nor than what remains; when the engine
/// filled a positive quantity of the order it returned for the child, the
/// executed quantity grows by exactly that quantity (or, on decimal overflow,
/// the algorithm is left as it was); when it filled nothing or refused the
/// order, the algorithm is left as it was; a round that adds no child order
/// leaves the executed quantity as it was.
pub proof fn law_vwap_round_records_engine_fill(
    a: VwapAlgorithm,
    b: VwapAlgorithm,
    now: i64,
    e0: EngineView,
    e1: EngineView,
)
    requires
        vwap_round(a, b, now, e0, e1),
    ensures
        (e1 == e0 && b.executed_quantity == a.executed_quantity) || exists|
            o: Order,
            r: Result<(Order, Vec<Trade>), OrderBookError>,
        |
            #[trigger] order_added(e0, o, r, e1) && child_within(
                o,
                a.symbol@,
                a.side,
                a.user_id@,
                None,
                now,
                target_in(a.curve(), now, a.curve().len()),
                a.executed_quantity,
                a.total_quantity,
            ) && match r {
                Ok((child, _)) => if child.filled_quantity.value() > 0 {
                    Some(b.executed_quantity) == dec_add(a.executed_quantity, child.filled_quantity)
                        || b == a
                } else {
                    b == a
                },
                Err(_) => b == a,
            },
{
    if a.status == AlgorithmStatus::Running && now < a.end_time {
        match (
            dec_sub(target_in(a.curve(), now, a.curve().len()), a.executed_quantity),
            dec_sub(a.total_quantity, a.executed_quantity),
        ) {
            (Some(behind), Some(remaining)) => {
                let q = min_dec(behind, remaining);
                if !(behind.value() <= 0 || q.value() <= 0) {
                    let (o, r) = choose|o: Order, r: Result<(Order, Vec<Trade>), OrderBookError>|
                        is_child_order(o, a.symbol@, a.side, a.user_id@, None, q, now)
                            && #[trigger] order_added(e0, o, r, e1) && b == vwap_after(a, r);
                    assert(order_added(e0, o, r, e1));
                }
            },
            _ => {},
        }
    }
}

} // verus!
