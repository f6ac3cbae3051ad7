use vstd::prelude::*;

use crate::events::Record;
use crate::pallet::channel_bounds_ok;
use crate::pallet::get_ok;
use crate::pallet::get_tr;
use crate::pallet::increase_ok;
use crate::pallet::increase_tr;
use crate::pallet::new_channel_tr;
use crate::pallet::set_tr;
use crate::pallet::take_ok;
use crate::pallet::take_tr;
use crate::pallet::State;
use crate::types::Config;

verus! {

/// Existence gating: an account with no stored entry can be neither read,
/// taken nor increased; each such call is bound to fail (and, by the
/// handlers' contracts, a failing call leaves the state untouched).
pub proof fn lemma_existence_gating(s: State, a: u64, amount: u64)
    requires
        !s.scalars.contains_key(a),
    ensures
        !get_ok(s, a),
        !take_ok(s, a),
        !increase_ok(s, a, amount),
{
}

/// Set-then-get round trip: after `set(a, v)`, a `get` of `a` succeeds,
/// observes exactly `v`, and leaves both registries unchanged — the read's
/// only effect is its log record.
pub proof fn lemma_set_then_get(s: State, origin: u64, a: u64, v: u64)
    ensures
        get_ok(set_tr(s, a, v), a),
        set_tr(s, a, v).scalars[a] == v,
        get_tr(set_tr(s, a, v), origin, a).scalars == set_tr(s, a, v).scalars,
        get_tr(set_tr(s, a, v), origin, a).channels == set_tr(s, a, v).channels,
        get_tr(set_tr(s, a, v), origin, a).log == set_tr(s, a, v).log.push(
            Record::EntryGot { account: origin, value: v },
        ),
{
}

/// Take removes: after `set(a, v)`, `take(a)` succeeds, reports `v`, and a
/// later `get` of `a` is bound to fail — the entry is gone, not merely
/// zeroed-and-present.
pub proof fn lemma_take_removes(s: State, a: u64, v: u64)
    ensures
        take_ok(set_tr(s, a, v), a),
        set_tr(s, a, v).scalars[a] == v,
        !get_ok(take_tr(set_tr(s, a, v), a), a),
{
}

/// Increase accumulates: after `set(a, x)`, an `increase` by `y` whose sum is
/// representable succeeds, stores `x + y`, and records old and new value.
pub proof fn lemma_increase_accumulates(s: State, a: u64, x: u64, y: u64)
    requires
        x + y <= u64::MAX,
    ensures
        increase_ok(set_tr(s, a, x), a, y),
        increase_tr(set_tr(s, a, x), a, y).scalars[a] == x + y,
        increase_tr(set_tr(s, a, x), a, y).log == set_tr(s, a, x).log.push(
            Record::EntryIncreased { account: a, old_value: x, new_value: (x + y) as u64 },
        ),
{
}

/// Channel creation stores each member's secret under the created channel and
/// keeps every row of any other key — another channel, or a non-member
/// account of the same channel — exactly as it was.
pub proof fn lemma_new_channel_rows(
    s: State,
    cid: Seq<u8>,
    mem: Map<u64, Seq<u8>>,
    accounts: Seq<u64>,
    a: u64,
)
    ensures
        mem.dom().contains(a) ==> new_channel_tr(s, cid, mem, accounts).channels.contains_key(
            (cid, a),
        ) && new_channel_tr(s, cid, mem, accounts).channels[(cid, a)] == mem[a],
        forall|k: (Seq<u8>, u64)|
            !(k.0 == cid && mem.dom().contains(k.1)) ==> (#[trigger] new_channel_tr(
                s,
                cid,
                mem,
                accounts,
            ).channels.contains_key(k) <==> s.channels.contains_key(k)) && (s.channels.contains_key(
                k,
            ) ==> new_channel_tr(s, cid, mem, accounts).channels[k] == s.channels[k]),
{
}

/// Event ordering: each successful call appends exactly one record, so a
/// sequence of successful calls appends their records in call order; a failed
/// call appends nothing, since by the handlers' contracts it leaves the state
/// untouched. Shown here for a `set` followed by an `increase`.
pub proof fn lemma_event_ordering(s: State, a: u64, v: u64, y: u64)
    requires
        v + y <= u64::MAX,
    ensures
        increase_tr(set_tr(s, a, v), a, y).log == s.log + seq![
            Record::EntrySet { account: a, value: v },
            Record::EntryIncreased { account: a, old_value: v, new_value: (v + y) as u64 },
        ],
{
    assert(increase_tr(set_tr(s, a, v), a, y).log =~= s.log + seq![
        Record::EntrySet { account: a, value: v },
        Record::EntryIncreased { account: a, old_value: v, new_value: (v + y) as u64 },
    ]);
}

/// Bound enforcement is decided by the inputs alone: inputs that violate a
/// configured maximum can never satisfy the bounds check, whatever the state.
pub proof fn lemma_bound_violation(cfg: Config, cid: Seq<u8>, mem: Map<u64, Seq<u8>>)
    requires
        cid.len() > cfg.max_channel_id_bytes || exists|a: u64|
            #[trigger] mem.dom().contains(a) && mem[a].len() > cfg.max_secret_bytes,
    ensures
        !channel_bounds_ok(cfg, cid, mem),
{
}

} // verus!
