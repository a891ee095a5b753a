//! Proved laws of the scheduling algebra: how pause/resume, ticking,
//! eviction and creation compose, stated over the channel and registry
//! models that the executable operations are specified against.

use vstd::prelude::*;
use crate::timer::ChannelModel;
use crate::timer::TimerDetail;
use crate::timer::due_of;
use crate::timer::due_pred;
use crate::timer::not_due_pred;
use crate::timer::keep_on_mapchange_pred;
use crate::timer::evict_on_mapchange_pred;
use crate::timer::owned_by_pred;
use crate::timer::not_owned_by_pred;
use crate::timer::mapchange_evicted;
use crate::timer::mapchange_model;
use crate::timer::pause_model;
use crate::timer::resume_model;
use crate::timer::sat_sub;
use crate::timer::shifted;
use crate::timer::unload_evicted;
use crate::timer::unload_model;
use crate::timer::update_model;
use crate::registry::EntryModel;
use crate::registry::channel_of;
use crate::registry::chan_idx;
use crate::registry::create_model;
use crate::registry::has_channel;
use crate::registry::lemma_chan_idx_pinned;
use crate::registry::reg_wf;
use crate::timer::append_model;
use crate::timer::empty_channel;

verus! {

/// Filtering by a predicate and by its complement splits a sequence into
/// two parts that together hold exactly the original elements.
pub proof fn lemma_filter_partition<A>(s: Seq<A>, p: spec_fn(A) -> bool, q: spec_fn(A) -> bool)
    requires
        forall|a: A| #[trigger] q(a) == !p(a),
    ensures
        s.filter(p).to_multiset().add(s.filter(q).to_multiset()) =~= s.to_multiset(),
    decreases s.len(),
{
    broadcast use vstd::seq_lib::group_to_multiset_ensures;
    broadcast use vstd::multiset::group_multiset_axioms;

    reveal(Seq::filter);
    if s.len() == 0 {
        assert(s.filter(p) == s);
        assert(s.filter(q) == s);
        assert forall|a: A| #[trigger]
            s.to_multiset().add(s.to_multiset()).count(a) == s.to_multiset().count(a) by {
            assert(!s.contains(a));
            assert(s.to_multiset().count(a) == 0);
        }
    } else {
        let dl = s.drop_last();
        let x = s.last();
        lemma_filter_partition(dl, p, q);
        assert(s =~= dl.push(x));
        assert(s.to_multiset() =~= dl.to_multiset().insert(x));
        if p(x) {
            assert(s.filter(p) == dl.filter(p).push(x));
            assert(s.filter(q) == dl.filter(q));
            assert(s.filter(p).to_multiset() =~= dl.filter(p).to_multiset().insert(x));
            assert(dl.filter(p).to_multiset().insert(x).add(dl.filter(q).to_multiset())
                =~= dl.filter(p).to_multiset().add(dl.filter(q).to_multiset()).insert(x));
        } else {
            assert(s.filter(q) == dl.filter(q).push(x));
            assert(s.filter(p) == dl.filter(p));
            assert(s.filter(q).to_multiset() =~= dl.filter(q).to_multiset().insert(x));
            assert(dl.filter(p).to_multiset().add(dl.filter(q).to_multiset().insert(x))
                =~= dl.filter(p).to_multiset().add(dl.filter(q).to_multiset()).insert(x));
        }
    }
}

/// Pause/resume preserves remaining time: for a record not yet due when its
/// channel is paused at `p`, resuming at `r` leaves the record exactly as
/// far from firing as it was at the pause, however long the pause lasted;
/// in particular it cannot fire before that much time has passed after the
/// resume.
pub proof fn lemma_pause_resume_preserves_remaining(c: ChannelModel, p: u64, r: u64, i: int)
    requires
        c.stopped is None,
        0 <= i < c.timers.len(),
        p <= r,
        !c.timers[i].is_due(p),
        c.timers[i].interval + (r - p) <= u64::MAX,
    ensures
        resume_model(pause_model(c, p), r).stopped is None,
        resume_model(pause_model(c, p), r).timers.len() == c.timers.len(),
        resume_model(pause_model(c, p), r).timers[i].time == c.timers[i].time,
        resume_model(pause_model(c, p), r).timers[i].remaining(r) == c.timers[i].remaining(p),
        forall|n: u64|
            n < r + c.timers[i].remaining(p) ==> !resume_model(
                pause_model(c, p),
                r,
            ).timers[i].is_due(n),
{
    let t = c.timers[i];
    let paused = pause_model(c, p);
    assert(paused.timers == c.timers);
    let resumed = resume_model(paused, r);
    assert(resumed.timers[i] == shifted(t, sat_sub(r, p)));
    let t2 = resumed.timers[i];
    assert(t2.interval == t.interval + (r - p));
    assert(t.time + t.interval > p);
    assert forall|n: u64| n < r + t.remaining(p) implies !t2.is_due(n) by {
        assert(t2.interval > sat_sub(n, t2.time));
    }
}

/// The channel state after a run of ticks at the given instants.
pub open spec fn ticks_model(c: ChannelModel, instants: Seq<u64>) -> ChannelModel
    decreases instants.len(),
{
    if instants.len() == 0 {
        c
    } else {
        ticks_model(update_model(c, instants[0]), instants.drop_first())
    }
}

/// Everything a run of ticks at the given instants extracts, in order.
pub open spec fn ticks_fired(c: ChannelModel, instants: Seq<u64>) -> Seq<TimerDetail>
    decreases instants.len(),
{
    if instants.len() == 0 {
        Seq::empty()
    } else {
        due_of(c, instants[0]) + ticks_fired(update_model(c, instants[0]), instants.drop_first())
    }
}

/// Paused channels never fire: however many ticks happen, at whatever
/// instants, while a channel stays paused, no record of it is extracted and
/// the channel is left exactly as it was — even if a record's un-shifted
/// due time has long passed.
pub proof fn lemma_paused_channel_never_fires(c: ChannelModel, instants: Seq<u64>)
    requires
        c.stopped is Some,
    ensures
        ticks_fired(c, instants) =~= Seq::<TimerDetail>::empty(),
        ticks_model(c, instants) == c,
    decreases instants.len(),
{
    if instants.len() > 0 {
        assert(due_of(c, instants[0]) =~= Seq::<TimerDetail>::empty());
        assert(update_model(c, instants[0]) == c);
        lemma_paused_channel_never_fires(c, instants.drop_first());
    }
}

/// Due-detection is exact and idempotent: a tick on a running channel
/// extracts records due at `now` and only those, keeps the rest and only
/// the rest, loses nothing, and a second tick at the same instant extracts
/// nothing more.
pub proof fn lemma_tick_exact_and_idempotent(c: ChannelModel, now: u64)
    requires
        c.stopped is None,
    ensures
        forall|k: int|
            0 <= k < due_of(c, now).len() ==> (#[trigger] due_of(c, now)[k]).is_due(now),
        forall|k: int|
            0 <= k < update_model(c, now).timers.len() ==> !(#[trigger] update_model(
                c,
                now,
            ).timers[k]).is_due(now),
        forall|k: int|
            0 <= k < c.timers.len() && c.timers[k].is_due(now) ==> due_of(c, now).contains(
                c.timers[k],
            ),
        forall|k: int|
            0 <= k < c.timers.len() && !c.timers[k].is_due(now) ==> update_model(
                c,
                now,
            ).timers.contains(c.timers[k]),
        due_of(c, now).to_multiset().add(update_model(c, now).timers.to_multiset())
            =~= c.timers.to_multiset(),
        due_of(update_model(c, now), now) =~= Seq::<TimerDetail>::empty(),
{
    broadcast use vstd::seq_lib::group_filter_ensures;

    let fired = due_of(c, now);
    let kept = update_model(c, now).timers;
    assert(fired == c.timers.filter(due_pred(now)));
    assert(kept == c.timers.filter(not_due_pred(now)));
    lemma_filter_partition(c.timers, due_pred(now), not_due_pred(now));
    assert forall|k: int|
        0 <= k < kept.len() implies !(#[trigger] kept[k]).is_due(now) by {
        assert(not_due_pred(now)(kept[k]));
    }
    assert forall|k: int| 0 <= k < kept.len() implies !due_pred(now)(kept[k]) by {
        assert(not_due_pred(now)(kept[k]));
    }
    lemma_filter_none(kept, due_pred(now));
}

/// Filtering by a predicate no element satisfies yields nothing.
pub proof fn lemma_filter_none<A>(s: Seq<A>, p: spec_fn(A) -> bool)
    requires
        forall|k: int| 0 <= k < s.len() ==> !p(#[trigger] s[k]),
    ensures
        s.filter(p) =~= Seq::<A>::empty(),
    decreases s.len(),
{
    reveal(Seq::filter);
    if s.len() > 0 {
        lemma_filter_none(s.drop_last(), p);
    }
}

/// Mapchange eviction partitions: the sweep returns exactly the records
/// lacking the no-eviction flag, keeps exactly those carrying it, and
/// together the two parts are exactly what the channel held; a subsequent
/// full drain thus returns exactly the flagged survivors.
pub proof fn lemma_mapchange_partition(c: ChannelModel)
    ensures
        forall|k: int|
            0 <= k < mapchange_evicted(c).len() ==> !(#[trigger] mapchange_evicted(
                c,
            )[k]).survives_mapchange(),
        forall|k: int|
            0 <= k < mapchange_model(c).timers.len() ==> (#[trigger] mapchange_model(
                c,
            ).timers[k]).survives_mapchange(),
        forall|k: int|
            0 <= k < c.timers.len() && !c.timers[k].survives_mapchange() ==> mapchange_evicted(
                c,
            ).contains(c.timers[k]),
        forall|k: int|
            0 <= k < c.timers.len() && c.timers[k].survives_mapchange() ==> mapchange_model(
                c,
            ).timers.contains(c.timers[k]),
        mapchange_evicted(c).to_multiset().add(mapchange_model(c).timers.to_multiset())
            =~= c.timers.to_multiset(),
        mapchange_model(c).stopped == c.stopped,
{
    broadcast use vstd::seq_lib::group_filter_ensures;

    let evicted = mapchange_evicted(c);
    let kept = mapchange_model(c).timers;
    assert forall|k: int|
        0 <= k < evicted.len() implies !(#[trigger] evicted[k]).survives_mapchange() by {
        assert(evict_on_mapchange_pred()(evicted[k]));
    }
    assert forall|k: int|
        0 <= k < kept.len() implies (#[trigger] kept[k]).survives_mapchange() by {
        assert(keep_on_mapchange_pred()(kept[k]));
    }
    lemma_filter_partition(c.timers, keep_on_mapchange_pred(), evict_on_mapchange_pred());
    assert(kept.to_multiset().add(evicted.to_multiset()) =~= c.timers.to_multiset());
    broadcast use vstd::multiset::group_multiset_axioms;

    assert(evicted.to_multiset().add(kept.to_multiset()) =~= c.timers.to_multiset());
}

/// Owner-unload eviction is selective: the sweep returns exactly the
/// records registered by the unloaded owner, and every other owner's
/// records stay, as the very same record values — still scheduled as they
/// were, still eligible to fire later — with the pause state untouched.
pub proof fn lemma_owner_unload_selective(c: ChannelModel, owner: usize)
    ensures
        forall|k: int|
            0 <= k < unload_evicted(c, owner).len() ==> (#[trigger] unload_evicted(
                c,
                owner,
            )[k]).identity == owner,
        forall|k: int|
            0 <= k < unload_model(c, owner).timers.len() ==> (#[trigger] unload_model(
                c,
                owner,
            ).timers[k]).identity != owner,
        forall|k: int|
            0 <= k < c.timers.len() && c.timers[k].identity == owner ==> unload_evicted(
                c,
                owner,
            ).contains(c.timers[k]),
        forall|k: int|
            0 <= k < c.timers.len() && c.timers[k].identity != owner ==> unload_model(
                c,
                owner,
            ).timers.contains(c.timers[k]),
        unload_evicted(c, owner).to_multiset().add(unload_model(c, owner).timers.to_multiset())
            =~= c.timers.to_multiset(),
        unload_model(c, owner).stopped == c.stopped,
{
    broadcast use vstd::seq_lib::group_filter_ensures;

    let evicted = unload_evicted(c, owner);
    let kept = unload_model(c, owner).timers;
    assert forall|k: int| 0 <= k < evicted.len() implies (#[trigger] evicted[k]).identity
        == owner by {
        assert(owned_by_pred(owner)(evicted[k]));
    }
    assert forall|k: int| 0 <= k < kept.len() implies (#[trigger] kept[k]).identity != owner by {
        assert(not_owned_by_pred(owner)(kept[k]));
    }
    lemma_filter_partition(c.timers, owned_by_pred(owner), not_owned_by_pred(owner));
}

/// What one creation call does to every channel: the target channel gains
/// exactly the new record at its end (coming into existence if need be),
/// and every other channel is untouched.
pub proof fn lemma_create_one(rs: Seq<EntryModel>, t: TimerDetail)
    requires
        reg_wf(rs),
    ensures
        reg_wf(create_model(rs, t)),
        channel_of(create_model(rs, t), t.channel) =~= append_model(
            channel_of(rs, t.channel),
            t,
        ),
        forall|other: i32|
            other != t.channel ==> channel_of(create_model(rs, t), other) == channel_of(
                rs,
                other,
            ),
{
    let rs2 = create_model(rs, t);
    if has_channel(rs, t.channel) {
        let i = chan_idx(rs, t.channel);
        assert(0 <= i < rs.len() && rs[i].id == t.channel);
        assert(rs2 == rs.update(i, EntryModel { id: rs[i].id, channel: append_model(rs[i].channel, t) }));
        assert(reg_wf(rs2));
        lemma_chan_idx_pinned(rs2, i);
        assert(channel_of(rs2, t.channel) == append_model(rs[i].channel, t));
        assert forall|other: i32| other != t.channel implies channel_of(rs2, other) == channel_of(
            rs,
            other,
        ) by {
            if has_channel(rs, other) {
                let k = chan_idx(rs, other);
                assert(0 <= k < rs.len() && rs[k].id == other);
                assert(k != i);
                assert(rs2[k].id == other);
                lemma_chan_idx_pinned(rs2, k);
            } else {
                assert(!has_channel(rs2, other)) by {
                    if has_channel(rs2, other) {
                        let k = chan_idx(rs2, other);
                        assert(0 <= k < rs.len() && rs2[k].id == other);
                        assert(k != i);
                        assert(rs[k].id == other);
                    }
                }
            }
        }
    } else {
        let m = rs.len() as int;
        assert(rs2 == rs.push(EntryModel { id: t.channel, channel: append_model(empty_channel(), t) }));
        assert(forall|k: int| 0 <= k < m ==> rs2[k] == rs[k]);
        assert(reg_wf(rs2)) by {
            assert forall|i: int, j: int| 0 <= i < j < rs2.len() implies rs2[i].id != rs2[j].id by {
                if j < m {
                    assert(rs[i].id != rs[j].id);
                } else {
                    assert(rs2[j].id == t.channel);
                    assert(rs[i].id != t.channel);
                }
            }
        }
        lemma_chan_idx_pinned(rs2, m);
        assert(channel_of(rs2, t.channel) == append_model(empty_channel(), t));
        assert(channel_of(rs, t.channel) == empty_channel());
        assert forall|other: i32| other != t.channel implies channel_of(rs2, other) == channel_of(
            rs,
            other,
        ) by {
            if has_channel(rs, other) {
                let k = chan_idx(rs, other);
                assert(0 <= k < rs.len() && rs[k].id == other);
                assert(rs2[k].id == other);
                lemma_chan_idx_pinned(rs2, k);
                lemma_chan_idx_pinned(rs, k);
            } else {
                assert(!has_channel(rs2, other)) by {
                    if has_channel(rs2, other) {
                        let k = chan_idx(rs2, other);
                        assert(0 <= k < rs2.len() && rs2[k].id == other);
                        assert(k < m);
                        assert(rs[k].id == other);
                    }
                }
            }
        }
    }
}

/// The registry after a run of creation calls, applied in order.
pub open spec fn create_all(rs: Seq<EntryModel>, ts: Seq<TimerDetail>) -> Seq<EntryModel>
    decreases ts.len(),
{
    if ts.len() == 0 {
        rs
    } else {
        create_all(create_model(rs, ts[0]), ts.drop_first())
    }
}

/// Creation calls are not lost: a run of creation calls all targeting one
/// channel — as a run of concurrent calls becomes once the registry lock
/// serializes them, in whatever order — leaves that channel holding exactly
/// its old records followed by every new one, and every other channel
/// untouched.
pub proof fn lemma_creates_accumulate(rs: Seq<EntryModel>, ts: Seq<TimerDetail>, id: i32)
    requires
        reg_wf(rs),
        forall|k: int| 0 <= k < ts.len() ==> (#[trigger] ts[k]).channel == id,
    ensures
        reg_wf(create_all(rs, ts)),
        channel_of(create_all(rs, ts), id).timers =~= channel_of(rs, id).timers + ts,
        forall|other: i32|
            other != id ==> channel_of(create_all(rs, ts), other) == channel_of(rs, other),
    decreases ts.len(),
{
    if ts.len() == 0 {
        assert(channel_of(rs, id).timers + ts =~= channel_of(rs, id).timers);
    } else {
        let t0 = ts[0];
        let rest = ts.drop_first();
        let rs1 = create_model(rs, t0);
        lemma_create_one(rs, t0);
        lemma_creates_accumulate(rs1, rest, id);
        assert(channel_of(rs1, id).timers == channel_of(rs, id).timers.push(t0));
        assert(channel_of(create_all(rs, ts), id).timers =~= channel_of(rs, id).timers + ts);
    }
}

} // verus!

