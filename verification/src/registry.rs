//! The timer registry: a mapping from channel id to channel, with the bulk
//! operations fanned out across all channels.

use vstd::prelude::*;
use crate::timer::ChannelModel;
use crate::timer::TimerChannel;
use crate::timer::TimerDetail;
use crate::timer::TimerInfo;
use crate::timer::append_model;
use crate::timer::due_of;
use crate::timer::empty_channel;
use crate::timer::fresh_detail;
use crate::timer::mapchange_evicted;
use crate::timer::mapchange_model;
use crate::timer::pause_model;
use crate::timer::resume_model;
use crate::timer::unload_evicted;
use crate::timer::unload_model;
use crate::timer::update_model;

verus! {

/// One registry slot: a channel id and the channel it names.
pub struct ChannelEntry {
    id: i32,
    channel: TimerChannel,
}

/// The mathematical state of one registry slot.
#[verifier::ext_equal]
pub struct EntryModel {
    pub id: i32,
    pub channel: ChannelModel,
}

impl View for ChannelEntry {
    type V = EntryModel;

    closed spec fn view(&self) -> EntryModel {
        EntryModel { id: self.id, channel: self.channel@ }
    }
}

/// Registry well-formedness: no two slots name the same channel id.
pub open spec fn reg_wf(rs: Seq<EntryModel>) -> bool {
    forall|i: int, j: int| 0 <= i < j < rs.len() ==> rs[i].id != rs[j].id
}

/// Whether some slot names the channel `id`.
pub open spec fn has_channel(rs: Seq<EntryModel>, id: i32) -> bool {
    exists|i: int| 0 <= i < rs.len() && rs[i].id == id
}

/// The slot naming `id`; meaningful only under `has_channel` and `reg_wf`,
/// which make it the one such slot.
pub open spec fn chan_idx(rs: Seq<EntryModel>, id: i32) -> int {
    choose|i: int| 0 <= i < rs.len() && rs[i].id == id
}

/// The channel named `id`, a lazily-created channel being empty.
pub open spec fn channel_of(rs: Seq<EntryModel>, id: i32) -> ChannelModel {
    if has_channel(rs, id) {
        rs[chan_idx(rs, id)].channel
    } else {
        empty_channel()
    }
}

/// In a well-formed registry the slot of each id is pinned: any index whose
/// slot names the id is the chosen one.
pub proof fn lemma_chan_idx_pinned(rs: Seq<EntryModel>, i: int)
    requires
        reg_wf(rs),
        0 <= i < rs.len(),
    ensures
        has_channel(rs, rs[i].id),
        chan_idx(rs, rs[i].id) == i,
{
    assert(has_channel(rs, rs[i].id)) by {
        assert(0 <= i < rs.len() && rs[i].id == rs[i].id);
    }
    let k = chan_idx(rs, rs[i].id);
    assert(0 <= k < rs.len() && rs[k].id == rs[i].id);
    if k < i {
        assert(rs[k].id != rs[i].id);
    } else if i < k {
        assert(rs[i].id != rs[k].id);
    }
}

/// The registry after a creation call: the record is appended to the
/// channel it targets, the channel coming into existence (running, empty)
/// on the first record aimed at it. No other slot changes.
pub open spec fn create_model(rs: Seq<EntryModel>, t: TimerDetail) -> Seq<EntryModel> {
    if has_channel(rs, t.channel) {
        let i = chan_idx(rs, t.channel);
        rs.update(i, EntryModel { id: rs[i].id, channel: append_model(rs[i].channel, t) })
    } else {
        rs.push(EntryModel { id: t.channel, channel: append_model(empty_channel(), t) })
    }
}

/// The exported shapes of a run of records, in order.
pub open spec fn infos_of(s: Seq<TimerDetail>) -> Seq<TimerInfo> {
    s.map_values(|t: TimerDetail| t.info_spec())
}

/// The registry after pausing channel `id` at `now`; an unknown id is
/// silently ignored.
pub open spec fn pause_one_model(rs: Seq<EntryModel>, id: i32, now: u64) -> Seq<EntryModel> {
    if has_channel(rs, id) {
        let i = chan_idx(rs, id);
        rs.update(i, EntryModel { id: rs[i].id, channel: pause_model(rs[i].channel, now) })
    } else {
        rs
    }
}

/// The registry after resuming channel `id` at `now`; an unknown id is
/// silently ignored.
pub open spec fn resume_one_model(rs: Seq<EntryModel>, id: i32, now: u64) -> Seq<EntryModel> {
    if has_channel(rs, id) {
        let i = chan_idx(rs, id);
        rs.update(i, EntryModel { id: rs[i].id, channel: resume_model(rs[i].channel, now) })
    } else {
        rs
    }
}

/// The registry after deleting channel `id`; an unknown id leaves it alone.
pub open spec fn remove_one_model(rs: Seq<EntryModel>, id: i32) -> Seq<EntryModel> {
    if has_channel(rs, id) {
        rs.remove(chan_idx(rs, id))
    } else {
        rs
    }
}

/// What deleting channel `id` drains: everything it held, pause state and
/// flags notwithstanding; an unknown id drains nothing.
pub open spec fn remove_one_drained(rs: Seq<EntryModel>, id: i32) -> Seq<TimerDetail> {
    if has_channel(rs, id) {
        rs[chan_idx(rs, id)].channel.timers
    } else {
        Seq::empty()
    }
}

/// The registry after pausing each listed channel in turn at `now`.
pub open spec fn pause_list_model(rs: Seq<EntryModel>, ids: Seq<i32>, now: u64) -> Seq<EntryModel>
    decreases ids.len(),
{
    if ids.len() == 0 {
        rs
    } else {
        pause_list_model(pause_one_model(rs, ids[0], now), ids.drop_first(), now)
    }
}

/// The registry after resuming each listed channel in turn at `now`.
pub open spec fn resume_list_model(rs: Seq<EntryModel>, ids: Seq<i32>, now: u64) -> Seq<
    EntryModel,
>
    decreases ids.len(),
{
    if ids.len() == 0 {
        rs
    } else {
        resume_list_model(resume_one_model(rs, ids[0], now), ids.drop_first(), now)
    }
}

/// What a resume at `now` does to one slot.
pub open spec fn resume_entry(now: u64) -> spec_fn(EntryModel) -> EntryModel {
    |e: EntryModel| EntryModel { id: e.id, channel: resume_model(e.channel, now) }
}

/// The registry after resuming every channel at `now`.
pub open spec fn resume_all_model(rs: Seq<EntryModel>, now: u64) -> Seq<EntryModel> {
    rs.map_values(resume_entry(now))
}

/// What a tick at `now` does to one slot.
pub open spec fn tick_entry(now: u64) -> spec_fn(EntryModel) -> EntryModel {
    |e: EntryModel| EntryModel { id: e.id, channel: update_model(e.channel, now) }
}

/// The registry after a tick at `now`: every channel swept.
pub open spec fn tick_all_model(rs: Seq<EntryModel>, now: u64) -> Seq<EntryModel> {
    rs.map_values(tick_entry(now))
}

/// What a tick at `now` extracts across all channels, channel by channel in
/// slot order.
pub open spec fn tick_all_due(rs: Seq<EntryModel>, now: u64) -> Seq<TimerDetail>
    decreases rs.len(),
{
    if rs.len() == 0 {
        Seq::empty()
    } else {
        tick_all_due(rs.drop_last(), now) + due_of(rs.last().channel, now)
    }
}

/// What a full clear drains across all channels, in slot order.
pub open spec fn clear_all_drained(rs: Seq<EntryModel>) -> Seq<TimerDetail>
    decreases rs.len(),
{
    if rs.len() == 0 {
        Seq::empty()
    } else {
        clear_all_drained(rs.drop_last()) + rs.last().channel.timers
    }
}

/// What a mapchange sweep does to one slot.
pub open spec fn mapchange_entry() -> spec_fn(EntryModel) -> EntryModel {
    |e: EntryModel| EntryModel { id: e.id, channel: mapchange_model(e.channel) }
}

/// The registry after a mapchange sweep: channels are kept, since some of
/// their records may survive.
pub open spec fn mapchange_all_model(rs: Seq<EntryModel>) -> Seq<EntryModel> {
    rs.map_values(mapchange_entry())
}

/// What a mapchange sweep evicts across all channels, in slot order.
pub open spec fn mapchange_all_evicted(rs: Seq<EntryModel>) -> Seq<TimerDetail>
    decreases rs.len(),
{
    if rs.len() == 0 {
        Seq::empty()
    } else {
        mapchange_all_evicted(rs.drop_last()) + mapchange_evicted(rs.last().channel)
    }
}

/// What an owner-unload sweep does to one slot.
pub open spec fn unload_entry(identity: usize) -> spec_fn(EntryModel) -> EntryModel {
    |e: EntryModel| EntryModel { id: e.id, channel: unload_model(e.channel, identity) }
}

/// The registry after an owner-unload sweep; channels are kept.
pub open spec fn unload_all_model(rs: Seq<EntryModel>, identity: usize) -> Seq<EntryModel> {
    rs.map_values(unload_entry(identity))
}

/// What an owner-unload sweep evicts across all channels, in slot order.
pub open spec fn unload_all_evicted(rs: Seq<EntryModel>, identity: usize) -> Seq<TimerDetail>
    decreases rs.len(),
{
    if rs.len() == 0 {
        Seq::empty()
    } else {
        unload_all_evicted(rs.drop_last(), identity) + unload_evicted(rs.last().channel, identity)
    }
}

/// The registry used by the driving loop and the creation calls. Channel
/// ids stay unique throughout: that is the type's invariant, established by
/// `new` and preserved by every operation.
pub struct TimerRegistry {
    entries: Vec<ChannelEntry>,
}

/// The models of a sequence of slots, in slot order.
pub open spec fn entries_view(entries: Seq<ChannelEntry>) -> Seq<EntryModel> {
    entries.map_values(|e: ChannelEntry| e@)
}

impl View for TimerRegistry {
    type V = Seq<EntryModel>;

    closed spec fn view(&self) -> Seq<EntryModel> {
        entries_view(self.entries@)
    }
}

/// The slot of `id` among the entries, scanning from the front.
fn find_slot(entries: &Vec<ChannelEntry>, id: i32) -> (r: Option<usize>)
    ensures
        match r {
            Some(i) => i < entries@.len() && entries@[i as int]@.id == id,
            None => forall|j: int| 0 <= j < entries@.len() ==> entries@[j]@.id != id,
        },
{
    let n: usize = entries.len();
    let mut i: usize = 0;
    while i < n
        invariant
            i <= n,
            n == entries@.len(),
            forall|j: int| 0 <= j < i ==> entries@[j]@.id != id,
        decreases n - i,
    {
        if entries[i].id == id {
            return Some(i);
        }
        i = i + 1;
    }
    None
}

/// Appends the exported shapes of the drained records to `out`, in order.
fn push_infos(out: &mut Vec<TimerInfo>, recs: &Vec<TimerDetail>)
    ensures
        final(out)@ =~= old(out)@ + infos_of(recs@),
{
    let ghost start: Seq<TimerInfo> = out@;
    let n: usize = recs.len();
    let mut j: usize = 0;
    while j < n
        invariant
            j <= n,
            n == recs@.len(),
            out@ =~= start + infos_of(recs@.take(j as int)),
        decreases n - j,
    {
        out.push(recs[j].to_info());
        proof {
            assert(start + infos_of(recs@.take((j + 1) as int)) =~= (start + infos_of(
                recs@.take(j as int),
            )).push(recs@[j as int].info_spec()));
        }
        j = j + 1;
    }
    proof {
        assert(recs@.take(n as int) =~= recs@);
    }
}

impl TimerRegistry {
    #[verifier::type_invariant]
    spec fn wf(self) -> bool {
        reg_wf(self@)
    }

    /// An empty registry: no channels at all.
    pub fn new() -> (r: TimerRegistry)
        ensures
            r@ =~= Seq::<EntryModel>::empty(),
    {
        TimerRegistry { entries: Vec::new() }
    }

    /// Registers a timer: looks up or lazily creates the target channel,
    /// then appends a record scheduled at `now`.
    pub fn create_timer(
        &mut self,
        hook: usize,
        context: usize,
        identity: usize,
        interval: u32,
        user_data: i32,
        flags: i32,
        channel: i32,
        now: u64,
    )
        ensures
            final(self)@ =~= create_model(
                old(self)@,
                fresh_detail(hook, context, identity, interval, user_data, flags, channel, now),
            ),
    {
        proof {
            use_type_invariant(&*self);
        }
        let ghost rs: Seq<EntryModel> = self@;
        let t = TimerDetail::new(hook, context, identity, interval, user_data, flags, channel, now);
        let mut entries: Vec<ChannelEntry> = Vec::new();
        core::mem::swap(&mut self.entries, &mut entries);
        let ghost orig: Seq<ChannelEntry> = entries@;
        match find_slot(&entries, channel) {
            Some(i) => {
                proof {
                    lemma_chan_idx_pinned(rs, i as int);
                }
                let mut e = entries.remove(i);
                e.channel.append(t);
                entries.insert(i, e);
                proof {
                    assert(entries@ =~= orig.update(i as int, e));
                    assert(entries_view(entries@) =~= create_model(rs, t));
                    assert(reg_wf(entries_view(entries@)));
                }
                self.entries = entries;
            },
            None => {
                let mut fresh = TimerChannel::default();
                fresh.append(t);
                entries.push(ChannelEntry { id: channel, channel: fresh });
                proof {
                    assert(!has_channel(rs, channel));
                    assert(entries_view(entries@) =~= create_model(rs, t));
                    assert(reg_wf(entries_view(entries@)));
                }
                self.entries = entries;
            },
        }
    }

    /// Pauses channel `channel` at `now`; an unknown id is silently
    /// ignored, not an error.
    pub fn pause_channel(&mut self, channel: i32, now: u64)
        ensures
            final(self)@ =~= pause_one_model(old(self)@, channel, now),
    {
        proof {
            use_type_invariant(&*self);
        }
        let ghost rs: Seq<EntryModel> = self@;
        let mut entries: Vec<ChannelEntry> = Vec::new();
        core::mem::swap(&mut self.entries, &mut entries);
        let ghost orig: Seq<ChannelEntry> = entries@;
        match find_slot(&entries, channel) {
            Some(i) => {
                proof {
                    lemma_chan_idx_pinned(rs, i as int);
                }
                let mut e = entries.remove(i);
                e.channel.pause(now);
                entries.insert(i, e);
                proof {
                    assert(entries@ =~= orig.update(i as int, e));
                    assert(entries_view(entries@) =~= pause_one_model(rs, channel, now));
                    assert(reg_wf(entries_view(entries@)));
                }
                self.entries = entries;
            },
            None => {
                proof {
                    assert(!has_channel(rs, channel));
                    assert(entries_view(entries@) =~= rs);
                }
                self.entries = entries;
            },
        }
    }

    /// Resumes channel `channel` at `now`; an unknown id is silently
    /// ignored, not an error.
    pub fn resume_channel(&mut self, channel: i32, now: u64)
        ensures
            final(self)@ =~= resume_one_model(old(self)@, channel, now),
    {
        proof {
            use_type_invariant(&*self);
        }
        let ghost rs: Seq<EntryModel> = self@;
        let mut entries: Vec<ChannelEntry> = Vec::new();
        core::mem::swap(&mut self.entries, &mut entries);
        let ghost orig: Seq<ChannelEntry> = entries@;
        match find_slot(&entries, channel) {
            Some(i) => {
                proof {
                    lemma_chan_idx_pinned(rs, i as int);
                }
                let mut e = entries.remove(i);
                e.channel.resume(now);
                entries.insert(i, e);
                proof {
                    assert(entries@ =~= orig.update(i as int, e));
                    assert(entries_view(entries@) =~= resume_one_model(rs, channel, now));
                    assert(reg_wf(entries_view(entries@)));
                }
                self.entries = entries;
            },
            None => {
                proof {
                    assert(!has_channel(rs, channel));
                    assert(entries_view(entries@) =~= rs);
                }
                self.entries = entries;
            },
        }
    }

    /// Deletes channel `channel` after draining it, returning what it held
    /// in exported shape. Removing an unknown id returns empty, not an
    /// error.
    pub fn remove_channel(&mut self, channel: i32) -> (drained: Vec<TimerInfo>)
        ensures
            final(self)@ =~= remove_one_model(old(self)@, channel),
            drained@ =~= infos_of(remove_one_drained(old(self)@, channel)),
    {
        proof {
            use_type_invariant(&*self);
        }
        let ghost rs: Seq<EntryModel> = self@;
        let mut entries: Vec<ChannelEntry> = Vec::new();
        core::mem::swap(&mut self.entries, &mut entries);
        let ghost orig: Seq<ChannelEntry> = entries@;
        match find_slot(&entries, channel) {
            Some(i) => {
                proof {
                    lemma_chan_idx_pinned(rs, i as int);
                }
                let mut e = entries.remove(i);
                let recs = e.channel.clear();
                let mut drained: Vec<TimerInfo> = Vec::new();
                push_infos(&mut drained, &recs);
                proof {
                    assert(entries@ =~= orig.remove(i as int));
                    assert(entries_view(entries@) =~= remove_one_model(rs, channel));
                    assert(reg_wf(entries_view(entries@)));
                }
                self.entries = entries;
                drained
            },
            None => {
                proof {
                    assert(!has_channel(rs, channel));
                    assert(entries_view(entries@) =~= rs);
                }
                self.entries = entries;
                Vec::new()
            },
        }
    }

    /// The due-detection sweep across all channels: every channel's due
    /// records at `now` are removed and returned in exported shape,
    /// concatenated in slot order. Paused channels contribute nothing and
    /// stay untouched.
    pub fn update_timer(&mut self, now: u64) -> (fired: Vec<TimerInfo>)
        ensures
            final(self)@ =~= tick_all_model(old(self)@, now),
            fired@ =~= infos_of(tick_all_due(old(self)@, now)),
    {
        proof {
            use_type_invariant(&*self);
        }
        let ghost rs: Seq<EntryModel> = self@;
        let mut entries: Vec<ChannelEntry> = Vec::new();
        core::mem::swap(&mut self.entries, &mut entries);
        let ghost orig: Seq<ChannelEntry> = entries@;
        let n: usize = entries.len();
        let mut fired: Vec<TimerInfo> = Vec::new();
        let mut i: usize = 0;
        while i < n
            invariant
                i <= n,
                n == entries@.len(),
                rs == entries_view(orig),
                n == rs.len(),
                forall|j: int| 0 <= j < i ==> #[trigger] entries@[j]@ =~= tick_entry(now)(rs[j]),
                forall|j: int| i <= j < n ==> entries@[j] == orig[j],
                fired@ =~= infos_of(tick_all_due(rs.take(i as int), now)),
            decreases n - i,
        {
            let mut e = entries.remove(i);
            proof {
                assert(e@ == rs[i as int]);
            }
            let ghost before: Seq<ChannelEntry> = entries@;
            match e.channel.update(now) {
                Some(v) => {
                    push_infos(&mut fired, &v);
                },
                None => {},
            }
            entries.insert(i, e);
            proof {
                assert(entries@ =~= before.insert(i as int, e));
                assert(rs.take((i + 1) as int).drop_last() =~= rs.take(i as int));
                assert(rs.take((i + 1) as int).last() == rs[i as int]);
                assert(tick_all_due(rs.take((i + 1) as int), now) == tick_all_due(
                    rs.take(i as int),
                    now,
                ) + due_of(rs[i as int].channel, now));
                assert(fired@ =~= infos_of(tick_all_due(rs.take((i + 1) as int), now)));
            }
            i = i + 1;
        }
        proof {
            assert(rs.take(n as int) =~= rs);
            assert(entries_view(entries@) =~= tick_all_model(rs, now));
            assert(reg_wf(entries_view(entries@)));
        }
        self.entries = entries;
        fired
    }

    /// Pauses each listed channel at `now`, in order; unknown ids are
    /// silently ignored.
    pub fn pause_timer(&mut self, channels: &[i32], now: u64)
        ensures
            final(self)@ =~= pause_list_model(old(self)@, channels@, now),
    {
        let n: usize = channels.len();
        let mut i: usize = 0;
        proof {
            assert(channels@.skip(0) =~= channels@);
        }
        while i < n
            invariant
                i <= n,
                n == channels@.len(),
                pause_list_model(self@, channels@.skip(i as int), now) =~= pause_list_model(
                    old(self)@,
                    channels@,
                    now,
                ),
            decreases n - i,
        {
            let ghost prev: Seq<EntryModel> = self@;
            self.pause_channel(channels[i], now);
            proof {
                assert(channels@.skip(i as int)[0] == channels@[i as int]);
                assert(channels@.skip(i as int).drop_first() =~= channels@.skip((i + 1) as int));
                assert(pause_list_model(prev, channels@.skip(i as int), now) == pause_list_model(
                    pause_one_model(prev, channels@[i as int], now),
                    channels@.skip((i + 1) as int),
                    now,
                ));
            }
            i = i + 1;
        }
        proof {
            assert(channels@.skip(n as int) =~= Seq::<i32>::empty());
        }
    }

    /// Resumes each listed channel at `now`, in order; unknown ids are
    /// silently ignored.
    pub fn resume_timer(&mut self, channels: &[i32], now: u64)
        ensures
            final(self)@ =~= resume_list_model(old(self)@, channels@, now),
    {
        let n: usize = channels.len();
        let mut i: usize = 0;
        proof {
            assert(channels@.skip(0) =~= channels@);
        }
        while i < n
            invariant
                i <= n,
                n == channels@.len(),
                resume_list_model(self@, channels@.skip(i as int), now) =~= resume_list_model(
                    old(self)@,
                    channels@,
                    now,
                ),
            decreases n - i,
        {
            let ghost prev: Seq<EntryModel> = self@;
            self.resume_channel(channels[i], now);
            proof {
                assert(channels@.skip(i as int)[0] == channels@[i as int]);
                assert(channels@.skip(i as int).drop_first() =~= channels@.skip((i + 1) as int));
                assert(resume_list_model(prev, channels@.skip(i as int), now) == resume_list_model(
                    resume_one_model(prev, channels@[i as int], now),
                    channels@.skip((i + 1) as int),
                    now,
                ));
            }
            i = i + 1;
        }
        proof {
            assert(channels@.skip(n as int) =~= Seq::<i32>::empty());
        }
    }

    /// Resumes every known channel at `now`.
    pub fn resume_timer_all(&mut self, now: u64)
        ensures
            final(self)@ =~= resume_all_model(old(self)@, now),
    {
        proof {
            use_type_invariant(&*self);
        }
        let ghost rs: Seq<EntryModel> = self@;
        let mut entries: Vec<ChannelEntry> = Vec::new();
        core::mem::swap(&mut self.entries, &mut entries);
        let ghost orig: Seq<ChannelEntry> = entries@;
        let n: usize = entries.len();
        let mut i: usize = 0;
        while i < n
            invariant
                i <= n,
                n == entries@.len(),
                rs == entries_view(orig),
                n == rs.len(),
                forall|j: int| 0 <= j < i ==> #[trigger] entries@[j]@ =~= resume_entry(now)(rs[j]),
                forall|j: int| i <= j < n ==> entries@[j] == orig[j],
            decreases n - i,
        {
            let mut e = entries.remove(i);
            proof {
                assert(e@ == rs[i as int]);
            }
            let ghost before: Seq<ChannelEntry> = entries@;
            e.channel.resume(now);
            entries.insert(i, e);
            proof {
                assert(entries@ =~= before.insert(i as int, e));
            }
            i = i + 1;
        }
        proof {
            assert(entries_view(entries@) =~= resume_all_model(rs, now));
            assert(reg_wf(entries_view(entries@)));
        }
        self.entries = entries;
    }

    /// Drains and deletes every channel; the registry returns to empty.
    /// Returns everything that was held, in exported shape, channel by
    /// channel in slot order.
    pub fn clear_timer(&mut self) -> (drained: Vec<TimerInfo>)
        ensures
            final(self)@ =~= Seq::<EntryModel>::empty(),
            drained@ =~= infos_of(clear_all_drained(old(self)@)),
    {
        proof {
            use_type_invariant(&*self);
        }
        let ghost rs: Seq<EntryModel> = self@;
        let mut entries: Vec<ChannelEntry> = Vec::new();
        core::mem::swap(&mut self.entries, &mut entries);
        let ghost orig: Seq<ChannelEntry> = entries@;
        let n: usize = entries.len();
        let mut drained: Vec<TimerInfo> = Vec::new();
        let mut i: usize = 0;
        while i < n
            invariant
                i <= n,
                n == orig.len(),
                rs == entries_view(orig),
                n == rs.len(),
                entries@ =~= orig.skip(i as int),
                drained@ =~= infos_of(clear_all_drained(rs.take(i as int))),
            decreases n - i,
        {
            let mut e = entries.remove(0);
            proof {
                assert(e == orig[i as int]);
                assert(e@ == rs[i as int]);
                assert(entries@ =~= orig.skip((i + 1) as int));
            }
            let recs = e.channel.clear();
            push_infos(&mut drained, &recs);
            proof {
                assert(rs.take((i + 1) as int).drop_last() =~= rs.take(i as int));
                assert(rs.take((i + 1) as int).last() == rs[i as int]);
                assert(clear_all_drained(rs.take((i + 1) as int)) == clear_all_drained(
                    rs.take(i as int),
                ) + rs[i as int].channel.timers);
                assert(drained@ =~= infos_of(clear_all_drained(rs.take((i + 1) as int))));
            }
            i = i + 1;
        }
        proof {
            assert(rs.take(n as int) =~= rs);
        }
        drained
    }

    /// The mapchange sweep across all channels: evicts and returns, in
    /// exported shape, every record lacking `TIMER_FLAG_NO_MAPCHANGE`.
    /// Channels are kept, since some of their records may survive.
    pub fn timer_mapchange(&mut self) -> (evicted: Vec<TimerInfo>)
        ensures
            final(self)@ =~= mapchange_all_model(old(self)@),
            evicted@ =~= infos_of(mapchange_all_evicted(old(self)@)),
    {
        proof {
            use_type_invariant(&*self);
        }
        let ghost rs: Seq<EntryModel> = self@;
        let mut entries: Vec<ChannelEntry> = Vec::new();
        core::mem::swap(&mut self.entries, &mut entries);
        let ghost orig: Seq<ChannelEntry> = entries@;
        let n: usize = entries.len();
        let mut evicted: Vec<TimerInfo> = Vec::new();
        let mut i: usize = 0;
        while i < n
            invariant
                i <= n,
                n == entries@.len(),
                rs == entries_view(orig),
                n == rs.len(),
                forall|j: int| 0 <= j < i ==> #[trigger] entries@[j]@ =~= mapchange_entry()(rs[j]),
                forall|j: int| i <= j < n ==> entries@[j] == orig[j],
                evicted@ =~= infos_of(mapchange_all_evicted(rs.take(i as int))),
            decreases n - i,
        {
            let mut e = entries.remove(i);
            proof {
                assert(e@ == rs[i as int]);
            }
            let ghost before: Seq<ChannelEntry> = entries@;
            let chunk = e.channel.handle_mapchange();
            push_infos(&mut evicted, &chunk);
            entries.insert(i, e);
            proof {
                assert(entries@ =~= before.insert(i as int, e));
                assert(rs.take((i + 1) as int).drop_last() =~= rs.take(i as int));
                assert(rs.take((i + 1) as int).last() == rs[i as int]);
                assert(mapchange_all_evicted(rs.take((i + 1) as int)) == mapchange_all_evicted(
                    rs.take(i as int),
                ) + mapchange_evicted(rs[i as int].channel));
                assert(evicted@ =~= infos_of(mapchange_all_evicted(rs.take((i + 1) as int))));
            }
            i = i + 1;
        }
        proof {
            assert(rs.take(n as int) =~= rs);
            assert(entries_view(entries@) =~= mapchange_all_model(rs));
            assert(reg_wf(entries_view(entries@)));
        }
        self.entries = entries;
        evicted
    }

    /// The owner-unload sweep across all channels: evicts and returns, in
    /// exported shape, every record registered by the unloaded owner.
    /// Channels are kept.
    pub fn timer_pluginload(&mut self, identity: usize) -> (evicted: Vec<TimerInfo>)
        ensures
            final(self)@ =~= unload_all_model(old(self)@, identity),
            evicted@ =~= infos_of(unload_all_evicted(old(self)@, identity)),
    {
        proof {
            use_type_invariant(&*self);
        }
        let ghost rs: Seq<EntryModel> = self@;
        let mut entries: Vec<ChannelEntry> = Vec::new();
        core::mem::swap(&mut self.entries, &mut entries);
        let ghost orig: Seq<ChannelEntry> = entries@;
        let n: usize = entries.len();
        let mut evicted: Vec<TimerInfo> = Vec::new();
        let mut i: usize = 0;
        while i < n
            invariant
                i <= n,
                n == entries@.len(),
                rs == entries_view(orig),
                n == rs.len(),
                forall|j: int|
                    0 <= j < i ==> #[trigger] entries@[j]@ =~= unload_entry(identity)(rs[j]),
                forall|j: int| i <= j < n ==> entries@[j] == orig[j],
                evicted@ =~= infos_of(unload_all_evicted(rs.take(i as int), identity)),
            decreases n - i,
        {
            let mut e = entries.remove(i);
            proof {
                assert(e@ == rs[i as int]);
            }
            let ghost before: Seq<ChannelEntry> = entries@;
            let chunk = e.channel.handle_pluginload(identity);
            push_infos(&mut evicted, &chunk);
            entries.insert(i, e);
            proof {
                assert(entries@ =~= before.insert(i as int, e));
                assert(rs.take((i + 1) as int).drop_last() =~= rs.take(i as int));
                assert(rs.take((i + 1) as int).last() == rs[i as int]);
                assert(unload_all_evicted(rs.take((i + 1) as int), identity) == unload_all_evicted(
                    rs.take(i as int),
                    identity,
                ) + unload_evicted(rs[i as int].channel, identity));
                assert(evicted@ =~= infos_of(
                    unload_all_evicted(rs.take((i + 1) as int), identity),
                ));
            }
            i = i + 1;
        }
        proof {
            assert(rs.take(n as int) =~= rs);
            assert(entries_view(entries@) =~= unload_all_model(rs, identity));
            assert(reg_wf(entries_view(entries@)));
        }
        self.entries = entries;
        evicted
    }
}

} // verus!
