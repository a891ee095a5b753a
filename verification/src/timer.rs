//! Timer records and per-channel scheduling.

use vstd::prelude::*;

verus! {

/// The caller wants the timer re-armed after it fires. The registry never
/// re-arms a record itself: the flag is stored and reported back unchanged,
/// and a caller that wants repetition re-registers explicitly after being
/// told a timer fired with this flag set.
pub const TIMER_REPEAT: i32 = 1 << 0;
/// The record survives a mapchange eviction sweep.
pub const TIMER_FLAG_NO_MAPCHANGE: i32 = 1 << 1;
/// The caller closes its data handle when the timer is destroyed;
/// stored and reported back, never interpreted here.
pub const TIMER_DATA_HNDL_CLOSE: i32 = 1 << 9;

/// Millisecond subtraction that bottoms out at zero, like elapsed time
/// measured against a monotonic clock.
pub open spec fn sat_sub(a: u64, b: u64) -> u64 {
    if a >= b {
        (a - b) as u64
    } else {
        0u64
    }
}

/// Millisecond addition that tops out at the largest representable value.
pub open spec fn sat_add(a: u64, b: u64) -> u64 {
    if a + b <= u64::MAX {
        (a + b) as u64
    } else {
        u64::MAX
    }
}

/// One registered timer. The hook, context and owner references are opaque
/// tokens: stored and handed back, compared for equality (owner only),
/// never dereferenced.
#[derive(Clone, Copy, PartialEq, Eq, Debug)]
pub struct TimerDetail {
    /// Opaque reference to the callback the driving loop will invoke.
    pub hook: usize,
    /// Opaque reference to caller-supplied invocation context.
    pub context: usize,
    /// Opaque reference to the registering entity; used only for equality
    /// comparison during owner-unload eviction.
    pub identity: usize,
    /// Millisecond timestamp at which the current interval started.
    pub time: u64,
    /// Milliseconds after `time` at which the timer becomes due; grows by
    /// the paused duration on resume so remaining time is preserved.
    pub interval: u64,
    /// The interval as given at creation, reported back unchanged.
    pub initial_interval: u64,
    /// Opaque integer payload, returned to the caller uninterpreted.
    pub user_data: i32,
    /// Set of behavior bits (`TIMER_REPEAT`, ...).
    pub flags: i32,
    /// Id of the owning channel, denormalized for reporting.
    pub channel: i32,
}

/// The exported, fixed-layout shape of a fired or evicted timer.
#[derive(Clone, Copy, PartialEq, Eq, Debug)]
pub struct TimerInfo {
    pub hook: usize,
    pub context: usize,
    pub identity: usize,
    /// The creation-time interval in milliseconds, saturated to the
    /// exported width.
    pub interval: u32,
    pub user_data: i32,
    pub flags: i32,
    pub channel: i32,
}

/// The record a creation call registers: scheduled at `now`, with the given
/// interval in milliseconds.
pub open spec fn fresh_detail(
    hook: usize,
    context: usize,
    identity: usize,
    interval: u32,
    user_data: i32,
    flags: i32,
    channel: i32,
    now: u64,
) -> TimerDetail {
    TimerDetail {
        hook,
        context,
        identity,
        time: now,
        interval: interval as u64,
        initial_interval: interval as u64,
        user_data,
        flags,
        channel,
    }
}

impl TimerDetail {
    /// A record is due once the time elapsed since it was (re)scheduled
    /// reaches its interval.
    pub open spec fn is_due(self, now: u64) -> bool {
        self.interval <= sat_sub(now, self.time)
    }

    /// Milliseconds still to pass at `now` before the record becomes due.
    pub open spec fn remaining(self, now: u64) -> int {
        if self.time + self.interval >= now {
            self.time + self.interval - now
        } else {
            0
        }
    }

    /// Whether the record is kept through a mapchange eviction sweep.
    pub open spec fn survives_mapchange(self) -> bool {
        self.flags & TIMER_FLAG_NO_MAPCHANGE != 0
    }

    /// The exported shape of this record, interval saturated to the
    /// exported width.
    pub open spec fn info_spec(self) -> TimerInfo {
        TimerInfo {
            hook: self.hook,
            context: self.context,
            identity: self.identity,
            interval: if self.initial_interval > u32::MAX as u64 {
                u32::MAX
            } else {
                self.initial_interval as u32
            },
            user_data: self.user_data,
            flags: self.flags,
            channel: self.channel,
        }
    }

    /// Builds a record scheduled at `now` with the given interval in
    /// milliseconds.
    pub fn new(
        hook: usize,
        context: usize,
        identity: usize,
        interval: u32,
        user_data: i32,
        flags: i32,
        channel: i32,
        now: u64,
    ) -> (t: TimerDetail)
        ensures
            t == fresh_detail(hook, context, identity, interval, user_data, flags, channel, now),
    {
        TimerDetail {
            hook,
            context,
            identity,
            time: now,
            interval: interval as u64,
            initial_interval: interval as u64,
            user_data,
            flags,
            channel,
        }
    }

    /// Whether the interval has elapsed by the timestamp `now`.
    pub fn elapsed(&self, now: u64) -> (r: bool)
        ensures
            r == self.is_due(now),
    {
        let passed: u64 = if now >= self.time {
            now - self.time
        } else {
            0
        };
        passed >= self.interval
    }

    /// Converts the record to its exported shape.
    pub fn to_info(self) -> (info: TimerInfo)
        ensures
            info == self.info_spec(),
    {
        TimerInfo {
            hook: self.hook,
            context: self.context,
            identity: self.identity,
            interval: if self.initial_interval > u32::MAX as u64 {
                u32::MAX
            } else {
                self.initial_interval as u32
            },
            user_data: self.user_data,
            flags: self.flags,
            channel: self.channel,
        }
    }
}

impl From<&TimerDetail> for TimerInfo {
    /// The exported shape of a borrowed record, as `to_info` gives it.
    fn from(detail: &TimerDetail) -> (info: TimerInfo)
        ensures
            info == detail.info_spec(),
    {
        detail.to_info()
    }
}

impl vstd::std_specs::convert::FromSpecImpl<&TimerDetail> for TimerInfo {
    open spec fn obeys_from_spec() -> bool {
        true
    }

    open spec fn from_spec(detail: &TimerDetail) -> TimerInfo {
        detail.info_spec()
    }
}

/// The mathematical state of one channel: whether it is paused (and since
/// when), and the records it holds, in insertion order.
#[verifier::ext_equal]
pub struct ChannelModel {
    pub stopped: Option<u64>,
    pub timers: Seq<TimerDetail>,
}

/// The predicate a tick extracts by: the record is due at `now`.
pub open spec fn due_pred(now: u64) -> spec_fn(TimerDetail) -> bool {
    |t: TimerDetail| t.is_due(now)
}

/// The complement of `due_pred`: the record stays for a later tick.
pub open spec fn not_due_pred(now: u64) -> spec_fn(TimerDetail) -> bool {
    |t: TimerDetail| !t.is_due(now)
}

/// The predicate a mapchange sweep keeps by.
pub open spec fn keep_on_mapchange_pred() -> spec_fn(TimerDetail) -> bool {
    |t: TimerDetail| t.survives_mapchange()
}

/// The complement of `keep_on_mapchange_pred`: the record is evicted.
pub open spec fn evict_on_mapchange_pred() -> spec_fn(TimerDetail) -> bool {
    |t: TimerDetail| !t.survives_mapchange()
}

/// The predicate an owner-unload sweep evicts by: the record's owner is the
/// unloaded one.
pub open spec fn owned_by_pred(identity: usize) -> spec_fn(TimerDetail) -> bool {
    |t: TimerDetail| t.identity == identity
}

/// The complement of `owned_by_pred`: the record belongs to another owner.
pub open spec fn not_owned_by_pred(identity: usize) -> spec_fn(TimerDetail) -> bool {
    |t: TimerDetail| t.identity != identity
}

/// A fresh channel: running, no records.
pub open spec fn empty_channel() -> ChannelModel {
    ChannelModel { stopped: None, timers: Seq::empty() }
}

/// The record `t` with its interval pushed out by `d` milliseconds, as
/// resume does for a pause of length `d`.
pub open spec fn shifted(t: TimerDetail, d: u64) -> TimerDetail {
    TimerDetail { interval: sat_add(t.interval, d), ..t }
}

/// Appending leaves the pause state alone and adds the record at the end.
pub open spec fn append_model(c: ChannelModel, t: TimerDetail) -> ChannelModel {
    ChannelModel { stopped: c.stopped, timers: c.timers.push(t) }
}

/// What a tick at `now` extracts: nothing while paused, otherwise exactly
/// the due records, in insertion order.
pub open spec fn due_of(c: ChannelModel, now: u64) -> Seq<TimerDetail> {
    match c.stopped {
        Some(_) => Seq::empty(),
        None => c.timers.filter(due_pred(now)),
    }
}

/// The channel after a tick at `now`: unchanged while paused, otherwise
/// keeping exactly the records not yet due.
pub open spec fn update_model(c: ChannelModel, now: u64) -> ChannelModel {
    match c.stopped {
        Some(_) => c,
        None => ChannelModel { stopped: c.stopped, timers: c.timers.filter(not_due_pred(now)) },
    }
}

/// The channel after a resume at `now`: a no-op while running, otherwise
/// every record's interval grows by the paused duration, so remaining time
/// to fire is preserved.
pub open spec fn resume_model(c: ChannelModel, now: u64) -> ChannelModel {
    match c.stopped {
        None => c,
        Some(p) => ChannelModel {
            stopped: None,
            timers: c.timers.map_values(|t: TimerDetail| shifted(t, sat_sub(now, p))),
        },
    }
}

/// The channel after a pause at `now`. Pausing an already-paused channel
/// first collapses the old pause window into the records (a resume), then
/// re-pauses, so no paused time leaks into the intervals.
pub open spec fn pause_model(c: ChannelModel, now: u64) -> ChannelModel {
    ChannelModel { stopped: Some(now), timers: resume_model(c, now).timers }
}

/// The channel after a full drain: empty, pause state kept.
pub open spec fn clear_model(c: ChannelModel) -> ChannelModel {
    ChannelModel { stopped: c.stopped, timers: Seq::empty() }
}

/// What a mapchange sweep evicts: exactly the records lacking
/// `TIMER_FLAG_NO_MAPCHANGE`, in insertion order.
pub open spec fn mapchange_evicted(c: ChannelModel) -> Seq<TimerDetail> {
    c.timers.filter(evict_on_mapchange_pred())
}

/// The channel after a mapchange sweep: exactly the flagged records stay.
pub open spec fn mapchange_model(c: ChannelModel) -> ChannelModel {
    ChannelModel { stopped: c.stopped, timers: c.timers.filter(keep_on_mapchange_pred()) }
}

/// What an owner-unload sweep evicts: exactly the records registered by the
/// unloaded owner, in insertion order.
pub open spec fn unload_evicted(c: ChannelModel, identity: usize) -> Seq<TimerDetail> {
    c.timers.filter(owned_by_pred(identity))
}

/// The channel after an owner-unload sweep: every other owner's records
/// stay, untouched.
pub open spec fn unload_model(c: ChannelModel, identity: usize) -> ChannelModel {
    ChannelModel { stopped: c.stopped, timers: c.timers.filter(not_owned_by_pred(identity)) }
}

/// The capacity floor an eviction sweep releases excess backing storage
/// down to.
pub const TIMERS_MIN_CAPACITY: usize = 1024;

/// The interval shift a resume applies, as a function, so that loop
/// invariants and channel models speak of one and the same mapping.
pub open spec fn shift_by(d: u64) -> spec_fn(TimerDetail) -> TimerDetail {
    |t: TimerDetail| shifted(t, d)
}

/// One channel: an unordered-in-spirit bag of records (kept in insertion
/// order) plus an optional pause timestamp.
pub struct TimerChannel {
    stopped: Option<u64>,
    timers: Vec<TimerDetail>,
}

impl View for TimerChannel {
    type V = ChannelModel;

    closed spec fn view(&self) -> ChannelModel {
        ChannelModel { stopped: self.stopped, timers: self.timers@ }
    }
}

/// Relies on `Vec::shrink_to`: it only releases excess capacity; the length
/// and the elements stay as they were.
#[verifier::external_body]
fn shrink_vec_to(v: &mut Vec<TimerDetail>, min_capacity: usize)
    ensures
        final(v)@ == old(v)@,
{
    v.shrink_to(min_capacity);
}

impl Default for TimerChannel {
    /// A fresh channel: running, no records, storage at the capacity floor.
    fn default() -> (c: Self)
        ensures
            c@ =~= empty_channel(),
    {
        TimerChannel { stopped: None, timers: Vec::with_capacity(TIMERS_MIN_CAPACITY) }
    }
}

impl TimerChannel {
    /// Adds a record at the end; it becomes eligible for due-detection on
    /// the next tick unless the channel is paused.
    pub fn append(&mut self, timer: TimerDetail)
        ensures
            final(self)@ =~= append_model(old(self)@, timer),
    {
        self.timers.push(timer);
    }

    /// The due-detection sweep. While paused, returns `None` and leaves the
    /// channel alone. Otherwise removes exactly the records due at `now`
    /// and returns them, `None` standing for an empty result. A record
    /// carrying `TIMER_REPEAT` is extracted like any other, not re-armed:
    /// re-registration is its caller's business.
    pub fn update(&mut self, now: u64) -> (due: Option<Vec<TimerDetail>>)
        ensures
            final(self)@ =~= update_model(old(self)@, now),
            match due {
                None => due_of(old(self)@, now) =~= Seq::<TimerDetail>::empty(),
                Some(v) => v@ =~= due_of(old(self)@, now) && v@.len() > 0,
            },
    {
        if self.stopped.is_some() {
            return None;
        }
        let ghost orig: Seq<TimerDetail> = self.timers@;
        let n: usize = self.timers.len();
        let mut kept: Vec<TimerDetail> = Vec::new();
        let mut fired: Vec<TimerDetail> = Vec::new();
        let mut i: usize = 0;
        while i < n
            invariant
                i <= n,
                n == self.timers@.len(),
                self.timers@ == orig,
                self.stopped == old(self).stopped,
                kept@ =~= orig.take(i as int).filter(not_due_pred(now)),
                fired@ =~= orig.take(i as int).filter(due_pred(now)),
            decreases n - i,
        {
            let t = self.timers[i];
            proof {
                assert(orig.take((i + 1) as int) =~= orig.take(i as int).push(t));
                lemma_filter_push(orig.take(i as int), t, due_pred(now));
                lemma_filter_push(orig.take(i as int), t, not_due_pred(now));
            }
            if t.elapsed(now) {
                fired.push(t);
            } else {
                kept.push(t);
            }
            i = i + 1;
        }
        proof {
            assert(orig.take(n as int) =~= orig);
        }
        self.timers = kept;
        if fired.len() == 0 {
            None
        } else {
            Some(fired)
        }
    }

    /// Pauses the channel at `now`. Pausing an already-paused channel first
    /// collapses the old pause window into the records, then re-pauses, so
    /// no paused time leaks into the intervals.
    pub fn pause(&mut self, now: u64)
        ensures
            final(self)@ =~= pause_model(old(self)@, now),
    {
        if self.stopped.is_some() {
            self.resume(now);
        }
        self.stopped = Some(now);
    }

    /// Resumes the channel at `now`: a no-op while running, otherwise every
    /// record's interval grows by the paused duration, preserving its
    /// remaining time to fire.
    pub fn resume(&mut self, now: u64)
        ensures
            final(self)@ =~= resume_model(old(self)@, now),
    {
        match self.stopped {
            None => {},
            Some(p) => {
                let d: u64 = if now >= p {
                    now - p
                } else {
                    0
                };
                let ghost orig: Seq<TimerDetail> = self.timers@;
                let n: usize = self.timers.len();
                let mut updated: Vec<TimerDetail> = Vec::new();
                let mut i: usize = 0;
                while i < n
                    invariant
                        i <= n,
                        n == self.timers@.len(),
                        self.timers@ == orig,
                        d == sat_sub(now, p),
                        updated@ =~= orig.take(i as int).map_values(shift_by(d)),
                    decreases n - i,
                {
                    let t = self.timers[i];
                    let grown: u64 = if t.interval <= u64::MAX - d {
                        t.interval + d
                    } else {
                        u64::MAX
                    };
                    let moved = TimerDetail { interval: grown, ..t };
                    proof {
                        assert(moved == shifted(t, d));
                        assert(orig.take((i + 1) as int).map_values(shift_by(d)) =~= orig.take(
                            i as int,
                        ).map_values(shift_by(d)).push(shifted(t, d)));
                    }
                    updated.push(moved);
                    i = i + 1;
                }
                proof {
                    assert(orig.take(n as int) =~= orig);
                }
                self.timers = updated;
                self.stopped = None;
            },
        }
    }

    /// Unconditionally empties the channel and returns every record it
    /// held, regardless of pause state or flags. The pause state is kept.
    pub fn clear(&mut self) -> (drained: Vec<TimerDetail>)
        ensures
            final(self)@ =~= clear_model(old(self)@),
            drained@ == old(self)@.timers,
    {
        let mut drained: Vec<TimerDetail> = Vec::new();
        core::mem::swap(&mut self.timers, &mut drained);
        drained
    }

    /// The mapchange eviction sweep: removes and returns every record
    /// lacking `TIMER_FLAG_NO_MAPCHANGE`; records carrying the flag
    /// survive. Excess backing storage is released down to the floor.
    pub fn handle_mapchange(&mut self) -> (evicted: Vec<TimerDetail>)
        ensures
            final(self)@ =~= mapchange_model(old(self)@),
            evicted@ =~= mapchange_evicted(old(self)@),
    {
        let ghost orig: Seq<TimerDetail> = self.timers@;
        let n: usize = self.timers.len();
        let mut kept: Vec<TimerDetail> = Vec::new();
        let mut evicted: Vec<TimerDetail> = Vec::new();
        let mut i: usize = 0;
        while i < n
            invariant
                i <= n,
                n == self.timers@.len(),
                self.timers@ == orig,
                self.stopped == old(self).stopped,
                kept@ =~= orig.take(i as int).filter(keep_on_mapchange_pred()),
                evicted@ =~= orig.take(i as int).filter(evict_on_mapchange_pred()),
            decreases n - i,
        {
            let t = self.timers[i];
            proof {
                assert(orig.take((i + 1) as int) =~= orig.take(i as int).push(t));
                lemma_filter_push(orig.take(i as int), t, keep_on_mapchange_pred());
                lemma_filter_push(orig.take(i as int), t, evict_on_mapchange_pred());
            }
            if t.flags & TIMER_FLAG_NO_MAPCHANGE != 0 {
                kept.push(t);
            } else {
                evicted.push(t);
            }
            i = i + 1;
        }
        proof {
            assert(orig.take(n as int) =~= orig);
        }
        self.timers = kept;
        shrink_vec_to(&mut self.timers, TIMERS_MIN_CAPACITY);
        evicted
    }

    /// The owner-unload eviction sweep: removes and returns every record
    /// whose owner equals `identity`; all others survive, untouched. Excess
    /// backing storage is released down to the floor.
    pub fn handle_pluginload(&mut self, identity: usize) -> (evicted: Vec<TimerDetail>)
        ensures
            final(self)@ =~= unload_model(old(self)@, identity),
            evicted@ =~= unload_evicted(old(self)@, identity),
    {
        let ghost orig: Seq<TimerDetail> = self.timers@;
        let n: usize = self.timers.len();
        let mut kept: Vec<TimerDetail> = Vec::new();
        let mut evicted: Vec<TimerDetail> = Vec::new();
        let mut i: usize = 0;
        while i < n
            invariant
                i <= n,
                n == self.timers@.len(),
                self.timers@ == orig,
                self.stopped == old(self).stopped,
                kept@ =~= orig.take(i as int).filter(not_owned_by_pred(identity)),
                evicted@ =~= orig.take(i as int).filter(owned_by_pred(identity)),
            decreases n - i,
        {
            let t = self.timers[i];
            proof {
                assert(orig.take((i + 1) as int) =~= orig.take(i as int).push(t));
                lemma_filter_push(orig.take(i as int), t, not_owned_by_pred(identity));
                lemma_filter_push(orig.take(i as int), t, owned_by_pred(identity));
            }
            if t.identity == identity {
                evicted.push(t);
            } else {
                kept.push(t);
            }
            i = i + 1;
        }
        proof {
            assert(orig.take(n as int) =~= orig);
        }
        self.timers = kept;
        shrink_vec_to(&mut self.timers, TIMERS_MIN_CAPACITY);
        evicted
    }
}

/// Filtering a sequence extended by one element keeps the filtered prefix
/// and appends the element exactly when it satisfies the predicate.
pub proof fn lemma_filter_push<A>(s: Seq<A>, x: A, p: spec_fn(A) -> bool)
    ensures
        s.push(x).filter(p) == if p(x) {
            s.filter(p).push(x)
        } else {
            s.filter(p)
        },
{
    reveal(Seq::filter);
    assert(s.push(x).drop_last() =~= s);
    assert(s.push(x).last() == x);
}

} // verus!
