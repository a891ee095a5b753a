//! Tests of timer records and single-channel scheduling.

use timer_registry::timer::TimerChannel;
use timer_registry::timer::TimerDetail;
use timer_registry::timer::TimerInfo;
use timer_registry::timer::TIMER_DATA_HNDL_CLOSE;
use timer_registry::timer::TIMER_FLAG_NO_MAPCHANGE;
use timer_registry::timer::TIMER_REPEAT;

fn record(identity: usize, interval: u32, user_data: i32, flags: i32, now: u64) -> TimerDetail {
    TimerDetail::new(0xa0, 0xb0, identity, interval, user_data, flags, 1, now)
}

fn user_data_of(records: &[TimerDetail]) -> Vec<i32> {
    records.iter().map(|t| t.user_data).collect()
}

#[test]
fn new_record_fields() {
    let t = TimerDetail::new(7, 8, 9, 250, -3, TIMER_REPEAT, 4, 1000);
    assert_eq!(t.hook, 7);
    assert_eq!(t.context, 8);
    assert_eq!(t.identity, 9);
    assert_eq!(t.time, 1000);
    assert_eq!(t.interval, 250);
    assert_eq!(t.initial_interval, 250);
    assert_eq!(t.user_data, -3);
    assert_eq!(t.flags, TIMER_REPEAT);
    assert_eq!(t.channel, 4);
}

#[test]
fn flag_bits_are_distinct() {
    assert_eq!(TIMER_REPEAT, 1);
    assert_eq!(TIMER_FLAG_NO_MAPCHANGE, 2);
    assert_eq!(TIMER_DATA_HNDL_CLOSE, 512);
    assert_eq!(TIMER_REPEAT & TIMER_FLAG_NO_MAPCHANGE, 0);
    assert_eq!(TIMER_REPEAT & TIMER_DATA_HNDL_CLOSE, 0);
}

#[test]
fn elapsed_at_boundary() {
    let t = record(1, 50, 0, 0, 100);
    assert!(!t.elapsed(100));
    assert!(!t.elapsed(149));
    assert!(t.elapsed(150));
    assert!(t.elapsed(151));
}

#[test]
fn zero_interval_is_immediately_due() {
    let t = record(1, 0, 0, 0, 100);
    assert!(t.elapsed(100));
    // Even a timestamp before the scheduling instant cannot push a
    // zero-interval timer into the future.
    assert!(t.elapsed(0));
}

#[test]
fn to_info_reports_creation_interval() {
    let t = TimerDetail::new(7, 8, 9, 250, -3, TIMER_DATA_HNDL_CLOSE, 4, 1000);
    let info = t.to_info();
    assert_eq!(info.hook, 7);
    assert_eq!(info.context, 8);
    assert_eq!(info.identity, 9);
    assert_eq!(info.interval, 250);
    assert_eq!(info.user_data, -3);
    assert_eq!(info.flags, TIMER_DATA_HNDL_CLOSE);
    assert_eq!(info.channel, 4);
    assert_eq!(TimerInfo::from(&t), info);
}

#[test]
fn to_info_saturates_wide_interval() {
    let mut t = record(1, 5, 0, 0, 0);
    t.initial_interval = u32::MAX as u64 + 123;
    assert_eq!(t.to_info().interval, u32::MAX);
}

#[test]
fn update_extracts_exactly_due_records() {
    let mut ch = TimerChannel::default();
    ch.append(record(1, 10, 10, 0, 0));
    ch.append(record(1, 30, 30, 0, 0));
    ch.append(record(1, 20, 20, 0, 0));
    let fired = ch.update(20).expect("two records are due");
    assert_eq!(user_data_of(&fired), vec![10, 20]);
    // Idempotence: the extracted records are gone.
    assert!(ch.update(20).is_none());
    let fired = ch.update(30).expect("the last record is due");
    assert_eq!(user_data_of(&fired), vec![30]);
    assert!(ch.update(1_000_000).is_none());
}

#[test]
fn equal_due_times_all_fire_together() {
    let mut ch = TimerChannel::default();
    ch.append(record(1, 10, 1, 0, 0));
    ch.append(record(1, 10, 2, 0, 0));
    ch.append(record(1, 10, 3, 0, 0));
    let fired = ch.update(10).expect("all three share the due time");
    let mut data = user_data_of(&fired);
    data.sort();
    assert_eq!(data, vec![1, 2, 3]);
    assert!(ch.update(10).is_none());
}

#[test]
fn update_on_empty_channel_is_none() {
    let mut ch = TimerChannel::default();
    assert!(ch.update(0).is_none());
    assert!(ch.update(u64::MAX).is_none());
}

#[test]
fn paused_channel_never_fires() {
    let mut ch = TimerChannel::default();
    ch.append(record(1, 10, 1, 0, 0));
    ch.pause(5);
    // The un-shifted due time (10) passes, and passes again, and again:
    // nothing fires while the pause lasts.
    assert!(ch.update(10).is_none());
    assert!(ch.update(500).is_none());
    assert!(ch.update(u64::MAX).is_none());
    ch.resume(1000);
    // Paused from 5 to 1000: the record is due 10 - 5 = 5 units after the
    // resume, at 1005.
    assert!(ch.update(1004).is_none());
    let fired = ch.update(1005).expect("due after the shifted interval");
    assert_eq!(user_data_of(&fired), vec![1]);
}

#[test]
fn pause_resume_preserves_remaining_time() {
    let mut ch = TimerChannel::default();
    ch.append(record(1, 50, 1, 0, 0));
    // 20 of the 50 units elapse, then a pause of length 300.
    ch.pause(20);
    ch.resume(320);
    // 30 units remain: due at 350, no earlier.
    assert!(ch.update(349).is_none());
    let fired = ch.update(350).expect("due once the remaining time passes");
    assert_eq!(user_data_of(&fired), vec![1]);
}

#[test]
fn pausing_while_paused_resets_the_window() {
    let mut ch = TimerChannel::default();
    ch.append(record(1, 100, 1, 0, 0));
    ch.pause(10);
    // Re-pausing at 20 first collapses the first window (10 units) into the
    // interval, then re-pauses.
    ch.pause(20);
    ch.resume(30);
    // Total paused time 10 + 10 = 20: due at 120.
    assert!(ch.update(119).is_none());
    let fired = ch.update(120).expect("due after both pause windows");
    assert_eq!(user_data_of(&fired), vec![1]);
}

#[test]
fn resume_while_running_is_a_no_op() {
    let mut ch = TimerChannel::default();
    ch.append(record(1, 50, 1, 0, 0));
    ch.resume(40);
    assert!(ch.update(49).is_none());
    let fired = ch.update(50).expect("interval untouched by the stray resume");
    assert_eq!(user_data_of(&fired), vec![1]);
}

#[test]
fn clear_returns_everything_even_while_paused() {
    let mut ch = TimerChannel::default();
    ch.append(record(1, 10, 1, 0, 0));
    ch.append(record(2, 20, 2, TIMER_FLAG_NO_MAPCHANGE, 0));
    ch.pause(5);
    let drained = ch.clear();
    assert_eq!(user_data_of(&drained), vec![1, 2]);
    assert!(ch.clear().is_empty());
}

#[test]
fn mapchange_partitions_by_flag() {
    let mut ch = TimerChannel::default();
    ch.append(record(1, 10, 1, 0, 0));
    ch.append(record(1, 10, 2, TIMER_FLAG_NO_MAPCHANGE, 0));
    ch.append(record(1, 10, 3, TIMER_REPEAT, 0));
    ch.append(record(1, 10, 4, TIMER_FLAG_NO_MAPCHANGE | TIMER_REPEAT, 0));
    let evicted = ch.handle_mapchange();
    assert_eq!(user_data_of(&evicted), vec![1, 3]);
    // A full drain afterward holds exactly the flagged survivors.
    let survivors = ch.clear();
    assert_eq!(user_data_of(&survivors), vec![2, 4]);
}

#[test]
fn mapchange_on_empty_channel_evicts_nothing() {
    let mut ch = TimerChannel::default();
    assert!(ch.handle_mapchange().is_empty());
}

#[test]
fn owner_unload_is_selective() {
    let owner_a: usize = 0x1111;
    let owner_b: usize = 0x2222;
    let mut ch = TimerChannel::default();
    ch.append(record(owner_a, 10, 1, 0, 0));
    ch.append(record(owner_b, 10, 2, 0, 0));
    ch.append(record(owner_a, 10, 3, 0, 0));
    let evicted = ch.handle_pluginload(owner_a);
    assert_eq!(user_data_of(&evicted), vec![1, 3]);
    for t in &evicted {
        assert_eq!(t.identity, owner_a);
    }
    // The other owner's record is untouched and still fires on time.
    let fired = ch.update(10).expect("the surviving record is due");
    assert_eq!(user_data_of(&fired), vec![2]);
    assert_eq!(fired[0].identity, owner_b);
}
