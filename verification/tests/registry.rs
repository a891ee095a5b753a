//! Tests of the registry: channel lifecycle and the bulk operations.

use timer_registry::registry::TimerRegistry;
use timer_registry::timer::TimerInfo;
use timer_registry::timer::TIMER_FLAG_NO_MAPCHANGE;

fn user_data_of(infos: &[TimerInfo]) -> Vec<i32> {
    infos.iter().map(|i| i.user_data).collect()
}

#[test]
fn example_scenario_pause_shifts_deadlines() {
    // Two timers on channel 1, 50 and 500 units; pause immediately; resume
    // after 200; a tick 40 later sees nothing (only ~240 of the 50-unit
    // timer's effective 250-unit window has elapsed); a tick 20 later sees
    // exactly the 50-unit timer.
    let mut reg = TimerRegistry::new();
    reg.create_timer(1, 2, 3, 50, 111, 0, 1, 0);
    reg.create_timer(1, 2, 3, 500, 222, 0, 1, 0);
    reg.pause_channel(1, 0);
    reg.resume_channel(1, 200);
    assert!(reg.update_timer(240).is_empty());
    let fired = reg.update_timer(260);
    assert_eq!(user_data_of(&fired), vec![111]);
    assert_eq!(fired[0].interval, 50);
    // The 500-unit timer fires at 700, not before.
    assert!(reg.update_timer(699).is_empty());
    assert_eq!(user_data_of(&reg.update_timer(700)), vec![222]);
}

#[test]
fn repeated_creates_are_all_kept() {
    let mut reg = TimerRegistry::new();
    for k in 0..5 {
        reg.create_timer(1, 2, 3, 10, k, 0, 7, 0);
    }
    let drained = reg.remove_channel(7);
    assert_eq!(user_data_of(&drained), vec![0, 1, 2, 3, 4]);
}

#[test]
fn creates_to_distinct_channels_stay_apart() {
    let mut reg = TimerRegistry::new();
    reg.create_timer(1, 2, 3, 10, 1, 0, 1, 0);
    reg.create_timer(1, 2, 3, 10, 2, 0, 2, 0);
    reg.create_timer(1, 2, 3, 10, 3, 0, 1, 0);
    assert_eq!(user_data_of(&reg.remove_channel(2)), vec![2]);
    assert_eq!(user_data_of(&reg.remove_channel(1)), vec![1, 3]);
}

#[test]
fn unknown_ids_are_silently_ignored() {
    let mut reg = TimerRegistry::new();
    reg.create_timer(1, 2, 3, 10, 1, 0, 1, 0);
    reg.pause_channel(99, 5);
    reg.resume_channel(98, 5);
    assert!(reg.remove_channel(97).is_empty());
    // The existing channel is unaffected.
    assert_eq!(user_data_of(&reg.update_timer(10)), vec![1]);
}

#[test]
fn update_timer_reports_all_fields() {
    let mut reg = TimerRegistry::new();
    reg.create_timer(0xaa, 0xbb, 0xcc, 25, -7, TIMER_FLAG_NO_MAPCHANGE, 3, 100);
    let fired = reg.update_timer(125);
    assert_eq!(fired.len(), 1);
    let info = &fired[0];
    assert_eq!(info.hook, 0xaa);
    assert_eq!(info.context, 0xbb);
    assert_eq!(info.identity, 0xcc);
    assert_eq!(info.interval, 25);
    assert_eq!(info.user_data, -7);
    assert_eq!(info.flags, TIMER_FLAG_NO_MAPCHANGE);
    assert_eq!(info.channel, 3);
}

#[test]
fn tick_sweeps_all_channels() {
    let mut reg = TimerRegistry::new();
    reg.create_timer(1, 2, 3, 10, 1, 0, 1, 0);
    reg.create_timer(1, 2, 3, 10, 2, 0, 2, 0);
    reg.create_timer(1, 2, 3, 99, 3, 0, 2, 0);
    let fired = reg.update_timer(10);
    assert_eq!(user_data_of(&fired), vec![1, 2]);
    assert!(reg.update_timer(10).is_empty());
    assert_eq!(user_data_of(&reg.update_timer(99)), vec![3]);
}

#[test]
fn paused_channel_contributes_nothing_to_ticks() {
    let mut reg = TimerRegistry::new();
    reg.create_timer(1, 2, 3, 10, 1, 0, 1, 0);
    reg.create_timer(1, 2, 3, 10, 2, 0, 2, 0);
    reg.pause_channel(1, 0);
    // Tick after tick, long past the un-shifted due time, channel 1 stays
    // silent while channel 2 fires normally.
    assert_eq!(user_data_of(&reg.update_timer(10)), vec![2]);
    assert!(reg.update_timer(1000).is_empty());
    assert!(reg.update_timer(1_000_000).is_empty());
    reg.resume_channel(1, 1_000_000);
    assert_eq!(user_data_of(&reg.update_timer(1_000_010)), vec![1]);
}

#[test]
fn pause_and_resume_lists_apply_per_id() {
    let mut reg = TimerRegistry::new();
    reg.create_timer(1, 2, 3, 10, 1, 0, 1, 0);
    reg.create_timer(1, 2, 3, 10, 2, 0, 2, 0);
    reg.create_timer(1, 2, 3, 10, 3, 0, 3, 0);
    // 99 is unknown: ignored.
    reg.pause_timer(&[1, 2, 99], 0);
    assert_eq!(user_data_of(&reg.update_timer(10)), vec![3]);
    reg.resume_timer(&[1, 99], 20);
    // Channel 1 was paused 0..20: due at 30. Channel 2 stays paused.
    assert_eq!(user_data_of(&reg.update_timer(30)), vec![1]);
    assert!(reg.update_timer(1000).is_empty());
    reg.resume_timer(&[2], 1000);
    assert_eq!(user_data_of(&reg.update_timer(1010)), vec![2]);
}

#[test]
fn resume_timer_all_resumes_every_channel() {
    let mut reg = TimerRegistry::new();
    reg.create_timer(1, 2, 3, 10, 1, 0, 1, 0);
    reg.create_timer(1, 2, 3, 10, 2, 0, 2, 0);
    reg.pause_timer(&[1, 2], 0);
    assert!(reg.update_timer(500).is_empty());
    reg.resume_timer_all(100);
    // Both were paused 0..100: due at 110.
    assert!(reg.update_timer(109).is_empty());
    assert_eq!(user_data_of(&reg.update_timer(110)), vec![1, 2]);
}

#[test]
fn clear_timer_drains_and_deletes_everything() {
    let mut reg = TimerRegistry::new();
    reg.create_timer(1, 2, 3, 10, 1, 0, 1, 0);
    reg.create_timer(1, 2, 3, 20, 2, 0, 2, 0);
    reg.pause_channel(2, 0);
    let drained = reg.clear_timer();
    assert_eq!(user_data_of(&drained), vec![1, 2]);
    // The registry is empty: nothing fires, nothing remains to remove.
    assert!(reg.update_timer(1000).is_empty());
    assert!(reg.remove_channel(1).is_empty());
    assert!(reg.remove_channel(2).is_empty());
    assert!(reg.clear_timer().is_empty());
}

#[test]
fn remove_channel_leaves_others_alone() {
    let mut reg = TimerRegistry::new();
    reg.create_timer(1, 2, 3, 10, 1, 0, 1, 0);
    reg.create_timer(1, 2, 3, 10, 2, 0, 2, 0);
    let drained = reg.remove_channel(1);
    assert_eq!(user_data_of(&drained), vec![1]);
    assert_eq!(user_data_of(&reg.update_timer(10)), vec![2]);
}

#[test]
fn mapchange_evicts_across_channels_and_keeps_channels() {
    let mut reg = TimerRegistry::new();
    reg.create_timer(1, 2, 3, 10, 1, 0, 1, 0);
    reg.create_timer(1, 2, 3, 10, 2, TIMER_FLAG_NO_MAPCHANGE, 1, 0);
    reg.create_timer(1, 2, 3, 10, 3, 0, 2, 0);
    reg.create_timer(1, 2, 3, 10, 4, TIMER_FLAG_NO_MAPCHANGE, 2, 0);
    let evicted = reg.timer_mapchange();
    assert_eq!(user_data_of(&evicted), vec![1, 3]);
    // The flagged records survive in their channels and still fire.
    assert_eq!(user_data_of(&reg.update_timer(10)), vec![2, 4]);
}

#[test]
fn pluginload_evicts_one_owner_across_channels() {
    let owner_a: usize = 0x1111;
    let owner_b: usize = 0x2222;
    let mut reg = TimerRegistry::new();
    reg.create_timer(1, 2, owner_a, 10, 1, 0, 1, 0);
    reg.create_timer(1, 2, owner_b, 10, 2, 0, 1, 0);
    reg.create_timer(1, 2, owner_a, 10, 3, 0, 2, 0);
    let evicted = reg.timer_pluginload(owner_a);
    assert_eq!(user_data_of(&evicted), vec![1, 3]);
    // The other owner's record survives, still scheduled as it was.
    let fired = reg.update_timer(10);
    assert_eq!(user_data_of(&fired), vec![2]);
    assert_eq!(fired[0].identity, owner_b);
}

#[test]
fn bulk_operations_on_empty_registry_return_empty() {
    let mut reg = TimerRegistry::new();
    assert!(reg.update_timer(0).is_empty());
    assert!(reg.clear_timer().is_empty());
    assert!(reg.timer_mapchange().is_empty());
    assert!(reg.timer_pluginload(1).is_empty());
    reg.resume_timer_all(0);
    reg.pause_timer(&[], 0);
}
