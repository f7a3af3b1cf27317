use desert_tooling::looter::config::{parse, Config};
use desert_tooling::looter::run::{
    loop_step, IniText, KeyRole, LoopAction, LoopEvent, LoopState, Polled, BOOT_GRACE_MS, INI_POLL_MS, RETRY_MS, TICK_MS,
};

fn defaults() -> Config {
    parse("", &[]).0
}

fn quiet() -> Polled {
    Polled { toggle: false, record: false, gather: false, scan: false, game_thread: false }
}

fn started(cfg: Config) -> LoopState {
    LoopState::new(cfg, Some(7), 1_000, true, true, true)
}

#[test]
fn the_loop_starts_with_a_boot_grace_and_a_second_to_the_first_ini_poll() {
    let s = started(defaults());
    assert_eq!(s.next_ini_poll, 1_000 + INI_POLL_MS);
    assert_eq!(s.next_world_try, 1_000 + BOOT_GRACE_MS);
    assert!(!s.world_found && !s.descriptor_ok && !s.hook_reported && !s.census_done);
}

#[test]
fn the_ini_is_stat_once_a_second_and_read_only_when_it_moved() {
    let s = started(defaults());
    let (s1, a) = loop_step(&s, LoopEvent::Tick { now: 1_500 });
    assert_eq!(a, vec![LoopAction::PollKeys]);
    assert_eq!(s1, s);
    let (s2, a) = loop_step(&s, LoopEvent::Tick { now: 2_000 });
    assert_eq!(a, vec![LoopAction::StatIni]);
    assert_eq!(s2.next_ini_poll, 3_000);
    assert_eq!(loop_step(&s2, LoopEvent::IniStat { mtime: Some(7) }).1, vec![LoopAction::PollKeys]);
    assert_eq!(loop_step(&s2, LoopEvent::IniStat { mtime: None }).1, vec![LoopAction::PollKeys]);
    assert_eq!(loop_step(&s2, LoopEvent::IniStat { mtime: Some(8) }).1, vec![LoopAction::ReadIni]);
}

#[test]
fn an_identical_ini_moves_the_watermark_and_reloads_nothing() {
    let s = started(defaults());
    let (s1, a) = loop_step(&s, LoopEvent::IniRead { text: Some(IniText { mtime: 9, cfg: defaults(), ranges_changed: false }) });
    assert_eq!(a, vec![LoopAction::PollKeys]);
    assert_eq!(s1.ini_seen, Some(9));
    assert_eq!(s1.cfg, s.cfg);
    let (s2, a) = loop_step(&s, LoopEvent::IniRead { text: None });
    assert_eq!(a, vec![LoopAction::PollKeys]);
    assert_eq!(s2, s, "a failed read leaves the watermark alone");
}

#[test]
fn a_reload_rebuilds_only_the_keys_whose_binding_moved() {
    let s = started(defaults());
    let new = Config { key_scan: s.cfg.key_scan + 1, enabled: false, ..s.cfg };
    let (s1, a) = loop_step(&s, LoopEvent::IniRead { text: Some(IniText { mtime: 9, cfg: new, ranges_changed: false }) });
    assert_eq!(s1.cfg, new);
    assert_eq!(
        a,
        vec![
            LoopAction::LogWarnings,
            LoopAction::LogReload,
            LoopAction::SetLogReceived(false),
            LoopAction::ApplyGatherer,
            LoopAction::RebuildKey(KeyRole::Scan),
            LoopAction::LogEnabled(false),
            LoopAction::PollKeys,
        ]
    );
    let (_, a) = loop_step(&s, LoopEvent::IniRead { text: Some(IniText { mtime: 9, cfg: s.cfg, ranges_changed: true }) });
    assert_eq!(a.len(), 5, "a moved range reloads without rebuilding a key");
    assert_eq!(a[1], LoopAction::LogReload);
}

#[test]
fn while_disabled_the_presses_are_consumed_and_nothing_else_happens() {
    let s = started(Config { enabled: false, ..defaults() });
    let all = Polled { toggle: true, record: true, gather: true, scan: true, game_thread: true };
    let (s1, a) = loop_step(&s, LoopEvent::Keys { polled: all, now: 50_000 });
    assert_eq!(a, vec![LoopAction::Sleep(TICK_MS)]);
    assert_eq!(s1, s);
}

#[test]
fn the_world_is_looked_for_after_the_grace_and_every_three_seconds() {
    let s = started(defaults());
    let (_, a) = loop_step(&s, LoopEvent::Keys { polled: quiet(), now: 5_000 });
    assert_eq!(a, vec![LoopAction::SaveYieldsIfDirty, LoopAction::Sleep(TICK_MS)], "still in the grace");
    let (s1, a) = loop_step(&s, LoopEvent::Keys { polled: quiet(), now: 21_000 });
    assert_eq!(a, vec![LoopAction::FindWorld]);
    let (s2, a) = loop_step(&s1, LoopEvent::World { found: false, now: 21_000 });
    assert_eq!(s2.next_world_try, 21_000 + RETRY_MS);
    assert_eq!(a, vec![LoopAction::SaveYieldsIfDirty, LoopAction::Sleep(TICK_MS)]);
    let (s3, a) = loop_step(&s2, LoopEvent::World { found: true, now: 24_000 });
    assert!(s3.world_found);
    assert_eq!(a, vec![LoopAction::ResolveDescriptor]);
    let (s4, a) = loop_step(&s3, LoopEvent::Descriptor { ok: Some(false), now: 24_000 });
    assert_eq!(s4.next_world_try, 24_000 + RETRY_MS);
    assert_eq!(a[0], LoopAction::Sleep(RETRY_MS));
    assert_eq!(a[1], LoopAction::GatherTick);
    let (s5, _) = loop_step(&s4, LoopEvent::Descriptor { ok: Some(true), now: 27_000 });
    assert!(s5.descriptor_ok);
    let (_, a) = loop_step(&s5, LoopEvent::Keys { polled: quiet(), now: 30_000 });
    assert_eq!(a, vec![LoopAction::GatherTick, LoopAction::SaveYieldsIfDirty, LoopAction::Sleep(TICK_MS)]);
}

#[test]
fn presses_are_answered_in_order_and_the_census_runs_once() {
    let mut s = started(Config { debug: true, ..defaults() });
    s.world_found = true;
    s.descriptor_ok = true;
    let all = Polled { toggle: true, record: true, gather: true, scan: true, game_thread: true };
    let (s1, a) = loop_step(&s, LoopEvent::Keys { polled: all, now: 30_000 });
    assert_eq!(
        a,
        vec![
            LoopAction::LogHook,
            LoopAction::ToggleGatherer,
            LoopAction::Beep,
            LoopAction::Beep,
            LoopAction::ToggleRecording,
            LoopAction::Beep,
            LoopAction::ManualGather,
            LoopAction::GatherTick,
            LoopAction::SaveYieldsIfDirty,
            LoopAction::Beep,
            LoopAction::Census,
            LoopAction::Survey,
            LoopAction::Sleep(TICK_MS),
        ]
    );
    assert!(s1.hook_reported && s1.census_done);
    let (_, a) = loop_step(&s1, LoopEvent::Keys { polled: all, now: 30_030 });
    assert!(!a.contains(&LoopAction::LogHook) && !a.contains(&LoopAction::Census));
}

#[test]
fn presses_without_the_hooks_or_the_world_are_reported() {
    let cfg = defaults();
    let s = LoopState::new(cfg, None, 0, false, false, false);
    let all = Polled { toggle: false, record: true, gather: true, scan: true, game_thread: true };
    let (_, a) = loop_step(&s, LoopEvent::Keys { polled: all, now: 1 });
    assert_eq!(
        a,
        vec![
            LoopAction::Beep,
            LoopAction::LogNoRecorder,
            LoopAction::Beep,
            LoopAction::LogNoSweepHook,
            LoopAction::SaveYieldsIfDirty,
            LoopAction::Beep,
            LoopAction::LogNoWorldForScan,
            LoopAction::Sleep(TICK_MS),
        ]
    );
}
