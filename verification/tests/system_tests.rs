use socd::monitor::{ResourceSnapshot, ResourceMonitor, SubsystemCounters, AlertKind, active_alerts};
use socd::dashboard::{draw, update_statusbar, DrawOp, Color};
use socd::cognitive::{PatternTrigger, CognitiveContext, AutoAction, can_execute, cycle_due, recent_start, all_triggers_hold};
use socd::console::{trim_string, parse_command, LineBuffer, KeyAction, CommandKind, dag_cmd, DagCmd, test_cmd, TestCmd};
use socd::testsuite::{TestSuite, TestOutcome, get_summary};
use socd::edge::{TaskResult, EdgeMessage, serialize};
use socd::ia::InferenceEngine;
use socd::cognitive::{push_bounded, find_pattern, next_pattern_id, ACTION_LOG_KEEP};

fn counters(heap_used: usize, heap_total: usize, peers: usize) -> SubsystemCounters {
    SubsystemCounters {
        context_switches: 0, total_processes: 2, running: 1, ready: 1, blocked: 0, sleeping: 0, dead: 0,
        heap_used, heap_free: heap_total - heap_used, heap_total, tx_bytes: 0, rx_bytes: 0, peers_active: peers,
        dag_total_blocks: 0, dag_file_blocks: 0, dag_merges: 0, dag_conflicts: 0, ct_total: 0, ct_running: 0,
        ct_stopped: 0, ia_inferences: 0, cogn_cycles: 0, cogn_actions: 0,
    }
}

#[test]
fn byte_counts_as_text() {
    assert_eq!(ResourceSnapshot::fmt_bytes(512), "512 B");
    assert_eq!(ResourceSnapshot::fmt_bytes(2048), "2 KB");
    assert_eq!(ResourceSnapshot::fmt_bytes(8 * 1024 * 1024), "8 MB");
}

#[test]
fn uptime_as_text() {
    assert_eq!(ResourceSnapshot::fmt_uptime(3725), "01:02:05");
    assert_eq!(ResourceSnapshot::fmt_uptime(0), "00:00:00");
}

#[test]
fn progress_bars() {
    assert_eq!(ResourceSnapshot::progress_bar(50, 10), "[#####.....]");
    assert_eq!(ResourceSnapshot::progress_bar(0, 4), "[....]");
    assert_eq!(ResourceSnapshot::progress_bar(100, 3), "[###]");
}

#[test]
fn monitor_waits_for_its_interval() {
    let mut m = ResourceMonitor::new();
    m.tick(30, &counters(10, 100, 1));
    assert!(m.current.is_none());
    m.tick(60, &counters(10, 100, 1));
    assert_eq!(m.current.unwrap().heap_used_pct, 10);
    assert_eq!(m.last_capture, 60);
}

#[test]
fn alerts_are_raised_once_and_cleared() {
    let mut m = ResourceMonitor::new();
    m.tick(60, &counters(90, 100, 0));
    m.tick(120, &counters(95, 100, 0));
    let active = active_alerts(&m);
    assert_eq!(active.iter().filter(|a| a.kind == AlertKind::HeapCritical).count(), 1);
    assert_eq!(active.iter().filter(|a| a.kind == AlertKind::NoPeers).count(), 1);
    m.tick(180, &counters(10, 100, 2));
    assert!(active_alerts(&m).is_empty());
}

#[test]
fn dashboard_paints_every_row() {
    let ops = draw();
    let fills = ops.iter().filter(|o| matches!(o, DrawOp::FillRow { .. })).count();
    assert_eq!(fills, 25 + 5);
    match &ops[25 + 1] {
        DrawOp::WriteAt { row, col, text, .. } => {
            assert_eq!((*row, *col), (0, 0));
            assert!(text.starts_with("  SOC-D Kernel v0.1.0"));
        }
        _ => panic!("expected the title"),
    }
    match &ops[25 + 2] {
        DrawOp::WriteAt { col, text, .. } => {
            assert_eq!(*col, 72);
            assert_eq!(text, "x86_64  ");
        }
        _ => panic!("expected the architecture"),
    }
}

#[test]
fn status_bar_shows_seconds() {
    let ops = update_statusbar(3600);
    assert_eq!(ops.len(), 2);
    match &ops[1] {
        DrawOp::WriteAt { row, col, text, fg, bg } => {
            assert_eq!((*row, *col), (24, 0));
            assert_eq!(text, " SOC-D v0.1.0  |  uptime: 60s  |  Heap: 8MB  |  'socd>' na serial");
            assert_eq!((*fg, *bg), (Color::Black, Color::Cyan));
        }
        _ => panic!("expected the status text"),
    }
}

#[test]
fn triggers_against_context() {
    let mut ctx = CognitiveContext::default();
    ctx.tick = 216000 * 9;
    ctx.cpu_pct = 90;
    ctx.open_apps = vec!["shell".to_string()];
    assert!(PatternTrigger::CpuHigh { threshold: 85 }.evaluate(&ctx));
    assert!(!PatternTrigger::RamHigh { threshold: 1 }.evaluate(&ctx));
    assert!(PatternTrigger::TimeOfDay { hour_approx: 9 }.evaluate(&ctx));
    assert!(PatternTrigger::AppOpened { name: "shell".to_string() }.evaluate(&ctx));
    assert!(!PatternTrigger::DeviceOnline { kind: "Phone".to_string() }.evaluate(&ctx));
    assert!(PatternTrigger::Periodic { interval_ticks: 60 }.evaluate(&ctx));
    assert!(!PatternTrigger::ThreatDetected.evaluate(&ctx));
    let ts = vec![PatternTrigger::CpuHigh { threshold: 85 }, PatternTrigger::ThreatDetected];
    assert!(!all_triggers_hold(&ts, &ctx));
}

#[test]
fn cooldowns_and_cycles() {
    assert!(can_execute(20000, 1000, 18000));
    assert!(!can_execute(5000, 1000, 18000));
    assert!(!can_execute(10, 50, 1));
    assert!(cycle_due(120, 60, 60));
    assert!(!cycle_due(100, 60, 60));
    assert_eq!(recent_start(60, 10), 50);
    assert_eq!(recent_start(3, 10), 0);
    assert_eq!(AutoAction::GarbageCollect.as_str(), "gc");
    assert_eq!(AutoAction::Sequence(vec![]).as_str(), "sequence");
}

#[test]
fn console_line_editing() {
    let mut l = LineBuffer::new();
    assert!(matches!(l.handle_character('l'), KeyAction::Echo('l')));
    l.handle_character('s');
    assert!(matches!(l.handle_character('\x08'), KeyAction::Erase));
    l.handle_character('s');
    match l.handle_character('\n') {
        KeyAction::Submit(s) => assert_eq!(s, "ls"),
        _ => panic!("expected a submitted line"),
    }
    assert!(matches!(l.handle_character('\x08'), KeyAction::Ignore));
}

#[test]
fn console_line_limit() {
    let mut l = LineBuffer::new();
    for _ in 0..128 { l.handle_character('a'); }
    assert!(matches!(l.handle_character('b'), KeyAction::Ignore));
    assert_eq!(l.buf.len(), 128);
}

#[test]
fn command_parsing() {
    assert_eq!(trim_string("  ps \t"), "ps");
    assert!(parse_command("   ").is_none());
    let p = parse_command(" cat  /etc/hostname extra more").unwrap();
    assert_eq!(p.kind, CommandKind::Cat);
    assert_eq!(p.arg1.as_deref(), Some("/etc/hostname"));
    assert_eq!(p.arg2.as_deref(), Some("extra"));
    assert_eq!(parse_command("frobnicate").unwrap().kind, CommandKind::Unknown);
    assert!(matches!(dag_cmd(None), DagCmd::Ls));
    assert!(matches!(dag_cmd(Some("/a")), DagCmd::History(p) if p == "/a"));
    assert!(matches!(dag_cmd(Some("x")), DagCmd::Usage));
    assert!(matches!(test_cmd(Some("status")), TestCmd::Status));
}

#[test]
fn test_suite_counts() {
    let mut s = TestSuite::new();
    s.run("a", || TestOutcome::Pass, || 5);
    s.run("b", || TestOutcome::Fail("bad".to_string()), || 5);
    s.run("c", || TestOutcome::Skip("later".to_string()), || 5);
    assert_eq!(get_summary(&s), (1, 1, 1));
    assert_eq!(s.summary(), "TOTAL: 3 | PASS: 1 | FAIL: 1 | SKIP: 1");
    assert!(!s.all_passed());
    assert_eq!(s.results[1].message, "bad");
}

#[test]
fn edge_checksum_and_messages() {
    assert_eq!(TaskResult::compute_checksum(&[1, 2, 250]), 253);
    assert_eq!(serialize(&EdgeMessage::Announce { profile_hash: 0x01020304 }), vec![1, 4, 3, 2, 1]);
    assert_eq!(serialize(&EdgeMessage::Heartbeat { load_pct: 50, tasks_active: 2 }), vec![7, 50, 2, 0, 0, 0]);
    assert_eq!(serialize(&EdgeMessage::TaskAccept { task_id: 1 }), vec![0xFF]);
}

#[test]
fn inference_latency_average() {
    let mut e = InferenceEngine::new();
    assert_eq!(e.avg_latency_us(), 0);
    e.record(8);
    e.record(5);
    e.record(12);
    assert_eq!(e.avg_latency_us(), 8);
}

#[test]
fn progress_bar_keeps_its_width_above_full() {
    assert_eq!(ResourceSnapshot::progress_bar(200, 10), "[##########]");
    assert_eq!(ResourceSnapshot::progress_bar(255, 4).len(), 6);
    assert_eq!(ResourceSnapshot::progress_bar(33, 3), "[...]");
    assert_eq!(ResourceSnapshot::progress_bar(34, 3), "[#..]");
}

#[test]
fn modules_is_a_command() {
    let c = parse_command("modules").unwrap();
    assert_eq!(c.kind, CommandKind::Modules);
    assert_eq!(parse_command("modulos").unwrap().kind, CommandKind::Unknown);
}

#[test]
fn action_log_keeps_its_newest_entries() {
    let mut log: Vec<u64> = Vec::new();
    for t in 0..60u64 {
        push_bounded(&mut log, t, ACTION_LOG_KEEP);
    }
    assert_eq!(log.len(), 51);
    assert_eq!(log[0], 9);
    assert_eq!(log[50], 59);
}

#[test]
fn patterns_are_found_by_id_and_numbered_in_order() {
    let mut next = 1u64;
    let a = next_pattern_id(&mut next);
    let b = next_pattern_id(&mut next);
    assert_eq!((a, b, next), (1, 2, 3));
    assert_eq!(find_pattern(&[1, 2, 5, 2], 2), Some(1));
    assert_eq!(find_pattern(&[1, 2, 5], 7), None);
}
