use std::collections::HashMap;

use process_shepherd::cpu_calculator::{passes_threshold, CpuSample};
use process_shepherd::extra_info::{extract_extra_info, join_strings, window_label_of};
use process_shepherd::process_info::{ProcessInfo, ProcessSnapshot};
use process_shepherd::ranking::rank_processes;
use process_shepherd::sample_store::SampleStore;
use process_shepherd::tracker::{ProcessTracker, DEFAULT_CPU_THRESHOLD, DEFAULT_RETENTION_SECONDS};
use process_shepherd::trend::{classify_trend, Trend, TREND_THRESHOLD};

// Percentages are in hundredths of a percent; timestamps in milliseconds.

fn snapshot(pid: u32, name: &str, cpu_usage: u32) -> ProcessSnapshot {
    ProcessSnapshot {
        pid,
        name: name.to_string(),
        cpu_usage,
        memory_bytes: 4096,
        cmd: vec![],
        cwd: None,
        parent: None,
    }
}

fn info(name: &str, pid: u32, cpu_percent: u32) -> ProcessInfo {
    ProcessInfo::new(name.to_string(), pid, cpu_percent, String::new())
}

#[test]
fn test_trend_calculation() {
    assert_eq!(classify_trend(100, Some(50), TREND_THRESHOLD), Trend::Up);
    assert_eq!(classify_trend(50, Some(100), TREND_THRESHOLD), Trend::Down);
    assert_eq!(classify_trend(100, Some(105), TREND_THRESHOLD), Trend::Stable);
}

#[test]
fn test_filter_processes_below_threshold() {
    let threshold = 100;
    let _tracker = ProcessTracker::new(60, threshold, 1);
    assert!(!passes_threshold(50, threshold), "CPU below threshold should be less than threshold");
    assert!(passes_threshold(100, threshold), "CPU at threshold should be >= threshold");
    assert!(passes_threshold(150, threshold), "CPU above threshold should be >= threshold");
}

#[test]
fn test_filter_edge_cases() {
    let threshold = 100;
    assert!(!passes_threshold(99, threshold), "0.99% should be filtered");
    assert!(passes_threshold(100, threshold), "1.0% should be included");
    assert!(passes_threshold(101, threshold), "1.01% should be included");
}

#[test]
fn test_custom_threshold() {
    let threshold_5 = 500;
    let _tracker = ProcessTracker::new(60, threshold_5, 1);
    assert!(!passes_threshold(300, threshold_5), "3% should be filtered with 5% threshold");
    assert!(passes_threshold(500, threshold_5), "5% should be included with 5% threshold");
    assert!(passes_threshold(700, threshold_5), "7% should be included with 5% threshold");
}

#[test]
fn classify_boundaries() {
    assert_eq!(classify_trend(100, Some(90), 10), Trend::Stable);
    assert_eq!(classify_trend(101, Some(90), 10), Trend::Up);
    assert_eq!(classify_trend(50, Some(100), 10), Trend::Down);
    assert_eq!(classify_trend(80, Some(90), 10), Trend::Stable);
    assert_eq!(classify_trend(79, Some(90), 10), Trend::Down);
    assert_eq!(classify_trend(123, None, 10), Trend::Unknown);
    assert_eq!(Trend::Unknown.indicator(), " ");
    assert_eq!(Trend::Up.indicator(), "\u{2191}");
    assert_eq!(Trend::Down.indicator(), "\u{2193}");
}

#[test]
fn prune_keeps_samples_inside_the_window() {
    let t: i64 = 1_700_000_000_000;
    let mut store = SampleStore::new();
    store.append(1, CpuSample::new(t - 90_000, 100));
    store.append(1, CpuSample::new(t - 50_000, 200));
    store.append(1, CpuSample::new(t - 10_000, 300));
    store.prune(t, 60, &[1]);
    let kept = store.samples_of(1).unwrap();
    assert_eq!(kept, &vec![CpuSample::new(t - 50_000, 200), CpuSample::new(t - 10_000, 300)]);
}

#[test]
fn prune_removes_dead_processes_and_empty_histories() {
    let t: i64 = 1_700_000_000_000;
    let mut store = SampleStore::new();
    store.append(1, CpuSample::new(t - 10_000, 100));
    store.append(2, CpuSample::new(t - 10_000, 100));
    store.append(3, CpuSample::new(t - 70_000, 100));
    store.prune(t, 60, &[1, 3]);
    assert!(store.samples_of(1).is_some());
    assert!(store.samples_of(2).is_none());
    assert!(store.samples_of(3).is_none());
    assert_eq!(store.len(), 1);
}

#[test]
fn prune_window_boundary_is_kept() {
    let t: i64 = 1_000_000;
    let mut store = SampleStore::new();
    store.append(1, CpuSample::new(t - 60_000, 100));
    store.append(1, CpuSample::new(t - 60_001, 100));
    store.prune(t, 60, &[1]);
    assert_eq!(store.samples_of(1).unwrap().len(), 1);
    store.prune(t + 1, 0, &[1]);
    assert!(store.samples_of(1).is_none());
}

#[test]
fn append_creates_then_extends_a_history() {
    let mut store = SampleStore::new();
    store.append(9, CpuSample::new(1, 10));
    store.append(8, CpuSample::new(1, 20));
    store.append(9, CpuSample::new(2, 30));
    assert_eq!(store.len(), 2);
    assert_eq!(store.samples_of(9).unwrap(), &vec![CpuSample::new(1, 10), CpuSample::new(2, 30)]);
    assert_eq!(store.histories()[0].pid, 9);
    assert_eq!(store.histories()[1].pid, 8);
}

#[test]
fn rank_is_stable_and_descending() {
    let ranked = rank_processes(vec![info("A", 1, 500), info("B", 2, 900), info("C", 3, 500)]);
    let names: Vec<&str> = ranked.iter().map(|r| r.name.as_str()).collect();
    assert_eq!(names, vec!["B", "A", "C"]);
    assert!(rank_processes(vec![]).is_empty());
}

#[test]
fn update_prunes_the_oldest_of_three_samples() {
    let t: i64 = 1_700_000_000_000;
    let mut tracker = ProcessTracker::new(60, 0, 1);
    tracker.update(t - 90_000, &vec![snapshot(4, "p", 100)]);
    tracker.update(t - 50_000, &vec![snapshot(4, "p", 200)]);
    tracker.update(t - 10_000, &vec![snapshot(4, "p", 300)]);
    tracker.update(t, &vec![snapshot(4, "p", 400)]);
    let kept = tracker.history().samples_of(4).unwrap().clone();
    assert_eq!(
        kept,
        vec![CpuSample::new(t - 50_000, 200), CpuSample::new(t - 10_000, 300), CpuSample::new(t, 400)]
    );
    tracker.update(t + 1_000, &vec![snapshot(5, "q", 100)]);
    assert!(tracker.history().samples_of(4).is_none());
}

#[test]
fn report_ranks_ties_in_history_order() {
    let mut tracker = ProcessTracker::new(60, 0, 1);
    let snap = vec![snapshot(1, "A", 500), snapshot(2, "B", 900), snapshot(3, "C", 500)];
    tracker.update(0, &snap);
    let report = tracker.calculate_cpu_burn(&snap, &HashMap::new());
    let names: Vec<&str> = report.iter().map(|r| r.name.as_str()).collect();
    assert_eq!(names, vec!["B", "A", "C"]);
}

#[test]
fn two_samples_on_four_cores() {
    let mut kept = ProcessTracker::new(60, 100, 4);
    let mut dropped = ProcessTracker::new(60, 2_000, 4);
    let titles = HashMap::new();
    for tracker in [&mut kept, &mut dropped] {
        tracker.update(0, &vec![snapshot(5, "worker", 5_000)]);
        tracker.update(2_000, &vec![snapshot(5, "worker", 10_000)]);
    }
    let report = kept.calculate_cpu_burn(&vec![snapshot(5, "worker", 10_000)], &titles);
    assert_eq!(report.len(), 1);
    assert_eq!(report[0].pid, 5);
    assert_eq!(report[0].cpu_percent, 1_875);
    assert_eq!(report[0].memory_bytes, Some(4096));
    assert!(dropped.calculate_cpu_burn(&vec![snapshot(5, "worker", 10_000)], &titles).is_empty());
}

#[test]
fn trend_across_cycles() {
    let mut tracker = ProcessTracker::new(60, 100, 1);
    let first = tracker.record_cycle(&vec![info("p", 7, 3_000)]);
    assert_eq!(first, vec![Trend::Unknown]);
    let second = tracker.record_cycle(&vec![info("p", 7, 4_500)]);
    assert_eq!(second, vec![Trend::Up]);
    let third = tracker.record_cycle(&vec![info("p", 7, 4_505)]);
    assert_eq!(third, vec![Trend::Stable]);
    assert_eq!(tracker.previous_percent(7), Some(4_505));
    tracker.record_cycle(&vec![]);
    assert_eq!(tracker.previous_percent(7), None);
}

#[test]
fn run_cycle_reports_ranks_and_trends() {
    let mut tracker = ProcessTracker::new(60, 100, 2);
    let titles = HashMap::new();
    let snap = vec![snapshot(1, "a", 1_000), snapshot(2, "b", 4_000), snapshot(3, "idle", 10)];
    let (ranked, trends) = tracker.run_cycle(1_000, &snap, &titles);
    let pids: Vec<u32> = ranked.iter().map(|r| r.pid).collect();
    assert_eq!(pids, vec![2, 1]);
    assert_eq!(ranked[0].cpu_percent, 2_000);
    assert_eq!(trends, vec![Trend::Unknown, Trend::Unknown]);

    let snap = vec![snapshot(1, "a", 3_000), snapshot(2, "b", 4_000)];
    let (ranked, trends) = tracker.run_cycle(3_000, &snap, &titles);
    let pids: Vec<u32> = ranked.iter().map(|r| r.pid).collect();
    assert_eq!(pids, vec![2, 1]);
    assert_eq!(ranked[1].cpu_percent, 1_000);
    assert_eq!(trends, vec![Trend::Stable, Trend::Up]);
    assert!(tracker.history().samples_of(3).is_none());
}

#[test]
fn default_configuration() {
    assert_eq!(DEFAULT_RETENTION_SECONDS, 60);
    assert_eq!(DEFAULT_CPU_THRESHOLD, 100);
    let mut tracker = ProcessTracker::new(DEFAULT_RETENTION_SECONDS, DEFAULT_CPU_THRESHOLD, 1);
    tracker.update(0, &vec![snapshot(1, "a", 99), snapshot(2, "b", 100)]);
    let report = tracker.calculate_cpu_burn(&vec![snapshot(1, "a", 99), snapshot(2, "b", 100)], &HashMap::new());
    assert_eq!(report.len(), 1);
    assert_eq!(report[0].pid, 2);
}

#[test]
fn vanished_process_is_not_reported() {
    let mut tracker = ProcessTracker::new(60, 0, 1);
    tracker.update(0, &vec![snapshot(1, "a", 500), snapshot(2, "b", 500)]);
    let report = tracker.calculate_cpu_burn(&vec![snapshot(2, "b", 500)], &HashMap::new());
    assert_eq!(report.len(), 1);
    assert_eq!(report[0].pid, 2);
}

#[test]
fn tracker_clamps_core_count() {
    let mut tracker = ProcessTracker::new(60, 0, 0);
    tracker.update(0, &vec![snapshot(1, "a", 700)]);
    let report = tracker.calculate_cpu_burn(&vec![snapshot(1, "a", 700)], &HashMap::new());
    assert_eq!(report[0].cpu_percent, 700);
}

#[test]
fn extra_info_prefers_own_window_titles() {
    let mut titles = HashMap::new();
    titles.insert(10, vec!["Editor".to_string(), "Notes".to_string()]);
    titles.insert(20, vec!["Browser".to_string()]);
    let mut p = snapshot(10, "app", 0);
    p.parent = Some(20);
    p.cmd = vec!["app".to_string(), "--flag".to_string()];
    assert_eq!(extract_extra_info(&p, &titles), "Editor | Notes");
}

#[test]
fn extra_info_falls_back_to_parent_titles() {
    let mut titles = HashMap::new();
    titles.insert(10, vec!["   ".to_string()]);
    titles.insert(20, vec!["Browser".to_string()]);
    let mut p = snapshot(10, "content", 0);
    p.parent = Some(20);
    assert_eq!(extract_extra_info(&p, &titles), "Browser");
}

#[test]
fn several_blank_own_titles_fall_back_to_parent() {
    let mut titles = HashMap::new();
    titles.insert(10, vec![" ".to_string(), "".to_string(), "\t".to_string()]);
    titles.insert(20, vec!["".to_string(), "Browser".to_string()]);
    let mut p = snapshot(10, "content", 0);
    p.parent = Some(20);
    assert_eq!(extract_extra_info(&p, &titles), " | Browser");
}

#[test]
fn blank_titles_everywhere_fall_back_to_arguments() {
    let mut titles = HashMap::new();
    titles.insert(10, vec![" ".to_string(), " ".to_string()]);
    titles.insert(20, vec!["\t".to_string(), "".to_string()]);
    let mut p = snapshot(10, "worker", 0);
    p.parent = Some(20);
    p.cmd = vec!["worker".to_string(), "--id".to_string(), "3".to_string(), "--verbose".to_string()];
    assert_eq!(extract_extra_info(&p, &titles), "--id 3");
}

#[test]
fn blank_titles_and_no_arguments_fall_back_to_working_directory() {
    let mut titles = HashMap::new();
    titles.insert(10, vec![" ".to_string(), " ".to_string()]);
    titles.insert(20, vec!["  ".to_string(), "  ".to_string()]);
    let mut p = snapshot(10, "worker", 0);
    p.parent = Some(20);
    p.cmd = vec!["worker".to_string()];
    p.cwd = Some("/srv".to_string());
    assert_eq!(extract_extra_info(&p, &titles), "(/srv)");
    p.cwd = None;
    assert_eq!(extract_extra_info(&p, &titles), "");
}

#[test]
fn extra_info_falls_back_to_arguments() {
    let titles = HashMap::new();
    let mut p = snapshot(10, "python", 0);
    p.cmd = vec!["python".to_string(), "server.py".to_string(), "--port".to_string(), "80".to_string()];
    assert_eq!(extract_extra_info(&p, &titles), "server.py --port");
    p.cmd = vec!["python".to_string(), "server.py".to_string()];
    assert_eq!(extract_extra_info(&p, &titles), "server.py");
}

#[test]
fn extra_info_falls_back_to_working_directory() {
    let titles = HashMap::new();
    let mut p = snapshot(10, "daemon", 0);
    p.cmd = vec!["daemon".to_string()];
    p.cwd = Some("/var/lib".to_string());
    assert_eq!(extract_extra_info(&p, &titles), "(/var/lib)");
    p.cwd = None;
    assert_eq!(extract_extra_info(&p, &titles), "");
}

#[test]
fn window_label_skips_blank_titles() {
    let mut titles = HashMap::new();
    titles.insert(1, vec![" \t ".to_string()]);
    titles.insert(5, vec![" ".to_string(), "\t".to_string()]);
    titles.insert(2, vec![]);
    titles.insert(3, vec![" a ".to_string()]);
    assert_eq!(window_label_of(&titles, 1), None);
    assert_eq!(window_label_of(&titles, 2), None);
    assert_eq!(window_label_of(&titles, 3), Some(" a ".to_string()));
    assert_eq!(window_label_of(&titles, 4), None);
    assert_eq!(window_label_of(&titles, 5), None);
}

#[test]
fn join_strings_places_separators() {
    let parts = vec!["a".to_string(), "b".to_string(), "c".to_string()];
    assert_eq!(join_strings(&parts, 0, 3, ", "), "a, b, c");
    assert_eq!(join_strings(&parts, 1, 2, ", "), "b");
    assert_eq!(join_strings(&parts, 2, 2, ", "), "");
}
