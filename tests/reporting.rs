use sigma_bench::engine::{adapt_text, evaluate, RuleOutcome, RunResult};
use sigma_bench::loader::{load_rules, LoadFailure, RuleLoads, RuleSource};
use sigma_bench::report::{render, render_all, select_entries, summarize_loads, RenderOptions};

fn outcome(title: &str, matched: bool, nanos: u128) -> RuleOutcome {
    RuleOutcome { title: title.to_string(), matched, elapsed_nanos: nanos }
}

fn options(include_unmatched: bool, include_errors: bool) -> RenderOptions {
    RenderOptions { timed: true, include_unmatched, include_errors, pretty: false }
}

fn loads_with_error() -> RuleLoads {
    RuleLoads {
        total: 3,
        successful: 2,
        failed: 1,
        load_time_milli: 17,
        errors: vec![LoadFailure { path: "bad.yml".to_string(), reason: "oops".to_string() }],
    }
}

fn sample_run() -> RunResult {
    RunResult {
        run_number: 4,
        outcomes: vec![
            outcome("zeta", true, 3_000),
            outcome("beta", false, 1_999),
            outcome("alpha", true, 9_345_678),
            outcome("gamma", false, 1_000_000),
        ],
        total_nanos: 12_345_678 + 1_000,
    }
}

fn titles(v: &[sigma_bench::report::RuleEntry]) -> Vec<String> {
    v.iter().map(|x| x.rule_title.clone()).collect()
}

#[test]
fn report_lists_sorted_matched_and_unmatched() {
    let report = render(&loads_with_error(), &sample_run(), &options(true, true));
    assert_eq!(report.run_number, 4);
    assert_eq!(report.matched_rule_count, 2);
    assert_eq!(titles(&report.matched_rules), vec!["alpha", "zeta"]);
    assert_eq!(titles(&report.unmatched_rules), vec!["beta", "gamma"]);
    assert_eq!(report.matched_rules[0].time_taken_micro, 9_345);
    assert_eq!(report.matched_rules[1].time_taken_micro, 3);
    assert_eq!(report.unmatched_rules[0].time_taken_micro, 1);
    assert_eq!(report.unmatched_rules[1].time_taken_micro, 1_000);
    assert_eq!(report.matched_rules.len() + report.unmatched_rules.len(), 4);
}

#[test]
fn report_times_in_two_precisions() {
    let report = render(&loads_with_error(), &sample_run(), &options(false, false));
    assert_eq!(report.time_taken_micro, 12_346);
    assert_eq!(report.time_taken_milli, 12);
}

#[test]
fn unmatched_list_omitted_unless_asked() {
    let report = render(&loads_with_error(), &sample_run(), &options(false, true));
    assert!(report.unmatched_rules.is_empty());
    assert_eq!(report.matched_rule_count, 2);
    assert!(report.matched_rules.len() <= 4);
}

#[test]
fn diagnostics_stripped_but_counts_kept() {
    let loads = loads_with_error();
    let report = render(&loads, &sample_run(), &options(true, false));
    assert!(report.rule_load.errors.is_empty());
    assert_eq!(report.rule_load.total, 3);
    assert_eq!(report.rule_load.successful, 2);
    assert_eq!(report.rule_load.failed, 1);
    assert_eq!(report.rule_load.load_time_milli, 17);
    let kept = summarize_loads(&loads, true);
    assert_eq!(kept.errors.len(), 1);
    assert_eq!(kept.errors[0].path, "bad.yml");
    assert_eq!(kept.errors[0].reason, "oops");
    assert_eq!(loads.errors.len(), 1);
}

#[test]
fn rendering_twice_gives_the_same_order() {
    let run = sample_run();
    let first = render(&loads_with_error(), &run, &options(true, true));
    let second = render(&loads_with_error(), &run, &options(true, true));
    assert_eq!(titles(&first.matched_rules), titles(&second.matched_rules));
    assert_eq!(titles(&first.unmatched_rules), titles(&second.unmatched_rules));
    assert_eq!(run.outcomes[0].title, "zeta");
}

#[test]
fn selection_splits_by_classification() {
    let run = sample_run();
    assert_eq!(titles(&select_entries(&run.outcomes, true)), vec!["zeta", "alpha"]);
    assert_eq!(titles(&select_entries(&run.outcomes, false)), vec!["beta", "gamma"]);
}

#[test]
fn single_always_matching_rule_single_record() {
    let yaml = "title: Everything\nlogsource:\n    category: test\ndetection:\n    selection:\n        Image|exists: true\n    condition: selection\n";
    let sources = vec![RuleSource { path: "all.yml".to_string(), contents: yaml.to_string() }];
    let (rules, loads) = load_rules(&sources, &std::time::Instant::now());
    assert_eq!(rules.len(), 1);
    let event = adapt_text(r#"{"Image": "anything.exe"}"#).ok().unwrap();
    let runs = evaluate(&rules, &event, 1);
    let reports = render_all(&loads, &runs, &options(true, false));
    assert_eq!(reports.len(), 1);
    assert_eq!(reports[0].matched_rule_count, 1);
    assert_eq!(titles(&reports[0].matched_rules), vec!["Everything"]);
    assert!(reports[0].unmatched_rules.is_empty());
}

#[test]
fn one_report_per_pass_numbered_in_order() {
    let yaml = "title: One\nlogsource:\n    category: test\ndetection:\n    selection:\n        Image: 'x'\n    condition: selection\n";
    let sources = vec![RuleSource { path: "one.yml".to_string(), contents: yaml.to_string() }];
    let (rules, loads) = load_rules(&sources, &std::time::Instant::now());
    let event = adapt_text(r#"{"Image": "y"}"#).ok().unwrap();
    let runs = evaluate(&rules, &event, 5);
    let reports = render_all(&loads, &runs, &options(true, true));
    let numbers: Vec<usize> = reports.iter().map(|r| r.run_number).collect();
    assert_eq!(numbers, vec![1, 2, 3, 4, 5]);
    for r in &reports {
        assert_eq!(r.matched_rule_count, 0);
        assert_eq!(titles(&r.unmatched_rules), vec!["One"]);
    }
}
