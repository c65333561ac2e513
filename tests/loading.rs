use sigma_bench::loader::{
    is_rule_extension, load_rules, select_rule_files, FileEntry, LoadedRule, RuleLoads,
    RuleSource,
};

const GOOD_RULE: &str = "
title: Image seen
logsource:
    category: test
detection:
    selection:
        Image: 'cmd.exe'
    condition: selection
";

const BAD_RULE: &str = "title: [unclosed\n";

fn entry(path: &str, ext: Option<&str>) -> FileEntry {
    FileEntry { path: path.to_string(), extension: ext.map(|e| e.to_string()) }
}

fn source(path: &str, contents: &str) -> RuleSource {
    RuleSource { path: path.to_string(), contents: contents.to_string() }
}

#[test]
fn rule_extensions_ignore_case() {
    assert!(is_rule_extension("yml"));
    assert!(is_rule_extension("yaml"));
    assert!(is_rule_extension("YML"));
    assert!(is_rule_extension("YaMl"));
    assert!(!is_rule_extension("txt"));
    assert!(!is_rule_extension(""));
    assert!(!is_rule_extension("ym"));
    assert!(!is_rule_extension("ymlx"));
    assert!(!is_rule_extension("yaml "));
    assert!(!is_rule_extension("json"));
}

#[test]
fn selection_keeps_rule_files_in_walk_order() {
    let entries = vec![
        entry("rules/b.yml", Some("yml")),
        entry("rules/readme.md", Some("md")),
        entry("rules/LICENSE", None),
        entry("rules/sub/a.YAML", Some("YAML")),
    ];
    let paths = select_rule_files(&entries);
    assert_eq!(paths, vec!["rules/b.yml".to_string(), "rules/sub/a.YAML".to_string()]);
}

#[test]
fn directory_without_rule_files_loads_nothing() {
    let entries = vec![
        entry("rules/readme.md", Some("md")),
        entry("rules/LICENSE", None),
        entry("rules/x.json", Some("json")),
    ];
    let paths = select_rule_files(&entries);
    assert!(paths.is_empty());
    let sources: Vec<RuleSource> = Vec::new();
    let (rules, loads) = load_rules(&sources, &std::time::Instant::now());
    assert!(rules.is_empty());
    assert_eq!(loads.total, 0);
    assert_eq!(loads.successful, 0);
    assert_eq!(loads.failed, 0);
    assert!(loads.errors.is_empty());
}

#[test]
fn one_good_one_malformed_rule() {
    let sources = vec![source("rules/good.yml", GOOD_RULE), source("rules/bad.yml", BAD_RULE)];
    let (rules, loads) = load_rules(&sources, &std::time::Instant::now());
    assert_eq!(loads.total, 2);
    assert_eq!(loads.successful, 1);
    assert_eq!(loads.failed, 1);
    assert_eq!(loads.errors.len(), 1);
    assert_eq!(loads.errors[0].path, "rules/bad.yml");
    assert!(!loads.errors[0].reason.is_empty());
    assert_eq!(rules.len(), 1);
    assert_eq!(rules[0].title, "Image seen");
}

#[test]
fn counts_add_up_over_a_mixed_corpus() {
    let sources = vec![
        source("a.yml", BAD_RULE),
        source("b.yml", GOOD_RULE),
        source("c.yaml", "not: a rule\n"),
        source("d.yml", GOOD_RULE),
        source("e.yml", ""),
    ];
    let (rules, loads) = load_rules(&sources, &std::time::Instant::now());
    assert_eq!(loads.total, loads.successful + loads.failed);
    assert_eq!(loads.total, 5);
    assert_eq!(loads.successful, 2);
    assert_eq!(rules.len(), 2);
    let failed: Vec<&str> = loads.errors.iter().map(|f| f.path.as_str()).collect();
    assert_eq!(failed, vec!["a.yml", "c.yaml", "e.yml"]);
}

#[test]
fn loaded_rules_keep_source_order() {
    let second = GOOD_RULE.replace("Image seen", "Another title");
    let sources = vec![source("z.yml", GOOD_RULE), source("a.yml", &second)];
    let (rules, _) = load_rules(&sources, &std::time::Instant::now());
    let titles: Vec<&str> = rules.iter().map(|r| r.title.as_str()).collect();
    assert_eq!(titles, vec!["Image seen", "Another title"]);
}

#[test]
fn record_outcome_accounts_for_each_kind() {
    let mut loads = RuleLoads::new();
    let mut rules: Vec<LoadedRule> = Vec::new();
    let failure: Result<LoadedRule, String> = Err("broken".to_string());
    loads.record_outcome(&mut rules, &"x.yml".to_string(), failure);
    assert_eq!((loads.total, loads.successful, loads.failed), (1, 0, 1));
    assert_eq!(loads.errors[0].path, "x.yml");
    assert_eq!(loads.errors[0].reason, "broken");
    let rule = sigma_rust::rule_from_yaml(GOOD_RULE).unwrap();
    let compiled = Ok(LoadedRule { title: rule.title.clone(), rule });
    loads.record_outcome(&mut rules, &"y.yml".to_string(), compiled);
    assert_eq!((loads.total, loads.successful, loads.failed), (2, 1, 1));
    assert_eq!(rules.len(), 1);
    assert_eq!(loads.errors.len(), 1);
}
