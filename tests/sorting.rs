use godot_analyzer::report::parse_severity;
use godot_analyzer::sort::sort_stable;
use godot_analyzer::{Issue, Severity};

fn issue(sev: Severity, msg: &str, file: &str) -> Issue {
    Issue { severity: sev, message: msg.to_string(), file: Some(file.to_string()) }
}

fn shown(v: &[Issue]) -> Vec<(Severity, String, String)> {
    v.iter().map(|i| (i.severity, i.message.clone(), i.file.clone().unwrap())).collect()
}

#[test]
fn issue_sort_is_stable_total_and_idempotent() {
    let input = vec![
        issue(Severity::Error, "b", "1"),
        issue(Severity::Info, "z", "2"),
        issue(Severity::Error, "a", "3"),
        issue(Severity::Error, "b", "4"),
        issue(Severity::Warn, "a", "5"),
        issue(Severity::Info, "z", "6"),
    ];
    let once = sort_stable(input);
    assert_eq!(
        shown(&once),
        vec![
            (Severity::Info, "z".to_string(), "2".to_string()),
            (Severity::Info, "z".to_string(), "6".to_string()),
            (Severity::Warn, "a".to_string(), "5".to_string()),
            (Severity::Error, "a".to_string(), "3".to_string()),
            (Severity::Error, "b".to_string(), "1".to_string()),
            (Severity::Error, "b".to_string(), "4".to_string()),
        ]
    );
    let before = shown(&once);
    let twice = sort_stable(once);
    assert_eq!(shown(&twice), before);
}

#[test]
fn empty_and_single_lists_sort_to_themselves() {
    assert!(sort_stable(Vec::<Issue>::new()).is_empty());
    let one = sort_stable(vec![issue(Severity::Warn, "only", "f")]);
    assert_eq!(shown(&one), vec![(Severity::Warn, "only".to_string(), "f".to_string())]);
}

#[test]
fn severity_options_are_read_in_any_case() {
    assert_eq!(parse_severity("INFO"), Some(Severity::Info));
    assert_eq!(parse_severity("Warning"), Some(Severity::Warn));
    assert_eq!(parse_severity("warn"), Some(Severity::Warn));
    assert_eq!(parse_severity("err"), Some(Severity::Error));
    assert_eq!(parse_severity(" error"), None);
    assert_eq!(parse_severity("fatal"), None);
}
