use changer::processor::{extract_fields, Processor};

fn pairs(v: &[(&str, &str)]) -> Vec<(String, String)> {
    v.iter().map(|(k, s)| (k.to_string(), s.to_string())).collect()
}

#[test]
fn named_groups_are_collected() {
    let mut p = Processor::new();
    assert!(p.set_regex(r"user=(?P<user>\w+) id=(?P<id>\d+)".to_string()));
    assert_eq!(p.names, vec!["user".to_string(), "id".to_string()]);
    assert!(p.regex.is_some());
}

#[test]
fn pattern_without_named_group_is_refused() {
    let mut p = Processor::new();
    assert!(!p.set_regex(r"user=\w+".to_string()));
    assert!(p.names.is_empty());
    assert!(p.regex.is_none());
    assert_eq!(p.apply("user=alice".to_string()), None);
}

#[test]
fn pattern_that_does_not_compile_is_refused() {
    let mut p = Processor::new();
    assert!(!p.set_regex("(?P<a>x".to_string()));
    assert!(p.regex.is_none());
}

#[test]
fn apply_extracts_named_captures() {
    let mut p = Processor::new();
    assert!(p.set_regex(r"user=(?P<user>\w+) id=(?P<id>\d+)".to_string()));
    let r = p.apply("user=alice id=42".to_string());
    assert_eq!(r, Some(pairs(&[("user", "alice"), ("id", "42")])));
}

#[test]
fn apply_uses_first_match_only() {
    let mut p = Processor::new();
    assert!(p.set_regex(r"(?P<n>\d+)".to_string()));
    assert_eq!(p.apply("a 12 b 34".to_string()), Some(pairs(&[("n", "12")])));
}

#[test]
fn apply_omits_groups_that_did_not_take_part() {
    let mut p = Processor::new();
    assert!(p.set_regex(r"(?P<a>x)|(?P<b>y)".to_string()));
    assert_eq!(p.apply("y".to_string()), Some(pairs(&[("b", "y")])));
}

#[test]
fn apply_may_yield_an_empty_object() {
    let mut p = Processor::new();
    assert!(p.set_regex(r"start(?P<a>x)?".to_string()));
    assert_eq!(p.apply("start".to_string()), Some(Vec::new()));
}

#[test]
fn apply_without_match_yields_nothing() {
    let mut p = Processor::new();
    assert!(p.set_regex(r"user=(?P<user>\w+) id=(?P<id>\d+)".to_string()));
    assert_eq!(p.apply("no match here".to_string()), None);
}

#[test]
fn apply_on_empty_line_yields_nothing() {
    let mut p = Processor::new();
    assert!(p.set_regex(r"(?P<all>.*)".to_string()));
    assert_eq!(p.apply(String::new()), None);
    assert_eq!(p.apply("z".to_string()), Some(pairs(&[("all", "z")])));
}

#[test]
fn processor_without_pattern_yields_nothing() {
    let p = Processor::new();
    assert_eq!(p.apply("anything".to_string()), None);
}

#[test]
fn destination_is_recorded() {
    let mut p = Processor::new();
    p.set_destination("log.out".to_string());
    assert_eq!(p.dst, Some("log.out".to_string()));
}

#[test]
fn fields_pair_names_with_groups() {
    let names = vec![None, Some("a".to_string()), None, Some("b".to_string()), Some("c".to_string())];
    let groups = vec![
        Some("whole".to_string()),
        Some("1".to_string()),
        Some("2".to_string()),
        None,
        Some("3".to_string()),
    ];
    assert_eq!(extract_fields(&names, &groups), pairs(&[("a", "1"), ("c", "3")]));
}
