use cargo_lints::kind::LintKind;
use cargo_lints::lints::Lints;

fn decl(entries: &[(&str, &str)]) -> Vec<(String, String)> {
    entries.iter().map(|(n, s)| (n.to_string(), s.to_string())).collect()
}

fn flags_alone(lints: &Lints) -> Vec<String> {
    let empty = Lints::new(&Vec::new(), None, &mut Vec::new());
    let mut cmd = Vec::new();
    lints.set_flags(&mut cmd, &empty);
    cmd
}

#[test]
fn from_state_reads_exact_spellings() {
    assert_eq!(LintKind::from_state(&"allow".to_string()), Some(LintKind::Allow));
    assert_eq!(LintKind::from_state(&"warn".to_string()), Some(LintKind::Warn));
    assert_eq!(LintKind::from_state(&"deny".to_string()), Some(LintKind::Deny));
    assert_eq!(LintKind::from_state(&"Deny".to_string()), None);
    assert_eq!(LintKind::from_state(&" warn".to_string()), None);
    assert_eq!(LintKind::from_state(&"forbid".to_string()), None);
    assert_eq!(LintKind::from_state(&String::new()), None);
}

#[test]
fn flag_markers() {
    assert_eq!(LintKind::Allow.flag(), "-A");
    assert_eq!(LintKind::Warn.flag(), "-W");
    assert_eq!(LintKind::Deny.flag(), "-D");
}

#[test]
fn single_valid_state_lands_in_its_bucket_only() {
    for (state, marker) in [("allow", "-A"), ("warn", "-W"), ("deny", "-D")] {
        let mut warnings = Vec::new();
        let lints = Lints::new(&decl(&[("unused", state)]), None, &mut warnings);
        assert!(warnings.is_empty());
        assert_eq!(flags_alone(&lints), vec![marker.to_string(), "unused".to_string()]);
    }
}

#[test]
fn invalid_state_warns_once_and_is_dropped() {
    for state in ["forbid", "Warn", "deny ", ""] {
        let mut warnings = Vec::new();
        let lints = Lints::new(&decl(&[("unused", state)]), None, &mut warnings);
        assert_eq!(
            warnings,
            vec![
                "invalid lint state for \"unused\" (expected \"warn\", \"allow\" or \"deny\")"
                    .to_string()
            ]
        );
        assert!(flags_alone(&lints).is_empty());
    }
}

#[test]
fn warnings_are_appended_in_declaration_order() {
    let mut warnings = vec!["earlier".to_string()];
    let lints = Lints::new(
        &decl(&[("a", "bad"), ("b", "warn"), ("c", "worse")]),
        None,
        &mut warnings,
    );
    assert_eq!(
        warnings,
        vec![
            "earlier".to_string(),
            "invalid lint state for \"a\" (expected \"warn\", \"allow\" or \"deny\")".to_string(),
            "invalid lint state for \"c\" (expected \"warn\", \"allow\" or \"deny\")".to_string(),
        ]
    );
    assert_eq!(flags_alone(&lints), vec!["-W".to_string(), "b".to_string()]);
}

#[test]
fn later_declaration_of_a_name_wins() {
    let mut warnings = Vec::new();
    let lints = Lints::new(&decl(&[("a", "warn"), ("b", "warn"), ("a", "deny")]), None, &mut warnings);
    assert!(warnings.is_empty());
    assert_eq!(
        flags_alone(&lints),
        vec!["-W".to_string(), "b".to_string(), "-D".to_string(), "a".to_string()]
    );
}

#[test]
fn invalid_redeclaration_keeps_earlier_severity() {
    let mut warnings = Vec::new();
    let lints = Lints::new(&decl(&[("a", "warn"), ("a", "bogus")]), None, &mut warnings);
    assert_eq!(warnings.len(), 1);
    assert_eq!(flags_alone(&lints), vec!["-W".to_string(), "a".to_string()]);
}

#[test]
fn empty_declarations_give_no_flags() {
    let mut warnings = Vec::new();
    let lints = Lints::new(&Vec::new(), None, &mut warnings);
    assert!(warnings.is_empty());
    assert!(flags_alone(&lints).is_empty());
}

#[test]
fn required_features_are_kept() {
    let features = Some(vec!["std".to_string(), "serde".to_string()]);
    let lints = Lints::new(&decl(&[("a", "allow")]), features.clone(), &mut Vec::new());
    assert_eq!(lints.required_features(), &features);
    let none = Lints::new(&decl(&[("a", "allow")]), None, &mut Vec::new());
    assert_eq!(none.required_features(), &None);
}
