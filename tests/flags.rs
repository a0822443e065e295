use cargo_lints::lints::Lints;

fn table(entries: &[(&str, &str)]) -> Lints {
    let declared: Vec<(String, String)> =
        entries.iter().map(|(n, s)| (n.to_string(), s.to_string())).collect();
    let mut warnings = Vec::new();
    let lints = Lints::new(&declared, None, &mut warnings);
    assert!(warnings.is_empty());
    lints
}

fn flags(mine: &Lints, other: &Lints) -> Vec<String> {
    let mut cmd = Vec::new();
    mine.set_flags(&mut cmd, other);
    cmd
}

fn strings(v: &[&str]) -> Vec<String> {
    v.iter().map(|s| s.to_string()).collect()
}

#[test]
fn own_severity_shadows_fallback_by_name() {
    let mine = table(&[("a", "deny")]);
    let other = table(&[("a", "allow"), ("b", "warn")]);
    let f = flags(&mine, &other);
    assert_eq!(f, strings(&["-W", "b", "-D", "a"]));
    assert!(!f.contains(&"-A".to_string()));
}

#[test]
fn no_warn_pair_without_warn_lints() {
    let mine = table(&[("a", "allow"), ("b", "deny")]);
    let other = table(&[("b", "warn"), ("c", "deny")]);
    let f = flags(&mine, &other);
    assert_eq!(f, strings(&["-A", "a", "-D", "b,c"]));
    assert!(!f.contains(&"-W".to_string()));
}

#[test]
fn repeated_generation_is_identical() {
    let mine = table(&[("x", "warn"), ("y", "allow"), ("z", "deny")]);
    let other = table(&[("w", "warn"), ("x", "deny"), ("v", "allow")]);
    let first = flags(&mine, &other);
    let second = flags(&mine, &other);
    assert_eq!(first, second);
    assert_eq!(first, strings(&["-A", "y,v", "-W", "x,w", "-D", "z"]));
}

#[test]
fn end_to_end_merge() {
    let mine = table(&[("dead_code", "deny"), ("unused", "warn")]);
    let other = table(&[("missing_docs", "warn"), ("unused", "allow")]);
    assert_eq!(
        flags(&mine, &other),
        strings(&["-W", "unused,missing_docs", "-D", "dead_code"])
    );
}

#[test]
fn existing_arguments_are_kept() {
    let mine = table(&[("a", "warn")]);
    let other = table(&[]);
    let mut cmd = strings(&["--crate-name", "demo"]);
    mine.set_flags(&mut cmd, &other);
    assert_eq!(cmd, strings(&["--crate-name", "demo", "-W", "a"]));
}

#[test]
fn fallback_alone_supplies_all_buckets() {
    let mine = table(&[]);
    let other = table(&[("a", "deny"), ("b", "allow"), ("c", "warn"), ("d", "allow")]);
    assert_eq!(flags(&mine, &other), strings(&["-A", "b,d", "-W", "c", "-D", "a"]));
}

#[test]
fn empty_name_alone_emits_nothing() {
    let mine = table(&[("", "warn")]);
    assert!(flags(&mine, &table(&[])).is_empty());
    let two = table(&[("", "warn"), ("x", "warn")]);
    assert_eq!(flags(&two, &table(&[])), strings(&["-W", ",x"]));
}
