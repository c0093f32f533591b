use ecr_inventory::repo_filter::{filter_repository_names, repository_included};

fn names(list: &[&str]) -> Vec<String> {
    list.iter().map(|s| s.to_string()).collect()
}

#[test]
fn include_and_exclude_globs() {
    // An include pattern must match, and an exclude match vetoes the name
    // even then: "prod-test" is vetoed by the exclude list despite matching
    // the include pattern, and "dev-api" matches no include pattern.
    let candidates = names(&["prod-api", "prod-test", "dev-api"]);
    let includes = names(&["prod-*"]);
    let excludes = names(&["prod-test"]);
    let got = filter_repository_names(&candidates, Some(&includes), Some(&excludes)).unwrap();
    assert_eq!(got, names(&["prod-api"]));
}

#[test]
fn no_patterns_includes_everything_sorted_deduplicated() {
    let candidates = names(&["zeta", "alpha", "zeta", "mid"]);
    let got = filter_repository_names(&candidates, None, None).unwrap();
    assert_eq!(got, names(&["alpha", "mid", "zeta"]));
}

#[test]
fn exclude_only_keeps_non_matching() {
    let candidates = names(&["prod-api", "prod-test", "dev-api"]);
    let excludes = names(&["prod-*"]);
    let got = filter_repository_names(&candidates, None, Some(&excludes)).unwrap();
    assert_eq!(got, names(&["dev-api"]));
}

#[test]
fn include_only_drops_non_matching() {
    let candidates = names(&["prod-api", "dev-api"]);
    let includes = names(&["prod-*"]);
    let got = filter_repository_names(&candidates, Some(&includes), None).unwrap();
    assert_eq!(got, names(&["prod-api"]));
}

#[test]
fn ill_formed_pattern_is_reported() {
    let candidates = names(&["prod-api"]);
    let includes = names(&["prod-["]);
    let err = filter_repository_names(&candidates, Some(&includes), None).unwrap_err();
    assert_eq!(err.pattern, "prod-[");
}

#[test]
fn single_name_selection_rule() {
    assert!(repository_included("anything", None, None).unwrap());
    let includes = names(&["prod-*"]);
    let excludes = names(&["prod-test"]);
    assert!(repository_included("prod-api", Some(&includes), Some(&excludes)).unwrap());
    assert!(!repository_included("prod-test", None, Some(&excludes)).unwrap());
    assert!(!repository_included("prod-test", Some(&includes), Some(&excludes)).unwrap());
    assert!(!repository_included("dev-api", Some(&includes), Some(&excludes)).unwrap());
    assert!(!repository_included("prod-test", Some(&names(&["dev-*"])), None).unwrap());
    assert!(repository_included("dev-api", None, Some(&excludes)).unwrap());
}
