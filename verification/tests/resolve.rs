use spring_init::resolve::{merge, ResolvedDependencySet};

fn strings(items: &[&str]) -> Vec<String> {
    items.iter().map(|s| s.to_string()).collect()
}

#[test]
fn merge_sorts_and_deduplicates() {
    let primary = strings(&["web", "data-jpa", "web"]);
    let extra = strings(&["security", " web "]);
    let set = merge(&primary, Some(&extra));
    assert_eq!(set.tokens(), &strings(&["data-jpa", "security", "web"]));
    assert_eq!(set.render(), "data-jpa,security,web");
}

#[test]
fn merge_result_is_strictly_ascending_and_holds_the_union() {
    let primary = strings(&["zeta", " alpha", "mid ", "alpha", "", "Alpha"]);
    let extra = strings(&["beta", "mid", "  ", "omega"]);
    let set = merge(&primary, Some(&extra));
    let tokens = set.tokens();
    for pair in tokens.windows(2) {
        assert!(pair[0] < pair[1]);
    }
    let mut expected: Vec<String> = primary
        .iter()
        .chain(extra.iter())
        .map(|t| t.trim().to_string())
        .filter(|t| !t.is_empty())
        .collect();
    expected.sort();
    expected.dedup();
    assert_eq!(tokens, &expected);
    assert_eq!(tokens, &strings(&["Alpha", "alpha", "beta", "mid", "omega", "zeta"]));
}

#[test]
fn merge_without_additional_equals_merge_with_empty() {
    let primary = strings(&["b", " a", "", "  ", "b"]);
    let none = merge(&primary, None);
    let empty = merge(&primary, Some(&Vec::new()));
    assert_eq!(none.tokens(), empty.tokens());
    assert_eq!(none.render(), empty.render());
    assert_eq!(none.render(), "a,b");
}

#[test]
fn merge_does_not_depend_on_the_order_of_the_sources() {
    let a = strings(&["web", "security"]);
    let b = strings(&["data-jpa", "web"]);
    assert_eq!(merge(&a, Some(&b)).tokens(), merge(&b, Some(&a)).tokens());
}

#[test]
fn merge_of_nothing_is_empty() {
    let set = merge(&Vec::new(), None);
    assert_eq!(set.len(), 0);
    assert_eq!(set.render(), "");
    let blank = merge(&strings(&["", " ", "\t"]), Some(&strings(&[""])));
    assert_eq!(blank.len(), 0);
    assert_eq!(blank.render(), "");
}

#[test]
fn merge_is_case_sensitive_and_orders_by_code_point() {
    let set = merge(&strings(&["web", "Web", "\u{e9}t\u{e9}", "zip"]), None);
    assert_eq!(set.tokens(), &strings(&["Web", "web", "zip", "\u{e9}t\u{e9}"]));
}

#[test]
fn rendered_set_has_no_empty_token() {
    let set = merge(&strings(&["", "a", " ", "b", ""]), Some(&strings(&[" ", "c"])));
    let rendered = set.render();
    assert_eq!(rendered, "a,b,c");
    assert!(rendered.split(',').all(|t| !t.is_empty()));
}

#[test]
fn empty_set_renders_empty() {
    let set = ResolvedDependencySet::new();
    assert_eq!(set.len(), 0);
    assert_eq!(set.render(), "");
    assert!(!set.has("web"));
}

#[test]
fn add_trims_and_keeps_the_order() {
    let mut set = ResolvedDependencySet::new();
    set.add(" web ");
    set.add("actuator");
    set.add("web");
    set.add("   ");
    set.add("lombok");
    assert_eq!(set.tokens(), &strings(&["actuator", "lombok", "web"]));
    assert_eq!(set.len(), 3);
    assert!(set.has("web"));
    assert!(set.has("actuator"));
    assert!(!set.has("Web"));
    assert!(!set.has(""));
}

#[test]
fn absorb_adds_to_what_is_there() {
    let mut set = merge(&strings(&["b"]), None);
    set.absorb(&strings(&["c", "a", "b "]));
    assert_eq!(set.render(), "a,b,c");
}
