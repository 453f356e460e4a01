use iconpack::reflect::rewrite_reflection;
use iconpack::tags::TagSystem;
use iconpack::taxonomy::TaxonomyError;

fn system(all: &[&str], instance: &[(&str, &[&str])]) -> TagSystem {
    TagSystem::new_from_parts(
        all.iter().map(|s| s.to_string()).collect(),
        vec![],
        instance
            .iter()
            .map(|(k, v)| (k.to_string(), v.iter().map(|s| s.to_string()).collect()))
            .collect(),
    )
}

#[test]
fn a_declared_but_unused_tag_yields_exactly_one_unused_concern() {
    let ts = system(&["Foo", "Bar"], &[("item", &["Bar"])]);
    let concerns = ts.lint();
    assert_eq!(
        concerns,
        vec!["Tag 'Foo' appears in the `all_tags` list, but isn't used anywhere.".to_string()]
    );
}

#[test]
fn an_undeclared_but_used_tag_yields_one_undeclared_concern() {
    let ts = system(&["Foo"], &[("item", &["Foo", "Baz"]), ("item2", &["Baz"])]);
    let concerns = ts.lint();
    // The undeclared tag is reported once, then nothing else: Foo is used.
    assert_eq!(
        concerns,
        vec!["Tag 'Baz' was used, but does not appear in the `all_tags` list.".to_string()]
    );
}

#[test]
fn a_consistent_tag_system_has_no_concerns() {
    let ts = system(&["Foo"], &[("item", &["Foo"])]);
    assert!(ts.lint().is_empty());
}

#[test]
fn taxonomy_text_builds_the_stack_and_the_tables() {
    let text = "A\n    B\n        >item1\n    >> item2\nX\n";
    let ts = TagSystem::from_source(text).unwrap();
    assert_eq!(ts.all_tags, vec!["A".to_string(), "B".to_string(), "X".to_string()]);
    assert_eq!(ts.instance_tags.len(), 1);
    assert_eq!(
        ts.instance_tags.get("item1"),
        Some(&vec!["A".to_string(), "B".to_string()])
    );
    assert_eq!(ts.general_tags.get("item2"), Some(&vec!["A".to_string()]));
}

#[test]
fn taxonomy_tabs_and_blank_lines_are_accepted() {
    let text = "A\n\n\tB\n\t\t>leaf\n";
    let ts = TagSystem::from_source(text).unwrap();
    assert_eq!(ts.all_tags, vec!["A".to_string(), "B".to_string()]);
    assert_eq!(
        ts.instance_tags.get("leaf"),
        Some(&vec!["A".to_string(), "B".to_string()])
    );
}

#[test]
fn a_repeated_category_name_is_declared_once() {
    let text = "A\n    B\nA\n    B\n";
    let ts = TagSystem::from_source(text).unwrap();
    assert_eq!(ts.all_tags, vec!["A".to_string(), "B".to_string()]);
}

#[test]
fn overdeep_indentation_is_refused_with_the_line_number() {
    let text = "A\n\t\t\tZ\n";
    assert_eq!(TagSystem::from_source(text), Err(TaxonomyError::BadIndent(1)));
}

#[test]
fn a_parsed_taxonomy_lints_cleanly_when_consistent() {
    let ts = TagSystem::from_source("A\n    B\n        >leaf\n").unwrap();
    // B is referenced through leaf's path; A is too.
    assert!(ts.lint().is_empty());
    let ts = TagSystem::from_source("A\n    B\nC\n    >leaf\n").unwrap();
    // A and B are declared but leaf only references C.
    assert_eq!(ts.lint().len(), 2);
}

#[test]
fn reflection_rewrite_drops_stale_orders_and_inserts_fresh_ones() {
    let ts = system(&["First", "Second"], &[("Part", &["Second"])]);
    let lines: Vec<String> = vec![
        "<Item class=\"ReflectionMetadataClass\">",
        "<Properties>",
        "<string name=\"ExplorerOrder\">99</string>",
        "<string name=\"Name\">Part</string>",
        "</Properties>",
    ]
    .into_iter()
    .map(|s| s.to_string())
    .collect();
    let out = rewrite_reflection(&lines, &ts);
    assert_eq!(
        out,
        vec![
            "<Item class=\"ReflectionMetadataClass\">".to_string(),
            "<Properties>".to_string(),
            "<string name=\"Name\">Part</string>".to_string(),
            "<string name=\"ExplorerOrder\">1</string>".to_string(),
            "</Properties>".to_string(),
        ]
    );
}

#[test]
fn reflection_rewrite_leaves_untagged_names_alone() {
    let ts = system(&["First"], &[]);
    let lines: Vec<String> = vec![
        "<Item class=\"ReflectionMetadataClass\">",
        "<Properties>",
        "<string name=\"Name\">Unknown</string>",
    ]
    .into_iter()
    .map(|s| s.to_string())
    .collect();
    let out = rewrite_reflection(&lines, &ts);
    assert_eq!(out, lines);
}

#[test]
fn reflection_scanner_requires_the_item_and_properties_openers() {
    let ts = system(&["First"], &[("Part", &["First"])]);
    // Without the item opener right before it, a name line gains nothing.
    let lines: Vec<String> = vec!["<string name=\"Name\">Part</string>".to_string()];
    let out = rewrite_reflection(&lines, &ts);
    assert_eq!(out, lines);
}
