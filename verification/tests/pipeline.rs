use react_docgen_core::pipeline::{
    is_source_file, walks_node_modules,
    collect_components, collect_public_enums, mappings_in_files, mappings_to_resolve, settle_file_update, should_skip, src_dir_diagnostics,
    PipelineOptions, ReverseDeps,
};
use react_docgen_core::react_types::react_19;
use react_docgen_core::types::{
    CollectedInterface, ComponentEntry, ComponentMapping, Diagnostic, DiagnosticCode, DiagnosticSeverity, EnumEntry,
    EnumValue, GlobalSourceData, ImportBinding, LexedExport, SourceData,
};

fn mapping(name: &str, file: &str) -> ComponentMapping {
    ComponentMapping {
        component_name: name.to_owned(),
        props_type_name: format!("{name}Props"),
        props_type_args: vec![],
        file_path: file.to_owned(),
        description: String::new(),
        tags: vec![],
        span_start: 0,
        span_end: 0,
        param_defaults: vec![],
    }
}

fn interface(key: &str, name: &str, file: &str) -> (String, CollectedInterface) {
    (
        key.to_owned(),
        CollectedInterface {
            scoped_key: key.to_owned(),
            name: name.to_owned(),
            file_path: file.to_owned(),
            props: vec![],
            extends: vec![],
            description: String::new(),
            tags: vec![],
        },
    )
}

fn binding(local: &str, specifier: &str) -> ImportBinding {
    ImportBinding {
        local_name: local.to_owned(),
        exported_name: local.to_owned(),
        specifier: specifier.to_owned(),
        is_type_only: false,
    }
}

fn entry(name: &str, file: &str) -> ComponentEntry {
    ComponentEntry {
        display_name: name.to_owned(),
        file_path: file.to_owned(),
        description: String::new(),
        props: vec![],
        inheritance: vec![],
        notable_inherited: vec![],
        discriminant_prop: None,
        composes: vec![],
        tags: vec![],
    }
}

fn diag(message: &str) -> Diagnostic {
    Diagnostic {
        severity: DiagnosticSeverity::Warning,
        message: message.to_owned(),
        file: None,
        line: None,
        column: None,
        help: None,
        code: DiagnosticCode::OpaqueType,
    }
}

fn file_data(file: &str, names: &[&str]) -> SourceData {
    let mut d = SourceData::default();
    for n in names {
        d.interfaces.push(interface(&format!("{file}:{n}Props"), &format!("{n}Props"), file));
        d.component_mappings.push(mapping(n, file));
    }
    d.imports.push(binding("cn", "./utils"));
    d.exports.push(LexedExport::LocalDeclaration { name: names[0].to_owned(), is_type_only: false });
    d
}

#[test]
fn pipeline_test_pipeline_options_default() {
    let opts = PipelineOptions::default();
    let fns = &opts.variant_functions;
    assert!(fns.contains(&"cva".to_string()), "cva should be a default variant function");
    assert!(fns.contains(&"tv".to_string()), "tv should be a default variant function");
    assert!(fns.contains(&"defineRecipe".to_string()), "defineRecipe should be a default variant function");
    assert!(fns.contains(&"recipe".to_string()), "recipe should be a default variant function");
}

#[test]
fn mod_test_pipeline_options_default() {
    let opts = PipelineOptions::default();
    let fns = &opts.variant_functions;
    assert!(fns.contains(&"cva".to_string()), "cva should be a default variant function");
    assert!(fns.contains(&"tv".to_string()), "tv should be a default variant function");
    assert!(fns.contains(&"defineRecipe".to_string()), "defineRecipe should be a default variant function");
    assert!(fns.contains(&"recipe".to_string()), "recipe should be a default variant function");
}

#[test]
fn pipeline_options_default_other_fields() {
    let opts = PipelineOptions::default();
    assert_eq!(opts.src_dirs, vec!["./src".to_owned()]);
    assert!(opts.cross_package);
    assert_eq!(opts.react_version, react_19());
    assert!(opts.exclude_prefixes.is_empty());
    assert!(!opts.resolve_complex_types);
}

fn chain_graph() -> ReverseDeps {
    // a.ts ← b.ts ← c.ts: b imports a, c imports b.
    ReverseDeps {
        inner: vec![
            ("/project/a.ts".to_owned(), vec!["/project/b.ts".to_owned()]),
            ("/project/b.ts".to_owned(), vec!["/project/c.ts".to_owned()]),
        ],
    }
}

#[test]
fn pipeline_test_reverse_deps_bfs() {
    let rev = chain_graph();
    let affected = rev.affected("/project/a.ts");
    assert!(affected.contains(&"/project/a.ts".to_owned()), "changed file should be in affected set");
    assert!(affected.contains(&"/project/b.ts".to_owned()), "direct importer should be affected");
    assert!(affected.contains(&"/project/c.ts".to_owned()), "transitive importer should be affected");
}

#[test]
fn mod_test_reverse_deps_bfs() {
    let rev = chain_graph();
    let affected = rev.affected("/project/a.ts");
    assert!(affected.contains(&"/project/a.ts".to_owned()), "changed file should be in affected set");
    assert!(affected.contains(&"/project/b.ts".to_owned()), "direct importer should be affected");
    assert!(affected.contains(&"/project/c.ts".to_owned()), "transitive importer should be affected");
}

#[test]
fn affected_is_the_closure_without_repeats() {
    // A cycle a → b → a and a diamond a → {b, d} → c.
    let rev = ReverseDeps {
        inner: vec![
            ("a".to_owned(), vec!["b".to_owned(), "d".to_owned()]),
            ("b".to_owned(), vec!["a".to_owned(), "c".to_owned()]),
            ("d".to_owned(), vec!["c".to_owned()]),
            ("x".to_owned(), vec!["y".to_owned()]),
        ],
    };
    let mut affected = rev.affected("a");
    affected.sort();
    assert_eq!(affected, vec!["a", "b", "c", "d"]);
    assert_eq!(rev.affected("c"), vec!["c".to_owned()]);
}

#[test]
fn reverse_deps_follow_relative_imports_under_each_extension() {
    let mut g = GlobalSourceData::default();
    g.import_map.push((
        "/project/src/b.ts".to_owned(),
        vec![binding("A", "./a"), binding("React", "react")],
    ));
    let rev = ReverseDeps::build(&g);
    let keys: Vec<&str> = rev.inner.iter().map(|(k, _)| k.as_str()).collect();
    assert_eq!(
        keys,
        vec![
            "/project/src/./a.ts",
            "/project/src/./a.tsx",
            "/project/src/./a/index.ts",
            "/project/src/./a/index.tsx",
        ]
    );
    for (_, importers) in &rev.inner {
        assert_eq!(importers, &vec!["/project/src/b.ts".to_owned()]);
    }
    let mut affected = rev.affected("/project/src/./a.tsx");
    affected.sort();
    assert_eq!(affected, vec!["/project/src/./a.tsx".to_owned(), "/project/src/b.ts".to_owned()]);
}

#[test]
fn should_skip_by_prefix() {
    let prefixes = vec!["Internal".to_owned(), "_".to_owned()];
    assert!(should_skip("InternalButton", &prefixes));
    assert!(should_skip("_Private", &prefixes));
    assert!(!should_skip("Button", &prefixes));
    assert!(!should_skip("Button", &[]));
}

#[test]
fn mappings_to_resolve_drops_excluded_prefixes() {
    let mut g = GlobalSourceData::default();
    g.component_mappings = vec![mapping("Button", "/a.tsx"), mapping("InternalThing", "/a.tsx"), mapping("Card", "/b.tsx")];
    let kept = mappings_to_resolve(&g, &vec!["Internal".to_owned()]);
    let names: Vec<&str> = kept.iter().map(|m| m.component_name.as_str()).collect();
    assert_eq!(names, vec!["Button", "Card"]);
    let in_b = mappings_in_files(&g, &vec!["/b.tsx".to_owned()]);
    assert_eq!(in_b.len(), 1);
    assert_eq!(in_b[0].component_name, "Card");
}

#[test]
fn merge_puts_one_files_data_under_its_keys() {
    let mut g = GlobalSourceData::default();
    g.merge("/src/a.tsx", file_data("/src/a.tsx", &["Button"]));
    g.merge("/src/b.tsx", file_data("/src/b.tsx", &["Card", "Badge"]));
    assert_eq!(g.interfaces.len(), 3);
    assert_eq!(g.interfaces[0].0, "/src/a.tsx:ButtonProps");
    assert_eq!(g.component_mappings.len(), 3);
    assert_eq!(g.import_map.len(), 2);
    assert_eq!(g.import_map[1].0, "/src/b.tsx");
    // Merging the same file again replaces its entries instead of adding more.
    let mut again = file_data("/src/a.tsx", &["Button"]);
    again.imports = vec![binding("clsx", "clsx")];
    g.merge("/src/a.tsx", again);
    assert_eq!(g.interfaces.len(), 3);
    assert_eq!(g.import_map.len(), 2);
    assert_eq!(g.import_map[0].1[0].specifier, "clsx");
}

#[test]
fn remove_file_takes_out_exactly_that_file() {
    let mut g = GlobalSourceData::default();
    g.merge("/src/a.tsx", file_data("/src/a.tsx", &["Button"]));
    g.merge("/src/b.tsx", file_data("/src/b.tsx", &["Card"]));
    // A key of another file that merely starts with the path is kept.
    g.interfaces.push(interface("/src/a.tsx.bak:Old", "Old", "/src/a.tsx.bak"));
    g.remove_file("/src/a.tsx");
    let keys: Vec<&str> = g.interfaces.iter().map(|(k, _)| k.as_str()).collect();
    assert_eq!(keys, vec!["/src/b.tsx:CardProps", "/src/a.tsx.bak:Old"]);
    assert_eq!(g.component_mappings.len(), 1);
    assert_eq!(g.component_mappings[0].component_name, "Card");
    assert_eq!(g.import_map.len(), 1);
    assert_eq!(g.re_export_map.len(), 1);
    assert_eq!(g.re_export_map[0].0, "/src/b.tsx");
}

#[test]
fn removing_a_merged_file_leaves_what_removing_it_alone_leaves() {
    let mut base = GlobalSourceData::default();
    base.merge("/src/b.tsx", file_data("/src/b.tsx", &["Card"]));
    base.merge("/src/a.tsx", file_data("/src/a.tsx", &["Old"]));

    let mut only_removed = base.clone();
    only_removed.remove_file("/src/a.tsx");

    let mut merged_then_removed = base.clone();
    merged_then_removed.merge("/src/a.tsx", file_data("/src/a.tsx", &["Button", "Icon"]));
    merged_then_removed.remove_file("/src/a.tsx");

    let keys = |g: &GlobalSourceData| g.interfaces.iter().map(|(k, _)| k.clone()).collect::<Vec<_>>();
    assert_eq!(keys(&merged_then_removed), keys(&only_removed));
    assert_eq!(merged_then_removed.component_mappings.len(), only_removed.component_mappings.len());
    assert_eq!(merged_then_removed.import_map.len(), only_removed.import_map.len());
    assert_eq!(merged_then_removed.re_export_map.len(), only_removed.re_export_map.len());
}

#[test]
fn public_enums_are_those_their_file_exports() {
    let colors = vec![EnumEntry {
        name: "Red".to_owned(),
        value: EnumValue::String("red".to_owned()),
        description: String::new(),
    }];
    let mut g = GlobalSourceData::default();
    g.enums.push(("/src/theme.ts:Color".to_owned(), colors));
    g.enums.push((
        "/src/theme.ts:Hidden".to_owned(),
        vec![EnumEntry { name: "A".to_owned(), value: EnumValue::Number("1".to_owned()), description: String::new() }],
    ));
    g.enums.push((
        "/src/other.ts:Alpha".to_owned(),
        vec![EnumEntry { name: "B".to_owned(), value: EnumValue::Bool(true), description: String::new() }],
    ));
    g.re_export_map.push((
        "/src/theme.ts".to_owned(),
        vec![LexedExport::LocalDeclaration { name: "Color".to_owned(), is_type_only: false }],
    ));
    g.re_export_map.push((
        "/src/other.ts".to_owned(),
        vec![LexedExport::LocalDeclaration { name: "Alpha".to_owned(), is_type_only: false }],
    ));
    let enums = collect_public_enums(&g);
    let names: Vec<&str> = enums.iter().map(|(k, _)| k.as_str()).collect();
    assert_eq!(names, vec!["Alpha", "Color"]);
    assert_eq!(enums[1].1[0].name, "Red");
}

#[test]
fn collected_components_are_keyed_by_name_with_file_path_for_repeats() {
    let results = vec![
        (entry("Button", "/src/ui/Button.tsx"), vec![diag("hook")], vec![diag("first")]),
        (entry("Card", "/src/Card.tsx"), vec![], vec![]),
        (entry("Button", "/src/legacy/Button.tsx"), vec![], vec![diag("second")]),
    ];
    let (components, diagnostics) = collect_components(results);
    let keys: Vec<&str> = components.iter().map(|(k, _)| k.as_str()).collect();
    assert_eq!(keys, vec!["Button", "Button (/src/legacy/Button.tsx)", "Card"]);
    assert_eq!(components[1].1.file_path, "/src/legacy/Button.tsx");
    let messages: Vec<&str> = diagnostics.iter().map(|d| d.message.as_str()).collect();
    assert_eq!(messages, vec!["hook", "first", "second"]);
}

#[test]
fn a_repeated_key_keeps_the_later_component_and_reports_it() {
    let results = vec![
        (entry("Button", "/src/Button.tsx"), vec![], vec![diag("a")]),
        (entry("Button", "/src/Button.tsx"), vec![], vec![diag("b")]),
        (ComponentEntry { description: "third".into(), ..entry("Button", "/src/Button.tsx") }, vec![], vec![diag("c")]),
    ];
    let (components, diagnostics) = collect_components(results);
    let keys: Vec<&str> = components.iter().map(|(k, _)| k.as_str()).collect();
    assert_eq!(keys, vec!["Button", "Button (/src/Button.tsx)"]);
    assert_eq!(components[1].1.description, "third");
    let codes: Vec<DiagnosticCode> = diagnostics.iter().map(|d| d.code).collect();
    assert_eq!(
        codes,
        vec![DiagnosticCode::OpaqueType, DiagnosticCode::OpaqueType, DiagnosticCode::ComponentKeyCollision, DiagnosticCode::OpaqueType]
    );
    assert_eq!(
        diagnostics[2].message,
        "Duplicate component key 'Button (/src/Button.tsx)' \u{2014} colliding file paths: previously '/src/Button.tsx', now '/src/Button.tsx'"
    );
    assert_eq!(diagnostics[2].file.as_deref(), Some("/src/Button.tsx"));
}

#[test]
fn source_directory_diagnostics() {
    let none = src_dir_diagnostics(&vec![]);
    assert_eq!(none.len(), 1);
    assert_eq!(none[0].message, "No source directories configured \u{2014} src_dirs is empty");
    assert_eq!(none[0].severity, DiagnosticSeverity::Error);

    let all_missing = src_dir_diagnostics(&vec![("./a".to_owned(), false), ("./b".to_owned(), false)]);
    assert_eq!(all_missing.len(), 1);
    assert_eq!(all_missing[0].message, "None of the configured source directories exist: ./a, ./b");
    assert_eq!(all_missing[0].file.as_deref(), Some("./a"));
    assert_eq!(all_missing[0].code, DiagnosticCode::IoError);

    let some_missing =
        src_dir_diagnostics(&vec![("./a".to_owned(), true), ("./b".to_owned(), false), ("./c".to_owned(), false)]);
    let messages: Vec<&str> = some_missing.iter().map(|d| d.message.as_str()).collect();
    assert_eq!(messages, vec!["Source directory does not exist: ./b", "Source directory does not exist: ./c"]);
    assert!(some_missing.iter().all(|d| d.severity == DiagnosticSeverity::Warning));

    assert!(src_dir_diagnostics(&vec![("./a".to_owned(), true)]).is_empty());
}

#[test]
fn source_files_are_ts_and_tsx_outside_stories_tests_and_packages() {
    let none: Vec<String> = Vec::new();
    assert!(is_source_file("/p/src/Button.tsx", "tsx", false, &none));
    assert!(is_source_file("/p/src/types.d.ts", "ts", false, &none));
    assert!(!is_source_file("/p/src/Button.jsx", "jsx", false, &none));
    assert!(!is_source_file("/p/src/Button.stories.tsx", "tsx", false, &none));
    assert!(!is_source_file("/p/src/Button.test.tsx", "tsx", false, &none));
    assert!(!is_source_file("/p/src/Button.spec.ts", "ts", false, &none));
    assert!(!is_source_file("/p/src/__snapshots__/a.ts", "ts", false, &none));
    assert!(!is_source_file("/p/node_modules/x/index.d.ts", "ts", false, &none));
}

#[test]
fn user_exclude_patterns_are_substrings() {
    let excludes = vec!["legacy/".to_owned()];
    assert!(!is_source_file("/p/src/legacy/Old.tsx", "tsx", false, &excludes));
    assert!(is_source_file("/p/src/modern/New.tsx", "tsx", false, &excludes));
    // The empty pattern occurs in every path.
    assert!(!is_source_file("/p/src/New.tsx", "tsx", false, &vec![String::new()]));
}

#[test]
fn packages_are_read_when_the_walked_directory_is_inside_node_modules() {
    let none: Vec<String> = Vec::new();
    assert!(walks_node_modules("/p/node_modules/@ui/lib"));
    assert!(!walks_node_modules("/p/src"));
    assert!(is_source_file("/p/node_modules/@ui/lib/Button.d.ts", "ts", true, &none));
    assert!(!is_source_file("/p/node_modules/@ui/lib/Button.stories.tsx", "tsx", true, &none));
}

#[test]
fn settle_file_update_keeps_every_diagnostic_of_the_update() {
    let results = vec![
        (entry("Button", "/src/Button.tsx"), vec![diag("hook-b")], vec![diag("own-b")]),
        (entry("Card", "/src/Card.tsx"), vec![], vec![diag("own-c")]),
    ];
    let (components, all, kept) = settle_file_update(Some(diag("io")), results);
    let names: Vec<&str> = components.iter().map(|e| e.display_name.as_str()).collect();
    assert_eq!(names, vec!["Button", "Card"]);
    let all_msgs: Vec<&str> = all.iter().map(|d| d.message.as_str()).collect();
    assert_eq!(all_msgs, vec!["io", "hook-b", "own-b", "own-c"]);
    let kept = kept.expect("the update has diagnostics");
    let kept_msgs: Vec<&str> = kept.iter().map(|d| d.message.as_str()).collect();
    assert_eq!(kept_msgs, all_msgs);
}

#[test]
fn settle_file_update_without_diagnostics_clears_the_entry() {
    let results = vec![(entry("Widget", "/src/widget.tsx"), vec![], vec![])];
    let (components, all, kept) = settle_file_update(None, results);
    assert_eq!(components.len(), 1);
    assert!(all.is_empty());
    assert!(kept.is_none());
}

#[test]
fn missing_dirs_error_names_every_dir() {
    let dirs = vec![("/nope/a".to_owned(), false), ("/nope/b".to_owned(), false)];
    let diags = src_dir_diagnostics(&dirs);
    assert_eq!(diags.len(), 1);
    assert_eq!(diags[0].severity, DiagnosticSeverity::Error);
    assert!(diags[0].message.contains("/nope/a"));
    assert!(diags[0].message.contains("/nope/b"));
}

#[test]
fn affected_files_are_closed_under_importers() {
    let deps = ReverseDeps {
        inner: vec![
            ("a".to_owned(), vec!["b".to_owned()]),
            ("b".to_owned(), vec!["c".to_owned(), "a".to_owned()]),
        ],
    };
    let mut affected = deps.affected("a");
    affected.sort();
    assert_eq!(affected, vec!["a".to_owned(), "b".to_owned(), "c".to_owned()]);
}
