use react_docgen_core::import_map::{ImportResolutionMap, ReExportStep};
use react_docgen_core::types::{GlobalSourceData, ImportBinding, LexedExport};

fn make_global(imports: Vec<(&str, Vec<ImportBinding>)>, exports: Vec<(&str, Vec<LexedExport>)>) -> GlobalSourceData {
    let mut g = GlobalSourceData::default();
    for (path, bindings) in imports {
        g.import_map.push((path.to_owned(), bindings));
    }
    for (path, exps) in exports {
        g.re_export_map.push((path.to_owned(), exps));
    }
    g
}

fn make_binding(local_name: &str, exported_name: &str, specifier: &str, is_type_only: bool) -> ImportBinding {
    ImportBinding {
        local_name: local_name.to_owned(),
        exported_name: exported_name.to_owned(),
        specifier: specifier.to_owned(),
        is_type_only,
    }
}

#[test]
fn test_named_import_lookup() {
    let file = "/project/src/Button.tsx";
    let global = make_global(
        vec![(file, vec![make_binding("ButtonProps", "ButtonProps", "@radix-ui/react-button", false)])],
        vec![],
    );
    let map = ImportResolutionMap::build(&global);
    let result = map.find_import(file, "ButtonProps").expect("should find import");
    assert_eq!(result.specifier, "@radix-ui/react-button");
    assert_eq!(result.exported_name.as_str(), "ButtonProps");
    assert!(!result.is_type_only);
}

#[test]
fn test_named_import_not_found() {
    let global = make_global(vec![], vec![]);
    let map = ImportResolutionMap::build(&global);
    assert!(map.find_import("/project/src/Button.tsx", "LocalType").is_none());
}

#[test]
fn test_renamed_import() {
    // import { Button as Btn } from "@radix-ui/react-button"
    let file = "/project/src/Wrapper.tsx";
    let global = make_global(vec![(file, vec![make_binding("Btn", "Button", "@radix-ui/react-button", false)])], vec![]);
    let map = ImportResolutionMap::build(&global);
    let result = map.find_import(file, "Btn").expect("should find renamed import");
    assert_eq!(result.exported_name.as_str(), "Button");
    assert_eq!(result.specifier, "@radix-ui/react-button");
    // The original name is not a local binding in this file.
    assert!(map.find_import(file, "Button").is_none());
}

#[test]
fn test_reexport_named_chain() {
    // index.ts: export { Foo as Bar } from "./foo"
    let barrel = "/project/src/index.ts";
    let global = make_global(
        vec![],
        vec![(
            barrel,
            vec![LexedExport::ReExportNamed {
                local_name: "Bar".to_owned(),
                source_name: "Foo".to_owned(),
                source_specifier: "./foo".to_owned(),
                is_type_only: false,
            }],
        )],
    );
    let map = ImportResolutionMap::build(&global);
    match map.resolve_reexport_chain(barrel, "Bar", &global) {
        Some(ReExportStep::Named { source_specifier, source_name }) => {
            assert_eq!(source_specifier, "./foo");
            assert_eq!(source_name, "Foo");
        },
        other => panic!("expected Named, got {:?}", other),
    }
}

#[test]
fn test_reexport_named_no_match() {
    let barrel = "/project/src/index.ts";
    let global = make_global(
        vec![],
        vec![(
            barrel,
            vec![LexedExport::ReExportNamed {
                local_name: "Bar".to_owned(),
                source_name: "Foo".to_owned(),
                source_specifier: "./foo".to_owned(),
                is_type_only: false,
            }],
        )],
    );
    let map = ImportResolutionMap::build(&global);
    assert!(map.resolve_reexport_chain(barrel, "Baz", &global).is_none());
}

#[test]
fn test_reexport_all() {
    // index.ts: export * from "./types"
    let barrel = "/project/src/index.ts";
    let global = make_global(
        vec![],
        vec![(barrel, vec![LexedExport::ReExportAll { source_specifier: "./types".to_owned(), is_type_only: false }])],
    );
    let map = ImportResolutionMap::build(&global);
    let wildcards = map.wildcard_sources_for(barrel);
    assert_eq!(wildcards, &["./types"]);
    match map.resolve_reexport_chain(barrel, "AnyName", &global) {
        Some(ReExportStep::Wildcards(specs)) => assert_eq!(specs, vec!["./types"]),
        other => panic!("expected Wildcards, got {:?}", other),
    }
}

#[test]
fn test_reexport_named_takes_priority_over_wildcard() {
    let barrel = "/project/src/index.ts";
    let global = make_global(
        vec![],
        vec![(
            barrel,
            vec![
                LexedExport::ReExportAll { source_specifier: "./everything".to_owned(), is_type_only: false },
                LexedExport::ReExportNamed {
                    local_name: "Target".to_owned(),
                    source_name: "Target".to_owned(),
                    source_specifier: "./target".to_owned(),
                    is_type_only: false,
                },
            ],
        )],
    );
    let map = ImportResolutionMap::build(&global);
    match map.resolve_reexport_chain(barrel, "Target", &global) {
        Some(ReExportStep::Named { source_specifier, source_name }) => {
            assert_eq!(source_specifier, "./target");
            assert_eq!(source_name, "Target");
        },
        other => panic!("expected Named, got {:?}", other),
    }
}

#[test]
fn test_wildcard_sources_empty() {
    let global = make_global(vec![], vec![]);
    let map = ImportResolutionMap::build(&global);
    assert!(map.wildcard_sources_for("/project/src/no-wildcards.ts").is_empty());
}

#[test]
fn test_multiple_files() {
    let file_a = "/project/src/A.tsx";
    let file_b = "/project/src/B.tsx";
    let global = make_global(
        vec![
            (file_a, vec![make_binding("Foo", "Foo", "./foo", true)]),
            (file_b, vec![make_binding("Foo", "Foo", "./other-foo", false)]),
        ],
        vec![],
    );
    let map = ImportResolutionMap::build(&global);
    let a = map.find_import(file_a, "Foo").expect("A should have Foo");
    assert_eq!(a.specifier, "./foo");
    assert!(a.is_type_only);
    let b = map.find_import(file_b, "Foo").expect("B should have Foo");
    assert_eq!(b.specifier, "./other-foo");
    assert!(!b.is_type_only);
}

#[test]
fn a_later_binding_of_the_same_name_replaces_an_earlier_one() {
    let file = "/project/src/A.tsx";
    let global = make_global(
        vec![(file, vec![make_binding("Foo", "Foo", "./first", false), make_binding("Foo", "Bar", "./second", true)])],
        vec![],
    );
    let map = ImportResolutionMap::build(&global);
    let r = map.find_import(file, "Foo").expect("Foo is imported");
    assert_eq!(r.specifier, "./second");
    assert_eq!(r.exported_name, "Bar");
}

#[test]
fn wildcards_collected_before_a_named_match_do_not_hide_it() {
    let barrel = "/project/src/index.ts";
    let global = make_global(
        vec![],
        vec![(
            barrel,
            vec![
                LexedExport::ReExportAll { source_specifier: "./a".to_owned(), is_type_only: false },
                LexedExport::LocalDeclaration { name: "Local".to_owned(), is_type_only: false },
                LexedExport::ReExportAll { source_specifier: "./b".to_owned(), is_type_only: true },
            ],
        )],
    );
    let map = ImportResolutionMap::build(&global);
    assert_eq!(map.wildcard_sources_for(barrel), &["./a", "./b"]);
    match map.resolve_reexport_chain(barrel, "Missing", &global) {
        Some(ReExportStep::Wildcards(specs)) => assert_eq!(specs, vec!["./a", "./b"]),
        other => panic!("expected Wildcards, got {:?}", other),
    }
}
