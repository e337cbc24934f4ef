use module_tree::{
    identifier_for, include_all_modules, include_folder, path_final_segment, render, sanitize,
    scan, stem_with_extension, MAX_DEPTH, DeclarationEntry, EntryKind, FsEntry, Listing, ScanError,
};

fn file(path: &str) -> FsEntry {
    FsEntry {
        name: path.rsplit('/').next().unwrap().to_string(),
        path: path.to_string(),
        kind: EntryKind::File,
    }
}

fn dir(path: &str, entries: Vec<FsEntry>) -> FsEntry {
    FsEntry {
        name: path.rsplit('/').next().unwrap().to_string(),
        path: path.to_string(),
        kind: EntryKind::Dir(Listing::Entries(entries)),
    }
}

fn unreadable(path: &str, cause: &str) -> FsEntry {
    FsEntry {
        name: path.rsplit('/').next().unwrap().to_string(),
        path: path.to_string(),
        kind: EntryKind::Dir(Listing::Unreadable(cause.to_string())),
    }
}

fn names(list: &[&str]) -> Vec<String> {
    list.iter().map(|s| s.to_string()).collect()
}

fn leaf(id: &str) -> DeclarationEntry {
    DeclarationEntry::LeafModule { identifier: id.to_string() }
}

fn namespace(id: &str, children: Vec<DeclarationEntry>) -> DeclarationEntry {
    DeclarationEntry::NestedNamespace { identifier: id.to_string(), children }
}

#[test]
fn test_include_folder_functionality() {
    let root = dir(
        "/tmp/t",
        vec![
            dir("/tmp/t/nested", vec![file("/tmp/t/nested/deep.rs")]),
            file("/tmp/t/code.rs"),
            file("/tmp/t/mod.rs"),
        ],
    );
    let generated = scan(&root, &names(&["mod.rs"]), "rs", MAX_DEPTH).unwrap();
    assert_eq!(render(&generated), "pub mod nested { pub mod deep ; } pub mod code ;");
}

// Ignored names are skipped at every depth, so `utils/lib.rs` is skipped too.
#[test]
fn test_include_all_modules_functionality() {
    let root = dir(
        "/tmp/s",
        vec![
            file("/tmp/s/lib.rs"),
            file("/tmp/s/main.rs"),
            file("/tmp/s/mod.rs"),
            dir(
                "/tmp/s/utils",
                vec![file("/tmp/s/utils/lib.rs"), file("/tmp/s/utils/string_helpers.rs")],
            ),
            file("/tmp/s/api.rs"),
        ],
    );
    let generated = scan(&root, &names(&["lib.rs", "main.rs", "mod.rs"]), "rs", MAX_DEPTH).unwrap();
    assert_eq!(render(&generated), "pub mod utils { pub mod string_helpers ; } pub mod api ;");
    assert_eq!(include_all_modules(&root).unwrap(), generated);
}

#[test]
fn only_ignored_names_scan_to_nothing() {
    let root = dir(
        "/r",
        vec![
            file("/r/mod.rs"),
            dir("/r/mod.rs.d", vec![]),
            unreadable("/r/main.rs", "denied"),
        ],
    );
    let ignore = names(&["mod.rs", "main.rs", "mod.rs.d"]);
    assert_eq!(scan(&root, &ignore, "rs", MAX_DEPTH), Ok(vec![]));
}

#[test]
fn one_source_beside_ignored_gives_one_leaf() {
    let ignore = names(&["mod.rs"]);
    let a = dir("/r", vec![file("/r/code.rs"), file("/r/mod.rs")]);
    let b = dir("/r", vec![file("/r/mod.rs"), file("/r/code.rs")]);
    assert_eq!(scan(&a, &ignore, "rs", MAX_DEPTH), Ok(vec![leaf("code")]));
    assert_eq!(scan(&b, &ignore, "rs", MAX_DEPTH), Ok(vec![leaf("code")]));
}

#[test]
fn pruning_is_transitive() {
    let root = dir(
        "/r",
        vec![
            dir(
                "/r/a",
                vec![
                    dir("/r/a/b", vec![dir("/r/a/b/c", vec![file("/r/a/b/c/notes.txt")])]),
                    file("/r/a/README"),
                ],
            ),
            file("/r/x.rs"),
        ],
    );
    assert_eq!(scan(&root, &names(&[]), "rs", MAX_DEPTH), Ok(vec![leaf("x")]));
}

#[test]
fn scanning_twice_gives_identical_output() {
    let root = dir(
        "/r",
        vec![dir("/r/n", vec![file("/r/n/d.rs")]), file("/r/c.rs"), file("/r/mod.rs")],
    );
    let ignore = names(&["mod.rs"]);
    let first = scan(&root, &ignore, "rs", MAX_DEPTH);
    let second = scan(&root, &ignore, "rs", MAX_DEPTH);
    assert_eq!(first, second);
    assert_eq!(first, Ok(vec![namespace("n", vec![leaf("d")]), leaf("c")]));
}

#[test]
fn folder_wrapper_named_after_final_segment() {
    let root = dir("/m/src/my.thing", vec![file("/m/src/my.thing/a.rs")]);
    let d = include_folder("src/my.thing", &root).unwrap();
    assert_eq!(d, namespace("my_thing", vec![leaf("a")]));
    assert_eq!(render(&vec![d]), "pub mod my_thing { pub mod a ; }");
}

#[test]
fn folder_wrapper_of_empty_folder() {
    let root = dir("/m/src/empty", vec![file("/m/src/empty/mod.rs")]);
    let d = include_folder("src/empty/", &root).unwrap();
    assert_eq!(d, namespace("empty", vec![]));
    assert_eq!(render(&vec![d]), "pub mod empty { }");
}

#[test]
fn folder_path_without_final_segment() {
    let root = dir("/m/..", vec![]);
    assert_eq!(
        include_folder("src/..", &root),
        Err(ScanError::InvalidIdentifier {
            path: "/m/..".to_string(),
            original: "src/..".to_string(),
        })
    );
}

#[test]
fn folder_named_by_keyword_is_rejected() {
    let root = dir("/m/src/fn", vec![file("/m/src/fn/a.rs")]);
    assert_eq!(
        include_folder("src/fn", &root),
        Err(ScanError::InvalidIdentifier {
            path: "/m/src/fn".to_string(),
            original: "fn".to_string(),
        })
    );
}

#[test]
fn scenario_source_and_ignored_aggregator() {
    let root = dir("/r", vec![file("/r/code.rs"), file("/r/mod.rs")]);
    assert_eq!(scan(&root, &names(&["mod.rs"]), "rs", MAX_DEPTH), Ok(vec![leaf("code")]));
}

#[test]
fn scenario_nested_directory_before_file() {
    let root = dir(
        "/r",
        vec![dir("/r/nested", vec![file("/r/nested/deep.rs")]), file("/r/code.rs")],
    );
    assert_eq!(
        scan(&root, &names(&["mod.rs"]), "rs", MAX_DEPTH),
        Ok(vec![namespace("nested", vec![leaf("deep")]), leaf("code")])
    );
}

#[test]
fn scenario_listing_order_is_kept() {
    let root = dir(
        "/r",
        vec![file("/r/code.rs"), dir("/r/nested", vec![file("/r/nested/deep.rs")])],
    );
    assert_eq!(
        scan(&root, &names(&["mod.rs"]), "rs", MAX_DEPTH),
        Ok(vec![leaf("code"), namespace("nested", vec![leaf("deep")])])
    );
}

#[test]
fn scenario_only_ignored_aggregator() {
    let root = dir("/r", vec![file("/r/mod.rs")]);
    assert_eq!(scan(&root, &names(&["mod.rs"]), "rs", MAX_DEPTH), Ok(vec![]));
}

#[test]
fn scenario_root_is_a_file() {
    let root = file("/r/code.rs");
    assert_eq!(
        scan(&root, &names(&["mod.rs"]), "rs", MAX_DEPTH),
        Err(ScanError::NotADirectory { path: "/r/code.rs".to_string() })
    );
}

#[test]
fn scenario_root_does_not_exist() {
    let root = FsEntry {
        name: "missing".to_string(),
        path: "/r/missing".to_string(),
        kind: EntryKind::Other,
    };
    assert_eq!(
        include_all_modules(&root),
        Err(ScanError::NotADirectory { path: "/r/missing".to_string() })
    );
    assert_eq!(
        include_folder("missing", &root),
        Err(ScanError::NotADirectory { path: "/r/missing".to_string() })
    );
}

#[test]
fn scenario_selective_ignore_list() {
    let root = dir(
        "/r",
        vec![
            dir("/r/utils", vec![file("/r/utils/entry.rs"), file("/r/utils/helpers.rs")]),
            file("/r/entry.rs"),
            file("/r/api.rs"),
        ],
    );
    let ignore = names(&["entry.rs", "main.rs", "mod.rs"]);
    assert_eq!(
        scan(&root, &ignore, "rs", MAX_DEPTH),
        Ok(vec![namespace("utils", vec![leaf("helpers")]), leaf("api")])
    );
}

#[test]
fn unreadable_directory_aborts_the_scan() {
    let root = dir(
        "/r",
        vec![
            file("/r/a.rs"),
            dir("/r/sub", vec![unreadable("/r/sub/deep", "permission denied")]),
            file("/r/b.rs"),
        ],
    );
    assert_eq!(
        scan(&root, &names(&[]), "rs", MAX_DEPTH),
        Err(ScanError::Unreadable {
            path: "/r/sub/deep".to_string(),
            cause: "permission denied".to_string(),
        })
    );
}

#[test]
fn unreadable_root() {
    let root = unreadable("/r", "gone");
    assert_eq!(
        scan(&root, &names(&[]), "rs", MAX_DEPTH),
        Err(ScanError::Unreadable { path: "/r".to_string(), cause: "gone".to_string() })
    );
}

#[test]
fn first_failure_in_listing_order_is_reported() {
    let root = dir(
        "/r",
        vec![file("/r/2d.rs"), unreadable("/r/later", "denied")],
    );
    assert_eq!(
        scan(&root, &names(&[]), "rs", MAX_DEPTH),
        Err(ScanError::InvalidIdentifier {
            path: "/r/2d.rs".to_string(),
            original: "2d.rs".to_string(),
        })
    );
}

#[test]
fn keyword_file_name_is_invalid() {
    let root = dir("/r", vec![file("/r/type.rs")]);
    assert_eq!(
        scan(&root, &names(&[]), "rs", MAX_DEPTH),
        Err(ScanError::InvalidIdentifier {
            path: "/r/type.rs".to_string(),
            original: "type.rs".to_string(),
        })
    );
}

#[test]
fn empty_directory_with_invalid_name_is_pruned_not_rejected() {
    let root = dir("/r", vec![dir("/r/fn", vec![file("/r/fn/x.txt")]), file("/r/a.rs")]);
    assert_eq!(scan(&root, &names(&[]), "rs", MAX_DEPTH), Ok(vec![leaf("a")]));
    let bad = dir("/r", vec![dir("/r/fn", vec![file("/r/fn/x.rs")])]);
    assert_eq!(
        scan(&bad, &names(&[]), "rs", MAX_DEPTH),
        Err(ScanError::InvalidIdentifier { path: "/r/fn".to_string(), original: "fn".to_string() })
    );
}

#[test]
fn names_are_sanitized() {
    let root = dir(
        "/r",
        vec![dir("/r/my-dir", vec![file("/r/my-dir/a b.rs")]), file("/r/x.y.rs")],
    );
    assert_eq!(
        scan(&root, &names(&[]), "rs", MAX_DEPTH),
        Ok(vec![namespace("my_dir", vec![leaf("a_b")]), leaf("x_y")])
    );
}

#[test]
fn other_extensions_and_other_kinds_are_skipped() {
    let other = FsEntry {
        name: "link.rs".to_string(),
        path: "/r/link.rs".to_string(),
        kind: EntryKind::Other,
    };
    let root = dir(
        "/r",
        vec![file("/r/a.txt"), file("/r/B.RS"), file("/r/.rs"), file("/r/Makefile"), other],
    );
    assert_eq!(scan(&root, &names(&[]), "rs", MAX_DEPTH), Ok(vec![]));
}

#[test]
fn other_accepted_extension() {
    let root = dir("/r", vec![file("/r/a.rs"), file("/r/b.py")]);
    assert_eq!(scan(&root, &names(&[]), "py", MAX_DEPTH), Ok(vec![leaf("b")]));
}

#[test]
fn sanitize_replaces_dots_and_other_characters() {
    assert_eq!(sanitize("my.thing"), "my_thing");
    assert_eq!(sanitize("a-b c"), "a_b_c");
    assert_eq!(sanitize("caf\u{e9}"), "caf_");
    assert_eq!(sanitize("Ok_9"), "Ok_9");
    assert_eq!(sanitize(""), "");
}

#[test]
fn identifiers_are_checked_by_the_parser() {
    assert_eq!(identifier_for("abc"), Some("abc".to_string()));
    assert_eq!(identifier_for("my.thing"), Some("my_thing".to_string()));
    assert_eq!(identifier_for("fn"), None);
    assert_eq!(identifier_for("_"), None);
    assert_eq!(identifier_for("2d"), None);
    assert_eq!(identifier_for(""), None);
    assert_eq!(identifier_for("_private"), Some("_private".to_string()));
}

#[test]
fn stems_follow_the_last_dot() {
    assert_eq!(stem_with_extension("code.rs", "rs"), Some("code".to_string()));
    assert_eq!(stem_with_extension("a.b.rs", "rs"), Some("a.b".to_string()));
    assert_eq!(stem_with_extension(".rs", "rs"), None);
    assert_eq!(stem_with_extension("code.rs.bak", "rs"), None);
    assert_eq!(stem_with_extension("code", "rs"), None);
    assert_eq!(stem_with_extension("code.RS", "rs"), None);
}

#[test]
fn final_segments_of_paths() {
    assert_eq!(path_final_segment("src/a.b"), Some("a.b".to_string()));
    assert_eq!(path_final_segment("src/a.b/"), Some("a.b".to_string()));
    assert_eq!(path_final_segment("a/./"), Some("a".to_string()));
    assert_eq!(path_final_segment("plain"), Some("plain".to_string()));
    assert_eq!(path_final_segment("a/.."), None);
    assert_eq!(path_final_segment("/"), None);
    assert_eq!(path_final_segment("."), None);
    assert_eq!(path_final_segment(""), None);
}

#[test]
fn rendering_an_empty_tree() {
    assert_eq!(render(&vec![]), "");
}

#[test]
fn directories_past_the_depth_limit_fail() {
    let root = dir(
        "/r",
        vec![dir("/r/a", vec![dir("/r/a/b", vec![file("/r/a/b/x.rs")])])],
    );
    assert_eq!(
        scan(&root, &names(&[]), "rs", 1),
        Err(ScanError::TooDeep { path: "/r/a/b".to_string() })
    );
    assert_eq!(
        scan(&root, &names(&[]), "rs", 2),
        Ok(vec![namespace("a", vec![namespace("b", vec![leaf("x")])])])
    );
    assert_eq!(
        scan(&root, &names(&[]), "rs", 0),
        Err(ScanError::TooDeep { path: "/r/a".to_string() })
    );
}

#[test]
fn ignored_directories_do_not_count_against_the_depth_limit() {
    let root = dir("/r", vec![dir("/r/target", vec![]), file("/r/a.rs")]);
    assert_eq!(scan(&root, &names(&["target"]), "rs", 0), Ok(vec![leaf("a")]));
}

#[test]
fn every_reserved_word_is_rejected() {
    for w in ["_", "abstract", "as", "async", "await", "become", "box", "break", "const",
        "continue", "crate", "do", "dyn", "else", "enum", "extern", "false", "final", "fn", "for",
        "if", "impl", "in", "let", "loop", "macro", "match", "mod", "move", "mut", "override",
        "priv", "pub", "ref", "return", "Self", "self", "static", "struct", "super", "trait",
        "true", "try", "type", "typeof", "unsafe", "unsized", "use", "virtual", "where", "while",
        "yield"]
    {
        assert_eq!(identifier_for(w), None, "{}", w);
    }
    assert_eq!(identifier_for("gen"), Some("gen".to_string()));
    assert_eq!(identifier_for("r#fn"), Some("r_fn".to_string()));
}
