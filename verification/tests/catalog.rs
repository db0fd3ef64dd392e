use artifact_catalog::content::{get_content, ReadOutcome};
use artifact_catalog::flat::scan_flat;
use artifact_catalog::model::{EntryKind, FileMeta, ModuleListing, RawEntry};
use artifact_catalog::modules::scan_modules;

fn file(name: &str) -> RawEntry {
    RawEntry {
        name: name.to_string(),
        kind: EntryKind::File,
        meta: Some(FileMeta { size_bytes: 10, modified_at: "t0".to_string() }),
    }
}

fn dir(name: &str) -> RawEntry {
    RawEntry { name: name.to_string(), kind: EntryKind::Directory, meta: None }
}

fn unreadable(name: &str) -> RawEntry {
    RawEntry { name: name.to_string(), kind: EntryKind::File, meta: None }
}

fn wasm_suffixes() -> Vec<String> {
    vec![".wasm".to_string(), ".js".to_string()]
}

#[test]
fn flat_scan_orders_bytewise() {
    let entries = vec![file("b.cpp"), file("a.cpp"), file("C.cpp")];
    let r = scan_flat(Ok(entries), ".cpp");
    assert!(r.success);
    assert!(r.error.is_none());
    let names: Vec<&str> = r.files.iter().map(|f| f.name.as_str()).collect();
    assert_eq!(names, vec!["C.cpp", "a.cpp", "b.cpp"]);
}

#[test]
fn flat_scan_keeps_exactly_suffixed_files() {
    let entries = vec![
        file("x.cpp"),
        file("notcpp.txt.cpp.bak"),
        file("README.txt"),
        dir("folder.cpp"),
        unreadable("skipped.cpp"),
    ];
    let r = scan_flat(Ok(entries), ".cpp");
    assert!(r.success);
    let names: Vec<&str> = r.files.iter().map(|f| f.name.as_str()).collect();
    assert_eq!(names, vec!["x.cpp"]);
    assert_eq!(r.files[0].size_bytes, 10);
    assert_eq!(r.files[0].modified_at, "t0");
}

#[test]
fn flat_scan_empty_listing_succeeds() {
    let r = scan_flat(Ok(Vec::new()), ".cpp");
    assert!(r.success);
    assert!(r.files.is_empty());
    assert!(r.error.is_none());
}

#[test]
fn flat_scan_failure_envelope() {
    let r = scan_flat(Err("Failed to read directory: boom".to_string()), ".cpp");
    assert!(!r.success);
    assert!(r.files.is_empty());
    assert_eq!(r.error.as_deref(), Some("Failed to read directory: boom"));
}

#[test]
fn flat_scan_is_idempotent() {
    let make = || vec![file("m.cpp"), file("z.cpp"), file("a.cpp"), file("other.txt")];
    let r1 = scan_flat(Ok(make()), ".cpp");
    let r2 = scan_flat(Ok(make()), ".cpp");
    assert_eq!(r1.files, r2.files);
    assert_eq!(r1.success, r2.success);
}

#[test]
fn modules_drop_directories_without_qualifying_files() {
    let listing = vec![
        ModuleListing { name: "docs".to_string(), entries: vec![file("notes.txt")] },
        ModuleListing { name: "alpha".to_string(), entries: vec![file("a.wasm")] },
    ];
    let r = scan_modules(Ok(listing), &wasm_suffixes());
    assert!(r.success);
    assert_eq!(r.modules.len(), 1);
    assert_eq!(r.modules[0].name, "alpha");
}

#[test]
fn modules_and_files_come_sorted() {
    let listing = vec![
        ModuleListing {
            name: "zeta".to_string(),
            entries: vec![file("loader.js"), file("core.wasm")],
        },
        ModuleListing { name: "alpha".to_string(), entries: vec![file("b.wasm"), file("a.wasm")] },
    ];
    let r = scan_modules(Ok(listing), &wasm_suffixes());
    assert!(r.success);
    assert_eq!(r.modules.len(), 2);
    assert_eq!(r.modules[0].name, "alpha");
    assert_eq!(r.modules[1].name, "zeta");
    let alpha: Vec<&str> = r.modules[0].files.iter().map(|f| f.name.as_str()).collect();
    assert_eq!(alpha, vec!["a.wasm", "b.wasm"]);
    let zeta: Vec<&str> = r.modules[1].files.iter().map(|f| f.name.as_str()).collect();
    assert_eq!(zeta, vec!["core.wasm", "loader.js"]);
}

#[test]
fn module_files_carry_their_suffix_class() {
    let listing = vec![ModuleListing {
        name: "m".to_string(),
        entries: vec![file("core.wasm"), file("loader.js")],
    }];
    let r = scan_modules(Ok(listing), &wasm_suffixes());
    assert!(r.success);
    let files = &r.modules[0].files;
    assert_eq!(files[0].name, "core.wasm");
    assert_eq!(files[0].class, 0);
    assert_eq!(files[1].name, "loader.js");
    assert_eq!(files[1].class, 1);
}

#[test]
fn module_with_unlistable_contents_is_dropped() {
    let listing = vec![
        ModuleListing { name: "broken".to_string(), entries: Vec::new() },
        ModuleListing { name: "ok".to_string(), entries: vec![file("x.js")] },
    ];
    let r = scan_modules(Ok(listing), &wasm_suffixes());
    assert!(r.success);
    assert_eq!(r.modules.len(), 1);
    assert_eq!(r.modules[0].name, "ok");
}

#[test]
fn modules_empty_listing_succeeds() {
    let r = scan_modules(Ok(Vec::new()), &wasm_suffixes());
    assert!(r.success);
    assert!(r.modules.is_empty());
    assert!(r.error.is_none());
}

#[test]
fn modules_failure_envelope() {
    let r = scan_modules(Err("Failed to create directory: denied".to_string()), &wasm_suffixes());
    assert!(!r.success);
    assert!(r.modules.is_empty());
    assert_eq!(r.error.as_deref(), Some("Failed to create directory: denied"));
}

#[test]
fn modules_scan_is_idempotent() {
    let make = || {
        vec![
            ModuleListing {
                name: "b".to_string(),
                entries: vec![file("y.js"), file("x.wasm")],
            },
            ModuleListing { name: "a".to_string(), entries: vec![file("z.wasm")] },
        ]
    };
    let r1 = scan_modules(Ok(make()), &wasm_suffixes());
    let r2 = scan_modules(Ok(make()), &wasm_suffixes());
    assert_eq!(r1.modules.len(), r2.modules.len());
    for (m1, m2) in r1.modules.iter().zip(r2.modules.iter()) {
        assert_eq!(m1.name, m2.name);
        assert_eq!(m1.files, m2.files);
    }
}

#[test]
fn content_missing_file() {
    let r = get_content("missing.cpp".to_string(), ReadOutcome::Missing);
    assert!(!r.success);
    assert!(r.content.is_none());
    assert!(r.filename.is_none());
    assert_eq!(r.error.as_deref(), Some("File not found"));
}

#[test]
fn content_loaded_file() {
    let text = "int main() { return 0; }\n";
    let r = get_content("real.cpp".to_string(), ReadOutcome::Loaded(text.to_string()));
    assert!(r.success);
    assert_eq!(r.content.as_deref(), Some(text));
    assert_eq!(r.filename.as_deref(), Some("real.cpp"));
    assert!(r.error.is_none());
}

#[test]
fn content_read_failure_envelope() {
    let r = get_content(
        "real.cpp".to_string(),
        ReadOutcome::Failed("Failed to read file: denied".to_string()),
    );
    assert!(!r.success);
    assert_eq!(r.error.as_deref(), Some("Failed to read file: denied"));
}

#[test]
fn content_refuses_escaping_names() {
    for name in ["../etc/passwd", "a/b.cpp", "..", ".", "", "dir\\x.cpp"] {
        let r = get_content(name.to_string(), ReadOutcome::Loaded("secret".to_string()));
        assert!(!r.success, "name {:?} must be refused", name);
        assert!(r.content.is_none());
        assert_eq!(r.error.as_deref(), Some("Path escapes sandbox root"));
    }
}
