use tauri_uninstaller::models::AppEntry;
use tauri_uninstaller::uninstall::residue::{
    add_dir_item, add_file_item, base_name, checked_base_name, checked_name_matches,
    checked_parse_registry_path, checked_residue_report, name_matches, parse_registry_path,
    registry_self_item, remove_residue, removal_method, residue_report, Level1Action,
    RegistryHive, RemovalMethod, ResidueItem, ResidueMatcher,
};

fn app(name: &str, publisher: Option<&str>) -> AppEntry {
    AppEntry {
        name: name.to_string(),
        publisher: publisher.map(|s| s.to_string()),
        version: None,
        size_mb: None,
        install_date: None,
        install_location: None,
        uninstall_string: None,
        fallback_uninstall_string: None,
        display_icon: None,
        registry_key: None,
        source: "registry".to_string(),
        is_system_component: false,
        uninstaller_missing: true,
        is_64bit: None,
        cert_status: None,
    }
}

fn item(kind: &str, path: &str, size: Option<u64>) -> ResidueItem {
    ResidueItem { kind: kind.to_string(), path: path.to_string(), name: String::new(), size_bytes: size, safe: true }
}

#[test]
fn base_name_strips_suffix() {
    assert_eq!(base_name(&app("  Foo App (x64) ", None)), "Foo App");
    assert_eq!(base_name(&app("Tool 64-bit", None)), "Tool");
    assert_eq!(base_name(&app("Editor (ZH-cn)", None)), "Editor");
    assert_eq!(base_name(&app("播放器 - 中文", None)), "播放器");
    assert_eq!(base_name(&app("Plain", None)), "Plain");
}

#[test]
fn base_name_first_suffix_only() {
    assert_eq!(base_name(&app("App 64-bit (x64)", None)), "App 64-bit");
}

#[test]
fn base_name_cut_to_40_bytes() {
    let long = "A".repeat(50);
    assert_eq!(base_name(&app(&long, None)), "A".repeat(40));
}

#[test]
fn base_name_undefined_when_cut_splits_a_character() {
    let name = "测".repeat(15);
    assert_eq!(checked_base_name(&app(&name, None)), None);
    assert_eq!(checked_name_matches(&app(&name, None), "x"), None);
    let ok = "测".repeat(12);
    assert_eq!(checked_base_name(&app(&ok, None)), Some(ok.clone()));
}

#[test]
fn names_match_by_base_or_publisher() {
    let a = app("Visual Studio Code", Some(" Microsoft Corporation "));
    assert!(name_matches(&a, "VISUAL STUDIO CODE.lnk"));
    assert!(name_matches(&a, "microsoft corporation data"));
    assert!(!name_matches(&a, "Code"));
    assert_eq!(checked_name_matches(&a, "x"), Some(false));
}

#[test]
fn short_names_never_match() {
    let a = app("ab", Some("xy"));
    assert!(!name_matches(&a, "ab xy abxy"));
}

#[test]
fn matcher_actions() {
    let m = ResidueMatcher::for_app(&app("FooApp", None)).unwrap();
    assert_eq!(m.level1_action(Some("fooapp"), true), Level1Action::ExpandDir);
    assert_eq!(m.level1_action(Some("FooApp.log"), false), Level1Action::AddFile);
    assert_eq!(m.level1_action(Some("other"), true), Level1Action::Skip);
    assert_eq!(m.level1_action(None, true), Level1Action::Skip);
}

#[test]
fn shortcut_items() {
    let m = ResidueMatcher::for_app(&app("FooApp", None)).unwrap();
    let s = m
        .shortcut_item("C:\\d\\FooApp.lnk".to_string(), Some("FooApp.lnk".to_string()), Some("LNK".to_string()))
        .unwrap();
    assert_eq!(s.kind, "shortcut");
    assert_eq!(s.path, "C:\\d\\FooApp.lnk");
    assert_eq!(s.name, "FooApp.lnk");
    assert!(s.safe);
    assert!(m
        .shortcut_item("C:\\d\\FooApp.url".to_string(), Some("FooApp.url".to_string()), Some("url".to_string()))
        .is_none());
    assert!(m.shortcut_item("p".to_string(), None, Some("lnk".to_string())).is_none());
}

#[test]
fn software_keys() {
    let m = ResidueMatcher::for_app(&app("FooApp (x64)", None)).unwrap();
    let k = m.software_key_item("HKLM", "FOOAPP Settings".to_string()).unwrap();
    assert_eq!(k.path, "HKLM\\Software\\FOOAPP Settings");
    assert_eq!(k.name, "FOOAPP Settings");
    assert_eq!(k.kind, "registry");
    assert!(!k.safe);
    assert!(m.software_key_item("HKCU", "Other".to_string()).is_none());
    let short = ResidueMatcher::for_app(&app("ab", None)).unwrap();
    assert!(short.software_key_item("HKCU", "ab".to_string()).is_none());
}

#[test]
fn registry_self() {
    let mut a = app("X", None);
    assert!(registry_self_item(&a).is_none());
    a.registry_key = Some(String::new());
    assert!(registry_self_item(&a).is_none());
    a.registry_key = Some("HKLM\\{ABC}".to_string());
    let r = registry_self_item(&a).unwrap();
    assert_eq!(r.name, "{ABC}");
    assert_eq!(r.path, "HKLM\\{ABC}");
    assert_eq!(r.kind, "registry");
    assert!(!r.safe);
}

#[test]
fn items_added() {
    let mut out = Vec::new();
    add_file_item("C:\\a\\f.txt".to_string(), "f.txt".to_string(), Some(12), &mut out);
    add_dir_item("C:\\a".to_string(), "a".to_string(), &mut out);
    assert_eq!(out.len(), 2);
    assert_eq!(out[0].kind, "file");
    assert_eq!(out[0].size_bytes, Some(12));
    assert_eq!(out[1].size_bytes, None);
    assert!(out[1].safe);
}

#[test]
fn report_totals() {
    let files = vec![item("file", "a", Some(10)), item("file", "b", None), item("file", "c", Some(5))];
    let r = residue_report(files, vec![], vec![]);
    assert_eq!(r.total_size_bytes, 15);
    assert_eq!(r.files.len(), 3);
    let big = vec![item("file", "a", Some(u64::MAX)), item("file", "b", Some(1))];
    assert!(checked_residue_report(big, vec![], vec![]).is_none());
}

#[test]
fn removal_results() {
    let items = vec![item("file", "a", None), item("registry", "HKLM\\k", None), item("shortcut", "c", None)];
    assert_eq!(removal_method(&items[0]), RemovalMethod::Recycle);
    assert_eq!(removal_method(&items[1]), RemovalMethod::DeleteRegistryKey);
    let r = remove_residue(&items, vec![Ok(()), Err("denied".to_string()), Ok(())]);
    assert_eq!(r.ok, vec!["a".to_string(), "c".to_string()]);
    assert_eq!(r.failed, vec![("HKLM\\k".to_string(), "denied".to_string())]);
}

#[test]
fn registry_paths() {
    let t = parse_registry_path("HKLM\\Software\\Foo").unwrap();
    assert_eq!(t.hive, RegistryHive::LocalMachine);
    assert_eq!(t.parent_path, "Software");
    assert_eq!(t.key_name, "Foo");
    let u = parse_registry_path("hkcu\\\\Bar").unwrap();
    assert_eq!(u.hive, RegistryHive::CurrentUser);
    assert_eq!(u.parent_path, "");
    assert_eq!(u.key_name, "Bar");
    assert_eq!(parse_registry_path("HKCR\\x").unwrap_err(), "不支持的注册表路径: HKCR\\x");
    assert_eq!(parse_registry_path("HKLM\\\\").unwrap_err(), "注册表路径缺少键名");
    assert!(checked_parse_registry_path("HKLM").unwrap().is_err());
}

#[test]
fn name_match_in_context_and_case() {
    let a = app("Visual Studio Code", Some("Microsoft Corporation"));
    assert!(name_matches(&a, "visual studio code"));
    assert!(name_matches(&a, "old-visual studio code.bak"));
    assert!(name_matches(&a, "VISUAL studio CODE"));
    assert!(!name_matches(&a, "visual-studio"));
    assert!(!name_matches(&a, "VISUAL-STUDIO"));
}
