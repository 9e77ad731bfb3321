use tauri_uninstaller::models::AppEntry;
use tauri_uninstaller::uninstall::registry::{
    dedup_sort_entries, non_blank_value, read_entry, read_entry_at, registry_key_path, RegistryValues,
};
use tauri_uninstaller::json::JsonValue;
use tauri_uninstaller::uninstall::uwp::{appx_items, uwp_entries, uwp_entries_from_output, uwp_entry, UwpPackage};
use tauri_uninstaller::uninstall::{
    effective_timeout, enumerate_all, find_app_by_key, force_uninstall_items, lookup_app, plan_uninstall,
    select_uninstall_command, uninstall_outcome,
};

fn s(v: &str) -> Option<String> {
    Some(v.to_string())
}

fn values(name: Option<&str>) -> RegistryValues {
    RegistryValues {
        display_name: name.map(|x| x.to_string()),
        quiet_uninstall_string: None,
        uninstall_string: None,
        publisher: None,
        display_version: None,
        install_location: None,
        display_icon: None,
        install_date: None,
        system_component: None,
        estimated_size: None,
    }
}

fn entry(name: &str, publisher: Option<&str>, key: Option<&str>) -> AppEntry {
    AppEntry {
        name: name.to_string(),
        publisher: publisher.map(|x| x.to_string()),
        version: None,
        size_mb: None,
        install_date: None,
        install_location: None,
        uninstall_string: None,
        fallback_uninstall_string: None,
        display_icon: None,
        registry_key: key.map(|x| x.to_string()),
        source: "registry".to_string(),
        is_system_component: false,
        uninstaller_missing: true,
        is_64bit: None,
        cert_status: None,
    }
}

#[test]
fn entry_requires_display_name() {
    assert!(read_entry(&values(None), "k", true).is_none());
    assert!(read_entry(&values(Some("  \t")), "k", true).is_none());
}

#[test]
fn entry_fields() {
    let mut v = values(Some("App"));
    v.quiet_uninstall_string = s("\"C:\\a\\u.exe\" /S");
    v.uninstall_string = s("C:\\a\\u.exe");
    v.publisher = s("  ");
    v.display_version = s("1.2");
    v.estimated_size = Some(1025);
    v.install_date = s("20240131");
    v.system_component = Some(1);
    let e = read_entry(&v, "AppKey", false).unwrap();
    assert_eq!(e.name, "App");
    assert_eq!(e.uninstall_string.as_deref(), Some("\"C:\\a\\u.exe\" /S"));
    assert_eq!(e.fallback_uninstall_string.as_deref(), Some("C:\\a\\u.exe"));
    assert_eq!(e.publisher, None);
    assert_eq!(e.version.as_deref(), Some("1.2"));
    assert_eq!(e.size_mb, Some(2));
    assert_eq!(e.install_date.as_deref(), Some("2024-01-31"));
    assert!(e.is_system_component);
    assert!(!e.uninstaller_missing);
    assert_eq!(e.is_64bit, Some(false));
    assert_eq!(e.registry_key.as_deref(), Some("AppKey"));
    assert_eq!(e.source, "registry");
    assert!(e.has_uninstaller());
}

#[test]
fn entry_drops_none_command() {
    let mut v = values(Some("App"));
    v.uninstall_string = s("NONE");
    v.estimated_size = Some(1024);
    v.install_date = s("2024-1-1");
    let e = read_entry(&v, "k", true).unwrap();
    assert_eq!(e.uninstall_string, None);
    assert_eq!(e.fallback_uninstall_string.as_deref(), Some("NONE"));
    assert!(!e.uninstaller_missing);
    assert_eq!(e.size_mb, Some(1));
    assert_eq!(e.install_date, None);
}

#[test]
fn entry_without_commands() {
    let e = read_entry(&values(Some("App")), "k", true).unwrap();
    assert!(e.uninstaller_missing);
    assert!(!e.has_uninstaller());
    assert_eq!(e.size_mb, None);
}

#[test]
fn entry_key_paths() {
    let path = "Software\\Microsoft\\Windows\\CurrentVersion\\Uninstall";
    assert_eq!(
        registry_key_path(true, path, "X"),
        "HKLM\\Software\\Microsoft\\Windows\\CurrentVersion\\Uninstall\\X"
    );
    assert_eq!(registry_key_path(false, "A\\B", "X"), "HKCU\\A\\B\\X");
    let e = read_entry_at(&values(Some("App")), path, "Sub", true, false).unwrap();
    assert_eq!(
        e.registry_key.as_deref(),
        Some("HKCU\\Software\\Microsoft\\Windows\\CurrentVersion\\Uninstall\\Sub")
    );
    assert_eq!(e.is_64bit, Some(true));
    assert!(read_entry_at(&values(None), path, "Sub", true, true).is_none());
    assert_eq!(non_blank_value(&s(" ")), None);
    assert_eq!(non_blank_value(&s(" a ")).as_deref(), Some(" a "));
}

#[test]
fn dedup_and_sort() {
    let list = vec![
        entry("beta", Some("P"), Some("1")),
        entry("Alpha", None, Some("2")),
        entry("BETA", Some("p"), Some("3")),
        entry("beta", Some("Q"), Some("4")),
        entry("alpha", Some(""), Some("5")),
        entry("Gamma", None, Some("6")),
    ];
    let out = dedup_sort_entries(list);
    let keys: Vec<&str> = out.iter().map(|e| e.registry_key.as_deref().unwrap()).collect();
    assert_eq!(keys, vec!["2", "1", "4", "6"]);
}

#[test]
fn dedup_prefers_entries_with_a_command() {
    let mut with_command = entry("BETA", Some("p"), Some("3"));
    with_command.uninstall_string = s("u.exe");
    let mut later_fallback = entry("alpha", Some(""), Some("5"));
    later_fallback.fallback_uninstall_string = s("f.exe");
    let mut second_with_command = entry("Beta", Some("P"), Some("7"));
    second_with_command.uninstall_string = s("v.exe");
    let list = vec![
        entry("beta", Some("P"), Some("1")),
        entry("Alpha", None, Some("2")),
        with_command,
        entry("beta", Some("Q"), Some("4")),
        later_fallback,
        entry("Gamma", None, Some("6")),
        second_with_command,
    ];
    let out = dedup_sort_entries(list);
    let keys: Vec<&str> = out.iter().map(|e| e.registry_key.as_deref().unwrap()).collect();
    assert_eq!(keys, vec!["5", "3", "4", "6"]);
    assert!(out[0].has_uninstaller());
    assert!(out[1].has_uninstaller());
    assert!(!out[2].has_uninstaller());
}

#[test]
fn uwp_packages() {
    let pkg = |name: Option<&str>, arch: Option<&str>| UwpPackage {
        name: name.map(|x| x.to_string()),
        publisher: s("CN=Pub"),
        version: s("1.0"),
        install_location: s("C:\\Apps\\X"),
        architecture: arch.map(|x| x.to_string()),
    };
    let e = uwp_entry(pkg(Some("Calc"), Some("X64"))).unwrap();
    assert_eq!(e.source, "uwp");
    assert_eq!(e.is_64bit, Some(true));
    assert!(!e.uninstaller_missing);
    assert_eq!(e.publisher.as_deref(), Some("CN=Pub"));
    let list = uwp_entries(vec![pkg(Some("A"), Some("Arm")), pkg(None, None), pkg(Some(""), None), pkg(Some("B"), None)]);
    assert_eq!(list.len(), 2);
    assert_eq!(list[0].is_64bit, Some(false));
    assert_eq!(list[1].name, "B");
    assert_eq!(list[1].is_64bit, None);
}

#[test]
fn uwp_listing_array() {
    let text = "  [{\"Name\":\"Calc\",\"Publisher\":\"CN=Pub\",\"Version\":\"1.2\",\"InstallLocation\":\"C:\\\\Apps\\\\Calc\",\"Architecture\":\"X64\",\"IsBundle\":false},{\"Name\":\"\"},{\"Publisher\":\"P\"},{\"Name\":\"Photos\",\"Architecture\":9}]\r\n";
    let list = uwp_entries_from_output(true, text);
    assert_eq!(list.len(), 2);
    assert_eq!(list[0].name, "Calc");
    assert_eq!(list[0].publisher.as_deref(), Some("CN=Pub"));
    assert_eq!(list[0].version.as_deref(), Some("1.2"));
    assert_eq!(list[0].install_location.as_deref(), Some("C:\\Apps\\Calc"));
    assert_eq!(list[0].is_64bit, Some(true));
    assert_eq!(list[0].source, "uwp");
    assert_eq!(list[1].name, "Photos");
    assert_eq!(list[1].is_64bit, None);
    assert_eq!(list[1].publisher, None);
}

#[test]
fn uwp_listing_single_object() {
    let list = uwp_entries_from_output(true, "{\"Name\":\"Mail\",\"Architecture\":\"Arm\"}");
    assert_eq!(list.len(), 1);
    assert_eq!(list[0].name, "Mail");
    assert_eq!(list[0].is_64bit, Some(false));
    assert!(!list[0].uninstaller_missing);
}

#[test]
fn uwp_listing_failures() {
    let one = "{\"Name\":\"Mail\"}";
    assert!(uwp_entries_from_output(false, one).is_empty());
    assert!(uwp_entries_from_output(true, "  \r\n").is_empty());
    assert!(uwp_entries_from_output(true, "not json").is_empty());
    assert!(uwp_entries_from_output(true, "\"Mail\"").is_empty());
    assert!(uwp_entries_from_output(true, "42").is_empty());
    assert!(uwp_entries_from_output(true, "[]").is_empty());
    assert!(uwp_entries_from_output(true, "[1, \"x\", null]").is_empty());
}

fn member(k: &str, v: JsonValue) -> (String, JsonValue) {
    (k.to_string(), v)
}

#[test]
fn appx_items_of_values() {
    let obj = JsonValue::Object(vec![
        member("Name", JsonValue::Str("A".to_string())),
        member("Name", JsonValue::Str("B".to_string())),
        member("Publisher", JsonValue::Number),
        member("Version", JsonValue::Str("2.0".to_string())),
        member("Architecture", JsonValue::Null),
    ]);
    let one = appx_items(&obj);
    assert_eq!(one.len(), 1);
    assert_eq!(one[0].name.as_deref(), Some("A"));
    assert_eq!(one[0].publisher, None);
    assert_eq!(one[0].version.as_deref(), Some("2.0"));
    assert_eq!(one[0].install_location, None);
    assert_eq!(one[0].architecture, None);
    let arr = JsonValue::Array(vec![JsonValue::Bool(true), obj, JsonValue::Array(vec![])]);
    let three = appx_items(&arr);
    assert_eq!(three.len(), 3);
    assert_eq!(three[0].name, None);
    assert_eq!(three[1].name.as_deref(), Some("A"));
    assert_eq!(three[2].name, None);
    assert!(appx_items(&JsonValue::Str("Name".to_string())).is_empty());
    assert!(appx_items(&JsonValue::Null).is_empty());
    assert!(appx_items(&JsonValue::Number).is_empty());
}

#[test]
fn all_apps_and_lookup() {
    let all = enumerate_all(vec![entry("a", None, Some("k1"))], vec![entry("b", None, None)]);
    assert_eq!(all.len(), 2);
    assert_eq!(all[1].name, "b");
    let apps = vec![entry("a", None, Some("k1")), entry("b", None, Some("k2")), entry("c", None, Some("k2"))];
    assert_eq!(find_app_by_key(apps.clone(), "k2").unwrap().name, "b");
    assert!(find_app_by_key(apps.clone(), "k3").is_none());
    assert_eq!(lookup_app(apps, "zz").unwrap_err(), "未找到应用: zz");
}

#[test]
fn uninstall_commands() {
    let mut a = entry("a", None, None);
    assert_eq!(select_uninstall_command(&a), Err("该应用没有可用的卸载命令".to_string()));
    assert_eq!(plan_uninstall(&a, None, None).err().unwrap(), "该应用没有可用的卸载命令");
    a.fallback_uninstall_string = s("fb.exe");
    assert_eq!(select_uninstall_command(&a), Ok("fb.exe".to_string()));
    a.uninstall_string = s("main.exe /x");
    let p = plan_uninstall(&a, None, None).unwrap();
    assert_eq!(p.parsed.program, "main.exe");
    assert!(p.silent);
    assert_eq!(p.timeout_secs, 60);
    let q = plan_uninstall(&a, Some(false), None).unwrap();
    assert_eq!(q.timeout_secs, 180);
    let r = plan_uninstall(&a, Some(false), Some(7)).unwrap();
    assert_eq!(r.timeout_secs, 7);
    a.uninstall_string = s("\"\" /x");
    assert_eq!(plan_uninstall(&a, None, None).err().unwrap(), "无法解析卸载命令: \"\" /x");
}

#[test]
fn timeouts() {
    assert_eq!(effective_timeout(true, true, 60), 5);
    assert_eq!(effective_timeout(true, false, 60), 60);
    assert_eq!(effective_timeout(false, true, 180), 180);
}

#[test]
fn outcomes() {
    let t = uninstall_outcome(42, true, Some(1), 60, 61);
    assert_eq!(t.status, "timed_out");
    assert_eq!(t.exit_code, None);
    assert_eq!(t.message, "卸载器运行超过 60 秒仍未结束，可能弹出了交互窗口或已挂起");
    assert_eq!(t.pid, Some(42));
    assert_eq!(t.waited_secs, 61);
    let f = uninstall_outcome(42, false, Some(0), 5, 3);
    assert_eq!(f.status, "finished");
    assert_eq!(f.message, "卸载命令已执行完成");
    assert_eq!(f.waited_secs, 3);
    let e = uninstall_outcome(42, false, Some(-1603), 60, 12);
    assert_eq!(e.status, "failed");
    assert_eq!(e.exit_code, Some(-1603));
    assert_eq!(e.message, "卸载器退出，退出码 -1603");
    let n = uninstall_outcome(42, false, None, 180, 0);
    assert_eq!(n.status, "finished");
    assert_eq!(n.message, "卸载命令已执行完成（无退出码）");
}

#[test]
fn forced_uninstall_items() {
    let mut a = entry("a", None, Some("HKLM\\App"));
    a.install_location = s("C:\\Program Files\\App");
    let only_key = force_uninstall_items(&a, false);
    assert_eq!(only_key.len(), 1);
    assert_eq!(only_key[0].name, "App");
    assert!(!only_key[0].safe);
    let both = force_uninstall_items(&a, true);
    assert_eq!(both.len(), 2);
    assert_eq!(both[1].kind, "file");
    assert_eq!(both[1].name, "App");
    assert!(both[1].safe);
    a.registry_key = None;
    a.install_location = s("");
    assert!(force_uninstall_items(&a, true).is_empty());
}
