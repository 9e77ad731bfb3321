use tauri_uninstaller::icon::{bgra_to_rgba, clean_path, icon_not_found, icon_png_from_bgra, icon_source};
use tauri_uninstaller::text::{i32_text, u64_text};
use tauri_uninstaller::uninstaller::{expand_env, installed_app, sort_installed_apps, InstalledValues};

fn vars() -> Vec<(String, String)> {
    vec![
        ("ProgramFiles".to_string(), "C:\\Program Files".to_string()),
        ("A".to_string(), "%B%".to_string()),
        ("B".to_string(), "b".to_string()),
    ]
}

fn values(name: Option<&str>) -> InstalledValues {
    InstalledValues {
        system_component: None,
        release_type: None,
        display_name: name.map(|x| x.to_string()),
        display_version: None,
        publisher: None,
        install_location: Some("%ProgramFiles%\\App".to_string()),
        uninstall_string: None,
        quiet_uninstall_string: None,
        estimated_size: Some(2047),
        display_icon: None,
    }
}

#[test]
fn env_expansion() {
    assert_eq!(expand_env("%ProgramFiles%\\X %ProgramFiles%", &vars()), "C:\\Program Files\\X C:\\Program Files");
    assert_eq!(expand_env("%A%", &vars()), "b");
    assert_eq!(expand_env("%B%%A%", &vars()), "bb");
    assert_eq!(expand_env("no refs", &vars()), "no refs");
    assert_eq!(expand_env("%%ProgramFiles%", &vars()), "%C:\\Program Files");
}

#[test]
fn installed_apps_skipped() {
    let mut v = values(Some("App"));
    v.system_component = Some(1);
    assert!(installed_app(&v, "k", "HKLM\\U", true, &vars()).is_none());
    let mut w = values(Some("App"));
    w.release_type = Some("Security Update".to_string());
    assert!(installed_app(&w, "k", "HKLM\\U", true, &vars()).is_none());
    assert!(installed_app(&values(Some("   ")), "k", "p", true, &vars()).is_none());
    assert!(installed_app(&values(None), "k", "p", true, &vars()).is_none());
}

#[test]
fn installed_app_fields() {
    let mut v = values(Some("App"));
    v.release_type = Some("Hotfix".to_string());
    let a = installed_app(&v, "Key", "HKLM\\U", true, &vars()).unwrap();
    assert_eq!(a.install_location.as_deref(), Some("C:\\Program Files\\App"));
    assert_eq!(a.estimated_size_mb, Some(1));
    assert_eq!(a.registry_path, "HKLM\\U\\Key");
    assert!(a.system_wide);
    let mut w = values(Some("App"));
    w.release_type = Some(String::new());
    assert!(installed_app(&w, "Key", "p", false, &vars()).is_some());
}

#[test]
fn installed_sorted() {
    let mk = |n: &str, p: &str| {
        installed_app(&values(Some(n)), p, "r", true, &vec![]).unwrap()
    };
    let out = sort_installed_apps(vec![mk("b", "1"), mk("A", "2"), mk("B", "3"), mk("a", "4")]);
    let paths: Vec<&str> = out.iter().map(|a| a.registry_path.as_str()).collect();
    assert_eq!(paths, vec!["r\\2", "r\\4", "r\\1", "r\\3"]);
}

#[test]
fn icon_paths() {
    assert_eq!(clean_path("\"C:\\a b\\x.exe\",0"), "C:\\a b\\x.exe");
    assert_eq!(clean_path("  C:\\x.ico  "), "C:\\x.ico");
    assert_eq!(clean_path(",1"), "");
}

#[test]
fn pixel_conversion() {
    assert_eq!(bgra_to_rgba(&vec![1, 2, 3, 4, 5, 6, 7, 8, 9]), vec![3, 2, 1, 4, 7, 6, 5, 8]);
}

#[test]
fn png_encoding() {
    let bgra = vec![10u8; 32 * 32 * 4];
    let png = icon_png_from_bgra(&bgra).unwrap();
    assert_eq!(&png[..8], &[137, 80, 78, 71, 13, 10, 26, 10]);
}

#[test]
fn decimal_texts() {
    assert_eq!(u64_text(0), "0");
    assert_eq!(u64_text(18446744073709551615), "18446744073709551615");
    assert_eq!(i32_text(-2147483648), "-2147483648");
    assert_eq!(i32_text(305), "305");
}

#[test]
fn pixel_conversion_twice_restores() {
    let px: Vec<u8> = (0u8..11).collect();
    assert_eq!(bgra_to_rgba(&bgra_to_rgba(&px)), (0u8..8).collect::<Vec<u8>>());
}

#[test]
fn icon_sources() {
    assert_eq!(icon_source("\"C:\\App\\app.exe\",0"), Ok("C:\\App\\app.exe".to_string()));
    assert_eq!(icon_source(" \"\" ,3"), Err("空图标路径".to_string()));
    assert_eq!(icon_source(""), Err("空图标路径".to_string()));
    assert_eq!(icon_not_found("C:\\x.exe"), "无法获取图标: C:\\x.exe");
}
