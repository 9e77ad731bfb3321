//! The application entry shared by registry and packaged applications.
use vstd::prelude::*;

verus! {

/// One installed application, from the registry or from a package.
#[derive(Clone, Debug)]
pub struct AppEntry {
    /// Display name.
    pub name: String,
    /// Publisher.
    pub publisher: Option<String>,
    /// Version.
    pub version: Option<String>,
    /// Estimated size in MB.
    pub size_mb: Option<u64>,
    /// Install date as `YYYY-MM-DD`.
    pub install_date: Option<String>,
    /// Install location.
    pub install_location: Option<String>,
    /// Uninstall command (the quiet one when there is one).
    pub uninstall_string: Option<String>,
    /// Fallback uninstall command (the plain `UninstallString`).
    pub fallback_uninstall_string: Option<String>,
    /// Path of the display icon.
    pub display_icon: Option<String>,
    /// Full registry key path.
    pub registry_key: Option<String>,
    /// Where the entry came from: `registry`, `uwp` or `portable`.
    pub source: String,
    /// Marked `SystemComponent = 1`.
    pub is_system_component: bool,
    /// No uninstall command at all.
    pub uninstaller_missing: bool,
    /// 64-bit application, as far as it is known.
    pub is_64bit: Option<bool>,
    /// Publisher signature status.
    pub cert_status: Option<String>,
}

/// The value of an `AppEntry`.
pub struct AppEntryView {
    pub name: Seq<char>,
    pub publisher: Option<Seq<char>>,
    pub version: Option<Seq<char>>,
    pub size_mb: Option<u64>,
    pub install_date: Option<Seq<char>>,
    pub install_location: Option<Seq<char>>,
    pub uninstall_string: Option<Seq<char>>,
    pub fallback_uninstall_string: Option<Seq<char>>,
    pub display_icon: Option<Seq<char>>,
    pub registry_key: Option<Seq<char>>,
    pub source: Seq<char>,
    pub is_system_component: bool,
    pub uninstaller_missing: bool,
    pub is_64bit: Option<bool>,
    pub cert_status: Option<Seq<char>>,
}

impl View for AppEntry {
    type V = AppEntryView;

    open spec fn view(&self) -> AppEntryView {
        AppEntryView {
            name: self.name@,
            publisher: opt_view(self.publisher),
            version: opt_view(self.version),
            size_mb: self.size_mb,
            install_date: opt_view(self.install_date),
            install_location: opt_view(self.install_location),
            uninstall_string: opt_view(self.uninstall_string),
            fallback_uninstall_string: opt_view(self.fallback_uninstall_string),
            display_icon: opt_view(self.display_icon),
            registry_key: opt_view(self.registry_key),
            source: self.source@,
            is_system_component: self.is_system_component,
            uninstaller_missing: self.uninstaller_missing,
            is_64bit: self.is_64bit,
            cert_status: opt_view(self.cert_status),
        }
    }
}

/// The views of a list of entries.
pub open spec fn entry_views(s: Seq<AppEntry>) -> Seq<AppEntryView> {
    s.map_values(|e: AppEntry| e@)
}

/// The view of an optional string.
pub open spec fn opt_view(o: Option<String>) -> Option<Seq<char>> {
    match o {
        Some(s) => Some(s@),
        None => None,
    }
}

impl AppEntry {
    /// Whether the entry has an uninstall command to run.
    pub fn has_uninstaller(&self) -> (r: bool)
        ensures
            r == (self.uninstall_string is Some || self.fallback_uninstall_string is Some),
    {
        self.uninstall_string.is_some() || self.fallback_uninstall_string.is_some()
    }
}

} // verus!
