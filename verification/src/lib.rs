//! Core logic of an application uninstaller: reading uninstall entries,
//! parsing uninstall commands, planning silent uninstalls, and finding
//! the files, shortcuts and registry keys an application leaves behind.
pub mod icon;
pub mod json;
pub mod keyed;
pub mod models;
pub mod text;
pub mod uninstall;
pub mod uninstaller;
