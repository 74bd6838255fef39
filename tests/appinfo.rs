use lemmekk::{AppInfo, Edition, LogLevel, Version};

#[test]
fn module_name_and_version_are_set() {
    let mut info = AppInfo::default();
    info.set_module_name("Cli");
    info.set_module_version(0, 1, 0, "Dev");
    assert_eq!(info.module_name, "Cli");
    assert_eq!(
        info.module_version,
        Version { major: 0, minor: 1, revision: 0, edition: Edition::Dev }
    );
    assert_eq!(info.lib_version, Version { major: 0, minor: 1, revision: 6, edition: Edition::Dev });
}

#[test]
fn edition_names_are_read_in_any_case() {
    let mut info = AppInfo::default();
    info.set_module_version(1, 2, 3, "beta");
    assert_eq!(info.module_version.edition, Edition::Beta);
    info.set_module_version(1, 2, 3, "StAbLe");
    assert_eq!(info.module_version.edition, Edition::Stable);
    info.set_module_version(1, 2, 3, "nightly");
    assert_eq!(info.module_version.edition, Edition::Dev);
    assert_eq!(Edition::parse("dev"), Some(Edition::Dev));
    assert_eq!(Edition::from_upper("dev"), None);
    assert_eq!(Edition::parse(""), None);
}

#[test]
fn version_text_spells_numbers_and_edition() {
    let v = Version { major: 12, minor: 0, revision: 255, edition: Edition::Stable };
    assert_eq!(v.text(), "v12.0.255 Stable");
    assert_eq!(Version::default().text(), "v0.0.0 Dev");
}

#[test]
fn display_shows_name_and_versions() {
    colored::control::set_override(false);
    let mut info = AppInfo::default();
    info.set_module_name("Cli");
    info.set_module_version(0, 1, 0, "stable");
    assert_eq!(info.display(), "让我康康-Cli v0.1.0 Stable (lib v0.1.6 Dev)");
}

#[test]
fn display_colours_versions_by_edition() {
    colored::control::set_override(true);
    let v = Version { major: 1, minor: 0, revision: 0, edition: Edition::Beta };
    let shown = v.painted_text();
    let dev = Version::default().painted_text();
    colored::control::unset_override();
    assert_eq!(shown, "\u{1b}[33mv1.0.0 Beta\u{1b}[0m");
    assert_eq!(dev, "\u{1b}[31mv0.0.0 Dev\u{1b}[0m");
}

#[test]
fn log_levels_by_name() {
    assert_eq!(LogLevel::from_name("debug"), LogLevel::Debug);
    assert_eq!(LogLevel::from_name("Warn"), LogLevel::Warn);
    assert_eq!(LogLevel::from_name("TRACE"), LogLevel::Trace);
    assert_eq!(LogLevel::from_name("error"), LogLevel::Error);
    assert_eq!(LogLevel::from_name("verbose"), LogLevel::Info);
    assert_eq!(LogLevel::Error.name(), "ERROR");
    assert_eq!(LogLevel::Info.name(), "INFO");
}
