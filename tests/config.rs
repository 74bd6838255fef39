use lemmekk::{
    CliArgs, Config, DefaultPath, DeferOperation, MainCommand, TokenFilePattern, TokenListStyle,
    TokenProcess,
};

fn defaults() -> DefaultPath {
    DefaultPath {
        data_dir: "/home/u/.config/lemmekk".to_string(),
        config: "/home/u/.config/lemmekk/config.toml".to_string(),
        log: "/home/u/.config/lemmekk/result.log".to_string(),
        token: "/home/u/.config/lemmekk/default.token".to_string(),
        token_convert: "/home/u/.config/lemmekk/token.txt".to_string(),
    }
}

fn extract_command() -> MainCommand {
    MainCommand::Extract {
        source: vec![],
        search_depth: None,
        excluded_suffix: vec![],
        tokens: vec![],
        token_hot_boundary: None,
        output_dir: None,
        defer_operation: None,
        recycle_dir: None,
        analyze_steganography: None,
        extract_directly: None,
        smart_directly: None,
        recursively: None,
    }
}

#[test]
fn defaults_point_at_default_files() {
    let c = Config::from_defaults(&defaults());
    assert_eq!(c.general.token, "/home/u/.config/lemmekk/default.token");
    assert_eq!(c.token.export_file, "/home/u/.config/lemmekk/token.txt");
    assert_eq!(c.token.list_style, TokenListStyle::Plain);
    assert!(c.extract.source.is_empty());
}

#[test]
fn overlay_replaces_given_extract_options() {
    let mut cmd = extract_command();
    if let MainCommand::Extract {
        source,
        token_hot_boundary,
        defer_operation,
        analyze_steganography,
        output_dir,
        ..
    } = &mut cmd
    {
        *source = vec!["/data".to_string()];
        *token_hot_boundary = Some(7);
        *defer_operation = Some(DeferOperation::Move);
        *analyze_steganography = Some(true);
        *output_dir = Some("/out".to_string());
    }
    let args = CliArgs { config: None, token: Some("/t.token".to_string()), main_command: cmd };
    let c = Config::from_defaults(&defaults()).overlay(&args);
    assert_eq!(c.general.token, "/t.token");
    assert_eq!(c.extract.source, vec!["/data".to_string()]);
    assert_eq!(c.extract.token_hot_boundary, 7);
    assert_eq!(c.extract.defer_operation, DeferOperation::Move);
    assert!(c.extract.method.recognize_steganography);
    assert!(!c.extract.method.recursively);
    assert_eq!(c.extract.output_dir, "/out");
    assert_eq!(c.token.export_file, "/home/u/.config/lemmekk/token.txt");
}

#[test]
fn overlay_keeps_settings_when_options_are_absent() {
    let mut base = Config::from_defaults(&defaults());
    base.extract.excluded_suffix = vec!["txt".to_string()];
    base.extract.token_hot_boundary = 12;
    let args = CliArgs { config: None, token: None, main_command: extract_command() };
    let c = base.overlay(&args);
    assert_eq!(c.general.token, "/home/u/.config/lemmekk/default.token");
    assert_eq!(c.extract.excluded_suffix, vec!["txt".to_string()]);
    assert_eq!(c.extract.token_hot_boundary, 12);
}

#[test]
fn overlay_applies_token_export_options() {
    let args = CliArgs {
        config: None,
        token: None,
        main_command: MainCommand::Token {
            command: Some(TokenProcess::Export {
                pattern: Some(TokenFilePattern::Jtmdy),
                file: Some("/x.txt".to_string()),
            }),
            add: vec![],
            delete: vec![],
        },
    };
    let c = Config::from_defaults(&defaults()).overlay(&args);
    assert_eq!(c.token.export_pattern, TokenFilePattern::Jtmdy);
    assert_eq!(c.token.export_file, "/x.txt");
    assert_eq!(c.token.import_pattern, TokenFilePattern::Plain);
    assert_eq!(c.token.import_file, "/home/u/.config/lemmekk/token.txt");
}

#[test]
fn overlay_applies_token_list_and_import_options() {
    let list = CliArgs {
        config: None,
        token: None,
        main_command: MainCommand::Token {
            command: Some(TokenProcess::List { style: Some(TokenListStyle::Detail) }),
            add: vec![],
            delete: vec![],
        },
    };
    let c = Config::from_defaults(&defaults()).overlay(&list);
    assert_eq!(c.token.list_style, TokenListStyle::Detail);
    let import = CliArgs {
        config: None,
        token: None,
        main_command: MainCommand::Token {
            command: Some(TokenProcess::Import { pattern: None, file: Some("/in.txt".to_string()) }),
            add: vec![],
            delete: vec![],
        },
    };
    let c = Config::from_defaults(&defaults()).overlay(&import);
    assert_eq!(c.token.import_file, "/in.txt");
    assert_eq!(c.token.import_pattern, TokenFilePattern::Plain);
}

#[test]
fn pattern_and_style_names() {
    assert_eq!(TokenFilePattern::Plain.name(), "Plain");
    assert_eq!(TokenFilePattern::Jtmdy.name(), "Jtmdy");
    assert_eq!(TokenListStyle::Detail.name(), "Detail");
}

#[test]
fn empty_paths_fall_back_to_defaults() {
    let mut c = Config::from_defaults(&defaults());
    c.general.token = String::new();
    c.token.export_file = String::new();
    c.token.import_file = "/mine.txt".to_string();
    c.extract.path_7z = Some(String::new());
    let c = c.with_default_paths(&defaults());
    assert_eq!(c.general.token, "/home/u/.config/lemmekk/default.token");
    assert_eq!(c.token.export_file, "/home/u/.config/lemmekk/token.txt");
    assert_eq!(c.token.import_file, "/mine.txt");
    assert_eq!(c.extract.path_7z, None);
    let mut d = Config::from_defaults(&defaults());
    d.extract.path_7z = Some("/bin/7zz".to_string());
    assert_eq!(d.with_default_paths(&defaults()).extract.path_7z, Some("/bin/7zz".to_string()));
}
