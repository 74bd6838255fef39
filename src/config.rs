//! Configuration of the extraction engine.
use vstd::prelude::*;

use crate::text::{to_upper, upper_of};

verus! {

/// What to do with an archive's files after a successful extraction.
#[derive(Clone, Copy, Debug, PartialEq, Eq, Structural)]
pub enum DeferOperation {
    DoNothing,
    Delete,
    Move,
}

/// Switches of the extraction process.
#[derive(Clone, Copy, Debug, PartialEq, Eq, Structural)]
pub struct ExtractMethod {
    /// Look for archives hidden behind cover images.
    pub recognize_steganography: bool,
    /// Extract straight into the output directory, without a directory per
    /// archive.
    pub extract_directly: bool,
    /// Extract straight into the output directory only when an archive holds
    /// a single entry.
    pub smart_directly: bool,
    /// Extract archives found inside extracted archives as well.
    pub recursively: bool,
}

impl Default for ExtractMethod {
    fn default() -> (r: Self)
        ensures
            !r.recognize_steganography,
            !r.extract_directly,
            !r.smart_directly,
            !r.recursively,
    {
        ExtractMethod {
            recognize_steganography: false,
            extract_directly: false,
            smart_directly: false,
            recursively: false,
        }
    }
}

/// Configuration of an extraction run.
#[derive(Clone, Debug)]
pub struct ExtractConfig {
    /// Path of the 7z program; `None` runs `7z` from the search path.
    pub path_7z: Option<String>,
    /// Files and directories to extract.
    pub source: Vec<String>,
    /// How deep to search directories (kept for the configuration file; the
    /// walk always descends fully).
    pub search_depth: i8,
    /// File extensions (without the dot) whose files are left out.
    pub excluded_suffix: Vec<String>,
    /// Passwords to try first.
    pub tokens: Vec<String>,
    /// Days for which a recently used password counts as frequently used.
    pub token_hot_boundary: usize,
    /// Directory that archives are extracted into.
    pub output_dir: String,
    /// What to do with an archive's files after extraction.
    pub defer_operation: DeferOperation,
    /// Directory that `DeferOperation::Move` moves archives into.
    pub recycle_dir: String,
    pub method: ExtractMethod,
}

/// `c` is the default extraction configuration: nothing to extract, no
/// exclusions, 30 days of hot passwords, and every switch off.
pub open spec fn is_default_extract_config(c: ExtractConfig) -> bool {
    &&& c.path_7z is None
    &&& c.source@.len() == 0
    &&& c.search_depth == 0
    &&& c.excluded_suffix@.len() == 0
    &&& c.tokens@.len() == 0
    &&& c.token_hot_boundary == 30
    &&& c.output_dir@.len() == 0
    &&& c.defer_operation == DeferOperation::DoNothing
    &&& c.recycle_dir@.len() == 0
    &&& c.method == (ExtractMethod {
        recognize_steganography: false,
        extract_directly: false,
        smart_directly: false,
        recursively: false,
    })
}

impl Default for ExtractConfig {
    fn default() -> (r: Self)
        ensures
            is_default_extract_config(r),
    {
        ExtractConfig {
            path_7z: None,
            source: Vec::new(),
            search_depth: 0,
            excluded_suffix: Vec::new(),
            tokens: Vec::new(),
            token_hot_boundary: 30,
            output_dir: String::new(),
            defer_operation: DeferOperation::DoNothing,
            recycle_dir: String::new(),
            method: ExtractMethod::default(),
        }
    }
}

impl ExtractConfig {
    /// The command that runs 7z: the configured path, or `7z`.
    pub fn get_command_7z(&self) -> (r: String)
        ensures
            match self.path_7z {
                Some(p) => r@ == p@,
                None => r@ == seq!['7', 'z'],
            },
    {
        match &self.path_7z {
            Some(p) => p.clone(),
            None => {
                proof {
                    reveal_strlit("7z");
                }
                let r = String::from_str("7z");
                assert(r@ =~= seq!['7', 'z']);
                r
            },
        }
    }
}

/// How stored passwords are written to, or read from, a text file.
#[derive(Clone, Copy, Debug, PartialEq, Eq, Structural)]
pub enum TokenFilePattern {
    /// One password per line.
    Plain,
    /// One `password<TAB><TAB>count` per line.
    Jtmdy,
}

/// How stored passwords are listed.
#[derive(Clone, Copy, Debug, PartialEq, Eq, Structural)]
pub enum TokenListStyle {
    /// One password per line.
    Plain,
    /// Dates and use count beside each password.
    Detail,
}

/// The default locations of the program's files.
#[derive(Clone, Debug)]
pub struct DefaultPath {
    pub data_dir: String,
    pub config: String,
    pub log: String,
    pub token: String,
    pub token_convert: String,
}

/// General settings.
#[derive(Clone, Debug)]
pub struct GeneralConfig {
    /// The password store.
    pub token: String,
}

/// Settings of the password store commands.
#[derive(Clone, Debug)]
pub struct TokenConfig {
    pub list_style: TokenListStyle,
    pub export_pattern: TokenFilePattern,
    pub export_file: String,
    pub import_pattern: TokenFilePattern,
    pub import_file: String,
}

/// The whole configuration.
#[derive(Clone, Debug)]
pub struct Config {
    pub general: GeneralConfig,
    pub extract: ExtractConfig,
    pub token: TokenConfig,
}

/// Subcommands of the password store command.
#[derive(Clone, Debug)]
pub enum TokenProcess {
    List { style: Option<TokenListStyle> },
    Export { pattern: Option<TokenFilePattern>, file: Option<String> },
    Import { pattern: Option<TokenFilePattern>, file: Option<String> },
}

/// The main commands.
#[derive(Clone, Debug)]
pub enum MainCommand {
    /// Manage the password store.
    Token { command: Option<TokenProcess>, add: Vec<String>, delete: Vec<String> },
    /// Extract archives; each option, when given, overrides the configuration.
    Extract {
        source: Vec<String>,
        search_depth: Option<i8>,
        excluded_suffix: Vec<String>,
        tokens: Vec<String>,
        token_hot_boundary: Option<usize>,
        output_dir: Option<String>,
        defer_operation: Option<DeferOperation>,
        recycle_dir: Option<String>,
        analyze_steganography: Option<bool>,
        extract_directly: Option<bool>,
        smart_directly: Option<bool>,
        recursively: Option<bool>,
    },
}

/// Command-line arguments.
#[derive(Clone, Debug)]
pub struct CliArgs {
    /// A configuration file to use instead of the default one.
    pub config: Option<String>,
    /// A password store to use instead of the configured one.
    pub token: Option<String>,
    pub main_command: MainCommand,
}

/// The value an optional override leaves in place of `current`.
pub open spec fn overridden<T>(o: Option<T>, current: T) -> T {
    match o {
        Some(v) => v,
        None => current,
    }
}

fn copy_strings(v: &Vec<String>) -> (r: Vec<String>)
    ensures
        r@ == v@,
{
    let mut r: Vec<String> = Vec::new();
    let mut i: usize = 0;
    while i < v.len()
        invariant
            i <= v@.len(),
            r@ == v@.take(i as int),
        decreases v.len() - i,
    {
        r.push(v[i].clone());
        assert(r@ =~= v@.take(i + 1));
        i = i + 1;
    }
    assert(v@.take(i as int) =~= v@);
    r
}

impl TokenFilePattern {
    /// The pattern's name.
    pub fn name(&self) -> (r: String)
        ensures
            r@ == match self {
                TokenFilePattern::Plain => seq!['P', 'l', 'a', 'i', 'n'],
                TokenFilePattern::Jtmdy => seq!['J', 't', 'm', 'd', 'y'],
            },
    {
        proof {
            reveal_strlit("Plain");
            reveal_strlit("Jtmdy");
        }
        match self {
            TokenFilePattern::Plain => {
                let r = String::from_str("Plain");
                assert(r@ =~= seq!['P', 'l', 'a', 'i', 'n']);
                r
            },
            TokenFilePattern::Jtmdy => {
                let r = String::from_str("Jtmdy");
                assert(r@ =~= seq!['J', 't', 'm', 'd', 'y']);
                r
            },
        }
    }
}

impl TokenListStyle {
    /// The style's name.
    pub fn name(&self) -> (r: String)
        ensures
            r@ == match self {
                TokenListStyle::Plain => seq!['P', 'l', 'a', 'i', 'n'],
                TokenListStyle::Detail => seq!['D', 'e', 't', 'a', 'i', 'l'],
            },
    {
        proof {
            reveal_strlit("Plain");
            reveal_strlit("Detail");
        }
        match self {
            TokenListStyle::Plain => {
                let r = String::from_str("Plain");
                assert(r@ =~= seq!['P', 'l', 'a', 'i', 'n']);
                r
            },
            TokenListStyle::Detail => {
                let r = String::from_str("Detail");
                assert(r@ =~= seq!['D', 'e', 't', 'a', 'i', 'l']);
                r
            },
        }
    }
}

impl GeneralConfig {
    /// The general settings with the default password store.
    pub fn from_defaults(paths: &DefaultPath) -> (r: Self)
        ensures
            r.token == paths.token,
    {
        GeneralConfig { token: paths.token.clone() }
    }
}

impl TokenConfig {
    /// Plain listing and files, with the default conversion file.
    pub fn from_defaults(paths: &DefaultPath) -> (r: Self)
        ensures
            r.list_style == TokenListStyle::Plain,
            r.export_pattern == TokenFilePattern::Plain,
            r.import_pattern == TokenFilePattern::Plain,
            r.export_file == paths.token_convert,
            r.import_file == paths.token_convert,
    {
        TokenConfig {
            list_style: TokenListStyle::Plain,
            export_pattern: TokenFilePattern::Plain,
            export_file: paths.token_convert.clone(),
            import_pattern: TokenFilePattern::Plain,
            import_file: paths.token_convert.clone(),
        }
    }
}

impl Config {
    /// The default configuration, with files at the default locations.
    pub fn from_defaults(paths: &DefaultPath) -> (r: Self)
        ensures
            r.general.token == paths.token,
            r.token.export_file == paths.token_convert,
            r.token.import_file == paths.token_convert,
            r.token.list_style == TokenListStyle::Plain,
            r.token.export_pattern == TokenFilePattern::Plain,
            r.token.import_pattern == TokenFilePattern::Plain,
            r.extract.path_7z is None,
            r.extract.source@.len() == 0,
            r.extract.search_depth == 0,
            r.extract.excluded_suffix@.len() == 0,
            r.extract.tokens@.len() == 0,
            r.extract.token_hot_boundary == 30,
            r.extract.output_dir@.len() == 0,
            r.extract.defer_operation == DeferOperation::DoNothing,
            r.extract.recycle_dir@.len() == 0,
            !r.extract.method.recognize_steganography,
            !r.extract.method.extract_directly,
            !r.extract.method.smart_directly,
            !r.extract.method.recursively,
    {
        Config {
            general: GeneralConfig::from_defaults(paths),
            extract: ExtractConfig::default(),
            token: TokenConfig::from_defaults(paths),
        }
    }

    /// Fills the paths that a configuration file left empty with their
    /// defaults; an empty 7z path means running `7z` from the search path.
    pub fn with_default_paths(self, paths: &DefaultPath) -> (r: Self)
        ensures
            r.general.token == if self.general.token@.len() == 0 {
                paths.token
            } else {
                self.general.token
            },
            r.token.export_file == if self.token.export_file@.len() == 0 {
                paths.token_convert
            } else {
                self.token.export_file
            },
            r.token.import_file == if self.token.import_file@.len() == 0 {
                paths.token_convert
            } else {
                self.token.import_file
            },
            r.token.list_style == self.token.list_style,
            r.token.export_pattern == self.token.export_pattern,
            r.token.import_pattern == self.token.import_pattern,
            r.extract.path_7z == match self.extract.path_7z {
                Some(p) => if p@.len() == 0 {
                    None
                } else {
                    Some(p)
                },
                None => None,
            },
            r.extract.source == self.extract.source,
            r.extract.search_depth == self.extract.search_depth,
            r.extract.excluded_suffix == self.extract.excluded_suffix,
            r.extract.tokens == self.extract.tokens,
            r.extract.token_hot_boundary == self.extract.token_hot_boundary,
            r.extract.output_dir == self.extract.output_dir,
            r.extract.defer_operation == self.extract.defer_operation,
            r.extract.recycle_dir == self.extract.recycle_dir,
            r.extract.method == self.extract.method,
    {
        let mut c = self;
        if c.general.token.unicode_len() == 0 {
            c.general.token = paths.token.clone();
        }
        if c.token.export_file.unicode_len() == 0 {
            c.token.export_file = paths.token_convert.clone();
        }
        if c.token.import_file.unicode_len() == 0 {
            c.token.import_file = paths.token_convert.clone();
        }
        let empty_7z = match &c.extract.path_7z {
            Some(p) => p.unicode_len() == 0,
            None => false,
        };
        if empty_7z {
            c.extract.path_7z = None;
        }
        c
    }

    /// Overrides the configuration with the options given on the command
    /// line.
    pub fn overlay(self, cli_args: &CliArgs) -> (r: Self)
        ensures
            r.general.token == overridden(cli_args.token, self.general.token),
            match cli_args.main_command {
                MainCommand::Token { command, .. } => r.extract == self.extract && r.token
                    == token_overlaid(self.token, command),
                MainCommand::Extract { .. } => r.token == self.token && extract_overlaid(
                    r.extract,
                    self.extract,
                    cli_args.main_command,
                ),
            },
    {
        let mut c = self;
        if let Some(path) = &cli_args.token {
            c.general.token = path.clone();
        }
        match &cli_args.main_command {
            MainCommand::Token { command, add: _, delete: _ } => {
                overlay_token(&mut c.token, command);
            },
            MainCommand::Extract { .. } => {
                overlay_extract(&mut c.extract, &cli_args.main_command);
            },
        }
        c
    }
}

/// The password store settings after a password store subcommand's options.
pub open spec fn token_overlaid(t: TokenConfig, command: Option<TokenProcess>) -> TokenConfig {
    match command {
        Some(TokenProcess::List { style }) => TokenConfig {
            list_style: overridden(style, t.list_style),
            ..t
        },
        Some(TokenProcess::Export { pattern, file }) => TokenConfig {
            export_pattern: overridden(pattern, t.export_pattern),
            export_file: overridden(file, t.export_file),
            ..t
        },
        Some(TokenProcess::Import { pattern, file }) => TokenConfig {
            import_pattern: overridden(pattern, t.import_pattern),
            import_file: overridden(file, t.import_file),
            ..t
        },
        None => t,
    }
}

/// The list that a non-empty override replaces.
pub open spec fn list_overridden(o: Seq<String>, current: Seq<String>) -> Seq<String> {
    if o.len() > 0 {
        o
    } else {
        current
    }
}

/// `r` is the extraction configuration `e` after the options of the
/// extract command `cmd`: each option given replaces its setting, a
/// list replaces it when not empty.
pub open spec fn extract_overlaid(r: ExtractConfig, e: ExtractConfig, cmd: MainCommand) -> bool {
    match cmd {
        MainCommand::Extract {
            source,
            search_depth,
            excluded_suffix,
            tokens,
            token_hot_boundary,
            output_dir,
            defer_operation,
            recycle_dir,
            analyze_steganography,
            extract_directly,
            smart_directly,
            recursively,
        } => {
            &&& r.path_7z == e.path_7z
            &&& r.source@ == list_overridden(source@, e.source@)
            &&& r.search_depth == overridden(search_depth, e.search_depth)
            &&& r.excluded_suffix@ == list_overridden(excluded_suffix@, e.excluded_suffix@)
            &&& r.tokens@ == list_overridden(tokens@, e.tokens@)
            &&& r.token_hot_boundary == overridden(token_hot_boundary, e.token_hot_boundary)
            &&& r.output_dir == overridden(output_dir, e.output_dir)
            &&& r.defer_operation == overridden(defer_operation, e.defer_operation)
            &&& r.recycle_dir == overridden(recycle_dir, e.recycle_dir)
            &&& r.method == (ExtractMethod {
                recognize_steganography: overridden(
                    analyze_steganography,
                    e.method.recognize_steganography,
                ),
                extract_directly: overridden(extract_directly, e.method.extract_directly),
                smart_directly: overridden(smart_directly, e.method.smart_directly),
                recursively: overridden(recursively, e.method.recursively),
            })
        },
        _ => r == e,
    }
}

fn overlay_token(token: &mut TokenConfig, command: &Option<TokenProcess>)
    ensures
        *final(token) == token_overlaid(*old(token), *command),
{
    match command {
        Some(TokenProcess::List { style }) => {
            if let Some(s) = style {
                token.list_style = *s;
            }
        },
        Some(TokenProcess::Export { pattern, file }) => {
            if let Some(p) = pattern {
                token.export_pattern = *p;
            }
            if let Some(f) = file {
                token.export_file = f.clone();
            }
        },
        Some(TokenProcess::Import { pattern, file }) => {
            if let Some(p) = pattern {
                token.import_pattern = *p;
            }
            if let Some(f) = file {
                token.import_file = f.clone();
            }
        },
        None => {},
    }
}

fn pick<T: Copy>(o: &Option<T>, current: T) -> (r: T)
    ensures
        r == overridden(*o, current),
{
    match o {
        Some(v) => *v,
        None => current,
    }
}

fn pick_string(o: &Option<String>, current: String) -> (r: String)
    ensures
        r == overridden(*o, current),
{
    match o {
        Some(v) => v.clone(),
        None => current,
    }
}

fn pick_list(o: &Vec<String>, current: Vec<String>) -> (r: Vec<String>)
    ensures
        r@ == list_overridden(o@, current@),
{
    if o.len() > 0 {
        copy_strings(o)
    } else {
        current
    }
}

fn overlay_extract(extract: &mut ExtractConfig, cmd: &MainCommand)
    ensures
        extract_overlaid(*final(extract), *old(extract), *cmd),
{
    if let MainCommand::Extract {
        source,
        search_depth,
        excluded_suffix,
        tokens,
        token_hot_boundary,
        output_dir,
        defer_operation,
        recycle_dir,
        analyze_steganography,
        extract_directly,
        smart_directly,
        recursively,
    } = cmd {
        let mut current = ExtractConfig::default();
        std::mem::swap(&mut current, extract);
        let method = ExtractMethod {
            recognize_steganography: pick(
                analyze_steganography,
                current.method.recognize_steganography,
            ),
            extract_directly: pick(extract_directly, current.method.extract_directly),
            smart_directly: pick(smart_directly, current.method.smart_directly),
            recursively: pick(recursively, current.method.recursively),
        };
        *extract = ExtractConfig {
            path_7z: current.path_7z,
            source: pick_list(source, current.source),
            search_depth: pick(search_depth, current.search_depth),
            excluded_suffix: pick_list(excluded_suffix, current.excluded_suffix),
            tokens: pick_list(tokens, current.tokens),
            token_hot_boundary: pick(token_hot_boundary, current.token_hot_boundary),
            output_dir: pick_string(output_dir, current.output_dir),
            defer_operation: pick(defer_operation, current.defer_operation),
            recycle_dir: pick_string(recycle_dir, current.recycle_dir),
            method,
        };
    }
}

/// How much the program logs.
#[derive(Clone, Copy, Debug, PartialEq, Eq, Structural)]
pub enum LogLevel {
    Trace,
    Debug,
    Info,
    Warn,
    Error,
}

pub open spec fn level_name(l: LogLevel) -> Seq<char> {
    match l {
        LogLevel::Trace => seq!['T', 'R', 'A', 'C', 'E'],
        LogLevel::Debug => seq!['D', 'E', 'B', 'U', 'G'],
        LogLevel::Info => seq!['I', 'N', 'F', 'O'],
        LogLevel::Warn => seq!['W', 'A', 'R', 'N'],
        LogLevel::Error => seq!['E', 'R', 'R', 'O', 'R'],
    }
}

/// The level named by an upper-case text; `Info` for any other text.
pub open spec fn level_from_upper(u: Seq<char>) -> LogLevel {
    if u == level_name(LogLevel::Trace) {
        LogLevel::Trace
    } else if u == level_name(LogLevel::Debug) {
        LogLevel::Debug
    } else if u == level_name(LogLevel::Warn) {
        LogLevel::Warn
    } else if u == level_name(LogLevel::Error) {
        LogLevel::Error
    } else {
        LogLevel::Info
    }
}

impl LogLevel {
    /// The level's name in upper case.
    pub fn name(&self) -> (r: String)
        ensures
            r@ == level_name(*self),
    {
        proof {
            reveal_strlit("TRACE");
            reveal_strlit("DEBUG");
            reveal_strlit("INFO");
            reveal_strlit("WARN");
            reveal_strlit("ERROR");
        }
        let r = match self {
            LogLevel::Trace => String::from_str("TRACE"),
            LogLevel::Debug => String::from_str("DEBUG"),
            LogLevel::Info => String::from_str("INFO"),
            LogLevel::Warn => String::from_str("WARN"),
            LogLevel::Error => String::from_str("ERROR"),
        };
        assert(r@ =~= level_name(*self));
        r
    }

    /// The level named by an upper-case text; `Info` for any other text.
    pub fn from_upper(u: &str) -> (r: LogLevel)
        ensures
            r == level_from_upper(u@),
    {
        let text = String::from_str(u);
        if text == LogLevel::Trace.name() {
            LogLevel::Trace
        } else if text == LogLevel::Debug.name() {
            LogLevel::Debug
        } else if text == LogLevel::Warn.name() {
            LogLevel::Warn
        } else if text == LogLevel::Error.name() {
            LogLevel::Error
        } else {
            LogLevel::Info
        }
    }

    /// The level named by a text in any case; `Info` for any other text.
    pub fn from_name(value: &str) -> (r: LogLevel)
        ensures
            r == level_from_upper(upper_of(value@)),
    {
        let upper = to_upper(value);
        LogLevel::from_upper(upper.as_str())
    }
}

} // verus!
