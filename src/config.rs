//! Levels, records and the configuration values of the sinks.

use vstd::prelude::*;

verus! {

/// Severity of a record. `Error` is the most severe.
#[derive(Debug, Clone, Copy, PartialEq, Eq, Structural)]
pub enum Level {
    Error,
    Warn,
    Info,
    Debug,
    Trace,
}

/// Verbosity filter: a record passes when its level ranks at or below the filter.
#[derive(Debug, Clone, Copy, PartialEq, Eq, Structural, PartialOrd, Ord)]
pub enum LevelFilter {
    Off,
    Error,
    Warn,
    Info,
    Debug,
    Trace,
}

/// Rank of a level: Error = 1 ... Trace = 5 (the same scale as `LevelFilter`).
pub open spec fn level_rank(l: Level) -> nat {
    match l {
        Level::Error => 1,
        Level::Warn => 2,
        Level::Info => 3,
        Level::Debug => 4,
        Level::Trace => 5,
    }
}

/// Rank of a filter: Off = 0 ... Trace = 5.
pub open spec fn filter_rank(f: LevelFilter) -> nat {
    match f {
        LevelFilter::Off => 0,
        LevelFilter::Error => 1,
        LevelFilter::Warn => 2,
        LevelFilter::Info => 3,
        LevelFilter::Debug => 4,
        LevelFilter::Trace => 5,
    }
}

/// The level gate: a record of level `l` passes filter `f`.
pub open spec fn passes(l: Level, f: LevelFilter) -> bool {
    level_rank(l) <= filter_rank(f)
}

/// The canonical upper-case tag of a level.
pub open spec fn level_tag(l: Level) -> Seq<char> {
    match l {
        Level::Error => seq!['E', 'R', 'R', 'O', 'R'],
        Level::Warn => seq!['W', 'A', 'R', 'N'],
        Level::Info => seq!['I', 'N', 'F', 'O'],
        Level::Debug => seq!['D', 'E', 'B', 'U', 'G'],
        Level::Trace => seq!['T', 'R', 'A', 'C', 'E'],
    }
}

impl Level {
    pub fn rank(&self) -> (r: u8)
        ensures
            r as nat == level_rank(*self),
    {
        match self {
            Level::Error => 1,
            Level::Warn => 2,
            Level::Info => 3,
            Level::Debug => 4,
            Level::Trace => 5,
        }
    }

    pub fn to_level_filter(&self) -> (r: LevelFilter)
        ensures
            filter_rank(r) == level_rank(*self),
            r != LevelFilter::Off,
    {
        match self {
            Level::Error => LevelFilter::Error,
            Level::Warn => LevelFilter::Warn,
            Level::Info => LevelFilter::Info,
            Level::Debug => LevelFilter::Debug,
            Level::Trace => LevelFilter::Trace,
        }
    }

    /// Whether a record of this level is sent under `filter_level`.
    pub fn should_log_at(&self, filter_level: LevelFilter) -> (r: bool)
        ensures
            r == passes(*self, filter_level),
    {
        self.rank() <= filter_level.rank()
    }

    /// Whether a record of this level is sent when the threshold is the level `filter_level`.
    pub fn should_log_at_level(&self, filter_level: Level) -> (r: bool)
        ensures
            r == (level_rank(*self) <= level_rank(filter_level)),
    {
        self.rank() <= filter_level.rank()
    }

    /// The display tag of the level (`"ERROR"`, `"WARN"`, ...).
    pub fn as_str(&self) -> (r: &'static str)
        ensures
            r@ == level_tag(*self),
    {
        proof {
            reveal_strlit("ERROR");
            reveal_strlit("WARN");
            reveal_strlit("INFO");
            reveal_strlit("DEBUG");
            reveal_strlit("TRACE");
            assert("ERROR"@ =~= level_tag(Level::Error));
            assert("WARN"@ =~= level_tag(Level::Warn));
            assert("INFO"@ =~= level_tag(Level::Info));
            assert("DEBUG"@ =~= level_tag(Level::Debug));
            assert("TRACE"@ =~= level_tag(Level::Trace));
        }
        match self {
            Level::Error => "ERROR",
            Level::Warn => "WARN",
            Level::Info => "INFO",
            Level::Debug => "DEBUG",
            Level::Trace => "TRACE",
        }
    }

    /// The display tag as an owned string.
    pub fn to_string(&self) -> (r: String)
        ensures
            r@ == level_tag(*self),
    {
        String::from_str(self.as_str())
    }
}

impl LevelFilter {
    pub fn rank(&self) -> (r: u8)
        ensures
            r as nat == filter_rank(*self),
    {
        match self {
            LevelFilter::Off => 0,
            LevelFilter::Error => 1,
            LevelFilter::Warn => 2,
            LevelFilter::Info => 3,
            LevelFilter::Debug => 4,
            LevelFilter::Trace => 5,
        }
    }

    /// The numeric form stored in the process-wide level slot.
    pub fn as_usize(&self) -> (r: usize)
        ensures
            r as nat == filter_rank(*self),
    {
        self.rank() as usize
    }

    /// Reads back a stored numeric filter; out-of-range values read as `Info`.
    pub fn from_usize(v: usize) -> (r: LevelFilter)
        ensures
            v <= 5 ==> filter_rank(r) == v,
            v > 5 ==> r == LevelFilter::Info,
    {
        match v {
            0 => LevelFilter::Off,
            1 => LevelFilter::Error,
            2 => LevelFilter::Warn,
            3 => LevelFilter::Info,
            4 => LevelFilter::Debug,
            5 => LevelFilter::Trace,
            _ => LevelFilter::Info,
        }
    }
}

/// `c` is `w`, or the ASCII capital of `w`.
pub open spec fn same_letter(c: char, w: char) -> bool {
    c == w || ('A' <= c <= 'Z' && (c as u32) + 32 == w as u32)
}

/// `s` equals the lower-case word `w` up to ASCII case.
pub open spec fn eq_ignore_case(s: Seq<char>, w: Seq<char>) -> bool {
    s.len() == w.len() && forall|i: int| 0 <= i < s.len() ==> #[trigger] same_letter(s[i], w[i])
}

/// The filter named by an environment-style level word, case-insensitive.
pub open spec fn filter_named(s: Seq<char>) -> Option<LevelFilter> {
    if eq_ignore_case(s, seq!['e', 'r', 'r', 'o', 'r']) {
        Some(LevelFilter::Error)
    } else if eq_ignore_case(s, seq!['w', 'a', 'r', 'n']) {
        Some(LevelFilter::Warn)
    } else if eq_ignore_case(s, seq!['i', 'n', 'f', 'o']) {
        Some(LevelFilter::Info)
    } else if eq_ignore_case(s, seq!['d', 'e', 'b', 'u', 'g']) {
        Some(LevelFilter::Debug)
    } else if eq_ignore_case(s, seq!['t', 'r', 'a', 'c', 'e']) {
        Some(LevelFilter::Trace)
    } else {
        None
    }
}

fn same_letter_exec(c: char, w: char) -> (r: bool)
    ensures
        r == same_letter(c, w),
{
    c == w || ('A' <= c && c <= 'Z' && (c as u32) + 32 == w as u32)
}

fn matches_word(s: &str, w: &str) -> (r: bool)
    ensures
        r == eq_ignore_case(s@, w@),
{
    let n = s.unicode_len();
    if n != w.unicode_len() {
        return false;
    }
    let mut i: usize = 0;
    while i < n
        invariant
            n == s@.len(),
            n == w@.len(),
            i <= n,
            forall|k: int| 0 <= k < i ==> #[trigger] same_letter(s@[k], w@[k]),
        decreases n - i,
    {
        if !same_letter_exec(s.get_char(i), w.get_char(i)) {
            return false;
        }
        i = i + 1;
    }
    true
}

impl LevelFilter {
    /// Parses `error|warn|info|debug|trace`, in any ASCII case; anything else is `None`.
    pub fn parse(s: &str) -> (r: Option<LevelFilter>)
        ensures
            r == filter_named(s@),
    {
        proof {
            reveal_strlit("error");
            reveal_strlit("warn");
            reveal_strlit("info");
            reveal_strlit("debug");
            reveal_strlit("trace");
            assert("error"@ =~= seq!['e', 'r', 'r', 'o', 'r']);
            assert("warn"@ =~= seq!['w', 'a', 'r', 'n']);
            assert("info"@ =~= seq!['i', 'n', 'f', 'o']);
            assert("debug"@ =~= seq!['d', 'e', 'b', 'u', 'g']);
            assert("trace"@ =~= seq!['t', 'r', 'a', 'c', 'e']);
        }
        if matches_word(s, "error") {
            Some(LevelFilter::Error)
        } else if matches_word(s, "warn") {
            Some(LevelFilter::Warn)
        } else if matches_word(s, "info") {
            Some(LevelFilter::Info)
        } else if matches_word(s, "debug") {
            Some(LevelFilter::Debug)
        } else if matches_word(s, "trace") {
            Some(LevelFilter::Trace)
        } else {
            None
        }
    }
}

/// Storing a filter numerically and reading it back gives the same filter.
pub proof fn lemma_filter_rank_injective(a: LevelFilter, b: LevelFilter)
    ensures
        filter_rank(a) == filter_rank(b) ==> a == b,
{
}

/// A tenant or application tag.
#[derive(Debug, Clone, PartialEq, Eq, Hash)]
pub struct AppId(pub String);

impl AppId {
    pub fn new(s: &str) -> (r: AppId)
        ensures
            r.0@ == s@,
    {
        AppId(String::from_str(s))
    }

    pub fn as_str(&self) -> (r: &str)
        ensures
            r@ == self.0@,
    {
        self.0.as_str()
    }
}

/// The shared part of a record.
#[derive(Clone)]
pub struct Metadata {
    pub level: Level,
    pub target: String,
    pub auth_token: Option<String>,
    pub app_id: Option<String>,
}

impl Default for Metadata {
    fn default() -> (r: Metadata)
        ensures
            r.level == Level::Info,
            r.target@.len() == 0,
            r.auth_token is None,
            r.app_id is None,
    {
        Metadata { level: Level::Info, target: String::new(), auth_token: None, app_id: None }
    }
}

/// One log record. The metadata is shared, so a clone is cheap.
#[derive(Clone)]
pub struct Record {
    pub metadata: std::sync::Arc<Metadata>,
    pub args: String,
    pub module: Option<String>,
    pub file: Option<String>,
    pub line: Option<u32>,
}

/// The view of an optional string.
pub open spec fn opt_view(o: Option<String>) -> Option<Seq<char>> {
    match o {
        Some(s) => Some(s@),
        None => None,
    }
}

/// The fields of a record, as values.
pub struct RecordView {
    pub level: Level,
    pub target: Seq<char>,
    pub auth_token: Option<Seq<char>>,
    pub app_id: Option<Seq<char>>,
    pub message: Seq<char>,
    pub module: Option<Seq<char>>,
    pub file: Option<Seq<char>>,
    pub line: Option<u32>,
}

impl View for Record {
    type V = RecordView;

    open spec fn view(&self) -> RecordView {
        RecordView {
            level: self.metadata.level,
            target: self.metadata.target@,
            auth_token: opt_view(self.metadata.auth_token),
            app_id: opt_view(self.metadata.app_id),
            message: self.args@,
            module: opt_view(self.module),
            file: opt_view(self.file),
            line: self.line,
        }
    }
}

/// A record as sent over the network: the record's fields, the wall-clock
/// time of encoding in Unix seconds, and the sender's credentials.
pub struct NetRecord {
    pub level: Level,
    pub target: String,
    pub message: String,
    pub module: Option<String>,
    pub file: Option<String>,
    pub line: Option<u32>,
    pub timestamp: u64,
    pub auth_token: Option<String>,
    pub app_id: Option<String>,
}

/// The fields of a network record, as values.
pub struct NetRecordView {
    pub level: Level,
    pub target: Seq<char>,
    pub message: Seq<char>,
    pub module: Option<Seq<char>>,
    pub file: Option<Seq<char>>,
    pub line: Option<u32>,
    pub timestamp: u64,
    pub auth_token: Option<Seq<char>>,
    pub app_id: Option<Seq<char>>,
}

impl View for NetRecord {
    type V = NetRecordView;

    open spec fn view(&self) -> NetRecordView {
        NetRecordView {
            level: self.level,
            target: self.target@,
            message: self.message@,
            module: opt_view(self.module),
            file: opt_view(self.file),
            line: self.line,
            timestamp: self.timestamp,
            auth_token: opt_view(self.auth_token),
            app_id: opt_view(self.app_id),
        }
    }
}

pub fn clone_opt(o: &Option<String>) -> (r: Option<String>)
    ensures
        opt_view(r) == opt_view(*o),
{
    match o {
        Some(s) => Some(s.clone()),
        None => None,
    }
}

/// How the level is shown by a formatted sink.
#[derive(Debug, Clone)]
pub struct LevelStyle {
    pub error: String,
    pub warn: String,
    pub info: String,
    pub debug: String,
    pub trace: String,
}

impl Default for LevelStyle {
    fn default() -> (r: LevelStyle)
        ensures
            r.error@ == "ERROR"@,
            r.warn@ == "WARN"@,
            r.info@ == "INFO"@,
            r.debug@ == "DEBUG"@,
            r.trace@ == "TRACE"@,
    {
        LevelStyle {
            error: String::from_str("ERROR"),
            warn: String::from_str("WARN"),
            info: String::from_str("INFO"),
            debug: String::from_str("DEBUG"),
            trace: String::from_str("TRACE"),
        }
    }
}

/// The label a style gives a level.
pub open spec fn style_label(st: LevelStyle, l: Level) -> Seq<char> {
    match l {
        Level::Error => st.error@,
        Level::Warn => st.warn@,
        Level::Info => st.info@,
        Level::Debug => st.debug@,
        Level::Trace => st.trace@,
    }
}

impl LevelStyle {
    pub fn label(&self, l: Level) -> (r: &str)
        ensures
            r@ == style_label(*self, l),
    {
        match l {
            Level::Error => self.error.as_str(),
            Level::Warn => self.warn.as_str(),
            Level::Info => self.info.as_str(),
            Level::Debug => self.debug.as_str(),
            Level::Trace => self.trace.as_str(),
        }
    }
}

/// Output template of a formatted sink.
#[derive(Debug, Clone)]
pub struct FormatConfig {
    /// chrono-style timestamp format.
    pub timestamp_format: String,
    pub level_style: LevelStyle,
    /// Template with the placeholders `{timestamp} {level} {target} {file} {line} {message}`.
    pub format_template: String,
}

impl Default for FormatConfig {
    fn default() -> (r: FormatConfig)
        ensures
            r.timestamp_format@ == "%Y-%m-%d %H:%M:%S%.3f"@,
            r.format_template@ == "{timestamp} [{level}] {target}:{line} - {message}"@,
            r.level_style.error@ == "ERROR"@,
            r.level_style.trace@ == "TRACE"@,
    {
        FormatConfig {
            timestamp_format: String::from_str("%Y-%m-%d %H:%M:%S%.3f"),
            level_style: LevelStyle::default(),
            format_template: String::from_str("{timestamp} [{level}] {target}:{line} - {message}"),
        }
    }
}

/// ANSI colour codes of a terminal sink.
#[derive(Debug, Clone)]
pub struct ColorConfig {
    pub error: String,
    pub warn: String,
    pub info: String,
    pub debug: String,
    pub trace: String,
    pub timestamp: String,
    pub target: String,
    pub file: String,
    pub message: String,
}

impl Default for ColorConfig {
    fn default() -> (r: ColorConfig)
        ensures
            r.error@ == "\x1b[31m"@,
            r.message@ == "\x1b[0m"@,
    {
        ColorConfig {
            error: String::from_str("\x1b[31m"),
            warn: String::from_str("\x1b[33m"),
            info: String::from_str("\x1b[32m"),
            debug: String::from_str("\x1b[36m"),
            trace: String::from_str("\x1b[37m"),
            timestamp: String::from_str("\x1b[90m"),
            target: String::from_str("\x1b[34m"),
            file: String::from_str("\x1b[35m"),
            message: String::from_str("\x1b[0m"),
        }
    }
}

/// The colour a palette gives a level.
pub open spec fn level_color(c: ColorConfig, l: Level) -> Seq<char> {
    match l {
        Level::Error => c.error@,
        Level::Warn => c.warn@,
        Level::Info => c.info@,
        Level::Debug => c.debug@,
        Level::Trace => c.trace@,
    }
}

impl ColorConfig {
    pub fn level_color(&self, l: Level) -> (r: &str)
        ensures
            r@ == level_color(*self, l),
    {
        match l {
            Level::Error => self.error.as_str(),
            Level::Warn => self.warn.as_str(),
            Level::Info => self.info.as_str(),
            Level::Debug => self.debug.as_str(),
            Level::Trace => self.trace.as_str(),
        }
    }
}

/// Destination and credentials of a UDP sink.
#[derive(Clone, Debug)]
pub struct NetworkConfig {
    pub server_addr: String,
    pub server_port: u16,
    pub auth_token: String,
    pub app_id: String,
}

impl Default for NetworkConfig {
    fn default() -> (r: NetworkConfig)
        ensures
            r.server_addr@ == "127.0.0.1"@,
            r.server_port == 5140,
            r.auth_token@ == "default_token"@,
            r.app_id@ == "default_app"@,
    {
        NetworkConfig {
            server_addr: String::from_str("127.0.0.1"),
            server_port: 5140,
            auth_token: String::from_str("default_token"),
            app_id: String::from_str("default_app"),
        }
    }
}

/// Largest accepted compression level.
pub const MAX_COMPRESSION_LEVEL: u8 = 22;

/// Configuration of a file sink.
#[derive(Debug, Clone)]
pub struct FileConfig {
    pub log_dir: String,
    pub max_file_size: u64,
    pub max_compressed_files: usize,
    pub compression_level: u8,
    pub min_compress_threads: usize,
    /// Drop records without an `app_id` at the sink.
    pub skip_server_logs: bool,
    /// Write only `message\n` per record.
    pub is_raw: bool,
    /// Rotate and compress the active file when the sink is cleaned up.
    pub compress_on_drop: bool,
    /// Sync the file after every write.
    pub force_sync: bool,
    /// Output template; cannot be combined with `is_raw`.
    pub format: Option<FormatConfig>,
}

impl Default for FileConfig {
    fn default() -> (r: FileConfig)
        ensures
            r.log_dir@ == "./logs"@,
            r.max_file_size == 10485760,
            r.max_compressed_files == 10,
            r.compression_level == 4,
            r.min_compress_threads == 2,
            !r.skip_server_logs,
            !r.is_raw,
            !r.compress_on_drop,
            !r.force_sync,
            r.format is None,
    {
        FileConfig {
            log_dir: String::from_str("./logs"),
            max_file_size: 10485760,
            max_compressed_files: 10,
            compression_level: 4,
            min_compress_threads: 2,
            skip_server_logs: false,
            is_raw: false,
            compress_on_drop: false,
            force_sync: false,
            format: None,
        }
    }
}

/// A file sink's configuration together with its write batching.
#[derive(Debug, Clone)]
pub struct FileProcessorConfig {
    pub file_config: FileConfig,
    /// Bytes gathered before a write.
    pub batch_size: usize,
    /// Longest wait before gathered bytes are written, in milliseconds.
    pub flush_interval_ms: u64,
}

impl Default for FileProcessorConfig {
    fn default() -> (r: FileProcessorConfig)
        ensures
            r.batch_size == 8192,
            r.flush_interval_ms == 100,
            r.file_config.max_file_size == 10485760,
    {
        FileProcessorConfig { file_config: FileConfig::default(), batch_size: 8192, flush_interval_ms: 100 }
    }
}

/// Why a file sink configuration was refused.
#[derive(Debug, Clone, Copy, PartialEq, Eq, Structural)]
pub enum FileConfigError {
    ZeroMaxFileSize,
    CompressionLevelTooHigh,
    RawWithFormat,
}

/// The first rule a file configuration breaks, in a fixed order, or `Ok`.
pub open spec fn file_config_check(c: FileConfig) -> Result<(), FileConfigError> {
    if c.max_file_size == 0 {
        Err(FileConfigError::ZeroMaxFileSize)
    } else if c.compression_level > MAX_COMPRESSION_LEVEL {
        Err(FileConfigError::CompressionLevelTooHigh)
    } else if c.is_raw && c.format is Some {
        Err(FileConfigError::RawWithFormat)
    } else {
        Ok(())
    }
}

impl FileConfig {
    pub fn validate(&self) -> (r: Result<(), FileConfigError>)
        ensures
            r == file_config_check(*self),
    {
        if self.max_file_size == 0 {
            return Err(FileConfigError::ZeroMaxFileSize);
        }
        if self.compression_level > MAX_COMPRESSION_LEVEL {
            return Err(FileConfigError::CompressionLevelTooHigh);
        }
        if self.is_raw && self.format.is_some() {
            return Err(FileConfigError::RawWithFormat);
        }
        Ok(())
    }
}

} // verus!
