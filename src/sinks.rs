//! The sink protocol, the logger façade, and the layouts of the text sinks.

use vstd::prelude::*;
use std::fmt::Write as _;
use crate::config::{
    Level, LevelFilter, Record, RecordView, FileConfig, FormatConfig, ColorConfig,
};
use crate::codec::{CodecError, decode_record, encodes_record};
use crate::format::{
    default_format, format_with_config, format_with_color, raw_format, default_line, config_line,
    color_line, raw_line,
};
use crate::text::push_str;

verus! {

/// A sink, as seen by its worker. Errors are reported as text and never
/// reach the producers.
pub trait LogProcessor: Send + 'static {
    /// The sink's type tag, used by the initialisation handshake.
    fn name(&self) -> &'static str;

    /// Applies one encoded record.
    fn process(&mut self, data: &[u8]) -> Result<(), String>;

    /// Applies encoded records in order; stops at the first error.
    fn process_batch(&mut self, batch: &[Vec<u8>]) -> Result<(), String> {
        let mut i: usize = 0;
        while i < batch.len()
            decreases batch@.len() - i,
        {
            let r = self.process(batch[i].as_slice());
            if r.is_err() {
                return r;
            }
            i = i + 1;
        }
        Ok(())
    }

    /// Closes the active file and opens the next; only file sinks act.
    fn handle_rotate(&mut self) -> Result<(), String> {
        Ok(())
    }

    /// Schedules a path for compression; only file sinks act.
    fn handle_compress(&mut self, path: &str) -> Result<(), String> {
        Ok(())
    }

    /// Makes buffered output durable on the sink's medium.
    fn flush(&mut self) -> Result<(), String>;

    /// Releases the sink's resources; called once, at shutdown.
    fn cleanup(&mut self) -> Result<(), String>;
}

/// The logger façade.
pub trait Logger: Send + Sync {
    fn log(&self, record: &Record);

    fn flush(&self);

    fn set_level(&self, level: LevelFilter);

    fn level(&self) -> LevelFilter;

    /// Flushes every sink, ignoring batching, then waits a short grace period.
    fn force_flush(&self);

    /// Sends a record past batching and the level gate.
    fn emergency_log(&self, record: &Record);
}

/// A global logger was already installed.
#[derive(Debug)]
pub struct SetLoggerError;

impl SetLoggerError {
    pub fn message(&self) -> (r: String)
        ensures
            r@ == "failed to set logger"@,
    {
        String::from_str("failed to set logger")
    }
}

/// Quick set-up of a terminal logger at a chosen level.
#[derive(Debug, Clone)]
pub struct FmtInitializer {
    pub max_level: LevelFilter,
}

impl Default for FmtInitializer {
    fn default() -> (r: FmtInitializer)
        ensures
            r.max_level == LevelFilter::Info,
    {
        FmtInitializer { max_level: LevelFilter::Info }
    }
}

impl FmtInitializer {
    pub fn new() -> (r: FmtInitializer)
        ensures
            r.max_level == LevelFilter::Info,
    {
        FmtInitializer::default()
    }

    pub fn with_max_level(self, level: LevelFilter) -> (r: FmtInitializer)
        ensures
            r.max_level == level,
    {
        FmtInitializer { max_level: level }
    }
}

/// A quick initialiser with the default level, `Info`.
pub fn fmt() -> (r: FmtInitializer)
    ensures
        r.max_level == LevelFilter::Info,
{
    FmtInitializer::new()
}

/// Configuration of a terminal sink.
#[derive(Debug, Clone)]
pub struct TermConfig {
    pub enable_color: bool,
    pub format: Option<FormatConfig>,
    pub color: Option<ColorConfig>,
}

impl Default for TermConfig {
    fn default() -> (r: TermConfig)
        ensures
            r.enable_color,
            r.format is None,
            r.color is None,
    {
        TermConfig { enable_color: true, format: None, color: None }
    }
}

/// Why a terminal configuration was refused.
#[derive(Debug, Clone, Copy, PartialEq, Eq, Structural)]
pub enum TermConfigError {
    /// A palette was given while colour is disabled.
    ColorWhileDisabled,
    EmptyTemplate,
    EmptyTimestampFormat,
}

/// The first rule a terminal configuration breaks, in a fixed order, or `Ok`.
pub open spec fn term_config_check(c: TermConfig) -> Result<(), TermConfigError> {
    if !c.enable_color && c.color is Some {
        Err(TermConfigError::ColorWhileDisabled)
    } else if c.format is Some && c.format.unwrap().format_template@.len() == 0 {
        Err(TermConfigError::EmptyTemplate)
    } else if c.format is Some && c.format.unwrap().timestamp_format@.len() == 0 {
        Err(TermConfigError::EmptyTimestampFormat)
    } else {
        Ok(())
    }
}

impl TermConfig {
    pub fn validate(&self) -> (r: Result<(), TermConfigError>)
        ensures
            r == term_config_check(*self),
    {
        if !self.enable_color && self.color.is_some() {
            return Err(TermConfigError::ColorWhileDisabled);
        }
        match &self.format {
            Some(f) => {
                if f.format_template.as_str().is_empty() {
                    return Err(TermConfigError::EmptyTemplate);
                }
                if f.timestamp_format.as_str().is_empty() {
                    return Err(TermConfigError::EmptyTimestampFormat);
                }
            },
            None => {},
        }
        Ok(())
    }
}

/// How a text sink lays out a record.
#[derive(Debug, Clone)]
pub enum Layout {
    /// `timestamp [LEVEL] target file:line - message`.
    Default,
    /// A template.
    Plain(FormatConfig),
    /// A template with a palette.
    Colored(FormatConfig, ColorConfig),
    /// The message alone.
    Raw,
}

/// The line a layout gives a record.
pub open spec fn layout_line(l: Layout, r: RecordView, timestamp: Seq<char>) -> Seq<char> {
    match l {
        Layout::Default => default_line(r, timestamp),
        Layout::Plain(f) => config_line(r, timestamp, f),
        Layout::Colored(f, c) => color_line(r, timestamp, f, c),
        Layout::Raw => raw_line(r),
    }
}

/// The timestamp format of the default layout.
pub open spec fn default_timestamp_format() -> Seq<char> {
    "%Y-%m-%d %H:%M:%S%.3f"@
}

/// Relies on chrono's `Local::now` and `DateTime::format`: the local time
/// rendered with `fmt`, or `None` when chrono reports that the format cannot
/// be rendered. The result depends on the clock.
#[verifier::external_body]
fn local_timestamp(fmt: &str) -> (r: Option<String>) {
    let mut s = String::new();
    match write!(s, "{}", chrono::Local::now().format(fmt)) {
        Ok(()) => Some(s),
        Err(_) => None,
    }
}

impl Layout {
    /// The layout of a terminal sink: a palette applies when colour is
    /// enabled and given, over the configured template or the default one.
    pub fn for_terminal(c: TermConfig) -> (r: Layout)
        ensures
            c.format is Some && c.enable_color && c.color is Some ==> r == Layout::Colored(
                c.format.unwrap(),
                c.color.unwrap(),
            ),
            c.format is Some && !(c.enable_color && c.color is Some) ==> r == Layout::Plain(c.format.unwrap()),
            c.format is None && c.enable_color && c.color is Some ==> (r matches Layout::Colored(f, col)
                && col == c.color.unwrap() && f.format_template@ == "{timestamp} [{level}] {target}:{line} - {message}"@),
            c.format is None && !(c.enable_color && c.color is Some) ==> r == Layout::Default,
    {
        let use_color = c.enable_color && c.color.is_some();
        match (c.format, use_color) {
            (Some(f), true) => match c.color {
                Some(col) => Layout::Colored(f, col),
                None => Layout::Plain(f),
            },
            (Some(f), false) => Layout::Plain(f),
            (None, true) => match c.color {
                Some(col) => Layout::Colored(FormatConfig::default(), col),
                None => Layout::Default,
            },
            (None, false) => Layout::Default,
        }
    }

    /// The layout of a file sink: raw, the configured template, or the default.
    pub fn for_file(c: FileConfig) -> (r: Layout)
        ensures
            c.is_raw ==> r == Layout::Raw,
            !c.is_raw && c.format is Some ==> r == Layout::Plain(c.format.unwrap()),
            !c.is_raw && c.format is None ==> r == Layout::Default,
    {
        if c.is_raw {
            Layout::Raw
        } else {
            match c.format {
                Some(f) => Layout::Plain(f),
                None => Layout::Default,
            }
        }
    }

    /// The timestamp format of the layout.
    pub fn timestamp_format(&self) -> (r: &str)
        ensures
            self matches Layout::Plain(f) ==> r@ == f.timestamp_format@,
            self matches Layout::Colored(f, _) ==> r@ == f.timestamp_format@,
            (self is Default || self is Raw) ==> r@ == default_timestamp_format(),
    {
        proof {
            reveal_strlit("%Y-%m-%d %H:%M:%S%.3f");
        }
        match self {
            Layout::Plain(f) => f.timestamp_format.as_str(),
            Layout::Colored(f, _) => f.timestamp_format.as_str(),
            _ => "%Y-%m-%d %H:%M:%S%.3f",
        }
    }

    /// Formats a record with the given timestamp text.
    pub fn format(&self, r: &Record, timestamp: &str) -> (s: String)
        ensures
            s@ == layout_line(*self, r@, timestamp@),
    {
        match self {
            Layout::Default => default_format(r, timestamp),
            Layout::Plain(f) => format_with_config(r, timestamp, f),
            Layout::Colored(f, c) => format_with_color(r, timestamp, f, c),
            Layout::Raw => raw_format(r),
        }
    }

    /// The current local time in the layout's timestamp format; a format
    /// that cannot be rendered gives an empty text.
    pub fn timestamp_now(&self) -> (r: String) {
        match local_timestamp(self.timestamp_format()) {
            Some(t) => t,
            None => String::new(),
        }
    }

    /// Formats a record stamped with the current local time; a timestamp
    /// format that cannot be rendered gives an empty timestamp.
    pub fn format_now(&self, r: &Record) -> (s: String)
        ensures
            exists|ts: Seq<char>| s@ == #[trigger] layout_line(*self, r@, ts),
    {
        let ts = self.timestamp_now();
        self.format(r, ts.as_str())
    }

    /// Formats encoded records as one block of text, in order, leaving out
    /// those that `skip_server_logs` drops. A payload that does not decode
    /// fails the whole batch.
    pub fn format_batch(&self, payloads: &Vec<Vec<u8>>, timestamp: &str, skip_server_logs: bool) -> (r: Result<String, CodecError>)
        ensures
            all_encode_records(payloads@) ==> (r matches Ok(s) && s@ == batch_text(
                *self,
                payloads@,
                timestamp@,
                skip_server_logs,
            )),
    {
        let mut out = String::new();
        let mut i: usize = 0;
        while i < payloads.len()
            invariant
                i <= payloads@.len(),
                all_encode_records(payloads@) ==> out@ == batch_text(
                    *self,
                    payloads@.subrange(0, i as int),
                    timestamp@,
                    skip_server_logs,
                ),
            decreases payloads@.len() - i,
        {
            let rec = match decode_record(payloads[i].as_slice()) {
                Ok(rec) => rec,
                Err(e) => return Err(e),
            };
            let ghost before = out@;
            if keeps_record(&rec, skip_server_logs) {
                let line = self.format(&rec, timestamp);
                push_str(&mut out, line.as_str());
            }
            proof {
                let ps = payloads@.subrange(0, i + 1);
                assert(ps.drop_last() =~= payloads@.subrange(0, i as int));
                if all_encode_records(payloads@) {
                    let p = payloads@[i as int]@;
                    assert(encodes_record(p, record_of(p)));
                    assert(rec@ == record_of(p));
                }
            }
            i = i + 1;
        }
        proof {
            assert(payloads@.subrange(0, payloads@.len() as int) =~= payloads@);
        }
        Ok(out)
    }
}

/// The record encoded at the start of `p` (meaningful when there is one).
pub open spec fn record_of(p: Seq<u8>) -> RecordView {
    choose|m: RecordView| #[trigger] encodes_record(p, m)
}

/// Every payload begins with the encoding of a record.
pub open spec fn all_encode_records(ps: Seq<Vec<u8>>) -> bool {
    forall|i: int| 0 <= i < ps.len() ==> encodes_record(#[trigger] ps[i]@, record_of(ps[i]@))
}

/// Whether a sink keeps a record: with `skip_server_logs`, records without
/// an application tag are dropped.
pub open spec fn kept(r: RecordView, skip_server_logs: bool) -> bool {
    !(skip_server_logs && r.app_id is None)
}

pub fn keeps_record(r: &Record, skip_server_logs: bool) -> (b: bool)
    ensures
        b == kept(r@, skip_server_logs),
{
    !(skip_server_logs && r.metadata.app_id.is_none())
}

/// The text of a batch: the lines of the kept records, in order.
pub open spec fn batch_text(l: Layout, ps: Seq<Vec<u8>>, timestamp: Seq<char>, skip: bool) -> Seq<char>
    decreases ps.len(),
{
    if ps.len() == 0 {
        Seq::empty()
    } else {
        let r = record_of(ps.last()@);
        batch_text(l, ps.drop_last(), timestamp, skip) + if kept(r, skip) {
            layout_line(l, r, timestamp)
        } else {
            Seq::empty()
        }
    }
}

} // verus!
