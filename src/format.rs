//! Rendering records to text: the template language of the formatted sinks.

use vstd::prelude::*;
use crate::config::{
    Level, Record, RecordView, FormatConfig, ColorConfig, level_tag, style_label, level_color, opt_view,
};
use crate::text::{decimal, occurs_at, occurs_at_exec, push_str, decimal_string};

verus! {

/// The values that a template's placeholders stand for, in the order
/// timestamp, level, target, file, line, message.
pub struct Fields {
    pub timestamp: Seq<char>,
    pub level: Seq<char>,
    pub target: Seq<char>,
    pub file: Seq<char>,
    pub line: Seq<char>,
    pub message: Seq<char>,
}

pub open spec fn ph_timestamp() -> Seq<char> {
    "{timestamp}"@
}

pub open spec fn ph_level() -> Seq<char> {
    "{level}"@
}

pub open spec fn ph_target() -> Seq<char> {
    "{target}"@
}

pub open spec fn ph_file() -> Seq<char> {
    "{file}"@
}

pub open spec fn ph_line() -> Seq<char> {
    "{line}"@
}

pub open spec fn ph_message() -> Seq<char> {
    "{message}"@
}

/// The literal that ends a coloured placeholder group.
pub open spec fn brace_colon() -> Seq<char> {
    "}:"@
}

/// The template from position `i` on, with each placeholder replaced by its
/// value and, when `colon` is given, each literal `}:` replaced by `colon`.
/// Text that is not a placeholder is copied as it is.
pub open spec fn render_from(t: Seq<char>, v: Fields, colon: Option<Seq<char>>, i: int) -> Seq<char>
    decreases t.len() - i,
{
    if i < 0 || i >= t.len() {
        Seq::empty()
    } else if i + 11 <= t.len() && occurs_at(t, ph_timestamp(), i) {
        v.timestamp + render_from(t, v, colon, i + 11)
    } else if i + 7 <= t.len() && occurs_at(t, ph_level(), i) {
        v.level + render_from(t, v, colon, i + 7)
    } else if i + 8 <= t.len() && occurs_at(t, ph_target(), i) {
        v.target + render_from(t, v, colon, i + 8)
    } else if i + 6 <= t.len() && occurs_at(t, ph_file(), i) {
        v.file + render_from(t, v, colon, i + 6)
    } else if i + 6 <= t.len() && occurs_at(t, ph_line(), i) {
        v.line + render_from(t, v, colon, i + 6)
    } else if i + 9 <= t.len() && occurs_at(t, ph_message(), i) {
        v.message + render_from(t, v, colon, i + 9)
    } else if colon is Some && i + 2 <= t.len() && occurs_at(t, brace_colon(), i) {
        colon.unwrap() + render_from(t, v, colon, i + 2)
    } else {
        seq![t[i]] + render_from(t, v, colon, i + 1)
    }
}

/// The whole template rendered.
pub open spec fn render(t: Seq<char>, v: Fields, colon: Option<Seq<char>>) -> Seq<char> {
    render_from(t, v, colon, 0)
}

/// The placeholder values as executable strings.
pub struct FieldStrings {
    pub timestamp: String,
    pub level: String,
    pub target: String,
    pub file: String,
    pub line: String,
    pub message: String,
}

impl View for FieldStrings {
    type V = Fields;

    open spec fn view(&self) -> Fields {
        Fields {
            timestamp: self.timestamp@,
            level: self.level@,
            target: self.target@,
            file: self.file@,
            line: self.line@,
            message: self.message@,
        }
    }
}

/// Renders a template; see `render`.
pub fn render_template(t: &str, v: &FieldStrings, colon: Option<&str>) -> (r: String)
    ensures
        r@ == render(t@, v@, match colon {
            Some(c) => Some(c@),
            None => None,
        }),
{
    let ghost cv: Option<Seq<char>> = match colon {
        Some(c) => Some(c@),
        None => None,
    };
    let n = t.unicode_len();
    let mut out = String::new();
    let mut i: usize = 0;
    proof {
        reveal_strlit("{timestamp}");
        reveal_strlit("{level}");
        reveal_strlit("{target}");
        reveal_strlit("{file}");
        reveal_strlit("{line}");
        reveal_strlit("{message}");
        reveal_strlit("}:");
    }
    while i < n
        invariant
            n == t@.len(),
            i <= n,
            out@ + render_from(t@, v@, cv, i as int) == render(t@, v@, cv),
            cv == match colon {
                Some(c) => Some(c@),
                None => None::<Seq<char>>,
            },
            ph_timestamp().len() == 11,
            ph_level().len() == 7,
            ph_target().len() == 8,
            ph_file().len() == 6,
            ph_line().len() == 6,
            ph_message().len() == 9,
            brace_colon().len() == 2,
        decreases n - i,
    {
        let ghost before = out@;
        let ghost i0 = i as int;
        if occurs_at_exec(t, n, "{timestamp}", i) {
            push_str(&mut out, v.timestamp.as_str());
            i = i + 11;
        } else if occurs_at_exec(t, n, "{level}", i) {
            push_str(&mut out, v.level.as_str());
            i = i + 7;
        } else if occurs_at_exec(t, n, "{target}", i) {
            push_str(&mut out, v.target.as_str());
            i = i + 8;
        } else if occurs_at_exec(t, n, "{file}", i) {
            push_str(&mut out, v.file.as_str());
            i = i + 6;
        } else if occurs_at_exec(t, n, "{line}", i) {
            push_str(&mut out, v.line.as_str());
            i = i + 6;
        } else if occurs_at_exec(t, n, "{message}", i) {
            push_str(&mut out, v.message.as_str());
            i = i + 9;
        } else if colon.is_some() && occurs_at_exec(t, n, "}:", i) {
            match colon {
                Some(c) => push_str(&mut out, c),
                None => {},
            }
            i = i + 2;
        } else {
            push_str(&mut out, t.substring_char(i, i + 1));
            i = i + 1;
        }
        assert(before + render_from(t@, v@, cv, i0) =~= out@ + render_from(t@, v@, cv, i as int));
    }
    out
}

/// The reset sequence that ends a coloured span.
pub open spec fn reset() -> Seq<char> {
    "\x1b[0m"@
}

/// `color`, then `s`, then the reset sequence.
pub open spec fn colored(color: Seq<char>, s: Seq<char>) -> Seq<char> {
    color + s + reset()
}

/// What `{file}` shows: the file, or `unknown`.
pub open spec fn file_shown(r: RecordView) -> Seq<char> {
    match r.file {
        Some(f) => f,
        None => "unknown"@,
    }
}

/// What `{line}` shows: the line, or `0`.
pub open spec fn line_shown(r: RecordView) -> Seq<char> {
    match r.line {
        Some(l) => decimal(l as nat),
        None => decimal(0),
    }
}

/// The plain placeholder values of a record.
pub open spec fn plain_fields(r: RecordView, timestamp: Seq<char>, level: Seq<char>) -> Fields {
    Fields {
        timestamp,
        level,
        target: r.target,
        file: file_shown(r),
        line: line_shown(r),
        message: r.message,
    }
}

/// The coloured placeholder values of a record.
pub open spec fn color_fields(r: RecordView, timestamp: Seq<char>, level: Seq<char>, c: ColorConfig) -> Fields {
    Fields {
        timestamp: colored(c.timestamp@, timestamp),
        level: colored(level_color(c, r.level), level),
        target: colored(c.target@, r.target),
        file: colored(c.file@, file_shown(r)),
        line: colored(c.file@, line_shown(r)),
        message: colored(c.message@, r.message),
    }
}

/// The template of the default line layout.
pub open spec fn default_template() -> Seq<char> {
    "{timestamp} [{level}] {target} {file}:{line} - {message}"@
}

/// The default line: `timestamp [LEVEL] target file:line - message\n`.
pub open spec fn default_line(r: RecordView, timestamp: Seq<char>) -> Seq<char> {
    render(default_template(), plain_fields(r, timestamp, level_tag(r.level)), None)
        + seq!['\n']
}

/// A line rendered with a format configuration.
pub open spec fn config_line(r: RecordView, timestamp: Seq<char>, f: FormatConfig) -> Seq<char> {
    render(
        f.format_template@,
        plain_fields(r, timestamp, style_label(f.level_style, r.level)),
        None,
    ) + seq!['\n']
}

/// A line rendered with a format configuration and a palette.
pub open spec fn color_line(r: RecordView, timestamp: Seq<char>, f: FormatConfig, c: ColorConfig) -> Seq<char> {
    render(
        f.format_template@,
        color_fields(r, timestamp, style_label(f.level_style, r.level), c),
        Some(reset() + seq![':'] + c.file@),
    ) + seq!['\n']
}

/// A raw line: the message alone.
pub open spec fn raw_line(r: RecordView) -> Seq<char> {
    r.message + seq!['\n']
}

fn file_text(r: &Record) -> (s: String)
    ensures
        s@ == file_shown(r@),
{
    match &r.file {
        Some(f) => f.clone(),
        None => String::from_str("unknown"),
    }
}

fn line_text(r: &Record) -> (s: String)
    ensures
        s@ == line_shown(r@),
{
    match r.line {
        Some(l) => decimal_string(l as u64),
        None => decimal_string(0),
    }
}

fn wrap(color: &str, s: &str) -> (r: String)
    ensures
        r@ == colored(color@, s@),
{
    let mut out = String::new();
    push_str(&mut out, color);
    push_str(&mut out, s);
    proof {
        reveal_strlit("\x1b[0m");
    }
    push_str(&mut out, "\x1b[0m");
    out
}

fn newline_terminated(mut s: String) -> (r: String)
    ensures
        r@ == s@ + seq!['\n'],
{
    proof {
        reveal_strlit("\n");
    }
    push_str(&mut s, "\n");
    s
}

/// Formats a record in the default layout, with the given timestamp text.
pub fn default_format(r: &Record, timestamp: &str) -> (s: String)
    ensures
        s@ == default_line(r@, timestamp@),
{
    let v = FieldStrings {
        timestamp: String::from_str(timestamp),
        level: r.metadata.level.to_string(),
        target: r.metadata.target.clone(),
        file: file_text(r),
        line: line_text(r),
        message: r.args.clone(),
    };
    let line = render_template("{timestamp} [{level}] {target} {file}:{line} - {message}", &v, None);
    assert(v@ == plain_fields(r@, timestamp@, level_tag(r.metadata.level)));
    newline_terminated(line)
}

/// Formats a record with a format configuration.
pub fn format_with_config(r: &Record, timestamp: &str, f: &FormatConfig) -> (s: String)
    ensures
        s@ == config_line(r@, timestamp@, *f),
{
    let v = FieldStrings {
        timestamp: String::from_str(timestamp),
        level: String::from_str(f.level_style.label(r.metadata.level)),
        target: r.metadata.target.clone(),
        file: file_text(r),
        line: line_text(r),
        message: r.args.clone(),
    };
    let line = render_template(f.format_template.as_str(), &v, None);
    assert(v@ == plain_fields(r@, timestamp@, style_label(f.level_style, r.metadata.level)));
    newline_terminated(line)
}

/// Formats a record with a format configuration and a palette: each
/// placeholder is wrapped in its colour and a reset, and each literal `}:`
/// of the template becomes a reset, the colon and the file colour.
pub fn format_with_color(r: &Record, timestamp: &str, f: &FormatConfig, c: &ColorConfig) -> (s: String)
    ensures
        s@ == color_line(r@, timestamp@, *f, *c),
{
    let file = file_text(r);
    let line = line_text(r);
    let v = FieldStrings {
        timestamp: wrap(c.timestamp.as_str(), timestamp),
        level: wrap(c.level_color(r.metadata.level), f.level_style.label(r.metadata.level)),
        target: wrap(c.target.as_str(), r.metadata.target.as_str()),
        file: wrap(c.file.as_str(), file.as_str()),
        line: wrap(c.file.as_str(), line.as_str()),
        message: wrap(c.message.as_str(), r.args.as_str()),
    };
    let mut colon = String::new();
    proof {
        reveal_strlit("\x1b[0m:");
        reveal_strlit("\x1b[0m");
    }
    push_str(&mut colon, "\x1b[0m:");
    push_str(&mut colon, c.file.as_str());
    assert(colon@ =~= reset() + seq![':'] + c.file@);
    let text = render_template(f.format_template.as_str(), &v, Some(colon.as_str()));
    assert(v@ == color_fields(r@, timestamp@, style_label(f.level_style, r.metadata.level), *c));
    newline_terminated(text)
}

/// Formats a record as its message alone.
pub fn raw_format(r: &Record) -> (s: String)
    ensures
        s@ == raw_line(r@),
{
    newline_terminated(r.args.clone())
}

} // verus!
