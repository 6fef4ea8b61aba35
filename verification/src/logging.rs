//! The compositor's log output: which events are shown and how a line looks.
use vstd::prelude::*;
use crate::text::{append_padded, pad_right, str_eq};

verus! {

/// The level of a log event, from the most verbose to the most severe.
#[derive(Debug, Clone, Copy, PartialEq, Eq, Structural)]
pub enum LogLevel {
    Trace,
    Debug,
    Info,
    Warn,
    Error,
}

/// The rank of a level: 0 for the most verbose, `Trace`, up to 4 for `Error`.
pub open spec fn severity(level: LogLevel) -> int {
    match level {
        LogLevel::Trace => 0,
        LogLevel::Debug => 1,
        LogLevel::Info => 2,
        LogLevel::Warn => 3,
        LogLevel::Error => 4,
    }
}

/// The most verbose level that is shown.
pub open spec fn max_level() -> LogLevel {
    LogLevel::Debug
}

/// Whether events of a level are shown: every level at most as verbose as the maximum.
pub open spec fn is_enabled(level: LogLevel) -> bool {
    severity(level) >= severity(max_level())
}

/// The filter is a threshold on severity: `Debug` events are shown, `Trace` events are
/// not, and whenever a level is shown so is every more severe one.
pub proof fn lemma_enabled_threshold(shown: LogLevel, other: LogLevel)
    ensures
        is_enabled(LogLevel::Debug),
        !is_enabled(LogLevel::Trace),
        is_enabled(shown) && severity(other) >= severity(shown) ==> is_enabled(other),
        severity(LogLevel::Trace) < severity(LogLevel::Debug) < severity(LogLevel::Info)
            < severity(LogLevel::Warn) < severity(LogLevel::Error),
{
}

/// The name a level is printed by.
pub open spec fn level_name_text(level: LogLevel) -> Seq<char> {
    match level {
        LogLevel::Trace => "TRACE"@,
        LogLevel::Debug => "DEBUG"@,
        LogLevel::Info => "INFO"@,
        LogLevel::Warn => "WARN"@,
        LogLevel::Error => "ERROR"@,
    }
}

/// The terminal color escape a level is printed in.
pub open spec fn level_color_text(level: LogLevel) -> Seq<char> {
    match level {
        LogLevel::Trace => "\x1b[94m"@,
        LogLevel::Debug => "\x1b[34m"@,
        LogLevel::Info => "\x1b[32m"@,
        LogLevel::Warn => "\x1b[33m"@,
        LogLevel::Error => "\x1b[31m"@,
    }
}

/// The escape that resets the terminal color.
pub open spec fn color_reset_text() -> Seq<char> {
    "\x1b[0m"@
}

/// The colored level tag at the head of a line: the color, `[LEVEL]` padded to seven
/// characters, and the reset.
pub open spec fn level_injection_text(level: LogLevel) -> Seq<char> {
    level_color_text(level) + pad_right("["@ + level_name_text(level) + "]"@, 7) + color_reset_text()
}

/// The name a level is printed by.
pub fn level_name(level: LogLevel) -> (name: &'static str)
    ensures
        name@ == level_name_text(level),
{
    match level {
        LogLevel::Trace => "TRACE",
        LogLevel::Debug => "DEBUG",
        LogLevel::Info => "INFO",
        LogLevel::Warn => "WARN",
        LogLevel::Error => "ERROR",
    }
}

/// The terminal color escape a level is printed in.
pub fn level_color(level: LogLevel) -> (color: &'static str)
    ensures
        color@ == level_color_text(level),
{
    match level {
        LogLevel::Trace => "\x1b[94m",
        LogLevel::Debug => "\x1b[34m",
        LogLevel::Info => "\x1b[32m",
        LogLevel::Warn => "\x1b[33m",
        LogLevel::Error => "\x1b[31m",
    }
}

/// The colored level tag at the head of a log line.
pub fn level_injection(level: LogLevel) -> (tag: String)
    ensures
        tag@ == level_injection_text(level),
{
    let mut label = String::from_str("[");
    label.append(level_name(level));
    label.append("]");
    let mut tag = String::from_str(level_color(level));
    append_padded(&mut tag, label.as_str(), 7);
    tag.append("\x1b[0m");
    tag
}

/// The names and colors levels are printed in: `TRACE` bright blue, `DEBUG` blue,
/// `INFO` green, `WARN` yellow and `ERROR` red, by their ANSI escapes; no two levels
/// share a name or a color.
pub proof fn lemma_level_table(a: LogLevel, b: LogLevel)
    ensures
        level_name_text(LogLevel::Trace) == "TRACE"@ && level_color_text(LogLevel::Trace) == "\x1b[94m"@,
        level_name_text(LogLevel::Debug) == "DEBUG"@ && level_color_text(LogLevel::Debug) == "\x1b[34m"@,
        level_name_text(LogLevel::Info) == "INFO"@ && level_color_text(LogLevel::Info) == "\x1b[32m"@,
        level_name_text(LogLevel::Warn) == "WARN"@ && level_color_text(LogLevel::Warn) == "\x1b[33m"@,
        level_name_text(LogLevel::Error) == "ERROR"@ && level_color_text(LogLevel::Error) == "\x1b[31m"@,
        a != b ==> level_name_text(a) != level_name_text(b) && level_color_text(a) != level_color_text(b),
{
    reveal_strlit("TRACE");
    reveal_strlit("DEBUG");
    reveal_strlit("INFO");
    reveal_strlit("WARN");
    reveal_strlit("ERROR");
    reveal_strlit("\x1b[94m");
    reveal_strlit("\x1b[34m");
    reveal_strlit("\x1b[32m");
    reveal_strlit("\x1b[33m");
    reveal_strlit("\x1b[31m");
    if a != b {
        assert(level_name_text(a)[0] != level_name_text(b)[0] || level_name_text(a)[1] != level_name_text(b)[1]);
        assert(level_color_text(a)[2] != level_color_text(b)[2] || level_color_text(a)[3] != level_color_text(b)[3]);
    }
}

/// Every level tag is exactly seven characters wide between its color escapes, so the
/// text after it lines up from one line to the next whatever the level.
pub proof fn lemma_tags_aligned(a: LogLevel, b: LogLevel)
    ensures
        pad_right("["@ + level_name_text(a) + "]"@, 7).len() == 7,
        level_injection_text(a).len() == level_injection_text(b).len(),
{
    reveal_strlit("[");
    reveal_strlit("]");
    reveal_strlit("TRACE");
    reveal_strlit("DEBUG");
    reveal_strlit("INFO");
    reveal_strlit("WARN");
    reveal_strlit("ERROR");
    reveal_strlit("\x1b[94m");
    reveal_strlit("\x1b[34m");
    reveal_strlit("\x1b[32m");
    reveal_strlit("\x1b[33m");
    reveal_strlit("\x1b[31m");
    reveal_strlit("\x1b[0m");
}

/// The fields of an event, as the subscriber collects them: the message, and every
/// other field with its name, in the order they were recorded.
#[derive(Debug)]
pub struct FieldVisitor {
    pub message: Option<String>,
    pub fields: Vec<(String, String)>,
}

impl FieldVisitor {
    /// A visitor that has recorded nothing.
    pub fn new() -> (v: FieldVisitor)
        ensures
            v.message is None,
            v.fields@.len() == 0,
    {
        FieldVisitor { message: None, fields: Vec::new() }
    }

    /// Records a field's formatted value: the field named "message" becomes the
    /// message, any other is appended to the fields.
    pub fn record_debug(&mut self, name: &str, value: String)
        ensures
            name@ == "message"@ ==> {
                &&& final(self).message == Some(value)
                &&& final(self).fields@ == old(self).fields@
            },
            name@ != "message"@ ==> {
                &&& final(self).message == old(self).message
                &&& final(self).fields@.len() == old(self).fields@.len() + 1
                &&& final(self).fields@.drop_last() == old(self).fields@
                &&& final(self).fields@.last().0@ == name@
                &&& final(self).fields@.last().1 == value
            },
    {
        if str_eq(name, "message") {
            self.message = Some(value);
        } else {
            self.fields.push((String::from_str(name), value));
        }
    }
}

/// The text of the recorded fields after the message: ` name=value` for each, in order.
pub open spec fn fields_text(fields: Seq<(String, String)>) -> Seq<char>
    decreases fields.len(),
{
    if fields.len() == 0 {
        Seq::empty()
    } else {
        fields_text(fields.drop_last()) + " "@ + fields.last().0@ + "="@ + fields.last().1@
    }
}

/// The line printed for an event: the level tag, the target, the message (empty when
/// there is none) and the other fields.
pub open spec fn event_line_text(level: LogLevel, target: Seq<char>, message: Option<String>, fields: Seq<(String, String)>) -> Seq<char> {
    level_injection_text(level) + " "@ + target + ": "@ + (match message {
        Some(m) => m@,
        None => Seq::empty(),
    }) + fields_text(fields)
}

/// The subscriber that prints every enabled event on a line of its own.
#[derive(Debug, Clone, Copy)]
pub struct SimpleSubscriber;

impl SimpleSubscriber {
    /// Whether events of a level are printed: every level but `Trace`.
    pub fn enabled(&self, level: LogLevel) -> (r: bool)
        ensures
            r == is_enabled(level),
            r <==> level != LogLevel::Trace,
    {
        match level {
            LogLevel::Trace => false,
            _ => true,
        }
    }

    /// The id given to every new span.
    pub fn new_span(&self) -> (id: u64)
        ensures
            id == 1,
    {
        1
    }

    /// The line printed for an event of a level and target, from the fields it recorded.
    pub fn event_line(&self, level: LogLevel, target: &str, visitor: FieldVisitor) -> (line: String)
        ensures
            line@ == event_line_text(level, target@, visitor.message, visitor.fields@),
    {
        let FieldVisitor { message, fields } = visitor;
        let mut line = level_injection(level);
        line.append(" ");
        line.append(target);
        line.append(": ");
        let ghost head = line@;
        match message {
            Some(m) => line.append(m.as_str()),
            None => {},
        }
        let ghost with_message = line@;
        let n = fields.len();
        let mut i: usize = 0;
        while i < n
            invariant
                n == fields@.len(),
                i <= n,
                line@ == with_message + fields_text(fields@.take(i as int)),
            decreases n - i,
        {
            let (ref k, ref v) = fields[i];
            line.append(" ");
            line.append(k.as_str());
            line.append("=");
            line.append(v.as_str());
            assert(fields@.take(i + 1).drop_last() =~= fields@.take(i as int));
            i = i + 1;
        }
        assert(fields@.take(n as int) =~= fields@);
        line
    }
}

} // verus!
