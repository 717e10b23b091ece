//! Turns log events into lines for the dashboard.

use crate::text;
use vstd::prelude::*;

verus! {

/// How severe a log event is.
#[derive(Clone, Copy, Debug, PartialEq, Eq, Structural)]
pub enum Severity {
    Error,
    Warn,
    Info,
    Debug,
    Trace,
}

/// The label of a severity, five characters wide.
pub open spec fn label_of(level: Severity) -> Seq<char> {
    match level {
        Severity::Error => "ERROR"@,
        Severity::Warn => "WARN "@,
        Severity::Info => "INFO "@,
        Severity::Debug => "DEBUG"@,
        Severity::Trace => "TRACE"@,
    }
}

/// The label without its padding.
pub open spec fn short_label_of(level: Severity) -> Seq<char> {
    match level {
        Severity::Error => "ERROR"@,
        Severity::Warn => "WARN"@,
        Severity::Info => "INFO"@,
        Severity::Debug => "DEBUG"@,
        Severity::Trace => "TRACE"@,
    }
}

fn label(level: Severity) -> (r: &'static str)
    ensures
        r@ == label_of(level),
{
    match level {
        Severity::Error => "ERROR",
        Severity::Warn => "WARN ",
        Severity::Info => "INFO ",
        Severity::Debug => "DEBUG",
        Severity::Trace => "TRACE",
    }
}

fn short_label(level: Severity) -> (r: &'static str)
    ensures
        r@ == short_label_of(level),
{
    match level {
        Severity::Error => "ERROR",
        Severity::Warn => "WARN",
        Severity::Info => "INFO",
        Severity::Debug => "DEBUG",
        Severity::Trace => "TRACE",
    }
}

/// The fields of a log event that go into its line.
pub struct MessageVisitor {
    pub message: String,
    pub path: Option<String>,
    pub reason: Option<String>,
}

/// View of the fields of a log event.
pub struct MessageView {
    pub message: Seq<char>,
    pub path: Option<Seq<char>>,
    pub reason: Option<Seq<char>>,
}

impl View for MessageVisitor {
    type V = MessageView;

    open spec fn view(&self) -> MessageView {
        MessageView {
            message: self.message@,
            path: text::opt_view(self.path),
            reason: text::opt_view(self.reason),
        }
    }
}

impl MessageView {
    /// The fields with one recorded; unknown ones are passed over.
    pub open spec fn with_text(self, field: Seq<char>, value: Seq<char>) -> MessageView {
        if field == "message"@ {
            MessageView { message: value, ..self }
        } else if field == "path"@ {
            MessageView { path: Some(value), ..self }
        } else if field == "reason"@ {
            MessageView { reason: Some(value), ..self }
        } else {
            self
        }
    }

    /// The whole message: path and reason follow in brackets.
    pub open spec fn composed(self) -> Seq<char> {
        self.message + (match self.path {
            Some(p) => "  ["@ + p + "]"@,
            None => Seq::empty(),
        }) + (match self.reason {
            Some(r) => "  ("@ + r + ")"@,
            None => Seq::empty(),
        })
    }
}

impl MessageVisitor {
    pub fn new() -> (r: Self)
        ensures
            r@ == (MessageView { message: Seq::empty(), path: None, reason: None }),
    {
        let r = MessageVisitor { message: String::new(), path: None, reason: None };
        assert(r.message@ =~= Seq::<char>::empty());
        r
    }

    pub fn record_str(&mut self, field: &str, value: &str)
        ensures
            final(self)@ == old(self)@.with_text(field@, value@),
    {
        if text::str_eq(field, "message") {
            self.message = value.to_owned();
        } else if text::str_eq(field, "path") {
            self.path = Some(value.to_owned());
        } else if text::str_eq(field, "reason") {
            self.reason = Some(value.to_owned());
        }
    }

    /// Records a field that was written for debugging, with its quotes taken off.
    pub fn record_debug(&mut self, field: &str, raw: &str)
        ensures
            final(self)@ == old(self)@.with_text(field@, text::without_quotes(raw@)),
    {
        let bare = text::trim_quotes(raw);
        self.record_str(field, bare.as_str());
    }

    /// The whole message.
    pub fn compose(&self) -> (r: String)
        ensures
            r@ == self@.composed(),
    {
        let mut out = self.message.clone();
        match &self.path {
            Some(p) => {
                text::push_text(&mut out, "  [");
                text::push_text(&mut out, p.as_str());
                text::push_text(&mut out, "]");
            },
            None => {},
        }
        match &self.reason {
            Some(r) => {
                text::push_text(&mut out, "  (");
                text::push_text(&mut out, r.as_str());
                text::push_text(&mut out, ")");
            },
            None => {},
        }
        assert(out@ =~= self@.composed());
        out
    }
}

/// A line for the log panel.
#[derive(Debug, PartialEq, Eq)]
pub struct LogEntry {
    pub timestamp: String,
    pub level: String,
    pub message: String,
}

/// Where a log event goes.
#[derive(Debug, PartialEq, Eq)]
pub enum LogSink {
    /// Into the log panel.
    Panel(LogEntry),
    /// To the terminal, once the dashboard is gone.
    Terminal(String),
}

/// Gathers log events for the dashboard, in place of printing them over it.
pub struct LoggingLayer {
    /// Whether the dashboard is gone.
    pub tui_exited: bool,
}

impl LoggingLayer {
    pub fn new(tui_exited: bool) -> (r: Self)
        ensures
            r.tui_exited == tui_exited,
    {
        LoggingLayer { tui_exited }
    }

    /// Words the line for an event; `now` is the time as it is to be shown.
    pub fn on_event(&self, level: Severity, fields: &MessageVisitor, now: &str) -> (r: LogSink)
        ensures
            if self.tui_exited {
                r matches LogSink::Terminal(line) && line@ == now@ + " "@ + short_label_of(level)
                    + " "@ + fields@.composed()
            } else {
                r matches LogSink::Panel(entry) && entry.timestamp@ == now@ && entry.level@
                    == label_of(level) && entry.message@ == fields@.composed()
            },
    {
        let message = fields.compose();
        if self.tui_exited {
            let mut line = text::concat2(now, " ");
            text::push_text(&mut line, short_label(level));
            text::push_text(&mut line, " ");
            text::push_text(&mut line, message.as_str());
            LogSink::Terminal(line)
        } else {
            LogSink::Panel(
                LogEntry { timestamp: now.to_owned(), level: label(level).to_owned(), message },
            )
        }
    }
}

/// A label is five characters wide: the short label, filled up with a blank where it is shorter.
/// Different severities have different labels.
pub proof fn law_labels(a: Severity, b: Severity)
    ensures
        label_of(a).len() == 5,
        label_of(a) == text::padded_right(short_label_of(a), 5),
        label_of(a) == label_of(b) <==> a == b,
        short_label_of(Severity::Error)[0] == 'E',
        short_label_of(Severity::Warn)[0] == 'W',
        short_label_of(Severity::Info)[0] == 'I',
        short_label_of(Severity::Debug)[0] == 'D',
        short_label_of(Severity::Trace)[0] == 'T',
{
    reveal_strlit("ERROR");
    reveal_strlit("WARN ");
    reveal_strlit("INFO ");
    reveal_strlit("DEBUG");
    reveal_strlit("TRACE");
    reveal_strlit("WARN");
    reveal_strlit("INFO");
    assert(label_of(a) =~= text::padded_right(short_label_of(a), 5));
    assert("ERROR"@[0] == 'E' && "WARN "@[0] == 'W' && "INFO "@[0] == 'I' && "DEBUG"@[0] == 'D'
        && "TRACE"@[0] == 'T');
}

/// A message without path and reason is shown as it is; a path follows in square brackets, and
/// behind it a reason in round ones.
pub proof fn law_messages_are_composed(message: Seq<char>, p: Seq<char>, r: Seq<char>)
    ensures
        (MessageView { message, path: None, reason: None }).composed() == message,
        (MessageView { message, path: Some(p), reason: None }).composed() == message + "  ["@ + p
            + "]"@,
        (MessageView { message, path: None, reason: Some(r) }).composed() == message + "  ("@ + r
            + ")"@,
        (MessageView { message, path: Some(p), reason: Some(r) }).composed() == (MessageView {
            message,
            path: Some(p),
            reason: None,
        }).composed() + "  ("@ + r + ")"@,
{
    let none = Seq::<char>::empty();
    assert(message + none + none =~= message);
    assert(message + ("  ["@ + p + "]"@) + none =~= message + "  ["@ + p + "]"@);
    assert(message + none + ("  ("@ + r + ")"@) =~= message + "  ("@ + r + ")"@);
    assert(message + ("  ["@ + p + "]"@) + ("  ("@ + r + ")"@) =~= (message + ("  ["@ + p + "]"@)
        + none) + "  ("@ + r + ")"@);
}

/// A field of a log event is recorded under its own name and leaves the others as they are.
pub proof fn law_message_fields_are_recorded_by_name(
    f: MessageView,
    field: Seq<char>,
    value: Seq<char>,
)
    ensures
        f.with_text("message"@, value) == (MessageView { message: value, ..f }),
        f.with_text("path"@, value) == (MessageView { path: Some(value), ..f }),
        f.with_text("reason"@, value) == (MessageView { reason: Some(value), ..f }),
        field != "message"@ && field != "path"@ && field != "reason"@ ==> f.with_text(field, value)
            == f,
{
    reveal_strlit("message");
    reveal_strlit("path");
    reveal_strlit("reason");
    assert("message"@.len() == 7 && "path"@.len() == 4 && "reason"@.len() == 6);
}

} // verus!
