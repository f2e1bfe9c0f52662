//! What a language server for the language decides: how the findings of a
//! check become diagnostics of the protocol, and what to do on each message
//! of the editor. Reading and sending the messages is left to the program
//! around.

use vstd::prelude::*;
use crate::text::same_text;

verus! {

/// How grave a finding is.
#[derive(Debug, Clone, Copy, PartialEq, Eq, Structural)]
pub enum Severity {
    Error,
    Warning,
    Advice,
    Disabled,
}

/// How grave a diagnostic is, in the words of the protocol.
#[derive(Debug, Clone, Copy, PartialEq, Eq, Structural)]
pub enum DiagnosticSeverity {
    Error,
    Warning,
    Information,
    Hint,
}

/// A place in a file: line and column, both counted from one.
#[derive(Debug, Clone, Copy, PartialEq, Eq, Structural)]
pub struct LineCol {
    pub line: usize,
    pub column: usize,
}

/// A stretch of a file.
#[derive(Debug, Clone, Copy, PartialEq, Eq, Structural)]
pub struct Span {
    pub begin: LineCol,
    pub end: LineCol,
}

/// A finding of a check.
#[derive(Debug, Clone, PartialEq, Eq)]
pub struct Message {
    pub span: Option<Span>,
    pub severity: Severity,
    pub name: String,
    pub description: String,
}

/// A place in a file as the protocol counts: line and character, both from
/// zero.
#[derive(Debug, Clone, Copy, PartialEq, Eq, Structural)]
pub struct Position {
    pub line: u64,
    pub character: u64,
}

/// A stretch of a file as the protocol counts.
#[derive(Debug, Clone, Copy, PartialEq, Eq, Structural)]
pub struct Range {
    pub start: Position,
    pub end: Position,
}

/// A diagnostic of the protocol.
#[derive(Debug, Clone, PartialEq, Eq)]
pub struct Diagnostic {
    pub range: Range,
    pub severity: Option<DiagnosticSeverity>,
    pub code: Option<String>,
    pub source: Option<String>,
    pub message: String,
}

/// The severity of the protocol that stands for a severity of a finding.
pub open spec fn severity_of(x: Severity) -> DiagnosticSeverity {
    match x {
        Severity::Error => DiagnosticSeverity::Error,
        Severity::Warning => DiagnosticSeverity::Warning,
        Severity::Advice => DiagnosticSeverity::Hint,
        Severity::Disabled => DiagnosticSeverity::Information,
    }
}

/// Computes [`severity_of`].
pub fn to_severity(x: Severity) -> (r: DiagnosticSeverity)
    ensures
        r == severity_of(x),
{
    match x {
        Severity::Error => DiagnosticSeverity::Error,
        Severity::Warning => DiagnosticSeverity::Warning,
        Severity::Advice => DiagnosticSeverity::Hint,
        Severity::Disabled => DiagnosticSeverity::Information,
    }
}

/// Every line and column of the span is counted from one.
pub open spec fn span_counts_from_one(s: Span) -> bool {
    s.begin.line >= 1 && s.begin.column >= 1 && s.end.line >= 1 && s.end.column >= 1
}

/// The stretch of the protocol for a stretch of a file: each line and
/// column one less. A finding without a place gets the stretch at the very
/// start of the file.
pub open spec fn range_of(span: Option<Span>) -> Range {
    match span {
        Some(s) => Range {
            start: Position {
                line: (s.begin.line - 1) as u64,
                character: (s.begin.column - 1) as u64,
            },
            end: Position { line: (s.end.line - 1) as u64, character: (s.end.column - 1) as u64 },
        },
        None => Range {
            start: Position { line: 0, character: 0 },
            end: Position { line: 0, character: 0 },
        },
    }
}

/// The diagnostic for a finding: its place counted from zero, its
/// severity in the words of the protocol, its name as the code, and its
/// description as the message.
pub fn to_diagnostic(x: Message) -> (r: Diagnostic)
    requires
        x.span matches Some(s) ==> span_counts_from_one(s),
    ensures
        r.range == range_of(x.span),
        r.severity == Some(severity_of(x.severity)),
        r.code == Some(x.name),
        r.source is None,
        r.message == x.description,
{
    let range = match x.span {
        Some(s) => Range {
            start: Position {
                line: (s.begin.line - 1) as u64,
                character: (s.begin.column - 1) as u64,
            },
            end: Position { line: (s.end.line - 1) as u64, character: (s.end.column - 1) as u64 },
        },
        None => Range {
            start: Position { line: 0, character: 0 },
            end: Position { line: 0, character: 0 },
        },
    };
    Diagnostic {
        range,
        severity: Some(to_severity(x.severity)),
        code: Some(x.name),
        source: None,
        message: x.description,
    }
}

/// The diagnostics for the findings of one check, in their order.
pub fn to_diagnostics(messages: Vec<Message>) -> (r: Vec<Diagnostic>)
    requires
        forall|i: int|
            0 <= i < messages@.len() ==> ((#[trigger] messages@[i]).span matches Some(s)
                ==> span_counts_from_one(s)),
    ensures
        r@.len() == messages@.len(),
        forall|i: int|
            0 <= i < r@.len() ==> {
                &&& (#[trigger] r@[i]).range == range_of(messages@[i].span)
                &&& r@[i].code == Some(messages@[i].name)
                &&& r@[i].message == messages@[i].description
                &&& r@[i].source is None
                &&& r@[i].severity == Some(severity_of(messages@[i].severity))
            },
{
    let mut rest = messages;
    let n = rest.len();
    let mut rev: Vec<Diagnostic> = Vec::with_capacity(n);
    while rest.len() > 0
        invariant
            messages@.len() == n,
            rev@.len() + rest@.len() == n,
            rest@ == messages@.take(rest@.len() as int),
            forall|i: int|
                0 <= i < messages@.len() ==> ((#[trigger] messages@[i]).span matches Some(s)
                    ==> span_counts_from_one(s)),
            forall|j: int|
                0 <= j < rev@.len() ==> {
                    &&& (#[trigger] rev@[j]).range == range_of(messages@[n - 1 - j].span)
                    &&& rev@[j].code == Some(messages@[n - 1 - j].name)
                    &&& rev@[j].message == messages@[n - 1 - j].description
                    &&& rev@[j].source is None
                    &&& rev@[j].severity == Some(severity_of(messages@[n - 1 - j].severity))
                },
        decreases rest@.len(),
    {
        let m = rest.pop().unwrap();
        assert(m == messages@[rest@.len() as int]);
        rev.push(to_diagnostic(m));
    }
    let ghost rev0 = rev@;
    let mut out: Vec<Diagnostic> = Vec::with_capacity(n);
    while rev.len() > 0
        invariant
            rev0.len() == n,
            out@.len() + rev@.len() == n,
            rev@ == rev0.take(rev@.len() as int),
            forall|j: int| 0 <= j < out@.len() ==> (#[trigger] out@[j]) == rev0[n - 1 - j],
        decreases rev@.len(),
    {
        let d = rev.pop().unwrap();
        out.push(d);
    }
    proof {
        assert forall|i: int| 0 <= i < out@.len() implies {
            &&& (#[trigger] out@[i]).range == range_of(messages@[i].span)
            &&& out@[i].code == Some(messages@[i].name)
            &&& out@[i].message == messages@[i].description
            &&& out@[i].source is None
            &&& out@[i].severity == Some(severity_of(messages@[i].severity))
        } by {
            assert(out@[i] == rev0[n - 1 - i]);
        }
    }
    out
}

/// The notifications of the editor that the server acts on.
#[derive(Debug, Clone, Copy, PartialEq, Eq, Structural)]
pub enum NotificationKind {
    DidOpenTextDocument,
    DidChangeTextDocument,
    DidCloseTextDocument,
    Other,
}

/// The kind of a notification, by the name of its method.
pub fn notification_kind(method: &str) -> (r: NotificationKind)
    ensures
        r == if method@ == "textDocument/didOpen"@ {
            NotificationKind::DidOpenTextDocument
        } else if method@ == "textDocument/didChange"@ {
            NotificationKind::DidChangeTextDocument
        } else if method@ == "textDocument/didClose"@ {
            NotificationKind::DidCloseTextDocument
        } else {
            NotificationKind::Other
        },
{
    if same_text(method, "textDocument/didOpen") {
        NotificationKind::DidOpenTextDocument
    } else if same_text(method, "textDocument/didChange") {
        NotificationKind::DidChangeTextDocument
    } else if same_text(method, "textDocument/didClose") {
        NotificationKind::DidCloseTextDocument
    } else {
        NotificationKind::Other
    }
}

/// What came from the editor, as far as the server looks at it.
#[derive(Debug, Clone, PartialEq, Eq)]
pub enum Event {
    /// A request; `shutdown` says whether it was the one to shut down.
    Request { shutdown: bool },
    /// A file was opened.
    DidOpen { uri: String, version: i64, text: String },
    /// A file was changed: the whole text of each change, in their order.
    DidChange { uri: String, version: Option<i64>, changes: Vec<String> },
    /// A file was closed.
    DidClose { uri: String },
    /// A notification that the server does not act on.
    OtherNotification,
    /// A response, which the server never asked for.
    Response,
}

/// What the server does next.
#[derive(Debug, Clone, PartialEq, Eq)]
pub enum Action {
    /// Leave the loop.
    Stop,
    /// Check the text and publish what is found, for this version of the
    /// file.
    Validate { uri: String, version: Option<i64>, text: String },
    /// Publish that nothing is wrong with the file.
    ClearDiagnostics { uri: String },
    /// Wait for the next message.
    Continue,
}

/// What the server does on an event. A request to shut down stops it. An
/// opened file is checked as it is; a changed file is checked with the text
/// of the first change, which is the whole text since the server asked for
/// whole texts; a closed file has its diagnostics cleared. Nothing else is
/// acted on.
pub fn main_loop_step(event: Event) -> (r: Action)
    requires
        event matches Event::DidChange { changes, .. } ==> changes@.len() > 0,
    ensures
        match event {
            Event::Request { shutdown } => r == if shutdown {
                Action::Stop
            } else {
                Action::Continue
            },
            Event::DidOpen { uri, version, text } => r == (Action::Validate {
                uri,
                version: Some(version),
                text,
            }),
            Event::DidChange { uri, version, changes } => r matches Action::Validate {
                uri: u,
                version: v,
                text: t,
            } && u == uri && v == version && t == changes@[0],
            Event::DidClose { uri } => r == (Action::ClearDiagnostics { uri }),
            Event::OtherNotification => r == Action::Continue,
            Event::Response => r == Action::Continue,
        },
{
    match event {
        Event::Request { shutdown } => {
            if shutdown {
                Action::Stop
            } else {
                Action::Continue
            }
        },
        Event::DidOpen { uri, version, text } => Action::Validate {
            uri,
            version: Some(version),
            text,
        },
        Event::DidChange { uri, version, changes } => {
            let mut changes = changes;
            let text = changes.swap_remove(0);
            Action::Validate { uri, version, text }
        },
        Event::DidClose { uri } => Action::ClearDiagnostics { uri },
        Event::OtherNotification => Action::Continue,
        Event::Response => Action::Continue,
    }
}

/// The message that the server logs once it runs.
pub fn startup_message() -> (r: &'static str)
    ensures
        r@ == "Starlark server initialised"@,
{
    "Starlark server initialised"
}

} // verus!
