use starlark::lsp::{
    main_loop_step, notification_kind, startup_message, to_diagnostic, to_diagnostics, to_severity,
    Action, Diagnostic, DiagnosticSeverity, Event, LineCol, Message, NotificationKind, Position,
    Range, Severity, Span,
};

fn message(span: Option<Span>, severity: Severity) -> Message {
    Message { span, severity, name: "unused".to_owned(), description: "not used".to_owned() }
}

#[test]
fn severities_map_one_to_one() {
    assert_eq!(to_severity(Severity::Error), DiagnosticSeverity::Error);
    assert_eq!(to_severity(Severity::Warning), DiagnosticSeverity::Warning);
    assert_eq!(to_severity(Severity::Advice), DiagnosticSeverity::Hint);
    assert_eq!(to_severity(Severity::Disabled), DiagnosticSeverity::Information);
}

#[test]
fn positions_count_from_zero() {
    let span = Span { begin: LineCol { line: 3, column: 1 }, end: LineCol { line: 4, column: 10 } };
    let d = to_diagnostic(message(Some(span), Severity::Warning));
    assert_eq!(
        d,
        Diagnostic {
            range: Range {
                start: Position { line: 2, character: 0 },
                end: Position { line: 3, character: 9 },
            },
            severity: Some(DiagnosticSeverity::Warning),
            code: Some("unused".to_owned()),
            source: None,
            message: "not used".to_owned(),
        }
    );
    let d = to_diagnostic(message(None, Severity::Error));
    assert_eq!(d.range.start, Position { line: 0, character: 0 });
    assert_eq!(d.range.end, Position { line: 0, character: 0 });
    let all = to_diagnostics(vec![
        message(None, Severity::Advice),
        message(Some(span), Severity::Disabled),
    ]);
    assert_eq!(all.len(), 2);
    assert_eq!(all[0].severity, Some(DiagnosticSeverity::Hint));
    assert_eq!(all[1].severity, Some(DiagnosticSeverity::Information));
    assert_eq!(all[1].range.end.character, 9);
}

#[test]
fn the_loop_acts_on_files() {
    assert_eq!(main_loop_step(Event::Request { shutdown: true }), Action::Stop);
    assert_eq!(main_loop_step(Event::Request { shutdown: false }), Action::Continue);
    assert_eq!(main_loop_step(Event::Response), Action::Continue);
    assert_eq!(main_loop_step(Event::OtherNotification), Action::Continue);
    assert_eq!(
        main_loop_step(Event::DidOpen { uri: "u".to_owned(), version: 3, text: "t".to_owned() }),
        Action::Validate { uri: "u".to_owned(), version: Some(3), text: "t".to_owned() }
    );
    assert_eq!(
        main_loop_step(Event::DidChange {
            uri: "u".to_owned(),
            version: None,
            changes: vec!["first".to_owned(), "second".to_owned()],
        }),
        Action::Validate { uri: "u".to_owned(), version: None, text: "first".to_owned() }
    );
    assert_eq!(
        main_loop_step(Event::DidClose { uri: "u".to_owned() }),
        Action::ClearDiagnostics { uri: "u".to_owned() }
    );
    assert_eq!(notification_kind("textDocument/didOpen"), NotificationKind::DidOpenTextDocument);
    assert_eq!(notification_kind("textDocument/didChange"), NotificationKind::DidChangeTextDocument);
    assert_eq!(notification_kind("textDocument/didClose"), NotificationKind::DidCloseTextDocument);
    assert_eq!(notification_kind("textDocument/didSave"), NotificationKind::Other);
    assert_eq!(startup_message(), "Starlark server initialised");
}
