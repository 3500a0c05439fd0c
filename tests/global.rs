use rotext::common::Range;
use rotext::events::{GlobalEvent, NewLine, VerbatimEscaping};
use rotext::global;

fn lex(input: &str) -> Vec<GlobalEvent> {
    let mut parser = global::Parser::new(input.as_bytes());
    let mut out = vec![];
    while let Some(ev) = parser.next() {
        out.push(ev);
    }
    out
}

#[test]
fn global_splits_lines() {
    assert_eq!(
        lex("a\r\nb\rc\n"),
        vec![
            GlobalEvent::Unparsed(Range::new(0, 1)),
            GlobalEvent::NewLine(NewLine { line_number_after: 2 }),
            GlobalEvent::Unparsed(Range::new(3, 1)),
            GlobalEvent::NewLine(NewLine { line_number_after: 3 }),
            GlobalEvent::Unparsed(Range::new(5, 1)),
            GlobalEvent::NewLine(NewLine { line_number_after: 4 }),
        ]
    );
}

#[test]
fn global_counts_each_newline_once() {
    let events = lex("\r\n\n\r\r\n");
    assert_eq!(events.len(), 4);
    assert!(events.iter().all(|e| matches!(e, GlobalEvent::NewLine(_))));
}

#[test]
fn global_verbatim_escapes() {
    assert_eq!(
        lex("<`a`>"),
        vec![GlobalEvent::VerbatimEscaping(VerbatimEscaping {
            content: Range::new(2, 1),
            is_closed_forcedly: false,
            line_number_after: 1,
        })]
    );
    assert_eq!(
        lex("<`abc"),
        vec![GlobalEvent::VerbatimEscaping(VerbatimEscaping {
            content: Range::new(2, 3),
            is_closed_forcedly: true,
            line_number_after: 1,
        })]
    );
    assert_eq!(
        lex("<``a`>``>"),
        vec![GlobalEvent::VerbatimEscaping(VerbatimEscaping {
            content: Range::new(3, 3),
            is_closed_forcedly: false,
            line_number_after: 1,
        })]
    );
}

#[test]
fn global_drops_comments() {
    assert_eq!(
        lex("a<%b\nc%>d<%e"),
        vec![
            GlobalEvent::Unparsed(Range::new(0, 1)),
            GlobalEvent::Unparsed(Range::new(8, 1)),
        ]
    );
}

#[test]
fn global_empty_input() {
    assert_eq!(lex(""), vec![]);
}

#[test]
fn global_counts_lines_inside_escapes_and_comments() {
    assert_eq!(
        lex("<`a\nb`>\n<%x\r\ny%>z\n"),
        vec![
            GlobalEvent::VerbatimEscaping(VerbatimEscaping {
                content: Range::new(2, 3),
                is_closed_forcedly: false,
                line_number_after: 2,
            }),
            GlobalEvent::NewLine(NewLine { line_number_after: 3 }),
            GlobalEvent::Unparsed(Range::new(16, 1)),
            GlobalEvent::NewLine(NewLine { line_number_after: 5 }),
        ]
    );
}
