use rotext::common::Range;
use rotext::events::{BlockEvent, BlockID, BlockWithID, Event, EventType, ExitBlock, NewLine, VerbatimEscaping};

fn block() -> BlockWithID {
    BlockWithID { id: BlockID::new(1) }
}

fn exit() -> ExitBlock {
    ExitBlock { id: BlockID::new(1), start_line_number: 1, end_line_number: 1 }
}

#[test]
fn event_content_reads_the_range() {
    let input = b"hello world";
    assert_eq!(Event::Unparsed(Range::new(6, 5)).content(input), Some(b"world".to_vec()));
    assert_eq!(Event::Text(Range::new(0, 0)).content(input), Some(vec![]));
    assert_eq!(Event::NewLine(NewLine { line_number_after: 2 }).content(input), None);
    assert_eq!(Event::ExitBlock(exit()).content(input), None);
}

#[test]
fn event_flags_mark_forced_closing() {
    let forced = Event::VerbatimEscaping(VerbatimEscaping {
        content: Range::new(0, 1),
        is_closed_forcedly: true,
        line_number_after: 1,
    });
    assert_eq!(
        forced.assertion_flags(),
        Some(vec!["F".to_string(), ">ln:1".to_string()])
    );
    let closed = Event::VerbatimEscaping(VerbatimEscaping {
        content: Range::new(0, 1),
        is_closed_forcedly: false,
        line_number_after: 1,
    });
    assert_eq!(closed.assertion_flags(), Some(vec![">ln:1".to_string()]));
    assert_eq!(
        Event::NewLine(NewLine { line_number_after: 12 }).assertion_flags(),
        Some(vec![">ln:12".to_string()])
    );
    assert_eq!(Event::IndicateCodeBlockCode.assertion_flags(), None);
}

#[test]
fn event_type_codes() {
    assert_eq!(EventType::ExitBlock.code(), 99);
    assert_eq!(EventType::from_code(99), Some(EventType::ExitBlock));
    assert_eq!(EventType::from_code(21), Some(EventType::EnterCodeBlock));
    assert_eq!(EventType::from_code(0), None);
    assert_eq!(Event::EnterParagraph(block()).discriminant(), 7);
    assert_eq!(Event::Unparsed(Range::new(0, 0)).event_type(), EventType::Unparsed);
}

#[test]
fn inline_phase_markers() {
    assert!(BlockEvent::EnterParagraph(block()).opens_inline_phase());
    assert!(BlockEvent::EnterHeading6(block()).opens_inline_phase());
    assert!(BlockEvent::IndicateCodeBlockCode.opens_inline_phase());
    assert!(!BlockEvent::EnterCodeBlock(block()).opens_inline_phase());
    assert!(BlockEvent::IndicateCodeBlockCode.closes_inline_phase());
    assert!(BlockEvent::ExitBlock(exit()).closes_inline_phase());
    assert!(!BlockEvent::EnterParagraph(block()).closes_inline_phase());
}

#[test]
fn block_events_widen() {
    assert_eq!(
        BlockEvent::Text(Range::new(1, 2)).to_event(),
        Event::Text(Range::new(1, 2))
    );
    assert_eq!(BlockEvent::IndicateCodeBlockCode.to_event(), Event::IndicateCodeBlockCode);
}
