use rotext::data_exchange::create_block_id_to_lines_map;
use rotext::events::{BlockID, Event, ExitBlock, ThematicBreak};
use rotext::parse;

fn table_of(input: &str) -> String {
    let (events, error) = parse(input.as_bytes());
    assert_eq!(error, None);
    let events: Vec<Event> = events.iter().map(|e| e.to_event()).collect();
    create_block_id_to_lines_map(&events)
}

#[test]
fn table_of_paragraphs() {
    assert_eq!(table_of("a\nb\n\nc\n"), "1:1-2;2:4-4");
}

#[test]
fn table_of_break_and_heading() {
    assert_eq!(table_of("---\n= h ="), "1:1-1;2:2-2");
}

#[test]
fn table_of_code_block_and_quote() {
    assert_eq!(table_of("```\na\n```"), "1:1-3");
    assert_eq!(table_of("> a\n> b"), "2:1-2;1:1-2");
}

#[test]
fn table_of_nothing() {
    assert_eq!(table_of(""), "");
    assert_eq!(create_block_id_to_lines_map(&[]), "");
}

#[test]
fn table_writes_large_numbers() {
    let events = vec![
        Event::ThematicBreak(ThematicBreak { id: BlockID::new(1234567), line_number: 89 }),
        Event::ExitBlock(ExitBlock { id: BlockID::new(10), start_line_number: 100, end_line_number: 2001 }),
    ];
    assert_eq!(create_block_id_to_lines_map(&events), "1234567:89-89;10:100-2001");
}

#[test]
fn block_ids_count_up_in_opening_order() {
    let (events, error) = parse(b"> a\n\n---\n= h =\n```\nx\n```");
    assert_eq!(error, None);
    let ids: Vec<usize> = events
        .iter()
        .filter_map(|e| match e.to_event() {
            Event::EnterBlockQuote(b) | Event::EnterParagraph(b) | Event::EnterHeading1(b) | Event::EnterCodeBlock(b) => {
                Some(b.id.value())
            }
            Event::ThematicBreak(t) => Some(t.id.value()),
            _ => None,
        })
        .collect();
    assert_eq!(ids, vec![1, 2, 3, 4, 5]);
    let events: Vec<Event> = events.iter().map(|e| e.to_event()).collect();
    assert_eq!(create_block_id_to_lines_map(&events), "2:1-1;1:1-1;3:3-3;4:4-4;5:5-7");
}
