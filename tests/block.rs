use rotext::block::StackEntry;
use rotext::events::EventType;
use rotext::utils::stack::ArrayStack;
use rotext::utils::stack::VecStack;
use rotext::{parse_with_stack, Error};

type Item = (EventType, Option<String>);

fn summarize<S: rotext::utils::stack::Stack<StackEntry>>(input: &str) -> (Vec<Item>, Option<Error>) {
    let bytes = input.as_bytes();
    let (events, error) = parse_with_stack::<S>(bytes);
    let items = events
        .iter()
        .map(|ev| {
            let ev = ev.to_event();
            let content = ev.content(bytes).map(|c| String::from_utf8(c).unwrap());
            (ev.event_type(), content)
        })
        .collect();
    (items, error)
}

fn assert_parse_ok_and_output_matches_with_stack<S: rotext::utils::stack::Stack<StackEntry>>(
    input: &str,
    expected: &[(EventType, Option<&str>)],
) {
    let (items, error) = summarize::<S>(input);
    assert_eq!(error, None, "input: {:?}", input);
    let expected: Vec<Item> = expected
        .iter()
        .map(|(t, c)| (*t, c.map(|c| c.to_string())))
        .collect();
    assert_eq!(items, expected, "input: {:?}", input);
}

fn assert_ok(input: &str, expected: &[(EventType, Option<&str>)]) {
    assert_parse_ok_and_output_matches_with_stack::<VecStack<StackEntry>>(input, expected);
}

#[test]
fn it_works() {
    assert_ok("", &[]);
    assert_ok("\n\n", &[]);
    assert_ok("   \n  \n", &[]);
    assert_ok(
        "a",
        &[
            (EventType::EnterParagraph, None),
            (EventType::Unparsed, Some("a")),
            (EventType::ExitBlock, None),
        ],
    );
    assert_ok(
        "  a  ",
        &[
            (EventType::EnterParagraph, None),
            (EventType::Unparsed, Some("a  ")),
            (EventType::ExitBlock, None),
        ],
    );
    assert_ok(
        "a\r\nb",
        &[
            (EventType::EnterParagraph, None),
            (EventType::Unparsed, Some("a")),
            (EventType::NewLine, None),
            (EventType::Unparsed, Some("b")),
            (EventType::ExitBlock, None),
        ],
    );
    assert_ok(
        "a<%c%>b",
        &[
            (EventType::EnterParagraph, None),
            (EventType::Unparsed, Some("a")),
            (EventType::Unparsed, Some("b")),
            (EventType::ExitBlock, None),
        ],
    );
    assert_ok(
        "=a",
        &[
            (EventType::EnterParagraph, None),
            (EventType::Unparsed, Some("=a")),
            (EventType::ExitBlock, None),
        ],
    );
    assert_ok(
        "== b ==",
        &[
            (EventType::EnterHeading2, None),
            (EventType::Unparsed, Some("b")),
            (EventType::ExitBlock, None),
        ],
    );
    assert_ok(
        "--- a",
        &[
            (EventType::ThematicBreak, None),
            (EventType::EnterParagraph, None),
            (EventType::Unparsed, Some("a")),
            (EventType::ExitBlock, None),
        ],
    );
    assert_ok(
        "```\ncode",
        &[
            (EventType::EnterCodeBlock, None),
            (EventType::IndicateCodeBlockCode, None),
            (EventType::Text, Some("code")),
            (EventType::ExitBlock, None),
        ],
    );
    assert_ok(
        "````\n```\n````",
        &[
            (EventType::EnterCodeBlock, None),
            (EventType::IndicateCodeBlockCode, None),
            (EventType::Text, Some("```")),
            (EventType::ExitBlock, None),
        ],
    );
    assert_ok(
        "> a\n> b",
        &[
            (EventType::EnterBlockQuote, None),
            (EventType::EnterParagraph, None),
            (EventType::Unparsed, Some("a")),
            (EventType::NewLine, None),
            (EventType::Unparsed, Some("b")),
            (EventType::ExitBlock, None),
            (EventType::ExitBlock, None),
        ],
    );
    assert_ok(
        "> a\nb",
        &[
            (EventType::EnterBlockQuote, None),
            (EventType::EnterParagraph, None),
            (EventType::Unparsed, Some("a")),
            (EventType::ExitBlock, None),
            (EventType::ExitBlock, None),
            (EventType::EnterParagraph, None),
            (EventType::Unparsed, Some("b")),
            (EventType::ExitBlock, None),
        ],
    );
}

#[test]
fn it_works_with_array_stack() {
    type S = ArrayStack<StackEntry, 2>;
    assert_parse_ok_and_output_matches_with_stack::<S>("", &[]);
    assert_parse_ok_and_output_matches_with_stack::<S>(
        ">",
        &[(EventType::EnterBlockQuote, None), (EventType::ExitBlock, None)],
    );
    assert_parse_ok_and_output_matches_with_stack::<S>(
        "> >",
        &[
            (EventType::EnterBlockQuote, None),
            (EventType::EnterBlockQuote, None),
            (EventType::ExitBlock, None),
            (EventType::ExitBlock, None),
        ],
    );
    assert_parse_ok_and_output_matches_with_stack::<S>(
        "> > foo",
        &[
            (EventType::EnterBlockQuote, None),
            (EventType::EnterBlockQuote, None),
            (EventType::EnterParagraph, None),
            (EventType::Unparsed, Some("foo")),
            (EventType::ExitBlock, None),
            (EventType::ExitBlock, None),
            (EventType::ExitBlock, None),
        ],
    );
    let (items, error) = summarize::<S>("> > >");
    assert_eq!(error, Some(Error::OutOfStackSpace));
    assert_eq!(
        items,
        vec![(EventType::EnterBlockQuote, None), (EventType::EnterBlockQuote, None)]
    );
}

#[test]
fn thematic_break_alone() {
    assert_ok("---\n", &[(EventType::ThematicBreak, None)]);
}

#[test]
fn heading_level_one() {
    assert_ok(
        "= hello =\n",
        &[
            (EventType::EnterHeading1, None),
            (EventType::Unparsed, Some("hello")),
            (EventType::ExitBlock, None),
        ],
    );
}

#[test]
fn paragraphs_split_by_blank_line() {
    assert_ok(
        "a\nb\n\nc\n",
        &[
            (EventType::EnterParagraph, None),
            (EventType::Unparsed, Some("a")),
            (EventType::NewLine, None),
            (EventType::Unparsed, Some("b")),
            (EventType::ExitBlock, None),
            (EventType::EnterParagraph, None),
            (EventType::Unparsed, Some("c")),
            (EventType::ExitBlock, None),
        ],
    );
}

#[test]
fn code_block_with_info_string() {
    assert_ok(
        "```rs\nfn x(){}\n```\n",
        &[
            (EventType::EnterCodeBlock, None),
            (EventType::Text, Some("rs")),
            (EventType::IndicateCodeBlockCode, None),
            (EventType::Text, Some("fn x(){}")),
            (EventType::ExitBlock, None),
        ],
    );
}

#[test]
fn verbatim_escape_of_one_space() {
    assert_ok(
        "ab<` `>c",
        &[
            (EventType::EnterParagraph, None),
            (EventType::Unparsed, Some("ab")),
            (EventType::Text, Some(" ")),
            (EventType::Unparsed, Some("c")),
            (EventType::ExitBlock, None),
        ],
    );
}

#[test]
fn bounded_stack_overflows() {
    let (items, error) = summarize::<ArrayStack<StackEntry, 2>>("> > >");
    assert_eq!(
        items,
        vec![(EventType::EnterBlockQuote, None), (EventType::EnterBlockQuote, None)]
    );
    assert_eq!(error, Some(Error::OutOfStackSpace));
}
