use rotext::block::global_mapper::{trim_verbatim, GlobalEventStreamMapper, Mapped};
use rotext::common::Range;
use rotext::global;

fn map_all(input: &str) -> Vec<Mapped> {
    let bytes = input.as_bytes();
    let mut mapper = GlobalEventStreamMapper::new(bytes, global::Parser::new(bytes));
    let mut out = vec![];
    while let Some(m) = mapper.next() {
        out.push(m);
    }
    out
}

fn blank(start: usize, length: usize) -> Mapped {
    Mapped::BlankAtLineBeginning(Range::new(start, length))
}

fn text(start: usize, length: usize) -> Mapped {
    Mapped::Text(Range::new(start, length))
}

#[test]
fn mapper_plain_text() {
    assert_eq!(map_all(""), vec![]);
    assert_eq!(map_all("  "), vec![blank(0, 2)]);
    assert_eq!(map_all("a"), vec![Mapped::CharAt(0)]);
    assert_eq!(map_all("ab"), vec![Mapped::CharAt(0), Mapped::NextChar]);
}

#[test]
fn mapper_newlines() {
    assert_eq!(
        map_all("a\nbc"),
        vec![Mapped::CharAt(0), Mapped::LineFeed, Mapped::CharAt(2), Mapped::NextChar]
    );
    assert_eq!(map_all("\n"), vec![Mapped::BlankLine { spaces: 0 }]);
    assert_eq!(map_all("<%…%>\n"), vec![Mapped::BlankLine { spaces: 0 }]);
    assert_eq!(map_all("\r\n"), vec![Mapped::BlankLine { spaces: 0 }]);
    assert_eq!(
        map_all("\n\n"),
        vec![Mapped::BlankLine { spaces: 0 }, Mapped::BlankLine { spaces: 0 }]
    );
    assert_eq!(
        map_all("\r\n\r\n"),
        vec![Mapped::BlankLine { spaces: 0 }, Mapped::BlankLine { spaces: 0 }]
    );
    assert_eq!(map_all("a\n"), vec![Mapped::CharAt(0), Mapped::LineFeed]);
    assert_eq!(
        map_all("a\n\n"),
        vec![Mapped::CharAt(0), Mapped::LineFeed, Mapped::BlankLine { spaces: 0 }]
    );
    assert_eq!(
        map_all("a\r\n\r\n"),
        vec![Mapped::CharAt(0), Mapped::LineFeed, Mapped::BlankLine { spaces: 0 }]
    );
}

#[test]
fn mapper_blank_lines_with_spaces() {
    assert_eq!(map_all("  \n"), vec![Mapped::BlankLine { spaces: 2 }]);
    assert_eq!(map_all("  <%…%>\n"), vec![Mapped::BlankLine { spaces: 2 }]);
    assert_eq!(map_all("  <` `>\n"), vec![blank(0, 2), text(4, 1), Mapped::LineFeed]);
}

#[test]
fn mapper_verbatim_escapes_become_text() {
    assert_eq!(map_all("<`a`>"), vec![text(2, 1)]);
    assert_eq!(map_all("<` a `>"), vec![text(3, 1)]);
    assert_eq!(map_all("<`  a  `>"), vec![text(3, 3)]);
    assert_eq!(map_all("<` `>"), vec![text(2, 1)]);
    assert_eq!(map_all("<`  `>"), vec![text(3, 0)]);
    assert_eq!(map_all("<`   `>"), vec![text(3, 1)]);
    assert_eq!(
        map_all("a<`` ` ``>bc"),
        vec![Mapped::CharAt(0), text(5, 1), Mapped::CharAt(10), Mapped::NextChar]
    );
    assert_eq!(map_all("a<` b"), vec![Mapped::CharAt(0), text(4, 1)]);
}

#[test]
fn mapper_skips_comments() {
    assert_eq!(
        map_all("ab<% … %>c"),
        vec![Mapped::CharAt(0), Mapped::NextChar, Mapped::CharAt(11)]
    );
}

#[test]
fn mapper_runs_the_same_twice() {
    let input = "  a<` b `>\n\n---\n= x =";
    assert_eq!(map_all(input), map_all(input));
}

#[test]
fn trimming_verbatim_bodies() {
    let input = b"x  a  y";
    assert_eq!(trim_verbatim(input, Range::new(1, 5)), Range::new(2, 3));
    assert_eq!(trim_verbatim(input, Range::new(0, 2)), Range::new(0, 1));
    assert_eq!(trim_verbatim(input, Range::new(1, 1)), Range::new(1, 1));
    assert_eq!(trim_verbatim(input, Range::new(1, 2)), Range::new(2, 0));
    assert_eq!(trim_verbatim(input, Range::new(3, 1)), Range::new(3, 1));
}
