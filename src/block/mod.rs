use vstd::prelude::*;

mod context;
pub mod global_mapper;
pub mod sub_parsers;

use crate::block::context::{
    ctx_fill, ctx_drop_while, ctx_next, ctx_peek, ctx_peek_next_char, ctx_peek_next_three_chars, ctx_take_n, is_space_char,
    spec_is_space_char, Context, CtxView,
};
use crate::block::global_mapper::{map_next, GlobalEventStreamMapper, Mapped, MapperView};
use crate::block::sub_parsers::{
    code_block, exit_of, heading, lemma_sub_next_fuel, paragraph, sub_next, sub_resume_continue, sub_resume_exit, SubParser,
    SubParserResult,
};
use crate::common::{Range, BACKTICK, EQUALS, GREATER_THAN, HYPHEN, LF, SPACE};
use crate::events::{BlockEvent, BlockID, BlockWithID, ExitBlock, GlobalEvent, ThematicBreak};
use crate::global;
use crate::utils::stack::Stack;
use crate::Error;

verus! {

/// A container block that stays open across lines.
#[derive(Debug, Clone, Copy, PartialEq, Eq, Structural)]
pub enum StackEntry {
    BlockQuote { id: BlockID, start_line: usize },
}

/// The identifier of a container on the stack.
pub open spec fn entry_id(e: StackEntry) -> usize {
    match e {
        StackEntry::BlockQuote { id, .. } => id.value,
    }
}

/// Where the block parser stands.
#[derive(Clone, Copy)]
pub enum State {
    InRoot { paused_sub_parser: Option<SubParser> },
    InSubParser(SubParser),
}

/// What a root step comes to.
pub enum RootStep {
    /// Hand out this item.
    Yield(Option<core::result::Result<BlockEvent, Error>>),
    /// The state changed; go on.
    Continue,
}

/// How an event changes the identifiers of the open blocks: an `Enter*`
/// pushes its own, an `ExitBlock` carries the innermost one and pops it, and
/// anything else leaves them.
pub open spec fn brackets_step(ev: BlockEvent, before: Seq<usize>, after: Seq<usize>) -> bool {
    if ev.is_enter() {
        ev.spec_block_id() matches Some(id) && after == before.push(id)
    } else if ev is ExitBlock {
        before.len() > 0 && ev.spec_block_id() == Some(before.last()) && after == before.drop_last()
    } else {
        after == before
    }
}

/// The identifier of the block that opens `k`-th (from 0) in a parse:
/// identifiers count up from 1 and stay at the largest value once there.
pub open spec fn nth_block_id(k: nat) -> usize {
    if k < usize::MAX {
        (k + 1) as usize
    } else {
        usize::MAX
    }
}

/// An event that opens a block or is one: `Enter*` or `ThematicBreak`.
pub open spec fn opens_block(ev: BlockEvent) -> bool {
    ev.is_enter() || ev is ThematicBreak
}

/// A model of the block parser.
pub struct BlockView {
    pub ctx: CtxView,
    pub is_cleaning_up: bool,
    pub has_failed: bool,
    pub state: State,
    pub stack: Seq<StackEntry>,
    pub matched: usize,
    pub next_block_id: usize,
}

/// The identifier after `n`: one more, but for the largest value.
pub open spec fn bump_id(n: usize) -> usize {
    if n < usize::MAX {
        (n + 1) as usize
    } else {
        n
    }
}

/// The event that closes a container.
pub open spec fn exit_container_spec(entry: StackEntry, c: CtxView) -> ExitBlock {
    match entry {
        StackEntry::BlockQuote { id, start_line } => exit_of(id, start_line, c),
    }
}

/// A block other than a container begins at the next primitive: which block
/// it is, by the prefix, and what is consumed.
pub open spec fn dispatch_spec(v: BlockView) -> (BlockView, RootStep) {
    let (c1, chars) = ctx_peek_next_three_chars(v.ctx);
    let id = BlockID { value: v.next_block_id };
    let next_id = bump_id(v.next_block_id);
    if chars.0 == Some(HYPHEN) && chars.1 == Some(HYPHEN) && chars.2 == Some(HYPHEN) {
        // `---` and any further `-`: a thematic break.
        let c2 = ctx_take_n(c1, 3);
        let (c3, _) = ctx_drop_while(c2, HYPHEN, usize::MAX as nat);
        (
            BlockView { ctx: c3, next_block_id: next_id, ..v },
            RootStep::Yield(Some(Ok(BlockEvent::ThematicBreak(ThematicBreak { id, line_number: c3.line })))),
        )
    } else if chars.0 == Some(EQUALS) {
        let (c2, _) = ctx_next(c1);
        match c2.cursor {
            None => (
                BlockView {
                    ctx: c2,
                    next_block_id: next_id,
                    state: State::InSubParser(
                        SubParser::Paragraph(paragraph::Parser { id, start_line: c2.line, state: paragraph::State::Initial(None) }),
                    ),
                    ..v
                },
                RootStep::Continue,
            ),
            Some(start) => {
                let (c3, dropped) = ctx_drop_while(c2, EQUALS, 5);
                let (c4, ch) = ctx_peek_next_char(c3);
                if ch == Some(SPACE) {
                    // `=` repeated 1 to 6 times and a space: a heading.
                    let (c5, _) = ctx_next(c4);
                    (
                        BlockView {
                            ctx: c5,
                            next_block_id: next_id,
                            state: State::InSubParser(
                                SubParser::Heading(
                                    heading::Parser {
                                        level: (1 + dropped) as usize,
                                        id,
                                        start_line: c5.line,
                                        state: heading::State::Initial,
                                    },
                                ),
                            ),
                            ..v
                        },
                        RootStep::Continue,
                    )
                } else {
                    // The run without its space starts a paragraph as text.
                    let before = match c4.cursor {
                        Some(end) => if end >= start {
                            Range { start, length: (end + 1 - start) as usize }
                        } else {
                            Range { start, length: 1 }
                        },
                        None => Range { start, length: 1 },
                    };
                    (
                        BlockView {
                            ctx: c4,
                            next_block_id: next_id,
                            state: State::InSubParser(
                                SubParser::Paragraph(
                                    paragraph::Parser { id, start_line: c4.line, state: paragraph::State::Initial(Some(before)) },
                                ),
                            ),
                            ..v
                        },
                        RootStep::Continue,
                    )
                }
            },
        }
    } else if chars.0 == Some(BACKTICK) && chars.1 == Some(BACKTICK) && chars.2 == Some(BACKTICK) {
        // Three backticks or more: a code block fenced by as many.
        let c2 = ctx_take_n(c1, 3);
        let (c3, extra) = ctx_drop_while(c2, BACKTICK, usize::MAX as nat);
        let leading = if extra <= usize::MAX - 3 {
            (3 + extra) as usize
        } else {
            usize::MAX
        };
        (
            BlockView {
                ctx: c3,
                next_block_id: next_id,
                state: State::InSubParser(
                    SubParser::CodeBlock(
                        code_block::Parser { leading_backticks: leading, id, start_line: c3.line, state: code_block::State::Initial },
                    ),
                ),
                ..v
            },
            RootStep::Continue,
        )
    } else {
        (
            BlockView {
                ctx: c1,
                next_block_id: next_id,
                state: State::InSubParser(
                    SubParser::Paragraph(paragraph::Parser { id, start_line: c1.line, state: paragraph::State::Initial(None) }),
                ),
                ..v
            },
            RootStep::Continue,
        )
    }
}

/// The root step with the parser at `v` and `paused` the paused sub-parser,
/// within `fuel` iterations.
pub open spec fn root_loop(v: BlockView, cap: nat, paused: Option<SubParser>, fuel: nat) -> Option<(BlockView, RootStep)>
    decreases fuel,
{
    if fuel == 0 {
        None
    } else {
        let v0 = BlockView {
            ctx: CtxView { new_line_seen: false, ..v.ctx },
            matched: if v.ctx.new_line_seen { 0 } else { v.matched },
            ..v
        };
        let (c1, pk) = ctx_peek(v0.ctx, 0);
        let v1 = BlockView { ctx: c1, ..v0 };
        match pk {
            None => match paused {
                Some(p) => Some((BlockView { state: State::InSubParser(sub_resume_exit(p)), ..v1 }, RootStep::Continue)),
                None => Some((BlockView { is_cleaning_up: true, ..v1 }, RootStep::Continue)),
            },
            Some(m) => {
                let (c2, ch) = if m is CharAt || m is NextChar {
                    ctx_peek_next_char(c1)
                } else {
                    (c1, None)
                };
                let v2 = BlockView { ctx: c2, ..v1 };
                match paused {
                    Some(p) => if v2.matched < v2.stack.len() {
                        if ch matches Some(b) && spec_is_space_char(b) {
                            root_loop(BlockView { ctx: ctx_next(c2).0, ..v2 }, cap, paused, (fuel - 1) as nat)
                        } else if ch == Some(GREATER_THAN) {
                            let (c3, _) = ctx_next(c2);
                            let (c4, ch2) = ctx_peek_next_char(c3);
                            let c5 = if ch2 == Some(SPACE) {
                                ctx_next(c4).0
                            } else {
                                c4
                            };
                            root_loop(BlockView { ctx: c5, matched: (v2.matched + 1) as usize, ..v2 }, cap, paused, (fuel - 1) as nat)
                        } else {
                            Some((BlockView { state: State::InSubParser(sub_resume_exit(p)), ..v2 }, RootStep::Continue))
                        }
                    } else {
                        Some((BlockView { state: State::InSubParser(sub_resume_continue(p)), ..v2 }, RootStep::Continue))
                    },
                    None => if m is LineFeed || m is BlankLine || m is BlankAtLineBeginning {
                        root_loop(BlockView { ctx: ctx_next(c2).0, ..v2 }, cap, paused, (fuel - 1) as nat)
                    } else if ch matches Some(b) && spec_is_space_char(b) {
                        root_loop(BlockView { ctx: ctx_next(c2).0, ..v2 }, cap, paused, (fuel - 1) as nat)
                    } else if ch == Some(GREATER_THAN) {
                        let (c3, _) = ctx_next(c2);
                        if v2.matched < v2.stack.len() {
                            root_loop(BlockView { ctx: c3, matched: (v2.matched + 1) as usize, ..v2 }, cap, paused, (fuel - 1) as nat)
                        } else {
                            let id = BlockID { value: v2.next_block_id };
                            let v3 = BlockView { ctx: c3, next_block_id: bump_id(v2.next_block_id), ..v2 };
                            if v3.stack.len() < cap {
                                let stack = v3.stack.push(StackEntry::BlockQuote { id, start_line: c3.line });
                                Some(
                                    (
                                        BlockView { stack, matched: stack.len() as usize, ..v3 },
                                        RootStep::Yield(Some(Ok(BlockEvent::EnterBlockQuote(BlockWithID { id })))),
                                    ),
                                )
                            } else {
                                Some((BlockView { has_failed: true, ..v3 }, RootStep::Yield(Some(Err(Error::OutOfStackSpace)))))
                            }
                        }
                    } else if v2.matched < v2.stack.len() {
                        // Containers that this line did not continue close first.
                        Some(
                            (
                                BlockView { stack: v2.stack.drop_last(), ..v2 },
                                RootStep::Yield(Some(Ok(BlockEvent::ExitBlock(exit_container_spec(v2.stack.last(), c2))))),
                            ),
                        )
                    } else {
                        Some(dispatch_spec(v2))
                    },
                }
            },
        }
    }
}

/// One call of `next` on the block parser at `v` with a stack of capacity
/// `cap`, within `fuel` iterations.
pub open spec fn parser_loop(v: BlockView, cap: nat, fuel: nat) -> Option<(BlockView, Option<core::result::Result<BlockEvent, Error>>)>
    decreases fuel,
{
    if fuel == 0 {
        None
    } else if v.has_failed {
        Some((v, None))
    } else if v.is_cleaning_up {
        if v.stack.len() > 0 {
            let stack = v.stack.drop_last();
            Some(
                (
                    BlockView { stack, matched: if v.matched > stack.len() { 0 } else { v.matched }, ..v },
                    Some(Ok(BlockEvent::ExitBlock(exit_container_spec(v.stack.last(), v.ctx)))),
                ),
            )
        } else {
            Some((v, None))
        }
    } else {
        match v.state {
            State::InRoot { paused_sub_parser } => match root_loop(v, cap, paused_sub_parser, (fuel - 1) as nat) {
                None => None,
                Some((v2, RootStep::Yield(r))) => Some((v2, r)),
                Some((v2, RootStep::Continue)) => parser_loop(v2, cap, (fuel - 1) as nat),
            },
            State::InSubParser(s) => match sub_next(s, v.ctx, (fuel - 1) as nat) {
                None => None,
                Some((s2, c2, SubParserResult::ToYield(ev))) => Some(
                    (BlockView { ctx: c2, state: State::InSubParser(s2), ..v }, Some(Ok(ev))),
                ),
                Some((s2, c2, SubParserResult::ToPauseForNewLine)) => parser_loop(
                    BlockView { ctx: c2, state: State::InRoot { paused_sub_parser: Some(s2) }, ..v },
                    cap,
                    (fuel - 1) as nat,
                ),
                Some((_, c2, SubParserResult::Done)) => parser_loop(
                    BlockView { ctx: c2, state: State::InRoot { paused_sub_parser: None }, ..v },
                    cap,
                    (fuel - 1) as nat,
                ),
            },
        }
    }
}

/// The block parser as `new` makes it, over a global stage at `pos` on
/// line `line`.
pub open spec fn start_view(input: Seq<u8>, pos: int, line: int) -> BlockView {
    BlockView {
        ctx: CtxView {
            input,
            mapper: MapperView { pos, line, deferred: None, remain: None, spaces: Some(0), spaces_start: 0 },
            lookahead: Seq::empty(),
            cursor: None,
            new_line_seen: false,
            line: 1,
            content_line: 1,
        },
        is_cleaning_up: false,
        has_failed: false,
        state: State::InRoot { paused_sub_parser: None },
        stack: Seq::empty(),
        matched: 0,
        next_block_id: 1,
    }
}

/// The events from the parser at `v` to the end of the stream, and the error
/// that ended it, if any, within `fuel`.
pub open spec fn run_events(v: BlockView, cap: nat, fuel: nat) -> Option<(Seq<BlockEvent>, Option<Error>)>
    decreases fuel,
{
    if fuel == 0 {
        None
    } else {
        match parser_loop(v, cap, fuel) {
            None => None,
            Some((_, None)) => Some((Seq::empty(), None)),
            Some((_, Some(Err(e)))) => Some((Seq::empty(), Some(e))),
            Some((v2, Some(Ok(ev)))) => match run_events(v2, cap, (fuel - 1) as nat) {
                None => None,
                Some((evs, e)) => Some((seq![ev] + evs, e)),
            },
        }
    }
}

/// All the events of a parse of `input` with a stack of capacity `cap`, and
/// the error that ended it, if any.
pub open spec fn block_events(input: Seq<u8>, cap: nat) -> (Seq<BlockEvent>, Option<Error>) {
    let v = start_view(input, 0, 1);
    run_events(v, cap, choose|f: nat| run_events(v, cap, f) is Some).unwrap()
}

/// Empty input gives no event and no error.
pub proof fn lemma_empty_input(cap: nat)
    ensures
        block_events(Seq::empty(), cap) == (Seq::<BlockEvent>::empty(), None::<Error>),
{
    let input = Seq::<u8>::empty();
    let v = start_view(input, 0, 1);
    let (mv, m) = map_next(input, v.ctx.mapper);
    assert(crate::global::skip_comments(input, 0) == 0);
    assert(m is None);
    let c1 = ctx_fill(v.ctx, 1);
    assert(c1.lookahead.len() == 0);
    let v_clean = BlockView { ctx: c1, is_cleaning_up: true, ..v };
    assert(root_loop(v, cap, None, 2) == Some((v_clean, RootStep::Continue)));
    assert(parser_loop(v_clean, cap, 2) == Some((v_clean, None::<core::result::Result<BlockEvent, Error>>)));
    assert(parser_loop(v, cap, 3) == Some((v_clean, None::<core::result::Result<BlockEvent, Error>>)));
    assert(run_events(v, cap, 3) == Some((Seq::<BlockEvent>::empty(), None::<Error>)));
    lemma_block_events(input, cap, 3);
}

/// `---` and a newline give one thematic break, of the first block, on the
/// first line, and nothing more.
pub proof fn lemma_thematic_break_line(cap: nat)
    ensures
        block_events(seq![HYPHEN, HYPHEN, HYPHEN, LF], cap) == (
            seq![BlockEvent::ThematicBreak(ThematicBreak { id: BlockID { value: 1 }, line_number: 1 })],
            None::<Error>,
        ),
{
    let input = seq![HYPHEN, HYPHEN, HYPHEN, LF];
    assert(crate::global::unparsed_end(input, 3) == 3);
    assert(crate::global::unparsed_end(input, 2) == 3);
    assert(crate::global::unparsed_end(input, 1) == 3);
    assert(crate::global::unparsed_end(input, 0) == 3);
    assert(crate::global::skip_comments(input, 0) == 0);
    assert(crate::global::skip_comments(input, 3) == 3);
    assert(crate::global::skip_comments(input, 4) == 4);
    assert(crate::global::line_breaks(input, 0, 3) == 0) by {
        assert(crate::global::line_breaks(input, 0, 0) == 0);
        assert(crate::global::line_breaks(input, 0, 1) == 0);
        assert(crate::global::line_breaks(input, 0, 2) == 0);
    }
    assert(crate::global::line_breaks(input, 3, 4) == 1) by {
        assert(crate::global::line_breaks(input, 3, 3) == 0);
    }
    assert(crate::global::line_breaks(input, 4, 4) == 0);
    let v = start_view(input, 0, 1);
    let m0 = v.ctx.mapper;
    assert(crate::global::lex_step(input, 0, 1) == (Some(GlobalEvent::Unparsed(Range { start: 0, length: 3 })), 3int));
    let run = crate::block::global_mapper::RemainUnparsed { content: Range { start: 0, length: 3 }, next_offset: 0, is_to_start: true };
    let st1 = MapperView { pos: 3, remain: Some(run), ..m0 };
    assert(crate::block::global_mapper::map_loop(input, st1).1 == Some(Mapped::CharAt(0)));
    let (m1, x1) = map_next(input, m0);
    assert(x1 == Some(Mapped::CharAt(0)));
    let (m2, x2) = map_next(input, m1);
    assert(x2 == Some(Mapped::NextChar));
    let (m3, x3) = map_next(input, m2);
    assert(x3 == Some(Mapped::NextChar));
    assert(crate::global::lex_step(input, 3, 1) == (Some(GlobalEvent::NewLine(crate::events::NewLine { line_number_after: 2 })), 4int));
    assert(crate::block::global_mapper::map_loop(input, MapperView { remain: None, ..m3 }).1 == Some(Mapped::LineFeed));
    let (m4, x4) = map_next(input, m3);
    assert(x4 == Some(Mapped::LineFeed));
    assert(crate::global::lex_step(input, 4, 2).0 is None);
    let (m5, x5) = map_next(input, m4);
    assert(x5 is None);
    assert(m1.line == 1 && m2.line == 1 && m3.line == 1 && m4.line == 2);
    let c0 = CtxView { new_line_seen: false, ..v.ctx };
    assert(c0 == v.ctx);
    let c1 = CtxView { mapper: m1, lookahead: seq![(Mapped::CharAt(0), 1usize)], ..c0 };
    assert(ctx_fill(c1, 1) == c1);
    assert(c0.lookahead.push((Mapped::CharAt(0), m1.line as usize)) =~= c1.lookahead);
    assert(ctx_fill(c0, 1) == c1);
    let c2 = CtxView { mapper: m2, lookahead: seq![(Mapped::CharAt(0), 1usize), (Mapped::NextChar, 1usize)], ..c0 };
    let c3 = CtxView { mapper: m3, lookahead: seq![(Mapped::CharAt(0), 1usize), (Mapped::NextChar, 1usize), (Mapped::NextChar, 1usize)], ..c0 };
    assert(ctx_fill(c3, 3) == c3);
    assert(c2.lookahead.push((Mapped::NextChar, m3.line as usize)) =~= c3.lookahead);
    assert(ctx_fill(c2, 3) == c3);
    assert(c1.lookahead.push((Mapped::NextChar, m2.line as usize)) =~= c2.lookahead);
    assert(ctx_fill(c1, 3) == c3);
    assert(ctx_peek_next_char(c0) == (c1, Some(HYPHEN)));
    assert(ctx_peek_next_three_chars(c1) == (c3, (Some(HYPHEN), Some(HYPHEN), Some(HYPHEN))));
    let d1 = CtxView { lookahead: seq![(Mapped::NextChar, 1usize), (Mapped::NextChar, 1usize)], cursor: Some(0), line: 1, content_line: 1, ..c3 };
    assert(ctx_fill(c3, 1) == c3);
    assert(ctx_next(c3) == (d1, Some(Mapped::CharAt(0)))) by {
        assert(c3.lookahead.subrange(1, 3) =~= d1.lookahead);
    }
    let d2 = CtxView { lookahead: seq![(Mapped::NextChar, 1usize)], cursor: Some(1), ..d1 };
    assert(ctx_fill(d1, 1) == d1);
    assert(ctx_next(d1) == (d2, Some(Mapped::NextChar))) by {
        assert(d1.lookahead.subrange(1, 2) =~= d2.lookahead);
    }
    let d3 = CtxView { lookahead: Seq::empty(), cursor: Some(2), ..d2 };
    assert(ctx_fill(d2, 1) == d2);
    assert(ctx_next(d2) == (d3, Some(Mapped::NextChar))) by {
        assert(d2.lookahead.subrange(1, 1) =~= d3.lookahead);
    }
    assert(ctx_take_n(d3, 0) == d3);
    assert(ctx_take_n(d2, 1) == d3);
    assert(ctx_take_n(d1, 2) == d3);
    assert(ctx_take_n(c3, 3) == d3);
    let d4 = CtxView { mapper: m4, lookahead: seq![(Mapped::LineFeed, 2usize)], ..d3 };
    assert(ctx_fill(d4, 1) == d4);
    assert(d3.lookahead.push((Mapped::LineFeed, m4.line as usize)) =~= d4.lookahead);
    assert(ctx_fill(d3, 1) == d4);
    assert(ctx_peek_next_char(d3) == (d4, None::<u8>));
    assert(ctx_drop_while(d3, HYPHEN, usize::MAX as nat) == (d4, 0nat));
    assert(parser_loop(v, cap, 3) matches Some((_, Some(Ok(BlockEvent::ThematicBreak(t))))) && t.id.value == 1 && t.line_number == 1);
    let v2 = parser_loop(v, cap, 3).unwrap().0;
    assert(v2 == BlockView { ctx: d4, next_block_id: 2, ..v });
    let e1 = CtxView { lookahead: Seq::empty(), line: 2, new_line_seen: true, ..d4 };
    assert(ctx_next(d4) == (e1, Some(Mapped::LineFeed))) by {
        assert(d4.lookahead.subrange(1, 1) =~= e1.lookahead);
    }
    let e2 = CtxView { new_line_seen: false, ..e1 };
    let e3 = CtxView { mapper: m5, ..e2 };
    assert(ctx_fill(e2, 1) == e3);
    let v3 = BlockView { ctx: e3, is_cleaning_up: true, ..v2 };
    assert(root_loop(BlockView { ctx: e1, ..v2 }, cap, None, 2) == Some((v3, RootStep::Continue)));
    assert(root_loop(v2, cap, None, 3) == Some((v3, RootStep::Continue)));
    assert(parser_loop(v3, cap, 3) == Some((v3, None::<core::result::Result<BlockEvent, Error>>)));
    assert(parser_loop(v2, cap, 4) matches Some((_, None)));
    assert(run_events(v2, cap, 4) == Some((Seq::<BlockEvent>::empty(), None::<Error>)));
    assert(run_events(v, cap, 5) == Some((
        seq![BlockEvent::ThematicBreak(ThematicBreak { id: BlockID { value: 1 }, line_number: 1 })],
        None::<Error>,
    ))) by {
        lemma_parser_loop_fuel(v, cap, 3, 5);
    }
    lemma_block_events(input, cap, 5);
}

/// More fuel does not change a run that was reached.
pub proof fn lemma_run_events_fuel(v: BlockView, cap: nat, f1: nat, f2: nat)
    requires
        f1 <= f2,
        run_events(v, cap, f1) is Some,
    ensures
        run_events(v, cap, f2) == run_events(v, cap, f1),
    decreases f1,
{
    lemma_parser_loop_fuel(v, cap, f1, f2);
    if let Some((v2, Some(Ok(_)))) = parser_loop(v, cap, f1) {
        lemma_run_events_fuel(v2, cap, (f1 - 1) as nat, (f2 - 1) as nat);
    }
}

/// A run that is reached is the parse.
pub proof fn lemma_block_events(input: Seq<u8>, cap: nat, f: nat)
    requires
        run_events(start_view(input, 0, 1), cap, f) is Some,
    ensures
        block_events(input, cap) == run_events(start_view(input, 0, 1), cap, f).unwrap(),
{
    let v = start_view(input, 0, 1);
    let g = choose|g: nat| run_events(v, cap, g) is Some;
    if g <= f {
        lemma_run_events_fuel(v, cap, g, f);
    } else {
        lemma_run_events_fuel(v, cap, f, g);
    }
}

/// More fuel does not change a root step that was reached.
pub proof fn lemma_root_loop_fuel(v: BlockView, cap: nat, paused: Option<SubParser>, f1: nat, f2: nat)
    requires
        f1 <= f2,
        root_loop(v, cap, paused, f1) is Some,
    ensures
        root_loop(v, cap, paused, f2) == root_loop(v, cap, paused, f1),
    decreases f1,
{
    let v0 = BlockView {
        ctx: CtxView { new_line_seen: false, ..v.ctx },
        matched: if v.ctx.new_line_seen { 0 } else { v.matched },
        ..v
    };
    let (c1, pk) = ctx_peek(v0.ctx, 0);
    let v1 = BlockView { ctx: c1, ..v0 };
    if let Some(m) = pk {
        let (c2, ch) = if m is CharAt || m is NextChar {
            ctx_peek_next_char(c1)
        } else {
            (c1, None)
        };
        let v2 = BlockView { ctx: c2, ..v1 };
        let (c3, _) = ctx_next(c2);
        let (c4, ch2) = ctx_peek_next_char(c3);
        let c5 = if ch2 == Some(SPACE) {
            ctx_next(c4).0
        } else {
            c4
        };
        let a = BlockView { ctx: c3, ..v2 };
        let b = BlockView { ctx: c5, matched: (v2.matched + 1) as usize, ..v2 };
        let d = BlockView { ctx: c3, matched: (v2.matched + 1) as usize, ..v2 };
        if root_loop(a, cap, paused, (f1 - 1) as nat) is Some {
            lemma_root_loop_fuel(a, cap, paused, (f1 - 1) as nat, (f2 - 1) as nat);
        }
        if root_loop(b, cap, paused, (f1 - 1) as nat) is Some {
            lemma_root_loop_fuel(b, cap, paused, (f1 - 1) as nat, (f2 - 1) as nat);
        }
        if root_loop(d, cap, paused, (f1 - 1) as nat) is Some {
            lemma_root_loop_fuel(d, cap, paused, (f1 - 1) as nat, (f2 - 1) as nat);
        }
    }
}

/// More fuel does not change a call of `next` that was reached.
pub proof fn lemma_parser_loop_fuel(v: BlockView, cap: nat, f1: nat, f2: nat)
    requires
        f1 <= f2,
        parser_loop(v, cap, f1) is Some,
    ensures
        parser_loop(v, cap, f2) == parser_loop(v, cap, f1),
    decreases f1,
{
    if !v.has_failed && !v.is_cleaning_up {
        match v.state {
            State::InRoot { paused_sub_parser } => {
                lemma_root_loop_fuel(v, cap, paused_sub_parser, (f1 - 1) as nat, (f2 - 1) as nat);
                if let Some((v2, RootStep::Continue)) = root_loop(v, cap, paused_sub_parser, (f1 - 1) as nat) {
                    lemma_parser_loop_fuel(v2, cap, (f1 - 1) as nat, (f2 - 1) as nat);
                }
            },
            State::InSubParser(s) => {
                lemma_sub_next_fuel(s, v.ctx, (f1 - 1) as nat, (f2 - 1) as nat);
                match sub_next(s, v.ctx, (f1 - 1) as nat) {
                    Some((s2, c2, SubParserResult::ToPauseForNewLine)) => lemma_parser_loop_fuel(
                        BlockView { ctx: c2, state: State::InRoot { paused_sub_parser: Some(s2) }, ..v },
                        cap,
                        (f1 - 1) as nat,
                        (f2 - 1) as nat,
                    ),
                    Some((_, c2, SubParserResult::Done)) => lemma_parser_loop_fuel(
                        BlockView { ctx: c2, state: State::InRoot { paused_sub_parser: None }, ..v },
                        cap,
                        (f1 - 1) as nat,
                        (f2 - 1) as nat,
                    ),
                    _ => {},
                }
            },
        }
    }
}

/// One root iteration that goes on keeps the record of how the first one
/// unfolds.
proof fn lemma_root_continue(
    v_orig: BlockView,
    v_iter: BlockView,
    v_next: BlockView,
    cap: nat,
    paused: Option<SubParser>,
    used: nat,
)
    requires
        forall|f: nat| #![trigger root_loop(v_iter, cap, paused, f)]
            root_loop(v_iter, cap, paused, f) is Some ==> root_loop(v_orig, cap, paused, f + used) == root_loop(v_iter, cap, paused, f),
        forall|f: nat| #![trigger root_loop(v_next, cap, paused, f)] root_loop(v_iter, cap, paused, f + 1) == root_loop(v_next, cap, paused, f),
    ensures
        forall|f: nat| #![trigger root_loop(v_next, cap, paused, f)]
            root_loop(v_next, cap, paused, f) is Some ==> root_loop(v_orig, cap, paused, f + (used + 1)) == root_loop(v_next, cap, paused, f),
{
    assert forall|f: nat| #![trigger root_loop(v_next, cap, paused, f)]
        root_loop(v_next, cap, paused, f) is Some implies root_loop(v_orig, cap, paused, f + (used + 1)) == root_loop(v_next, cap, paused, f) by {
        assert(root_loop(v_iter, cap, paused, f + 1) == root_loop(v_next, cap, paused, f));
        assert(root_loop(v_orig, cap, paused, (f + 1) + used) == root_loop(v_iter, cap, paused, f + 1));
        assert(f + (used + 1) == (f + 1) + used);
    }
}

/// Iterations of `next` that go on keep the record of how the first one
/// unfolds.
proof fn lemma_parser_continue(v_orig: BlockView, v_iter: BlockView, v_next: BlockView, cap: nat, used: nat, step: nat)
    requires
        forall|f: nat| #![trigger parser_loop(v_iter, cap, f)]
            parser_loop(v_iter, cap, f) is Some ==> parser_loop(v_orig, cap, f + used) == parser_loop(v_iter, cap, f),
        forall|f: nat| #![trigger parser_loop(v_next, cap, f)]
            parser_loop(v_next, cap, f) is Some ==> parser_loop(v_iter, cap, f + step) == parser_loop(v_next, cap, f),
    ensures
        forall|f: nat| #![trigger parser_loop(v_next, cap, f)]
            parser_loop(v_next, cap, f) is Some ==> parser_loop(v_orig, cap, f + (used + step)) == parser_loop(v_next, cap, f),
{
    assert forall|f: nat| #![trigger parser_loop(v_next, cap, f)]
        parser_loop(v_next, cap, f) is Some implies parser_loop(v_orig, cap, f + (used + step)) == parser_loop(v_next, cap, f) by {
        assert(parser_loop(v_iter, cap, f + step) == parser_loop(v_next, cap, f));
        assert(parser_loop(v_orig, cap, (f + step) + used) == parser_loop(v_iter, cap, f + step));
        assert(f + (used + step) == (f + step) + used);
    }
}

/// Lexicographic order on triples of naturals.
pub open spec fn lex3_lt(a: (nat, nat, nat), b: (nat, nat, nat)) -> bool {
    a.0 < b.0 || (a.0 == b.0 && (a.1 < b.1 || (a.1 == b.1 && a.2 < b.2)))
}

/// The block stage: reads the primitives of the mapper and yields block
/// events, keeping the open container blocks on a stack of type `TStack`.
pub struct Parser<'a, TStack: Stack<StackEntry>> {
    context: Context<'a>,
    /// No input is left: what stays on the stack is closed, one by one.
    is_cleaning_up: bool,
    /// An error was yielded: the stream is over.
    has_failed: bool,
    state: State,
    stack: TStack,
    /// How many containers on the stack the current line has continued.
    matched_containers: usize,
    /// The identifier that the next block gets.
    next_block_id: usize,
    /// How many identifiers have been handed out.
    ids_taken: Ghost<nat>,
}

impl<'a, TStack: Stack<StackEntry>> Parser<'a, TStack> {
    pub closed spec fn input(&self) -> Seq<u8> {
        self.context.bytes()
    }

    /// The containers that are open.
    pub closed spec fn stack_items(&self) -> Seq<StackEntry> {
        self.stack.items()
    }

    pub open spec fn stack_capacity(&self) -> nat {
        TStack::capacity()
    }

    /// A well-formed parser holds no more containers than its stack can.
    pub proof fn lemma_stack_within_capacity(&self)
        requires
            self.wf(),
        ensures
            self.stack_items().len() <= self.stack_capacity(),
    {
    }

    pub closed spec fn view(&self) -> BlockView {
        BlockView {
            ctx: self.context.view(),
            is_cleaning_up: self.is_cleaning_up,
            has_failed: self.has_failed,
            state: self.state,
            stack: self.stack.items(),
            matched: self.matched_containers,
            next_block_id: self.next_block_id,
        }
    }

    pub closed spec fn has_failed(&self) -> bool {
        self.has_failed
    }

    /// The identifiers of the blocks entered and not yet exited, outermost
    /// first.
    pub closed spec fn open_ids(&self) -> Seq<usize> {
        self.stack.items().map_values(|e: StackEntry| entry_id(e)) + match self.state {
            State::InRoot { paused_sub_parser: Some(s) } => if s.is_open() { seq![s.id()] } else { Seq::empty() },
            State::InRoot { paused_sub_parser: None } => Seq::empty(),
            State::InSubParser(s) => if s.is_open() { seq![s.id()] } else { Seq::empty() },
        }
    }

    /// How many events that open a block have been yielded.
    pub closed spec fn blocks_announced(&self) -> nat {
        match self.state {
            State::InSubParser(s) => if s.is_fresh() { (self.ids_taken@ - 1) as nat } else { self.ids_taken@ },
            _ => self.ids_taken@,
        }
    }

    /// The number of blocks entered and not yet exited.
    pub open spec fn open_blocks(&self) -> nat {
        self.open_ids().len()
    }

    pub closed spec fn wf(&self) -> bool {
        &&& self.context.wf()
        &&& self.stack.wf()
        &&& self.stack.items().len() <= TStack::capacity()
        &&& self.matched_containers <= self.stack.items().len()
        &&& match self.state {
            State::InRoot { paused_sub_parser: Some(s) } => s.wf(self.context.bytes().len()) && s.is_paused() && s.is_open(),
            State::InRoot { paused_sub_parser: None } => true,
            State::InSubParser(s) => s.wf(self.context.bytes().len()) && !s.is_paused() && !s.is_exited(),
        }
        &&& (self.is_cleaning_up ==> self.state == State::InRoot { paused_sub_parser: None })
        &&& self.next_block_id == nth_block_id(self.ids_taken@)
        &&& match self.state {
            State::InRoot { paused_sub_parser: Some(s) } => !s.is_fresh(),
            State::InRoot { paused_sub_parser: None } => true,
            State::InSubParser(s) => s.is_fresh() ==> self.ids_taken@ >= 1 && s.id() == nth_block_id((self.ids_taken@ - 1) as nat),
        }
    }

    spec fn state_rank(&self) -> nat {
        let at_end = self.context.measure() == 0;
        if self.has_failed {
            0
        } else if self.is_cleaning_up {
            1
        } else {
            match self.state {
                State::InRoot { paused_sub_parser: Some(_) } => 45,
                State::InRoot { paused_sub_parser: None } => if at_end { 2 } else { 25 },
                State::InSubParser(s) => s.rank(at_end),
            }
        }
    }

    /// A measure of the work left; every call of `next` that yields lowers it.
    pub closed spec fn progress(&self) -> (nat, nat, nat) {
        (self.context.measure(), self.stack.items().len(), self.state_rank())
    }

    pub fn new(input: &'a [u8], global_stream: global::Parser<'a>) -> (r: Parser<'a, TStack>)
        requires
            global_stream.wf(),
            global_stream.input() == input@,
        ensures
            r.wf(),
            r.input() == input@,
            r.open_blocks() == 0,
            r.blocks_announced() == 0,
            !r.has_failed(),
            r.view() == start_view(input@, global_stream.pos() as int, global_stream.line() as int),
    {
        let mapper = GlobalEventStreamMapper::new(input, global_stream);
        let context = Context::new(input, mapper);
        let stack = TStack::new();
        proof {
            stack.lemma_within_capacity();
        }
        Parser {
            context,
            is_cleaning_up: false,
            has_failed: false,
            state: State::InRoot { paused_sub_parser: None },
            stack,
            matched_containers: 0,
            next_block_id: 1,
            ids_taken: Ghost(0),
        }
    }

    /// Yields the next event, the error that ends the stream, or `None` at
    /// the end of the stream. Every `Enter*` raises the number of open blocks
    /// by one and every `ExitBlock` lowers it by one; at the end no block is
    /// open, unless the stream ended on an error.
    #[verifier::rlimit(100)]
    #[verifier::spinoff_prover]
    pub fn next(&mut self) -> (r: Option<core::result::Result<BlockEvent, Error>>)
        requires
            old(self).wf(),
        ensures
            final(self).wf(),
            final(self).input() == old(self).input(),
            r is Some ==> lex3_lt(final(self).progress(), old(self).progress()),
            r matches Some(Ok(ev)) ==> ev.spec_to_event().ranges_within(old(self).input().len()),
            r matches Some(Ok(ev)) ==> brackets_step(ev, old(self).open_ids(), final(self).open_ids()) && ev.lines_in_order(),
            r matches Some(Ok(ev)) ==> (if opens_block(ev) {
                ev.spec_block_id() == Some(nth_block_id(old(self).blocks_announced()))
                    && final(self).blocks_announced() == old(self).blocks_announced() + 1
            } else {
                final(self).blocks_announced() == old(self).blocks_announced()
            }),
            r matches Some(Err(e)) ==> e == Error::OutOfStackSpace && old(self).stack_items().len() == old(self).stack_capacity()
                && final(self).has_failed() && final(self).open_ids() == old(self).open_ids()
                && old(self).open_blocks() == old(self).stack_items().len(),
            final(self).stack_items().len() <= final(self).stack_capacity(),
            r is None ==> final(self).open_blocks() == 0 || final(self).has_failed(),
            r is None ==> final(self).open_ids() == old(self).open_ids(),
            old(self).has_failed() ==> r is None,
            !old(self).has_failed() && final(self).has_failed() ==> r matches Some(Err(_)),
            final(self).has_failed() == (old(self).has_failed() || r matches Some(Err(_))),
            exists|f: nat| parser_loop(old(self).view(), TStack::capacity(), f) == Some((final(self).view(), r)),
    {
        let ghost v_orig = self.view();
        let ghost cap = TStack::capacity();
        let ghost mut used: nat = 0;
        loop
            invariant
                self.wf(),
                self.input() == old(self).input(),
                self.has_failed == old(self).has_failed,
                self.open_ids() == old(self).open_ids(),
                self.stack == old(self).stack,
                self.blocks_announced() == old(self).blocks_announced(),
                lex3_lt(self.progress(), old(self).progress()) || self.progress() == old(self).progress(),
                v_orig == old(self).view(),
                cap == TStack::capacity(),
                forall|f: nat| #![trigger parser_loop(self.view(), cap, f)]
                    parser_loop(self.view(), cap, f) is Some
                    ==> parser_loop(v_orig, cap, f + used) == parser_loop(self.view(), cap, f),
            decreases self.context.measure(), self.stack.items().len(), self.state_rank(),
        {
            let ghost v_iter = self.view();
            if self.has_failed {
                proof {
                    assert(parser_loop(v_iter, cap, 1) == Some((self.view(), None::<core::result::Result<BlockEvent, Error>>)));
                    assert(parser_loop(v_orig, cap, 1 + used) == Some((self.view(), None::<core::result::Result<BlockEvent, Error>>)));
                }
                return None;
            }
            if self.is_cleaning_up {
                proof {
                    self.stack.lemma_within_capacity();
                }
                let ghost items_before = self.stack.items();
                let popped = self.stack.pop();
                proof {
                    self.stack.lemma_within_capacity();
                    if items_before.len() > 0 {
                        assert(self.stack.items().map_values(|e: StackEntry| entry_id(e))
                            =~= items_before.map_values(|e: StackEntry| entry_id(e)).drop_last());
                    }
                }
                if self.matched_containers > self.stack.as_slice().len() {
                    self.matched_containers = 0;
                }
                let r = match popped {
                    Some(entry) => Some(Ok(BlockEvent::ExitBlock(self.exit_container(entry)))),
                    None => None,
                };
                proof {
                    assert(parser_loop(v_iter, cap, 1) == Some((self.view(), r)));
                    assert(parser_loop(v_orig, cap, 1 + used) == Some((self.view(), r)));
                }
                return r;
            }
            match self.state {
                State::InRoot { paused_sub_parser } => {
                    let step = self.process_in_root_state(paused_sub_parser);
                    let ghost fr = choose|f: nat| root_loop(v_iter, cap, paused_sub_parser, f) == Some((self.view(), step));
                    match step {
                        RootStep::Yield(r) => {
                            proof {
                                assert(parser_loop(v_iter, cap, 1 + fr) == Some((self.view(), r)));
                                assert(parser_loop(v_orig, cap, (1 + fr) + used) == Some((self.view(), r)));
                            }
                            return r;
                        },
                        RootStep::Continue => {
                            proof {
                                assert forall|f: nat| #![trigger parser_loop(self.view(), cap, f)]
                                    parser_loop(self.view(), cap, f) is Some
                                    implies parser_loop(v_iter, cap, f + (1 + fr)) == parser_loop(self.view(), cap, f) by {
                                    lemma_root_loop_fuel(v_iter, cap, paused_sub_parser, fr, f + fr);
                                    lemma_parser_loop_fuel(self.view(), cap, f, f + fr);
                                    assert(parser_loop(v_iter, cap, (f + fr) + 1) == parser_loop(self.view(), cap, f + fr));
                                    assert(f + (1 + fr) == (f + fr) + 1);
                                }
                                lemma_parser_continue(v_orig, v_iter, self.view(), cap, used, 1 + fr);
                                used = used + (1 + fr);
                            }
                        },
                    }
                },
                State::InSubParser(s) => {
                    let mut s = s;
                    let ghost s0 = s;
                    let ghost prefix = self.stack.items().map_values(|e: StackEntry| entry_id(e));
                    let ghost c_iter = self.context.view();
                    let res = s.next(&mut self.context);
                    let ghost fs = choose|f: nat| sub_next(s0, c_iter, f) == Some((s, self.context.view(), res));
                    match res {
                        SubParserResult::ToYield(ev) => {
                            self.state = State::InSubParser(s);
                            proof {
                                if s0.is_open() {
                                    assert(old(self).open_ids() =~= prefix.push(s0.id()));
                                    assert(old(self).open_ids().drop_last() =~= prefix);
                                } else {
                                    assert(old(self).open_ids() =~= prefix);
                                }
                                if s.is_open() {
                                    assert(self.open_ids() =~= prefix.push(s.id()));
                                } else {
                                    assert(self.open_ids() =~= prefix);
                                }
                            }
                            proof {
                                assert(parser_loop(v_iter, cap, 1 + fs) == Some((self.view(), Some(Ok::<BlockEvent, Error>(ev)))));
                                assert(parser_loop(v_orig, cap, (1 + fs) + used) == Some((self.view(), Some(Ok::<BlockEvent, Error>(ev)))));
                            }
                            return Some(Ok(ev));
                        },
                        SubParserResult::ToPauseForNewLine => {
                            self.state = State::InRoot { paused_sub_parser: Some(s) };
                        },
                        SubParserResult::Done => {
                            self.state = State::InRoot { paused_sub_parser: None };
                        },
                    }
                    proof {
                        assert forall|f: nat| #![trigger parser_loop(self.view(), cap, f)]
                            parser_loop(self.view(), cap, f) is Some
                            implies parser_loop(v_iter, cap, f + (1 + fs)) == parser_loop(self.view(), cap, f) by {
                            lemma_sub_next_fuel(s0, c_iter, fs, f + fs);
                            lemma_parser_loop_fuel(self.view(), cap, f, f + fs);
                            assert(parser_loop(v_iter, cap, (f + fs) + 1) == parser_loop(self.view(), cap, f + fs));
                            assert(f + (1 + fs) == (f + fs) + 1);
                        }
                        lemma_parser_continue(v_orig, v_iter, self.view(), cap, used, 1 + fs);
                        used = used + (1 + fs);
                    }
                },
            }
        }
    }

    /// One step in the root: skips what separates blocks, continues or
    /// closes containers, and decides which block begins.
    #[verifier::rlimit(100)]
    #[verifier::spinoff_prover]
    fn process_in_root_state(&mut self, paused_sub_parser: Option<SubParser>) -> (r: RootStep)
        requires
            old(self).wf(),
            !old(self).is_cleaning_up,
            !old(self).has_failed,
            old(self).state == (State::InRoot { paused_sub_parser }),
        ensures
            final(self).wf(),
            final(self).input() == old(self).input(),
            lex3_lt(final(self).progress(), old(self).progress()),
            r matches RootStep::Yield(y) ==> y is Some,
            r is Continue ==> !final(self).has_failed && final(self).open_ids() == old(self).open_ids()
                && final(self).stack == old(self).stack && final(self).blocks_announced() == old(self).blocks_announced(),
            r matches RootStep::Yield(Some(Ok(ev))) ==> ev.spec_to_event().ranges_within(old(self).input().len()) && !final(self).has_failed
                && brackets_step(ev, old(self).open_ids(), final(self).open_ids()) && ev.lines_in_order()
                && (if opens_block(ev) {
                ev.spec_block_id() == Some(nth_block_id(old(self).blocks_announced()))
                    && final(self).blocks_announced() == old(self).blocks_announced() + 1
            } else {
                final(self).blocks_announced() == old(self).blocks_announced()
            }),
            r matches RootStep::Yield(Some(Err(e))) ==> e == Error::OutOfStackSpace && old(self).stack_items().len() >= old(self).stack_capacity()
                && final(self).has_failed && final(self).open_ids() == old(self).open_ids()
                && old(self).open_blocks() == old(self).stack_items().len(),
            exists|f: nat| root_loop(old(self).view(), TStack::capacity(), paused_sub_parser, f) == Some((final(self).view(), r)),
    {
        let ghost v_orig = self.view();
        let ghost cap = TStack::capacity();
        let ghost mut used: nat = 0;
        loop
            invariant
                self.wf(),
                !self.is_cleaning_up,
                !self.has_failed,
                self.state == (State::InRoot { paused_sub_parser }),
                self.input() == old(self).input(),
                self.stack == old(self).stack,
                self.open_ids() == old(self).open_ids(),
                self.ids_taken == old(self).ids_taken,
                self.next_block_id == old(self).next_block_id,
                old(self).state == (State::InRoot { paused_sub_parser }),
                paused_sub_parser matches Some(p) ==> p.is_open() && p.is_paused(),
                lex3_lt(self.progress(), old(self).progress()) || self.progress() == old(self).progress(),
                v_orig == old(self).view(),
                cap == TStack::capacity(),
                forall|f: nat| #![trigger root_loop(self.view(), cap, paused_sub_parser, f)]
                    root_loop(self.view(), cap, paused_sub_parser, f) is Some
                    ==> root_loop(v_orig, cap, paused_sub_parser, f + used) == root_loop(self.view(), cap, paused_sub_parser, f),
            decreases self.context.measure(),
        {
            let ghost v_iter = self.view();
            if self.context.take_new_line_seen() {
                self.matched_containers = 0;
            }
            let peeked = match self.context.peek_1() {
                Some(m) => m,
                None => {
                    match paused_sub_parser {
                        Some(p) => {
                            let mut p = p;
                            p.resume_from_pause_for_new_line_and_exit();
                            self.state = State::InSubParser(p);
                        },
                        None => {
                            self.is_cleaning_up = true;
                        },
                    }
                    {
                    let r = RootStep::Continue;
                    proof {
                        assert(root_loop(v_iter, cap, paused_sub_parser, 1) == Some((self.view(), r)));
                        assert(root_loop(v_orig, cap, paused_sub_parser, 1 + used) == Some((self.view(), r)));
                    }
                    return r;
                }
                },
            };
            let c = match peeked {
                Mapped::CharAt(_) | Mapped::NextChar => self.context.peek_next_char(),
                _ => None,
            };
            match paused_sub_parser {
                Some(p) => {
                    let mut p = p;
                    if self.matched_containers < self.stack.as_slice().len() {
                        match c {
                            Some(b) => {
                                if is_space_char(b) {
                                    self.context.next();
                                    proof {
                    assert forall|f: nat| #![trigger root_loop(self.view(), cap, paused_sub_parser, f)]
                        root_loop(v_iter, cap, paused_sub_parser, f + 1) == root_loop(self.view(), cap, paused_sub_parser, f) by {
                    }
                    lemma_root_continue(v_orig, v_iter, self.view(), cap, paused_sub_parser, used);
                    used = used + 1;
                }
                continue;
                                }
                                if b == GREATER_THAN {
                                    // The marker and one space after it.
                                    self.context.next();
                                    if self.context.peek_next_char() == Some(SPACE) {
                                        self.context.next();
                                    }
                                    self.matched_containers = self.matched_containers + 1;
                                    proof {
                    assert forall|f: nat| #![trigger root_loop(self.view(), cap, paused_sub_parser, f)]
                        root_loop(v_iter, cap, paused_sub_parser, f + 1) == root_loop(self.view(), cap, paused_sub_parser, f) by {
                    }
                    lemma_root_continue(v_orig, v_iter, self.view(), cap, paused_sub_parser, used);
                    used = used + 1;
                }
                continue;
                                }
                            },
                            None => {},
                        }
                        p.resume_from_pause_for_new_line_and_exit();
                    } else {
                        p.resume_from_pause_for_new_line_and_continue();
                    }
                    self.state = State::InSubParser(p);
                    {
                    let r = RootStep::Continue;
                    proof {
                        assert(root_loop(v_iter, cap, paused_sub_parser, 1) == Some((self.view(), r)));
                        assert(root_loop(v_orig, cap, paused_sub_parser, 1 + used) == Some((self.view(), r)));
                    }
                    return r;
                }
                },
                None => {},
            }
            match peeked {
                Mapped::LineFeed | Mapped::BlankLine { .. } | Mapped::BlankAtLineBeginning(_) => {
                    self.context.next();
                    proof {
                    assert forall|f: nat| #![trigger root_loop(self.view(), cap, paused_sub_parser, f)]
                        root_loop(v_iter, cap, paused_sub_parser, f + 1) == root_loop(self.view(), cap, paused_sub_parser, f) by {
                    }
                    lemma_root_continue(v_orig, v_iter, self.view(), cap, paused_sub_parser, used);
                    used = used + 1;
                }
                continue;
                },
                _ => {},
            }
            match c {
                Some(b) => {
                    if is_space_char(b) {
                        self.context.next();
                        proof {
                    assert forall|f: nat| #![trigger root_loop(self.view(), cap, paused_sub_parser, f)]
                        root_loop(v_iter, cap, paused_sub_parser, f + 1) == root_loop(self.view(), cap, paused_sub_parser, f) by {
                    }
                    lemma_root_continue(v_orig, v_iter, self.view(), cap, paused_sub_parser, used);
                    used = used + 1;
                }
                continue;
                    }
                    if b == GREATER_THAN {
                        self.context.next();
                        if self.matched_containers < self.stack.as_slice().len() {
                            self.matched_containers = self.matched_containers + 1;
                            proof {
                    assert forall|f: nat| #![trigger root_loop(self.view(), cap, paused_sub_parser, f)]
                        root_loop(v_iter, cap, paused_sub_parser, f + 1) == root_loop(self.view(), cap, paused_sub_parser, f) by {
                    }
                    lemma_root_continue(v_orig, v_iter, self.view(), cap, paused_sub_parser, used);
                    used = used + 1;
                }
                continue;
                        }
                        proof {
                            self.stack.lemma_within_capacity();
                        }
                        let id = self.take_block_id();
                        let entry = StackEntry::BlockQuote { id, start_line: self.context.current_line() };
                        let ghost ids_before = self.stack.items().map_values(|e: StackEntry| entry_id(e));
                        match self.stack.try_push(entry) {
                            Ok(()) => {
                                proof {
                                    self.stack.lemma_within_capacity();
                                    assert(self.stack.items().map_values(|e: StackEntry| entry_id(e)) =~= ids_before.push(id.value));
                                    assert(self.open_ids() =~= old(self).open_ids().push(id.value));
                                }
                                self.matched_containers = self.stack.as_slice().len();
                                {
                    let r = RootStep::Yield(Some(Ok(BlockEvent::EnterBlockQuote(BlockWithID { id }))));
                    proof {
                        assert(root_loop(v_iter, cap, paused_sub_parser, 1) == Some((self.view(), r)));
                        assert(root_loop(v_orig, cap, paused_sub_parser, 1 + used) == Some((self.view(), r)));
                    }
                    return r;
                }
                            },
                            Err(e) => {
                                self.has_failed = true;
                                {
                    let r = RootStep::Yield(Some(Err(e)));
                    proof {
                        assert(root_loop(v_iter, cap, paused_sub_parser, 1) == Some((self.view(), r)));
                        assert(root_loop(v_orig, cap, paused_sub_parser, 1 + used) == Some((self.view(), r)));
                    }
                    return r;
                }
                            },
                        }
                    }
                },
                None => {},
            }
            // A block other than a container begins: containers that this
            // line did not continue are closed first.
            if self.matched_containers < self.stack.as_slice().len() {
                proof {
                    self.stack.lemma_within_capacity();
                }
                let ghost items_before = self.stack.items();
                let popped = self.stack.pop();
                proof {
                    self.stack.lemma_within_capacity();
                    assert(self.stack.items().map_values(|e: StackEntry| entry_id(e))
                        =~= items_before.map_values(|e: StackEntry| entry_id(e)).drop_last());
                    assert(self.open_ids() =~= old(self).open_ids().drop_last());
                }
                let ev = match popped {
                    Some(entry) => self.exit_container(entry),
                    None => self.exit_container(StackEntry::BlockQuote { id: BlockID::new(0), start_line: 0 }),
                };
                {
                    let r = RootStep::Yield(Some(Ok(BlockEvent::ExitBlock(ev))));
                    proof {
                        assert(root_loop(v_iter, cap, paused_sub_parser, 1) == Some((self.view(), r)));
                        assert(root_loop(v_orig, cap, paused_sub_parser, 1 + used) == Some((self.view(), r)));
                    }
                    return r;
                }
            }
            proof {
                self.context.lemma_peeked_is_work_left();
            }
            {
                    let r = self.dispatch();
                    proof {
                        assert(root_loop(v_iter, cap, paused_sub_parser, 1) == Some((self.view(), r)));
                        assert(root_loop(v_orig, cap, paused_sub_parser, 1 + used) == Some((self.view(), r)));
                    }
                    return r;
                }
        }
    }

    /// Hands out the identifier of a new block; identifiers count up from 1
    /// and stay at the largest value once they reach it.
    fn take_block_id(&mut self) -> (r: BlockID)
        requires
            old(self).next_block_id == nth_block_id(old(self).ids_taken@),
        ensures
            r.value == old(self).next_block_id,
            r.value == nth_block_id(old(self).ids_taken@),
            final(self).ids_taken@ == old(self).ids_taken@ + 1,
            final(self).next_block_id == nth_block_id(final(self).ids_taken@),
            final(self).context == old(self).context,
            final(self).stack == old(self).stack,
            final(self).state == old(self).state,
            final(self).is_cleaning_up == old(self).is_cleaning_up,
            final(self).has_failed == old(self).has_failed,
            final(self).matched_containers == old(self).matched_containers,
            final(self).view() == (BlockView { next_block_id: bump_id(old(self).next_block_id), ..old(self).view() }),
            r == (BlockID { value: old(self).next_block_id }),
    {
        let id = BlockID::new(self.next_block_id);
        if self.next_block_id < usize::MAX {
            self.next_block_id = self.next_block_id + 1;
        }
        self.ids_taken = Ghost(self.ids_taken@ + 1);
        id
    }

    /// The event that closes a container: its first line, and the line of
    /// the last content consumed.
    fn exit_container(&self, entry: StackEntry) -> (r: ExitBlock)
        ensures
            r.id.value == entry_id(entry),
            r.start_line_number <= r.end_line_number,
            r == exit_container_spec(entry, self.context.view()),
    {
        let end = self.context.last_content_line();
        match entry {
            StackEntry::BlockQuote { id, start_line } => ExitBlock {
                id,
                start_line_number: start_line,
                end_line_number: if end < start_line {
                    start_line
                } else {
                    end
                },
            },
        }
    }

    /// Decides which block begins at the next primitive, which is content.
    fn dispatch(&mut self) -> (r: RootStep)
        requires
            old(self).wf(),
            !old(self).is_cleaning_up,
            !old(self).has_failed,
            old(self).state == (State::InRoot { paused_sub_parser: None }),
            old(self).context.has_peeked(),
            old(self).context.measure() > 0,
        ensures
            final(self).wf(),
            final(self).input() == old(self).input(),
            lex3_lt(final(self).progress(), old(self).progress()),
            r is Continue ==> !final(self).has_failed && final(self).open_ids() == old(self).open_ids()
                && final(self).blocks_announced() == old(self).blocks_announced(),
            final(self).stack == old(self).stack,
            !final(self).is_cleaning_up,
            r matches RootStep::Yield(y) ==> y matches Some(Ok(ev)) && ev is ThematicBreak && !final(self).has_failed
                && final(self).open_ids() == old(self).open_ids()
                && ev.spec_block_id() == Some(nth_block_id(old(self).blocks_announced()))
                && final(self).blocks_announced() == old(self).blocks_announced() + 1,
            (final(self).view(), r) == dispatch_spec(old(self).view()),
    {
        let (c0, c1, c2) = self.context.peek_next_three_chars();
        if c0 == Some(HYPHEN) && c1 == Some(HYPHEN) && c2 == Some(HYPHEN) {
            self.context.take_n(3);
            self.context.drop_while_char(HYPHEN);
            let id = self.take_block_id();
            return RootStep::Yield(Some(Ok(BlockEvent::ThematicBreak(ThematicBreak { id, line_number: self.context.current_line() }))));
        }
        if c0 == Some(EQUALS) {
            self.context.next();
            let start = match self.context.cursor_value() {
                Some(i) => i,
                None => {
                    let id = self.take_block_id();
                    self.state = State::InSubParser(SubParser::Paragraph(paragraph::Parser::new(None, id, self.context.current_line())));
                    return RootStep::Continue;
                },
            };
            let dropped = self.context.drop_while_char_with_maximum(EQUALS, 5);
            if self.context.peek_next_char() == Some(SPACE) {
                self.context.next();
                let id = self.take_block_id();
                self.state = State::InSubParser(SubParser::Heading(heading::Parser::new(1 + dropped, id, self.context.current_line())));
                return RootStep::Continue;
            }
            let before = match self.context.cursor_value() {
                Some(end) => {
                    if end >= start {
                        Range::new(start, end + 1 - start)
                    } else {
                        Range::new(start, 1)
                    }
                },
                None => Range::new(start, 1),
            };
            let id = self.take_block_id();
            self.state = State::InSubParser(SubParser::Paragraph(paragraph::Parser::new(Some(before), id, self.context.current_line())));
            return RootStep::Continue;
        }
        if c0 == Some(BACKTICK) && c1 == Some(BACKTICK) && c2 == Some(BACKTICK) {
            self.context.take_n(3);
            let extra_count = self.context.drop_while_char(BACKTICK);
            let leading = if extra_count <= usize::MAX - 3 {
                3 + extra_count
            } else {
                usize::MAX
            };
            let id = self.take_block_id();
            self.state = State::InSubParser(SubParser::CodeBlock(code_block::Parser::new(leading, id, self.context.current_line())));
            return RootStep::Continue;
        }
        let id = self.take_block_id();
        self.state = State::InSubParser(SubParser::Paragraph(paragraph::Parser::new(None, id, self.context.current_line())));
        RootStep::Continue
    }
}

} // verus!
