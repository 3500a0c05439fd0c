use vstd::prelude::*;

use crate::block::context::{ctx_drop_while, ctx_next, ctx_peek, ctx_peek_next_char, Context, CtxView};
use crate::block::global_mapper::Mapped;
use crate::block::sub_parsers::{is_content_event, SubParserResult};
use crate::common::{Range, SPACE};
use crate::events::{BlockEvent, NewLine};

verus! {

/// Where the content sub-parser starts a step.
#[derive(Debug, Clone, Copy, PartialEq, Eq, Structural)]
pub enum StepState {
    Initial,
    /// Inside a run of content that began with the given range.
    Normal(Range),
    /// Just after a newline.
    IsAfterLineFeed,
}

impl Default for StepState {
    fn default() -> (r: StepState)
        ensures
            r == StepState::Initial,
    {
        StepState::Initial
    }
}

/// Whether blank runs count as content.
#[derive(Debug, Clone, Copy, PartialEq, Eq, Structural)]
pub enum Mode {
    /// Blank runs are dropped; content comes out as `Unparsed`.
    Inline,
    /// Blank runs are kept; content comes out as `Text`.
    Verbatim,
}

impl Default for Mode {
    fn default() -> (r: Mode)
        ensures
            r == Mode::Inline,
    {
        Mode::Inline
    }
}

/// A run of one repeated byte that ends the content.
#[derive(Debug, Clone, Copy, PartialEq, Eq, Structural)]
pub struct RepetitiveCharactersCondition {
    /// At the beginning of a line, a run of at least `minimal_count`.
    pub at_line_beginning: bool,
    /// At the end of a line after a space, a run of exactly `minimal_count`.
    pub at_line_end_and_with_space_before: bool,
    pub character: u8,
    pub minimal_count: usize,
}

/// When the content ends.
#[derive(Debug, Clone, Copy, PartialEq, Eq, Structural)]
pub struct EndConditions {
    pub before_new_line: bool,
    pub before_blank_line: bool,
    pub after_repetitive_characters: Option<RepetitiveCharactersCondition>,
}

#[derive(Debug, Clone, Copy, PartialEq, Eq, Structural)]
pub struct Options {
    pub initial_step_state: StepState,
    pub mode: Mode,
    pub end_conditions: EndConditions,
}

/// What one step inside the content parser comes to.
#[derive(Clone, Copy)]
pub enum InternalResult {
    ToContinue,
    ToChangeStepStateAndContinue(StepState),
    ToYield(BlockEvent),
    ToPauseForNewLine,
    Done,
}

/// The line-body parser that the block sub-parsers share.
#[derive(Clone, Copy)]
pub struct Parser {
    pub mode: Mode,
    pub end_conditions: EndConditions,
    pub next_initial_step_state: StepState,
    pub is_at_first_line: bool,
}

/// `r` grown so that it ends at the cursor, when the cursor is in or after it.
pub open spec fn extend_range(r: Range, cursor: Option<usize>) -> Range {
    match cursor {
        Some(c) => if c >= r.start {
            Range { start: r.start, length: (c + 1 - r.start) as usize }
        } else {
            r
        },
        None => r,
    }
}

/// How content comes out in a mode.
pub open spec fn content_event(mode: Mode, content: Range) -> BlockEvent {
    match mode {
        Mode::Inline => BlockEvent::Unparsed(content),
        Mode::Verbatim => BlockEvent::Text(content),
    }
}

/// A newline inside the content: itself content, but for the first line.
pub open spec fn continue_line_result(p: Parser, c: CtxView) -> InternalResult {
    if p.is_at_first_line {
        InternalResult::ToChangeStepStateAndContinue(StepState::Initial)
    } else {
        InternalResult::ToYield(BlockEvent::NewLine(NewLine { line_number_after: c.line }))
    }
}

/// A step at the start of a run of content.
pub open spec fn initial_step(p: Parser, c0: CtxView) -> (CtxView, InternalResult) {
    let (c1, pk) = ctx_peek(c0, 0);
    match pk {
        None => (c1, InternalResult::Done),
        Some(Mapped::CharAt(_)) | Some(Mapped::NextChar) => {
            let (c2, _) = ctx_next(c1);
            match c2.cursor {
                Some(i) => (c2, InternalResult::ToChangeStepStateAndContinue(StepState::Normal(Range { start: i, length: 1 }))),
                None => (c2, InternalResult::ToContinue),
            }
        },
        Some(Mapped::LineFeed) | Some(Mapped::BlankLine { .. }) => {
            let (c2, _) = ctx_next(c1);
            (c2, if p.end_conditions.before_new_line { InternalResult::Done } else { InternalResult::ToPauseForNewLine })
        },
        Some(Mapped::BlankAtLineBeginning(blank)) => {
            let (c2, _) = ctx_next(c1);
            (c2, match p.mode {
                Mode::Inline => InternalResult::ToContinue,
                Mode::Verbatim => InternalResult::ToYield(BlockEvent::Text(blank)),
            })
        },
        Some(Mapped::Text(t)) => {
            let (c2, _) = ctx_next(c1);
            (c2, InternalResult::ToYield(BlockEvent::Text(t)))
        },
    }
}

/// Consumes the next byte as content.
pub open spec fn consume_into(c0: CtxView, content: Range) -> (CtxView, InternalResult) {
    let (c1, _) = ctx_next(c0);
    (c1, InternalResult::ToChangeStepStateAndContinue(StepState::Normal(extend_range(content, c1.cursor))))
}

/// After the space before a potential closing run at the end of a line.
pub open spec fn closing_run_step(p: Parser, c0: CtxView, content: Range, cond: RepetitiveCharactersCondition) -> (CtxView, InternalResult) {
    let (c1, _) = ctx_next(c0);
    let (c2, ch) = ctx_peek_next_char(c1);
    if ch != Some(cond.character) {
        (c2, InternalResult::ToChangeStepStateAndContinue(StepState::Normal(extend_range(content, c2.cursor))))
    } else {
        let (c3, _) = ctx_next(c2);
        let (c4, dropped) = ctx_drop_while(c3, cond.character, cond.minimal_count as nat);
        if cond.minimal_count >= 1 && dropped == cond.minimal_count - 1 {
            let (c5, pk) = ctx_peek(c4, 0);
            if pk is None || pk == Some(Mapped::LineFeed) || pk matches Some(Mapped::BlankLine { .. }) {
                (c5, InternalResult::ToYield(content_event(p.mode, content)))
            } else {
                (c5, InternalResult::ToChangeStepStateAndContinue(StepState::Normal(extend_range(content, c5.cursor))))
            }
        } else {
            (c4, InternalResult::ToChangeStepStateAndContinue(StepState::Normal(extend_range(content, c4.cursor))))
        }
    }
}

/// A step inside a run of content that began with `content`.
pub open spec fn normal_step(p: Parser, c0: CtxView, content: Range) -> (CtxView, InternalResult) {
    let (c1, pk) = ctx_peek(c0, 0);
    match pk {
        None => (c1, InternalResult::ToYield(content_event(p.mode, content))),
        Some(Mapped::NextChar) => match p.end_conditions.after_repetitive_characters {
            Some(cond) => if cond.at_line_end_and_with_space_before {
                let (c2, ch) = ctx_peek_next_char(c1);
                if ch == Some(SPACE) {
                    closing_run_step(p, c2, content, cond)
                } else {
                    consume_into(c2, content)
                }
            } else {
                consume_into(c1, content)
            },
            None => consume_into(c1, content),
        },
        Some(Mapped::BlankAtLineBeginning(blank)) => {
            let (c2, _) = ctx_next(c1);
            (c2, match p.mode {
                Mode::Inline => InternalResult::ToChangeStepStateAndContinue(StepState::Normal(content)),
                Mode::Verbatim => InternalResult::ToYield(BlockEvent::Text(blank)),
            })
        },
        _ => (c1, InternalResult::ToYield(content_event(p.mode, content))),
    }
}

/// A step just after a newline.
pub open spec fn after_line_feed_step(p: Parser, c0: CtxView) -> (CtxView, InternalResult) {
    let (c1, pk) = ctx_peek(c0, 0);
    match pk {
        None => (c1, InternalResult::Done),
        Some(Mapped::CharAt(_)) | Some(Mapped::NextChar) => {
            let (c2, ch) = ctx_peek_next_char(c1);
            match p.end_conditions.after_repetitive_characters {
                Some(cond) => if cond.at_line_beginning && ch == Some(cond.character) {
                    let (c3, _) = ctx_next(c2);
                    match c3.cursor {
                        Some(start) => {
                            let (c4, dropped) = ctx_drop_while(c3, cond.character, usize::MAX as nat);
                            if cond.minimal_count <= 1 || dropped >= cond.minimal_count - 1 {
                                (c4, InternalResult::Done)
                            } else {
                                (c4, InternalResult::ToChangeStepStateAndContinue(
                                    StepState::Normal(extend_range(Range { start, length: 1 }, c4.cursor)),
                                ))
                            }
                        },
                        None => (c3, InternalResult::ToContinue),
                    }
                } else {
                    (c2, continue_line_result(p, c2))
                },
                None => (c2, continue_line_result(p, c2)),
            }
        },
        Some(Mapped::LineFeed) | Some(Mapped::BlankLine { .. }) => if p.end_conditions.before_blank_line {
            let (c2, _) = ctx_next(c1);
            (c2, InternalResult::Done)
        } else {
            (c1, continue_line_result(p, c1))
        },
        Some(Mapped::BlankAtLineBeginning(blank)) => {
            let (c2, _) = ctx_next(c1);
            (c2, match p.mode {
                Mode::Inline => InternalResult::ToContinue,
                Mode::Verbatim => InternalResult::ToYield(BlockEvent::Text(blank)),
            })
        },
        Some(Mapped::Text(_)) => (c1, continue_line_result(p, c1)),
    }
}

pub open spec fn step_of(p: Parser, c: CtxView, state: StepState) -> (CtxView, InternalResult) {
    match state {
        StepState::Initial => initial_step(p, c),
        StepState::Normal(content) => normal_step(p, c, content),
        StepState::IsAfterLineFeed => after_line_feed_step(p, c),
    }
}

/// Steps from `state` until there is something to hand out, within `fuel`
/// steps; `None` when the fuel runs out first.
pub open spec fn content_loop(p: Parser, c: CtxView, state: StepState, fuel: nat) -> Option<(Parser, CtxView, SubParserResult)>
    decreases fuel,
{
    if fuel == 0 {
        None
    } else {
        let (c2, ir) = step_of(p, c, state);
        match ir {
            InternalResult::ToContinue => content_loop(p, c2, state, (fuel - 1) as nat),
            InternalResult::ToChangeStepStateAndContinue(s) => content_loop(p, c2, s, (fuel - 1) as nat),
            InternalResult::ToYield(ev) => Some((p, c2, SubParserResult::ToYield(ev))),
            InternalResult::ToPauseForNewLine => Some((Parser { is_at_first_line: false, ..p }, c2, SubParserResult::ToPauseForNewLine)),
            InternalResult::Done => Some((p, c2, SubParserResult::Done)),
        }
    }
}

/// One call of `next`: the parser after it, the context after it, and the
/// result, within `fuel` steps.
pub open spec fn content_next(p: Parser, c: CtxView, fuel: nat) -> Option<(Parser, CtxView, SubParserResult)> {
    content_loop(Parser { next_initial_step_state: StepState::Initial, ..p }, c, p.next_initial_step_state, fuel)
}

/// More fuel does not change a result that was reached.
pub proof fn lemma_content_loop_fuel(p: Parser, c: CtxView, state: StepState, f1: nat, f2: nat)
    requires
        f1 <= f2,
        content_loop(p, c, state, f1) is Some,
    ensures
        content_loop(p, c, state, f2) == content_loop(p, c, state, f1),
    decreases f1,
{
    let (c2, ir) = step_of(p, c, state);
    match ir {
        InternalResult::ToContinue => lemma_content_loop_fuel(p, c2, state, (f1 - 1) as nat, (f2 - 1) as nat),
        InternalResult::ToChangeStepStateAndContinue(s) => lemma_content_loop_fuel(p, c2, s, (f1 - 1) as nat, (f2 - 1) as nat),
        _ => {},
    }
}

/// The order in which steps may follow one another without consuming input.
spec fn step_rank(s: StepState) -> nat {
    match s {
        StepState::IsAfterLineFeed => 2,
        StepState::Initial => 1,
        StepState::Normal(_) => 0,
    }
}

pub open spec fn step_state_within(s: StepState, len: nat) -> bool {
    s matches StepState::Normal(r) ==> r.within(len)
}

/// Grows `r` so that it ends at the cursor.
fn extend_to_cursor(r: Range, ctx: &Context) -> (out: Range)
    requires
        ctx.wf(),
        r.within(ctx.bytes().len()),
    ensures
        out == extend_range(r, ctx.view().cursor),
        out.within(ctx.bytes().len()),
        out.start == r.start,
{
    match ctx.cursor_value() {
        Some(c) => {
            if c >= r.start {
                Range::new(r.start, c + 1 - r.start)
            } else {
                r
            }
        },
        None => r,
    }
}

impl Parser {
    pub open spec fn wf(&self, len: nat) -> bool {
        step_state_within(self.spec_next_initial_step_state(), len)
    }

    /// Where the next step starts, ranked by how much may still be yielded
    /// there without consuming input.
    pub closed spec fn rest_rank(&self) -> nat {
        match self.next_initial_step_state {
            StepState::Normal(_) => 3,
            StepState::IsAfterLineFeed => 2,
            StepState::Initial => 1,
        }
    }

    pub closed spec fn spec_next_initial_step_state(&self) -> StepState {
        self.next_initial_step_state
    }

    pub fn new(options: Options) -> (r: Self)
        ensures
            r.spec_next_initial_step_state() == options.initial_step_state,
            1 <= r.rest_rank() <= 3,
            r == (Parser {
                mode: options.mode,
                end_conditions: options.end_conditions,
                next_initial_step_state: options.initial_step_state,
                is_at_first_line: true,
            }),
    {
        Parser {
            mode: options.mode,
            end_conditions: options.end_conditions,
            next_initial_step_state: options.initial_step_state,
            is_at_first_line: true,
        }
    }

    /// One step: consumes primitives until there is an event to yield, a
    /// newline to pause at, or the end of the content.
    pub fn next(&mut self, ctx: &mut Context) -> (r: SubParserResult)
        requires
            old(ctx).wf(),
            old(self).wf(old(ctx).bytes().len()),
        ensures
            final(ctx).wf(),
            final(ctx).bytes() == old(ctx).bytes(),
            final(self).wf(final(ctx).bytes().len()),
            final(ctx).measure() <= old(ctx).measure(),
            r is ToPauseForNewLine ==> final(ctx).measure() < old(ctx).measure(),
            r matches SubParserResult::ToYield(ev) ==> is_content_event(ev) && ev.spec_to_event().ranges_within(final(ctx).bytes().len()),
            r is ToYield ==> final(ctx).measure() < old(ctx).measure() || final(self).rest_rank() < old(self).rest_rank(),
            r is Done ==> final(ctx).measure() < old(ctx).measure() || final(ctx).measure() == 0,
            final(self).rest_rank() == 1,
            exists|f: nat| content_next(*old(self), old(ctx).view(), f) == Some((*final(self), final(ctx).view(), r)),
    {
        let start = self.next_initial_step_state;
        let mut state = self.next_initial_step_state;
        let ghost used: nat = 0;
        self.next_initial_step_state = StepState::Initial;
        loop
            invariant
                ctx.wf(),
                ctx.bytes() == old(ctx).bytes(),
                ctx.measure() <= old(ctx).measure(),
                step_state_within(state, ctx.bytes().len()),
                self.next_initial_step_state == StepState::Initial,
                start == old(self).spec_next_initial_step_state(),
                ctx.measure() == old(ctx).measure() ==> (state == start || (start is IsAfterLineFeed && state is Initial)),
                *self == (Parser { next_initial_step_state: StepState::Initial, ..*old(self) }),
                forall|f: nat| #![trigger content_loop(*self, ctx.view(), state, f)]
                    content_loop(*self, ctx.view(), state, f) is Some
                    ==> content_loop(*self, old(ctx).view(), start, f + used) == content_loop(*self, ctx.view(), state, f),
            decreases ctx.measure(), step_rank(state),
        {
            let ghost c_before = ctx.view();
            let ghost s_before = state;
            let internal_result = match state {
                StepState::Initial => self.process_in_initial_state(ctx),
                StepState::Normal(content) => self.process_in_normal_state(ctx, content),
                StepState::IsAfterLineFeed => self.process_in_is_after_line_feed_state(ctx),
            };
            proof {
                assert((ctx.view(), internal_result) == step_of(*self, c_before, s_before));
            }
            match internal_result {
                InternalResult::ToContinue => {},
                InternalResult::ToChangeStepStateAndContinue(new_state) => {
                    state = new_state;
                },
                InternalResult::ToYield(ev) => {
                    proof {
                        assert(content_loop(*self, c_before, s_before, 1) is Some);
                        assert(content_loop(*self, old(ctx).view(), start, 1 + used) == content_loop(*self, c_before, s_before, 1));
                        assert(content_next(*old(self), old(ctx).view(), 1 + used) == Some((*self, ctx.view(), SubParserResult::ToYield(ev))));
                    }
                    return SubParserResult::ToYield(ev);
                },
                InternalResult::ToPauseForNewLine => {
                    let ghost p_before = *self;
                    self.is_at_first_line = false;
                    proof {
                        assert(content_loop(p_before, c_before, s_before, 1) is Some);
                        assert(content_loop(p_before, old(ctx).view(), start, 1 + used) == content_loop(p_before, c_before, s_before, 1));
                        assert(content_next(*old(self), old(ctx).view(), 1 + used) == Some((*self, ctx.view(), SubParserResult::ToPauseForNewLine)));
                    }
                    return SubParserResult::ToPauseForNewLine;
                },
                InternalResult::Done => {
                    proof {
                        assert(content_loop(*self, c_before, s_before, 1) is Some);
                        assert(content_loop(*self, old(ctx).view(), start, 1 + used) == content_loop(*self, c_before, s_before, 1));
                        assert(content_next(*old(self), old(ctx).view(), 1 + used) == Some((*self, ctx.view(), SubParserResult::Done)));
                    }
                    return SubParserResult::Done;
                },
            }
            proof {
                assert forall|f: nat| #![trigger content_loop(*self, ctx.view(), state, f)]
                    content_loop(*self, ctx.view(), state, f) is Some
                    implies content_loop(*self, old(ctx).view(), start, f + used + 1) == content_loop(*self, ctx.view(), state, f) by {
                    assert(content_loop(*self, c_before, s_before, f + 1) == content_loop(*self, ctx.view(), state, f));
                    assert(content_loop(*self, c_before, s_before, f + 1) is Some);
                }
                used = used + 1;
            }
        }
    }

    fn process_in_initial_state(&self, ctx: &mut Context) -> (r: InternalResult)
        requires
            old(ctx).wf(),
        ensures
            final(ctx).wf(),
            final(ctx).bytes() == old(ctx).bytes(),
            final(ctx).measure() <= old(ctx).measure(),
            r is ToContinue || r is ToPauseForNewLine ==> final(ctx).measure() < old(ctx).measure(),
            r matches InternalResult::ToChangeStepStateAndContinue(s) ==> final(ctx).measure() < old(ctx).measure()
                && step_state_within(s, final(ctx).bytes().len()),
            r matches InternalResult::ToYield(ev) ==> is_content_event(ev) && ev.spec_to_event().ranges_within(final(ctx).bytes().len()),
            r is ToYield ==> final(ctx).measure() < old(ctx).measure(),
            r is Done ==> final(ctx).measure() < old(ctx).measure() || final(ctx).measure() == 0,
            (final(ctx).view(), r) == initial_step(*self, old(ctx).view()),
    {
        let peeked = match ctx.peek_1() {
            Some(m) => m,
            None => {
                return InternalResult::Done;
            },
        };
        match peeked {
            Mapped::CharAt(_) | Mapped::NextChar => {
                ctx.next();
                match ctx.cursor_value() {
                    Some(c) => InternalResult::ToChangeStepStateAndContinue(StepState::Normal(Range::new(c, 1))),
                    None => InternalResult::ToContinue,
                }
            },
            Mapped::LineFeed | Mapped::BlankLine { .. } => {
                ctx.next();
                if self.end_conditions.before_new_line {
                    InternalResult::Done
                } else {
                    InternalResult::ToPauseForNewLine
                }
            },
            Mapped::BlankAtLineBeginning(blank) => {
                ctx.next();
                match self.mode {
                    Mode::Inline => InternalResult::ToContinue,
                    Mode::Verbatim => InternalResult::ToYield(BlockEvent::Text(blank)),
                }
            },
            Mapped::Text(content) => {
                ctx.next();
                InternalResult::ToYield(BlockEvent::Text(content))
            },
        }
    }

    fn process_in_normal_state(&self, ctx: &mut Context, content: Range) -> (r: InternalResult)
        requires
            old(ctx).wf(),
            content.within(old(ctx).bytes().len()),
        ensures
            final(ctx).wf(),
            final(ctx).bytes() == old(ctx).bytes(),
            final(ctx).measure() <= old(ctx).measure(),
            r is ToContinue || r is ToPauseForNewLine ==> final(ctx).measure() < old(ctx).measure(),
            r matches InternalResult::ToChangeStepStateAndContinue(s) ==> final(ctx).measure() < old(ctx).measure()
                && step_state_within(s, final(ctx).bytes().len()),
            r matches InternalResult::ToYield(ev) ==> is_content_event(ev) && ev.spec_to_event().ranges_within(final(ctx).bytes().len()),
            r is Done ==> final(ctx).measure() < old(ctx).measure() || final(ctx).measure() == 0,
            (final(ctx).view(), r) == normal_step(*self, old(ctx).view(), content),
    {
        let peeked = match ctx.peek_1() {
            Some(m) => m,
            None => {
                return InternalResult::ToYield(self.make_content_event(content));
            },
        };
        match peeked {
            Mapped::NextChar => {
                let condition = match self.end_conditions.after_repetitive_characters {
                    Some(c) => {
                        if c.at_line_end_and_with_space_before && ctx.peek_next_char() == Some(SPACE) {
                            c
                        } else {
                            ctx.next();
                            return InternalResult::ToChangeStepStateAndContinue(
                                StepState::Normal(extend_to_cursor(content, ctx)),
                            );
                        }
                    },
                    None => {
                        ctx.next();
                        return InternalResult::ToChangeStepStateAndContinue(
                            StepState::Normal(extend_to_cursor(content, ctx)),
                        );
                    },
                };
                let confirmed_content = content;
                // The space before a potential closing run.
                ctx.next();
                if ctx.peek_next_char() != Some(condition.character) {
                    return InternalResult::ToChangeStepStateAndContinue(
                        StepState::Normal(extend_to_cursor(content, ctx)),
                    );
                }
                ctx.next();
                let dropped = ctx.drop_while_char_with_maximum(condition.character, condition.minimal_count);
                if condition.minimal_count >= 1 && dropped == condition.minimal_count - 1 {
                    match ctx.peek_1() {
                        Some(Mapped::LineFeed) | Some(Mapped::BlankLine { .. }) | None => {
                            return InternalResult::ToYield(self.make_content_event(confirmed_content));
                        },
                        _ => {},
                    }
                }
                InternalResult::ToChangeStepStateAndContinue(StepState::Normal(extend_to_cursor(content, ctx)))
            },
            Mapped::BlankAtLineBeginning(blank) => {
                ctx.next();
                match self.mode {
                    Mode::Inline => InternalResult::ToChangeStepStateAndContinue(StepState::Normal(content)),
                    Mode::Verbatim => InternalResult::ToYield(BlockEvent::Text(blank)),
                }
            },
            _ => InternalResult::ToYield(self.make_content_event(content)),
        }
    }

    fn process_in_is_after_line_feed_state(&self, ctx: &mut Context) -> (r: InternalResult)
        requires
            old(ctx).wf(),
        ensures
            final(ctx).wf(),
            final(ctx).bytes() == old(ctx).bytes(),
            final(ctx).measure() <= old(ctx).measure(),
            r is ToContinue || r is ToPauseForNewLine ==> final(ctx).measure() < old(ctx).measure(),
            r matches InternalResult::ToChangeStepStateAndContinue(s) ==> (final(ctx).measure() < old(ctx).measure() || s is Initial)
                && step_state_within(s, final(ctx).bytes().len()),
            r matches InternalResult::ToYield(ev) ==> is_content_event(ev) && ev.spec_to_event().ranges_within(final(ctx).bytes().len()),
            r is Done ==> final(ctx).measure() < old(ctx).measure() || final(ctx).measure() == 0,
            (final(ctx).view(), r) == after_line_feed_step(*self, old(ctx).view()),
    {
        let peeked = match ctx.peek_1() {
            Some(m) => m,
            None => {
                return InternalResult::Done;
            },
        };
        match peeked {
            Mapped::CharAt(_) | Mapped::NextChar => {
                let c = ctx.peek_next_char();
                let condition = match self.end_conditions.after_repetitive_characters {
                    Some(cond) => {
                        if cond.at_line_beginning && c == Some(cond.character) {
                            cond
                        } else {
                            return self.continue_line(ctx);
                        }
                    },
                    None => {
                        return self.continue_line(ctx);
                    },
                };
                ctx.next();
                let start = match ctx.cursor_value() {
                    Some(i) => i,
                    None => {
                        return InternalResult::ToContinue;
                    },
                };
                let dropped = ctx.drop_while_char(condition.character);
                if condition.minimal_count <= 1 || dropped >= condition.minimal_count - 1 {
                    InternalResult::Done
                } else {
                    // A run too short to close: it is content.
                    InternalResult::ToChangeStepStateAndContinue(
                        StepState::Normal(extend_to_cursor(Range::new(start, 1), ctx)),
                    )
                }
            },
            Mapped::LineFeed | Mapped::BlankLine { .. } => {
                if self.end_conditions.before_blank_line {
                    ctx.next();
                    InternalResult::Done
                } else {
                    self.continue_line(ctx)
                }
            },
            Mapped::BlankAtLineBeginning(blank) => {
                ctx.next();
                match self.mode {
                    Mode::Inline => InternalResult::ToContinue,
                    Mode::Verbatim => InternalResult::ToYield(BlockEvent::Text(blank)),
                }
            },
            Mapped::Text(_) => self.continue_line(ctx),
        }
    }

    /// The content goes on after a newline: the newline itself is content,
    /// but for the first line of the content.
    fn continue_line(&self, ctx: &Context) -> (r: InternalResult)
        ensures
            r matches InternalResult::ToChangeStepStateAndContinue(s) ==> s is Initial,
            r is ToYield || r is ToChangeStepStateAndContinue,
            r matches InternalResult::ToYield(ev) ==> ev is NewLine,
            r == continue_line_result(*self, ctx.view()),
    {
        if self.is_at_first_line {
            InternalResult::ToChangeStepStateAndContinue(StepState::Initial)
        } else {
            InternalResult::ToYield(BlockEvent::NewLine(NewLine { line_number_after: ctx.current_line() }))
        }
    }

    /// The parser goes on at the next line.
    pub fn resume_from_pause_for_new_line_and_continue(&mut self)
        ensures
            final(self).spec_next_initial_step_state() == StepState::IsAfterLineFeed,
            final(self).rest_rank() == 2,
            *final(self) == (Parser { next_initial_step_state: StepState::IsAfterLineFeed, ..*old(self) }),
    {
        self.next_initial_step_state = StepState::IsAfterLineFeed;
    }

    fn make_content_event(&self, content: Range) -> (r: BlockEvent)
        ensures
            r == (match self.mode {
                Mode::Inline => BlockEvent::Unparsed(content),
                Mode::Verbatim => BlockEvent::Text(content),
            }),
            r == content_event(self.mode, content),
    {
        match self.mode {
            Mode::Inline => BlockEvent::Unparsed(content),
            Mode::Verbatim => BlockEvent::Text(content),
        }
    }
}

} // verus!
