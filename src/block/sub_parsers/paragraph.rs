use vstd::prelude::*;

use crate::block::context::{Context, CtxView};
use crate::block::sub_parsers::content;
use crate::block::sub_parsers::{exit_of, step_keeps_bracketing, SubParserResult};
use crate::common::Range;
use crate::events::{BlockEvent, BlockID, BlockWithID, ExitBlock};

verus! {

#[derive(Clone, Copy)]
pub enum State {
    /// Nothing yielded yet; the range, if any, is content already consumed.
    Initial(Option<Range>),
    Content(content::Parser),
    Exiting,
    Exited,
    Paused(content::Parser),
    ToExit,
}

/// The sub-parser of a paragraph: `EnterParagraph`, its content, `ExitBlock`.
#[derive(Clone, Copy)]
pub struct Parser {
    pub id: BlockID,
    pub start_line: usize,
    pub state: State,
}

/// One call of `next`: the parser after it, the context after it, and the
/// result, within `fuel` steps of the content parser.
pub open spec fn spec_next(p: Parser, c: CtxView, fuel: nat) -> Option<(Parser, CtxView, SubParserResult)> {
    match p.state {
        State::Initial(before) => Some((
            Parser { state: State::Content(content::Parser {
                mode: content::Mode::Inline,
                end_conditions: content::EndConditions { before_new_line: false, before_blank_line: true, after_repetitive_characters: None },
                next_initial_step_state: match before {
                    Some(r) => content::StepState::Normal(r),
                    None => content::StepState::Initial,
                },
                is_at_first_line: true,
            }), ..p },
            c,
            SubParserResult::ToYield(BlockEvent::EnterParagraph(BlockWithID { id: p.id })),
        )),
        State::Content(cp) => match content::content_next(cp, c, fuel) {
            None => None,
            Some((cp2, c2, SubParserResult::ToYield(ev))) => Some((Parser { state: State::Content(cp2), ..p }, c2, SubParserResult::ToYield(ev))),
            Some((cp2, c2, SubParserResult::ToPauseForNewLine)) => Some((Parser { state: State::Paused(cp2), ..p }, c2, SubParserResult::ToPauseForNewLine)),
            Some((_, c2, SubParserResult::Done)) => Some((
                Parser { state: State::Exiting, ..p },
                c2,
                SubParserResult::ToYield(BlockEvent::ExitBlock(exit_of(p.id, p.start_line, c2))),
            )),
        },
        State::Exiting => Some((Parser { state: State::Exited, ..p }, c, SubParserResult::Done)),
        State::ToExit => Some((Parser { state: State::Exiting, ..p }, c, SubParserResult::ToYield(BlockEvent::ExitBlock(exit_of(p.id, p.start_line, c))))),
        State::Exited | State::Paused(_) => Some((p, c, SubParserResult::Done)),
    }
}

/// The parser after `resume_from_pause_for_new_line_and_continue`.
pub open spec fn spec_resume_continue(p: Parser) -> Parser {
    match p.state {
        State::Paused(cp) => Parser {
            state: State::Content(content::Parser { next_initial_step_state: content::StepState::IsAfterLineFeed, ..cp }),
            ..p
        },
        _ => p,
    }
}

/// The parser after `resume_from_pause_for_new_line_and_exit`: it yields
/// `ExitBlock` and then `Done`.
pub open spec fn spec_resume_exit(p: Parser) -> Parser {
    Parser { state: State::ToExit, ..p }
}

/// More fuel does not change a result that was reached.
pub proof fn lemma_spec_next_fuel(p: Parser, c: CtxView, f1: nat, f2: nat)
    requires
        f1 <= f2,
        spec_next(p, c, f1) is Some,
    ensures
        spec_next(p, c, f2) == spec_next(p, c, f1),
{
    match p.state {
        State::Content(cp) => {
            content::lemma_content_loop_fuel(
                content::Parser { next_initial_step_state: content::StepState::Initial, ..cp },
                c, cp.next_initial_step_state, f1, f2);
        },
        _ => {},
    }
}

impl Parser {
    pub closed spec fn wf(&self, len: nat) -> bool {
        match self.state {
            State::Initial(Some(r)) => r.within(len),
State::Content(p) => p.wf(len) && 1 <= p.rest_rank() <= 3,
            State::Paused(p) => p.wf(len),
            _ => true,
        }
    }

    /// `EnterParagraph` has been yielded and `ExitBlock` not yet.
    pub closed spec fn is_open(&self) -> bool {
        self.state is Content || self.state is Paused || self.state is ToExit
    }

    /// Ranks the states by how much may still be yielded without consuming
    /// input; the order differs once the input is used up.
    pub closed spec fn rank(&self, at_end: bool) -> nat {
        match self.state {
            State::Initial(_) => if at_end { 30 } else { 20 },
            State::Content(p) => 10 + p.rest_rank(),
            State::Paused(_) => 40,
            State::ToExit => if at_end { 5 } else { 35 },
            State::Exiting => if at_end { 3 } else { 30 },
            State::Exited => 0,
        }
    }

    /// The identifier of the block.
    pub closed spec fn id(&self) -> usize {
        self.id.value
    }

    /// Nothing has been yielded yet.
    pub closed spec fn is_fresh(&self) -> bool {
        self.state is Initial
    }

    pub closed spec fn is_paused(&self) -> bool {
        self.state is Paused
    }

    pub closed spec fn is_exiting(&self) -> bool {
        self.state is Exiting
    }

    pub closed spec fn is_exited(&self) -> bool {
        self.state is Exited
    }

    /// The content in `content_before` is taken as text as it is.
    pub fn new(content_before: Option<Range>, id: BlockID, start_line: usize) -> (r: Self)
        ensures
            content_before matches Some(c) ==> (forall|len: nat| c.within(len) ==> r.wf(len)),
            content_before is None ==> (forall|len: nat| r.wf(len)),
            !r.is_open(),
            r.is_fresh(),
            r.id() == id.value,
            r.rank(false) == 20,
            r.rank(true) == 30,
            !r.is_paused(),
            !r.is_exiting(),
            !r.is_exited(),
            r == (Parser { id, start_line, state: State::Initial(content_before) }),
    {
        Parser { id, start_line, state: State::Initial(content_before) }
    }

    /// The event that closes the block: its first line, and the line of the
    /// last content consumed.
    fn exit_event(&self, ctx: &Context) -> (r: ExitBlock)
        ensures
            r.id == self.id,
            r.start_line_number <= r.end_line_number,
            r == exit_of(self.id, self.start_line, ctx.view()),
    {
        let end = ctx.last_content_line();
        ExitBlock {
            id: self.id,
            start_line_number: self.start_line,
            end_line_number: if end < self.start_line {
                self.start_line
            } else {
                end
            },
        }
    }

    pub fn next(&mut self, ctx: &mut Context) -> (r: SubParserResult)
        requires
            old(ctx).wf(),
            old(self).wf(old(ctx).bytes().len()),
            !old(self).is_paused(),
            !old(self).is_exited(),
        ensures
            final(ctx).wf(),
            final(ctx).bytes() == old(ctx).bytes(),
            final(self).wf(final(ctx).bytes().len()),
            final(ctx).measure() <= old(ctx).measure(),
            step_keeps_bracketing(r, old(self).is_open(), final(self).is_open(), final(ctx).bytes().len()),
            r is ToPauseForNewLine <==> final(self).is_paused(),
            r is ToPauseForNewLine ==> final(ctx).measure() < old(ctx).measure(),
            r is Done ==> old(self).is_exiting() && final(self).is_exited(),
            r matches SubParserResult::ToYield(ev) ==> (ev is ExitBlock <==> final(self).is_exiting()),
            !final(self).is_exited() || r is Done,
            final(self).is_exiting() ==> r is ToYield,
            final(ctx).measure() < old(ctx).measure() || final(self).rank(final(ctx).measure() == 0) < old(self).rank(old(ctx).measure() == 0),
            old(self).is_exiting() ==> old(self).rank(false) == 30 && old(self).rank(true) == 3,
            final(self).id() == old(self).id(),
            r matches SubParserResult::ToYield(ev) ==> ((ev.is_enter() || ev is ExitBlock) ==> ev.spec_block_id() == Some(old(self).id())),
            r matches SubParserResult::ToYield(ev) ==> (ev.is_enter() <==> old(self).is_fresh()) && !(ev is ThematicBreak),
            old(self).is_fresh() ==> r is ToYield,
            !final(self).is_fresh(),
            r matches SubParserResult::ToYield(ev) ==> ev.lines_in_order(),
            exists|f: nat| spec_next(*old(self), old(ctx).view(), f) == Some((*final(self), final(ctx).view(), r)),
    {
        let ghost c0 = ctx.view();
        let ghost mut w: nat = 0;
        let r = match self.state {
            State::Initial(content_before) => {
                let opts = content::Options {
                    initial_step_state: match content_before {
                        Some(c) => content::StepState::Normal(c),
                        None => content::StepState::Initial,
                    },
                    mode: content::Mode::Inline,
                    end_conditions: content::EndConditions {
                        before_new_line: false,
                        before_blank_line: true,
                        after_repetitive_characters: None,
                    },
                };
                self.state = State::Content(content::Parser::new(opts));
                SubParserResult::ToYield(BlockEvent::EnterParagraph(BlockWithID { id: self.id }))
            },
            State::Content(p) => {
                let mut p = p;
                let ghost p0 = p;
                let res = p.next(ctx);
                proof {
                    w = choose|f: nat| content::content_next(p0, c0, f) == Some((p, ctx.view(), res));
                }
                match res {
                    SubParserResult::ToYield(ev) => {
                        self.state = State::Content(p);
                        SubParserResult::ToYield(ev)
                    },
                    SubParserResult::ToPauseForNewLine => {
                        self.state = State::Paused(p);
                        SubParserResult::ToPauseForNewLine
                    },
                    SubParserResult::Done => {
                        self.state = State::Exiting;
                        SubParserResult::ToYield(BlockEvent::ExitBlock(self.exit_event(ctx)))
                    },
                }
            },
            State::Exiting => {
                self.state = State::Exited;
                SubParserResult::Done
            },
            State::ToExit => {
                self.state = State::Exiting;
                SubParserResult::ToYield(BlockEvent::ExitBlock(self.exit_event(ctx)))
            },
            State::Exited | State::Paused(_) => {
                SubParserResult::Done
            },
        };
        proof {
            assert(spec_next(*old(self), c0, w) == Some((*self, ctx.view(), r)));
        }
        r
    }

    /// The next line belongs to the paragraph.
    pub fn resume_from_pause_for_new_line_and_continue(&mut self)
        requires
            old(self).is_paused(),
        ensures
            forall|len: nat| old(self).wf(len) ==> final(self).wf(len),
            final(self).is_open(),
            !final(self).is_paused(),
            !final(self).is_exiting(),
            !final(self).is_exited(),
            final(self).rank(false) < 40,
            final(self).rank(true) < 40,
            final(self).id() == old(self).id(),
            !final(self).is_fresh(),
            *final(self) == spec_resume_continue(*old(self)),
    {
        match self.state {
            State::Paused(p) => {
                let mut p = p;
                p.resume_from_pause_for_new_line_and_continue();
                self.state = State::Content(p);
            },
            _ => {},
        }
    }

    /// The paragraph ends at the pending newline.
    pub fn resume_from_pause_for_new_line_and_exit(&mut self)
        requires
            old(self).is_paused(),
        ensures
            forall|len: nat| final(self).wf(len),
            final(self).is_open(),
            !final(self).is_paused(),
            !final(self).is_exiting(),
            !final(self).is_exited(),
            final(self).rank(false) < 40,
            final(self).rank(true) < 40,
            final(self).id() == old(self).id(),
            !final(self).is_fresh(),
            *final(self) == spec_resume_exit(*old(self)),
    {
        self.state = State::ToExit;
    }
}

} // verus!
