use vstd::prelude::*;

pub mod code_block;
pub mod content;
pub mod heading;
pub mod paragraph;

use crate::block::context::{Context, CtxView};
use crate::events::{BlockEvent, BlockID, ExitBlock};

verus! {

/// What one step of a sub-parser comes to.
#[derive(Debug, Clone, Copy, PartialEq, Eq, Structural)]
pub enum SubParserResult {
    /// An event to hand out.
    ToYield(BlockEvent),
    /// A newline was consumed; the caller decides whether the block goes on.
    ToPauseForNewLine,
    /// The sub-parser has nothing more to give.
    Done,
}

/// An event that belongs to the body of a block: its text, not its frame.
pub open spec fn is_content_event(ev: BlockEvent) -> bool {
    ev is Unparsed || ev is Text || ev is NewLine
}

/// The sub-parser of the block being parsed.
#[derive(Clone, Copy)]
pub enum SubParser {
    Paragraph(paragraph::Parser),
    Heading(heading::Parser),
    CodeBlock(code_block::Parser),
}

impl SubParser {
    pub open spec fn wf(&self, len: nat) -> bool {
        match *self {
            SubParser::Paragraph(p) => p.wf(len),
            SubParser::Heading(p) => p.wf(len),
            SubParser::CodeBlock(p) => p.wf(len),
        }
    }

    pub open spec fn is_open(&self) -> bool {
        match *self {
            SubParser::Paragraph(p) => p.is_open(),
            SubParser::Heading(p) => p.is_open(),
            SubParser::CodeBlock(p) => p.is_open(),
        }
    }

    pub open spec fn is_paused(&self) -> bool {
        match *self {
            SubParser::Paragraph(p) => p.is_paused(),
            SubParser::Heading(p) => p.is_paused(),
            SubParser::CodeBlock(p) => p.is_paused(),
        }
    }

    pub open spec fn is_exiting(&self) -> bool {
        match *self {
            SubParser::Paragraph(p) => p.is_exiting(),
            SubParser::Heading(p) => p.is_exiting(),
            SubParser::CodeBlock(p) => p.is_exiting(),
        }
    }

    pub open spec fn is_exited(&self) -> bool {
        match *self {
            SubParser::Paragraph(p) => p.is_exited(),
            SubParser::Heading(p) => p.is_exited(),
            SubParser::CodeBlock(p) => p.is_exited(),
        }
    }

    pub open spec fn is_fresh(&self) -> bool {
        match *self {
            SubParser::Paragraph(p) => p.is_fresh(),
            SubParser::Heading(p) => p.is_fresh(),
            SubParser::CodeBlock(p) => p.is_fresh(),
        }
    }

    pub open spec fn id(&self) -> usize {
        match *self {
            SubParser::Paragraph(p) => p.id(),
            SubParser::Heading(p) => p.id(),
            SubParser::CodeBlock(p) => p.id(),
        }
    }

    pub open spec fn rank(&self, at_end: bool) -> nat {
        match *self {
            SubParser::Paragraph(p) => p.rank(at_end),
            SubParser::Heading(p) => p.rank(at_end),
            SubParser::CodeBlock(p) => p.rank(at_end),
        }
    }

    pub fn next(&mut self, ctx: &mut Context) -> (r: SubParserResult)
        requires
            old(ctx).wf(),
            old(self).wf(old(ctx).bytes().len()),
            !old(self).is_paused(),
            !old(self).is_exited(),
        ensures
            final(ctx).wf(),
            final(ctx).bytes() == old(ctx).bytes(),
            final(self).wf(final(ctx).bytes().len()),
            final(ctx).measure() <= old(ctx).measure(),
            step_keeps_bracketing(r, old(self).is_open(), final(self).is_open(), final(ctx).bytes().len()),
            r is ToPauseForNewLine <==> final(self).is_paused(),
            r is ToPauseForNewLine ==> final(ctx).measure() < old(ctx).measure(),
            r is Done ==> old(self).is_exiting() && final(self).is_exited(),
            !final(self).is_exited() || r is Done,
            final(ctx).measure() < old(ctx).measure() || final(self).rank(final(ctx).measure() == 0) < old(self).rank(old(ctx).measure() == 0),
            old(self).is_exiting() ==> old(self).rank(false) == 30 && old(self).rank(true) == 3,
            final(self).id() == old(self).id(),
            r matches SubParserResult::ToYield(ev) ==> ((ev.is_enter() || ev is ExitBlock) ==> ev.spec_block_id() == Some(old(self).id())),
            r matches SubParserResult::ToYield(ev) ==> (ev.is_enter() <==> old(self).is_fresh()) && !(ev is ThematicBreak),
            old(self).is_fresh() ==> r is ToYield,
            !final(self).is_fresh(),
            r matches SubParserResult::ToYield(ev) ==> ev.lines_in_order(),
            exists|f: nat| sub_next(*old(self), old(ctx).view(), f) == Some((*final(self), final(ctx).view(), r)),
    {
        let ghost c0 = ctx.view();
        match self {
            SubParser::Paragraph(p) => {
                let ghost p0 = *p;
                let r = p.next(ctx);
                proof {
                    let f = choose|f: nat| paragraph::spec_next(p0, c0, f) == Some((*p, ctx.view(), r));
                    assert(sub_next(*old(self), c0, f) == Some((SubParser::Paragraph(*p), ctx.view(), r)));
                }
                r
            },
            SubParser::Heading(p) => {
                let ghost p0 = *p;
                let r = p.next(ctx);
                proof {
                    let f = choose|f: nat| heading::spec_next(p0, c0, f) == Some((*p, ctx.view(), r));
                    assert(sub_next(*old(self), c0, f) == Some((SubParser::Heading(*p), ctx.view(), r)));
                }
                r
            },
            SubParser::CodeBlock(p) => {
                let ghost p0 = *p;
                let r = p.next(ctx);
                proof {
                    let f = choose|f: nat| code_block::spec_next(p0, c0, f) == Some((*p, ctx.view(), r));
                    assert(sub_next(*old(self), c0, f) == Some((SubParser::CodeBlock(*p), ctx.view(), r)));
                }
                r
            },
        }
    }

    pub fn resume_from_pause_for_new_line_and_continue(&mut self)
        requires
            old(self).is_paused(),
        ensures
            forall|len: nat| old(self).wf(len) ==> final(self).wf(len),
            final(self).is_open(),
            !final(self).is_paused(),
            !final(self).is_exiting(),
            !final(self).is_exited(),
            final(self).rank(false) < 40,
            final(self).rank(true) < 40,
            final(self).id() == old(self).id(),
            !final(self).is_fresh(),
            *final(self) == sub_resume_continue(*old(self)),
    {
        match self {
            SubParser::Paragraph(p) => p.resume_from_pause_for_new_line_and_continue(),
            SubParser::Heading(p) => p.resume_from_pause_for_new_line_and_continue(),
            SubParser::CodeBlock(p) => p.resume_from_pause_for_new_line_and_continue(),
        }
    }

    pub fn resume_from_pause_for_new_line_and_exit(&mut self)
        requires
            old(self).is_paused(),
        ensures
            forall|len: nat| final(self).wf(len),
            final(self).is_open(),
            !final(self).is_paused(),
            !final(self).is_exiting(),
            !final(self).is_exited(),
            final(self).rank(false) < 40,
            final(self).rank(true) < 40,
            final(self).id() == old(self).id(),
            !final(self).is_fresh(),
            *final(self) == sub_resume_exit(*old(self)),
    {
        match self {
            SubParser::Paragraph(p) => p.resume_from_pause_for_new_line_and_exit(),
            SubParser::Heading(p) => p.resume_from_pause_for_new_line_and_exit(),
            SubParser::CodeBlock(p) => p.resume_from_pause_for_new_line_and_exit(),
        }
    }
}

/// One call of `next` on the sub-parser, within `fuel` steps.
pub open spec fn sub_next(s: SubParser, c: CtxView, fuel: nat) -> Option<(SubParser, CtxView, SubParserResult)> {
    match s {
        SubParser::Paragraph(p) => match paragraph::spec_next(p, c, fuel) {
            Some((p2, c2, r)) => Some((SubParser::Paragraph(p2), c2, r)),
            None => None,
        },
        SubParser::Heading(p) => match heading::spec_next(p, c, fuel) {
            Some((p2, c2, r)) => Some((SubParser::Heading(p2), c2, r)),
            None => None,
        },
        SubParser::CodeBlock(p) => match code_block::spec_next(p, c, fuel) {
            Some((p2, c2, r)) => Some((SubParser::CodeBlock(p2), c2, r)),
            None => None,
        },
    }
}

pub open spec fn sub_resume_continue(s: SubParser) -> SubParser {
    match s {
        SubParser::Paragraph(p) => SubParser::Paragraph(paragraph::spec_resume_continue(p)),
        SubParser::Heading(p) => SubParser::Heading(heading::spec_resume_continue(p)),
        SubParser::CodeBlock(p) => SubParser::CodeBlock(code_block::spec_resume_continue(p)),
    }
}

pub open spec fn sub_resume_exit(s: SubParser) -> SubParser {
    match s {
        SubParser::Paragraph(p) => SubParser::Paragraph(paragraph::spec_resume_exit(p)),
        SubParser::Heading(p) => SubParser::Heading(heading::spec_resume_exit(p)),
        SubParser::CodeBlock(p) => SubParser::CodeBlock(code_block::spec_resume_exit(p)),
    }
}

/// More fuel does not change a result that was reached.
pub proof fn lemma_sub_next_fuel(s: SubParser, c: CtxView, f1: nat, f2: nat)
    requires
        f1 <= f2,
        sub_next(s, c, f1) is Some,
    ensures
        sub_next(s, c, f2) == sub_next(s, c, f1),
{
    match s {
        SubParser::Paragraph(p) => paragraph::lemma_spec_next_fuel(p, c, f1, f2),
        SubParser::Heading(p) => heading::lemma_spec_next_fuel(p, c, f1, f2),
        SubParser::CodeBlock(p) => code_block::lemma_spec_next_fuel(p, c, f1, f2),
    }
}

/// The event that closes a block opened with `id` on `start_line`, when the
/// last content consumed stands on the context's content line.
pub open spec fn exit_of(id: BlockID, start_line: usize, c: CtxView) -> ExitBlock {
    ExitBlock {
        id,
        start_line_number: start_line,
        end_line_number: if c.content_line < start_line { start_line } else { c.content_line },
    }
}

/// How one step of a sub-parser relates the event it yields to whether
/// its block is open before and after the step.
pub open spec fn step_keeps_bracketing(r: SubParserResult, was_open: bool, now_open: bool, len: nat) -> bool {
    match r {
        SubParserResult::ToYield(ev) => {
            &&& ev.spec_to_event().ranges_within(len)
            &&& (if ev.is_enter() {
                !was_open && now_open
            } else if ev is ExitBlock {
                was_open && !now_open
            } else {
                was_open == now_open
            })
        },
        SubParserResult::ToPauseForNewLine => was_open && now_open,
        SubParserResult::Done => !was_open && !now_open,
    }
}

} // verus!
