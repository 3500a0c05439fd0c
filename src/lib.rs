use vstd::prelude::*;

pub mod block;
pub mod common;
pub mod data_exchange;
pub mod events;
pub mod global;
pub mod render;
pub mod utils;

use crate::block::{block_events, lemma_block_events, nth_block_id, opens_block, run_events, start_view, StackEntry};
use crate::events::BlockEvent;
use crate::render::{render_events, render_to_html, utf8_lossy, utf8_lossy_of};
use crate::utils::stack::{Stack, VecStack};

verus! {

/// The structural errors that end an event stream.
#[derive(Debug, Clone, Copy, PartialEq, Eq, Structural)]
pub enum Error {
    /// A bounded block stack cannot take another nested block.
    OutOfStackSpace,
}

/// How an event changes the number of open blocks.
pub open spec fn depth_delta(ev: BlockEvent) -> int {
    if ev.is_enter() {
        1
    } else if ev is ExitBlock {
        -1
    } else {
        0
    }
}

/// The number of blocks that a sequence of events leaves open.
pub open spec fn depth_of(evs: Seq<BlockEvent>) -> int
    decreases evs.len(),
{
    if evs.len() == 0 {
        0
    } else {
        depth_of(evs.drop_last()) + depth_delta(evs.last())
    }
}

/// No prefix of the events exits more blocks than it entered.
pub open spec fn never_below_zero(evs: Seq<BlockEvent>) -> bool {
    forall|i: int| 0 <= i <= evs.len() ==> depth_of(#[trigger] evs.take(i)) >= 0
}

/// Every `Enter*` is matched by exactly one later `ExitBlock`, and the
/// brackets nest.
pub open spec fn is_well_nested(evs: Seq<BlockEvent>) -> bool {
    never_below_zero(evs) && depth_of(evs) == 0
}

/// The identifiers of the blocks that a sequence of events leaves open,
/// outermost first; `None` when an `ExitBlock` does not close the innermost
/// open block.
pub open spec fn open_ids_after(evs: Seq<BlockEvent>) -> Option<Seq<usize>>
    decreases evs.len(),
{
    if evs.len() == 0 {
        Some(Seq::empty())
    } else {
        match open_ids_after(evs.drop_last()) {
            None => None,
            Some(before) => {
                let ev = evs.last();
                if ev.is_enter() {
                    match ev.spec_block_id() {
                        Some(id) => Some(before.push(id)),
                        None => None,
                    }
                } else if ev is ExitBlock {
                    if before.len() > 0 && ev.spec_block_id() == Some(before.last()) {
                        Some(before.drop_last())
                    } else {
                        None
                    }
                } else {
                    Some(before)
                }
            },
        }
    }
}

/// Each `ExitBlock` names the innermost open block, and no block stays open.
pub open spec fn brackets_match(evs: Seq<BlockEvent>) -> bool {
    open_ids_after(evs) == Some(Seq::<usize>::empty())
}

/// The identifiers of the events that open a block, in order.
pub open spec fn opener_ids(evs: Seq<BlockEvent>) -> Seq<usize>
    decreases evs.len(),
{
    if evs.len() == 0 {
        Seq::empty()
    } else if opens_block(evs.last()) {
        opener_ids(evs.drop_last()).push(evs.last().spec_block_id().unwrap_or(0))
    } else {
        opener_ids(evs.drop_last())
    }
}

/// The blocks are numbered in the order in which they open: 1, 2, 3, ...
pub open spec fn ids_count_up(evs: Seq<BlockEvent>) -> bool {
    forall|k: int| 0 <= k < opener_ids(evs).len() ==> #[trigger] opener_ids(evs)[k] == nth_block_id(k as nat)
}

/// Every range the events carry lies inside a buffer of `len` bytes.
pub open spec fn all_within(evs: Seq<BlockEvent>, len: nat) -> bool {
    forall|i: int| 0 <= i < evs.len() ==> (#[trigger] evs[i]).spec_to_event().ranges_within(len)
}

/// Every `ExitBlock` starts no later than it ends.
pub open spec fn all_lines_in_order(evs: Seq<BlockEvent>) -> bool {
    forall|i: int| 0 <= i < evs.len() ==> (#[trigger] evs[i]).lines_in_order()
}

/// Parses `input` to the end with a block stack of type `TStack`: the
/// events, and the error that cut the stream short, if any. Each `ExitBlock`
/// closes the innermost open block, by its identifier; when there is no
/// error no block stays open, and on an error exactly as many blocks are
/// open as the stack can hold.
#[verifier::rlimit(100)]
#[verifier::spinoff_prover]
pub fn parse_with_stack<TStack: Stack<StackEntry>>(input: &[u8]) -> (r: (Vec<BlockEvent>, Option<Error>))
    requires
        input@.len() < usize::MAX,
    ensures
        all_within(r.0@, input@.len()),
        never_below_zero(r.0@),
        r.1 is None ==> is_well_nested(r.0@) && brackets_match(r.0@),
        open_ids_after(r.0@) is Some,
        ids_count_up(r.0@),
        all_lines_in_order(r.0@),
        r.1 matches Some(e) ==> e == Error::OutOfStackSpace && depth_of(r.0@) == TStack::capacity()
            && open_ids_after(r.0@).unwrap().len() == TStack::capacity(),
        (r.0@, r.1) == block_events(input@, TStack::capacity()),
{
    let global_parser = global::Parser::new(input);
    let mut parser: block::Parser<TStack> = block::Parser::new(input, global_parser);
    let mut events: Vec<BlockEvent> = Vec::new();
    let ghost v0 = parser.view();
    let ghost cap = TStack::capacity();
    let ghost mut used: nat = 0;
    loop
        invariant
            v0 == start_view(input@, 0, 1),
            cap == TStack::capacity(),
            forall|f: nat| #![trigger run_events(parser.view(), cap, f)]
                run_events(parser.view(), cap, f) is Some ==> run_events(v0, cap, f + used) == Some(
                    (events@ + run_events(parser.view(), cap, f).unwrap().0, run_events(parser.view(), cap, f).unwrap().1),
                ),
            parser.wf(),
            parser.input() == input@,
            !parser.has_failed(),
            depth_of(events@) == parser.open_blocks(),
            open_ids_after(events@) == Some(parser.open_ids()),
            opener_ids(events@).len() == parser.blocks_announced(),
            ids_count_up(events@),
            all_lines_in_order(events@),
            never_below_zero(events@),
            all_within(events@, input@.len()),
        decreases parser.progress().0, parser.progress().1, parser.progress().2,
    {
        let ghost before = events@;
        let ghost v_iter = parser.view();
        let step = parser.next();
        let ghost fn_ = choose|f: nat| block::parser_loop(v_iter, cap, f) == Some((parser.view(), step));
        match step {
            Some(Ok(ev)) => {
                events.push(ev);
                proof {
                    assert forall|f: nat| #![trigger run_events(parser.view(), cap, f)]
                        run_events(parser.view(), cap, f) is Some implies run_events(v0, cap, f + (used + fn_ + 1)) == Some(
                            (events@ + run_events(parser.view(), cap, f).unwrap().0, run_events(parser.view(), cap, f).unwrap().1),
                        ) by {
                        let g = f + fn_ + 1;
                        block::lemma_parser_loop_fuel(v_iter, cap, fn_, g);
                        block::lemma_run_events_fuel(parser.view(), cap, f, (g - 1) as nat);
                        let rest = run_events(parser.view(), cap, f).unwrap();
                        assert(run_events(v_iter, cap, g) == Some((seq![ev] + rest.0, rest.1)));
                        assert(run_events(v0, cap, g + used) == Some((before + (seq![ev] + rest.0), rest.1)));
                        assert(before + (seq![ev] + rest.0) =~= events@ + rest.0);
                        assert(f + (used + fn_ + 1) == g + used);
                    }
                    used = used + fn_ + 1;
                    assert(events@.drop_last() =~= before);
                    assert forall|k: int| 0 <= k < opener_ids(events@).len() implies #[trigger] opener_ids(events@)[k] == nth_block_id(k as nat) by {
                        if k < opener_ids(before).len() {
                            assert(opener_ids(before)[k] == nth_block_id(k as nat));
                        }
                    }
                    assert forall|i: int| 0 <= i <= events@.len() implies depth_of(#[trigger] events@.take(i)) >= 0 by {
                        if i < events@.len() {
                            assert(events@.take(i) =~= before.take(i));
                        } else {
                            assert(events@.take(i) =~= events@);
                        }
                    }
                }
            },
            Some(Err(e)) => {
                proof {
                    block::lemma_parser_loop_fuel(v_iter, cap, fn_, fn_ + 1);
                    assert(run_events(v_iter, cap, fn_ + 1) == Some((Seq::<BlockEvent>::empty(), Some(e))));
                    assert(events@ + Seq::<BlockEvent>::empty() =~= events@);
                    lemma_block_events(input@, cap, fn_ + 1 + used);
                }
                return (events, Some(e));
            },
            None => {
                proof {
                    block::lemma_parser_loop_fuel(v_iter, cap, fn_, fn_ + 1);
                    assert(run_events(v_iter, cap, fn_ + 1) == Some((Seq::<BlockEvent>::empty(), None::<Error>)));
                    assert(events@ + Seq::<BlockEvent>::empty() =~= events@);
                    lemma_block_events(input@, cap, fn_ + 1 + used);
                    assert(events@.take(events@.len() as int) =~= events@);
                    assert(parser.open_ids() =~= Seq::<usize>::empty());
                }
                return (events, None);
            },
        }
    }
}

/// Parses `input` to the end with a stack without a bound of its own.
pub fn parse(input: &[u8]) -> (r: (Vec<BlockEvent>, Option<Error>))
    requires
        input@.len() < usize::MAX,
    ensures
        all_within(r.0@, input@.len()),
        never_below_zero(r.0@),
        r.1 is None ==> is_well_nested(r.0@) && brackets_match(r.0@),
        ids_count_up(r.0@),
        r.1 matches Some(e) ==> e == Error::OutOfStackSpace && depth_of(r.0@) == usize::MAX,
        (r.0@, r.1) == block_events(input@, usize::MAX as nat),
{
    parse_with_stack::<VecStack<StackEntry>>(input)
}

/// Parses `input` and renders the block events as HTML.
pub fn parse_and_render_to_html(input: &[u8]) -> (r: String)
    requires
        input@.len() < usize::MAX,
    ensures
        r@ == utf8_lossy_of(render_events(block_events(input@, usize::MAX as nat).0, input@).out),
{
    let (events, _error) = parse(input);
    let html = render_to_html(input, events.as_slice());
    utf8_lossy(html.as_slice())
}

} // verus!
