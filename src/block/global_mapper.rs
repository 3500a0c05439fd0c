use vstd::prelude::*;

use crate::common::{Range, SPACE};
use crate::events::GlobalEvent;
use crate::global;
use crate::global::{lemma_lex_step_advances, lex_step, line_breaks};

verus! {

/// The primitives that the block stage reads.
#[derive(Debug, Clone, Copy, PartialEq, Eq, Structural)]
pub enum Mapped {
    /// The significant byte at this index.
    CharAt(usize),
    /// The byte just after the previous significant one.
    NextChar,
    /// A newline that ends a line with content.
    LineFeed,
    /// A line with nothing but spaces, its newline included.
    BlankLine { spaces: usize },
    /// The spaces at the beginning of a line with content.
    BlankAtLineBeginning(Range),
    /// Text from a verbatim escape.
    Text(Range),
}

/// Every range and index that the primitive carries lies inside a buffer
/// of `len` bytes.
pub open spec fn mapped_within(m: Mapped, len: nat) -> bool {
    match m {
        Mapped::CharAt(i) => i < len,
        Mapped::BlankAtLineBeginning(r) => r.within(len),
        Mapped::Text(r) => r.within(len),
        _ => true,
    }
}

/// The body of a verbatim escape without one leading and one trailing space:
/// the leading one goes when the body has at least two bytes and starts with
/// a space; then the trailing one goes when the body had at least two bytes
/// and what is left ends with a space.
pub open spec fn trimmed_verbatim(input: Seq<u8>, body: Range) -> Range {
    if body.length >= 2 {
        let lead: nat = if input[body.start as int] == SPACE { 1 } else { 0 };
        let start = body.start + lead;
        let length = body.length - lead;
        if input[start + length - 1] == SPACE {
            Range { start: start as usize, length: (length - 1) as usize }
        } else {
            Range { start: start as usize, length: length as usize }
        }
    } else {
        body
    }
}

/// Trims one leading and one trailing space off the body of a verbatim escape.
pub fn trim_verbatim(input: &[u8], body: Range) -> (r: Range)
    requires
        body.within(input@.len()),
    ensures
        r == trimmed_verbatim(input@, body),
        r.within(input@.len()),
{
    let (mut start, mut length) = (body.start, body.length);
    if length >= 2 {
        if input[start] == SPACE {
            start += 1;
            length -= 1;
        }
        if input[start + length - 1] == SPACE {
            length -= 1;
        }
    }
    Range::new(start, length)
}

/// The trimmed body of a verbatim escape is the body less at most one
/// leading and at most one trailing byte, and each byte dropped is a space.
pub proof fn lemma_trimmed_verbatim_drops_only_spaces(input: Seq<u8>, body: Range)
    requires
        body.within(input.len()),
        input.len() <= usize::MAX,
    ensures
        ({
            let t = trimmed_verbatim(input, body);
            &&& body.start <= t.start <= body.start + 1
            &&& t.start + t.length <= body.start + body.length
            &&& body.start + body.length <= t.start + t.length + 1
            &&& (t.start == body.start + 1 ==> input[body.start as int] == SPACE)
            &&& (t.start + t.length < body.start + body.length
                ==> input[body.start + body.length - 1] == SPACE)
            &&& t.bytes(input) == input.subrange(t.start as int, t.start + t.length)
        }),
{
}

/// What is left of the run of unparsed bytes being read.
#[derive(Debug, Clone, Copy, PartialEq, Eq, Structural)]
pub struct RemainUnparsed {
    pub content: Range,
    pub next_offset: usize,
    /// The next byte starts a new run of significant bytes.
    pub is_to_start: bool,
}

/// A model of the mapper's state.
pub struct MapperView {
    /// Where the global stage goes on reading.
    pub pos: int,
    /// The number of the line at `pos`.
    pub line: int,
    pub deferred: Option<Mapped>,
    pub remain: Option<RemainUnparsed>,
    /// The spaces counted at the beginning of the current line, while only
    /// spaces have been seen there.
    pub spaces: Option<usize>,
    /// Where those spaces begin.
    pub spaces_start: usize,
}

pub open spec fn view_wf(input: Seq<u8>, st: MapperView) -> bool {
    &&& 0 <= st.pos <= input.len()
    &&& input.len() <= usize::MAX
    &&& (st.remain matches Some(rem) ==> rem.next_offset <= rem.content.length && rem.content.start + rem.content.length == st.pos)
}

pub open spec fn view_measure(input: Seq<u8>, st: MapperView) -> nat {
    4 * (input.len() - st.pos) as nat
        + (match st.remain {
            Some(rem) => 2 * (rem.content.length - rem.next_offset) as nat + 1,
            None => 0nat,
        })
        + (if st.deferred is Some { 1nat } else { 0nat })
        + (if st.spaces is Some { 1nat } else { 0nat })
}

/// Hands out the byte at the read position of `rem` as a significant byte.
pub open spec fn emit_char(st: MapperView, rem: RemainUnparsed) -> (MapperView, Option<Mapped>) {
    let index = (rem.content.start + rem.next_offset) as usize;
    let next = RemainUnparsed { next_offset: (rem.next_offset + 1) as usize, is_to_start: false, ..rem };
    if rem.is_to_start {
        (MapperView { remain: Some(next), ..st }, Some(Mapped::CharAt(index)))
    } else {
        (MapperView { remain: Some(next), ..st }, Some(Mapped::NextChar))
    }
}

/// The pending spaces at the beginning of a line, as a primitive.
pub open spec fn pending_blank(st: MapperView) -> Option<Mapped> {
    match st.spaces {
        Some(n) => if n > 0 {
            Some(Mapped::BlankAtLineBeginning(Range { start: st.spaces_start, length: n }))
        } else {
            None
        },
        None => None,
    }
}

/// The next primitive when nothing is deferred, and the state after it.
pub open spec fn map_loop(input: Seq<u8>, st: MapperView) -> (MapperView, Option<Mapped>)
    decreases view_measure(input, st),
    when view_wf(input, st)
{
    match st.remain {
        Some(rem) => {
            if rem.next_offset >= rem.content.length {
                map_loop(input, MapperView { remain: None, ..st })
            } else {
                let index = rem.content.start + rem.next_offset;
                match st.spaces {
                    Some(n) => {
                        if input[index] == SPACE {
                            map_loop(
                                input,
                                MapperView {
                                    remain: Some(RemainUnparsed { next_offset: (rem.next_offset + 1) as usize, ..rem }),
                                    spaces: Some((n + 1) as usize),
                                    spaces_start: if n == 0 { index as usize } else { st.spaces_start },
                                    ..st
                                },
                            )
                        } else if n > 0 {
                            (MapperView { spaces: None, ..st }, pending_blank(st))
                        } else {
                            emit_char(MapperView { spaces: None, ..st }, rem)
                        }
                    },
                    None => emit_char(st, rem),
                }
            }
        },
        None => {
            let (ev, p) = lex_step(input, st.pos, st.line);
            let st = MapperView { line: st.line + line_breaks(input, st.pos, p), ..st };
            match ev {
                None => (MapperView { pos: p, spaces: None, ..st }, pending_blank(st)),
                Some(GlobalEvent::Unparsed(rg)) => {
                    proof {
                        lemma_lex_step_advances(input, st.pos);
                    }
                    map_loop(
                        input,
                        MapperView { pos: p, remain: Some(RemainUnparsed { content: rg, next_offset: 0, is_to_start: true }), ..st },
                    )
                },
                Some(GlobalEvent::NewLine(_)) => (
                    MapperView { pos: p, spaces: Some(0), spaces_start: 0, ..st },
                    Some(
                        match st.spaces {
                            Some(n) => Mapped::BlankLine { spaces: n },
                            None => Mapped::LineFeed,
                        },
                    ),
                ),
                Some(GlobalEvent::VerbatimEscaping(v)) => {
                    let text = Mapped::Text(trimmed_verbatim(input, v.content));
                    if pending_blank(st) is Some {
                        (MapperView { pos: p, spaces: None, deferred: Some(text), ..st }, pending_blank(st))
                    } else {
                        (MapperView { pos: p, spaces: None, ..st }, Some(text))
                    }
                },
            }
        },
    }
}

/// The next primitive and the state after it.
pub open spec fn map_next(input: Seq<u8>, st: MapperView) -> (MapperView, Option<Mapped>) {
    if st.deferred is Some {
        (MapperView { deferred: None, ..st }, st.deferred)
    } else {
        map_loop(input, st)
    }
}

/// Turns the global event stream into the primitives of the block stage.
pub struct GlobalEventStreamMapper<'a> {
    input: &'a [u8],
    stream: global::Parser<'a>,
    deferred: Option<Mapped>,
    remain: Option<RemainUnparsed>,
    spaces_at_line_beginning: Option<usize>,
    spaces_start: usize,
}

impl<'a> GlobalEventStreamMapper<'a> {
    pub closed spec fn input(&self) -> Seq<u8> {
        self.input@
    }

    pub closed spec fn view(&self) -> MapperView {
        MapperView {
            pos: self.stream.pos() as int,
            line: self.stream.line() as int,
            deferred: self.deferred,
            remain: self.remain,
            spaces: self.spaces_at_line_beginning,
            spaces_start: self.spaces_start,
        }
    }

    /// The bytes the mapper has consumed.
    closed spec fn consumed(&self) -> nat {
        match self.remain {
            Some(rem) => (rem.content.start + rem.next_offset) as nat,
            None => self.stream.pos(),
        }
    }

    pub closed spec fn wf(&self) -> bool {
        &&& self.stream.wf()
        &&& self.input@.len() <= usize::MAX
        &&& view_wf(self.input@, self.view())
        &&& self.stream.input() == self.input@
        &&& (self.remain matches Some(rem) ==> {
            &&& rem.next_offset <= rem.content.length
            &&& rem.content.start + rem.content.length == self.stream.pos()
        })
        &&& (self.deferred matches Some(d) ==> mapped_within(d, self.input@.len()))
        &&& (self.spaces_at_line_beginning matches Some(n) ==> self.spaces_start + n <= self.consumed())
    }

    /// A measure of the work left; every primitive produced lowers it.
    pub closed spec fn measure(&self) -> nat {
        4 * (self.input@.len() - self.stream.pos()) as nat
            + (match self.remain {
                Some(rem) => 2 * (rem.content.length - rem.next_offset) as nat + 1,
                None => 0nat,
            })
            + (if self.deferred is Some { 1nat } else { 0nat })
            + (if self.spaces_at_line_beginning is Some { 1nat } else { 0nat })
    }

    pub fn new(input: &'a [u8], stream: global::Parser<'a>) -> (r: GlobalEventStreamMapper<'a>)
        requires
            stream.wf(),
            stream.input() == input@,
        ensures
            r.wf(),
            r.input() == input@,
            r.view() == (MapperView {
                pos: stream.pos() as int,
                line: stream.line() as int,
                deferred: None,
                remain: None,
                spaces: Some(0),
                spaces_start: 0,
            }),
    {
        let _ = input.len();
        GlobalEventStreamMapper {
            input,
            stream,
            deferred: None,
            remain: None,
            spaces_at_line_beginning: Some(0),
            spaces_start: 0,
        }
    }

    /// The number of the line that the global stage has read up to.
    pub fn line(&self) -> (r: usize)
        requires
            self.wf(),
        ensures
            r == self.view().line,
    {
        self.stream.current_line()
    }

    /// Produces the next primitive, or `None` once the input is used up:
    /// exactly what `map_next` gives from the current state.
    pub fn next(&mut self) -> (r: Option<Mapped>)
        requires
            old(self).wf(),
        ensures
            final(self).wf(),
            final(self).input() == old(self).input(),
            r is Some ==> final(self).measure() < old(self).measure(),
            r is Some ==> mapped_within(r.unwrap(), old(self).input().len()),
            r is None ==> final(self).measure() == 0,
            (final(self).view(), r) == map_next(old(self).input(), old(self).view()),
    {
        if self.deferred.is_some() {
            let d = self.deferred;
            self.deferred = None;
            return d;
        }
        let len = self.input.len();
        loop
            invariant
                self.wf(),
                self.deferred is None,
                old(self).deferred is None,
                old(self).wf(),
                len == self.input@.len(),
                self.input() == old(self).input(),
                self.measure() <= old(self).measure(),
                map_loop(self.input@, self.view()) == map_loop(self.input@, old(self).view()),
            decreases self.measure(),
        {
            match self.remain {
                Some(rem) => {
                    if rem.next_offset == rem.content.length {
                        self.remain = None;
                        continue;
                    }
                    let index = rem.content.start + rem.next_offset;
                    let char = self.input[index];
                    match self.spaces_at_line_beginning {
                        Some(spaces) => {
                            if char == SPACE {
                                if spaces == 0 {
                                    self.spaces_start = index;
                                }
                                self.remain = Some(RemainUnparsed { next_offset: rem.next_offset + 1, ..rem });
                                self.spaces_at_line_beginning = Some(spaces + 1);
                                continue;
                            }
                            self.spaces_at_line_beginning = None;
                            if spaces > 0 {
                                return Some(Mapped::BlankAtLineBeginning(Range::new(self.spaces_start, spaces)));
                            }
                        },
                        None => {},
                    }
                    if rem.is_to_start {
                        self.remain = Some(RemainUnparsed { next_offset: rem.next_offset + 1, is_to_start: false, ..rem });
                        return Some(Mapped::CharAt(index));
                    } else {
                        self.remain = Some(RemainUnparsed { next_offset: rem.next_offset + 1, ..rem });
                        return Some(Mapped::NextChar);
                    }
                },
                None => {},
            }

            let next = self.stream.next();
            match next {
                None => {
                    let spaces = self.spaces_at_line_beginning;
                    self.spaces_at_line_beginning = None;
                    match spaces {
                        Some(n) => {
                            if n > 0 {
                                return Some(Mapped::BlankAtLineBeginning(Range::new(self.spaces_start, n)));
                            }
                        },
                        None => {},
                    }
                    return None;
                },
                Some(GlobalEvent::Unparsed(content)) => {
                    self.remain = Some(RemainUnparsed { content, next_offset: 0, is_to_start: true });
                },
                Some(GlobalEvent::NewLine(_)) => {
                    let spaces = self.spaces_at_line_beginning;
                    self.spaces_at_line_beginning = Some(0);
                    self.spaces_start = 0;
                    match spaces {
                        Some(n) => {
                            return Some(Mapped::BlankLine { spaces: n });
                        },
                        None => {
                            return Some(Mapped::LineFeed);
                        },
                    }
                },
                Some(GlobalEvent::VerbatimEscaping(v)) => {
                    let text = Mapped::Text(trim_verbatim(self.input, v.content));
                    let spaces = self.spaces_at_line_beginning;
                    self.spaces_at_line_beginning = None;
                    match spaces {
                        Some(n) => {
                            if n > 0 {
                                self.deferred = Some(text);
                                return Some(Mapped::BlankAtLineBeginning(Range::new(self.spaces_start, n)));
                            }
                        },
                        None => {},
                    }
                    return Some(text);
                },
            }
        }
    }
}

} // verus!
