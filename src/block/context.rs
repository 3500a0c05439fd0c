use vstd::prelude::*;

use crate::block::global_mapper::{map_next, mapped_within, GlobalEventStreamMapper, Mapped, MapperView};
use crate::common::{SPACE, TAB};

verus! {

/// Whether a byte counts as blank at the beginning of a block.
pub open spec fn spec_is_space_char(c: u8) -> bool {
    c == SPACE || c == TAB
}

pub fn is_space_char(c: u8) -> (r: bool)
    ensures
        r == spec_is_space_char(c),
{
    c == SPACE || c == TAB
}

/// A model of the context.
pub struct CtxView {
    pub input: Seq<u8>,
    pub mapper: MapperView,
    pub lookahead: Seq<(Mapped, usize)>,
    pub cursor: Option<usize>,
    pub new_line_seen: bool,
    pub line: usize,
    pub content_line: usize,
}

/// Pulls primitives from the mapper until `n` stand in the look-ahead or the
/// mapper has none left.
pub open spec fn ctx_fill(v: CtxView, n: nat) -> CtxView
    decreases n - v.lookahead.len(),
{
    if v.lookahead.len() >= n {
        v
    } else {
        let (mv, m) = map_next(v.input, v.mapper);
        match m {
            None => CtxView { mapper: mv, ..v },
            Some(x) => ctx_fill(CtxView { mapper: mv, lookahead: v.lookahead.push((x, mv.line as usize)), ..v }, n),
        }
    }
}

/// The `k`-th primitive ahead, without consuming it.
pub open spec fn ctx_peek(v: CtxView, k: nat) -> (CtxView, Option<Mapped>) {
    let w = ctx_fill(v, k + 1);
    (w, if k < w.lookahead.len() { Some(w.lookahead[k as int].0) } else { None })
}

/// The index of the byte that a primitive stands for, given the index of the
/// byte before it.
pub open spec fn resolve_index(m: Mapped, prev: Option<usize>, len: nat) -> Option<usize> {
    match m {
        Mapped::CharAt(i) => Some(i),
        Mapped::NextChar => match prev {
            Some(p) => if p + 1 < len { Some((p + 1) as usize) } else { None },
            None => None,
        },
        _ => None,
    }
}

/// Consumes the next primitive.
pub open spec fn ctx_next(v: CtxView) -> (CtxView, Option<Mapped>) {
    let w = ctx_fill(v, 1);
    if w.lookahead.len() == 0 {
        (w, None)
    } else {
        let (m, line) = w.lookahead[0];
        (
            CtxView {
                lookahead: w.lookahead.subrange(1, w.lookahead.len() as int),
                cursor: match resolve_index(m, w.cursor, w.input.len()) {
                    Some(i) => Some(i),
                    None => w.cursor,
                },
                line,
                new_line_seen: if m is LineFeed || m is BlankLine { true } else { w.new_line_seen },
                content_line: if m is CharAt || m is NextChar || m is Text { line } else { w.content_line },
                ..w
            },
            Some(m),
        )
    }
}

/// The byte that the next primitive stands for, if it is a significant byte.
pub open spec fn ctx_peek_next_char(v: CtxView) -> (CtxView, Option<u8>) {
    let (w, p) = ctx_peek(v, 0);
    match p {
        Some(m) => match resolve_index(m, w.cursor, w.input.len()) {
            Some(i) => (w, Some(w.input[i as int])),
            None => (w, None),
        },
        None => (w, None),
    }
}

/// The bytes that the next three primitives stand for, as far as they are
/// significant bytes in a row.
pub open spec fn ctx_peek_next_three_chars(v: CtxView) -> (CtxView, (Option<u8>, Option<u8>, Option<u8>)) {
    let w = ctx_fill(v, 3);
    let n = w.lookahead.len();
    let len = w.input.len();
    let p0 = if n > 0 { resolve_index(w.lookahead[0].0, w.cursor, len) } else { None };
    let p1 = if n > 1 && p0 is Some { resolve_index(w.lookahead[1].0, p0, len) } else { None };
    let p2 = if n > 2 && p1 is Some { resolve_index(w.lookahead[2].0, p1, len) } else { None };
    let at = |p: Option<usize>| match p {
        Some(i) => Some(w.input[i as int]),
        None => None,
    };
    (w, (at(p0), at(p1), at(p2)))
}

/// Consumes up to `n` primitives.
pub open spec fn ctx_take_n(v: CtxView, n: nat) -> CtxView
    decreases n,
{
    if n == 0 {
        v
    } else {
        let (w, m) = ctx_next(v);
        if m is None {
            w
        } else {
            ctx_take_n(w, (n - 1) as nat)
        }
    }
}

/// Consumes significant bytes equal to `c`, at most `max`, and counts them.
pub open spec fn ctx_drop_while(v: CtxView, c: u8, max: nat) -> (CtxView, nat)
    decreases max,
{
    if max == 0 {
        (v, 0)
    } else {
        let (w, ch) = ctx_peek_next_char(v);
        if ch != Some(c) {
            (w, 0)
        } else {
            let (w2, _) = ctx_next(w);
            let (w3, k) = ctx_drop_while(w2, c, (max - 1) as nat);
            (w3, k + 1)
        }
    }
}

/// What the block parser and its sub-parsers share: the input, the mapped
/// primitives with a look-ahead of up to three, and the index of the last
/// significant byte consumed.
pub struct Context<'a> {
    input: &'a [u8],
    mapper: GlobalEventStreamMapper<'a>,
    /// Each primitive ahead with the number of the line it leaves off at.
    lookahead: Vec<(Mapped, usize)>,
    cursor: Option<usize>,
    new_line_seen: bool,
    /// The number of the line at which consumption left off.
    line: usize,
    /// The number of the line of the last significant byte or text consumed.
    content_line: usize,
}

impl<'a> Context<'a> {
    pub open spec fn wf(&self) -> bool {
        self.inner_wf() && self.bytes().len() <= usize::MAX
    }

    pub closed spec fn inner_wf(&self) -> bool {
        &&& self.mapper.wf()
        &&& self.mapper.input() == self.input@
        &&& self.input@.len() <= usize::MAX
        &&& self.lookahead@.len() <= 3
        &&& forall|i: int| 0 <= i < self.lookahead@.len() ==> mapped_within(#[trigger] self.lookahead@[i].0, self.input@.len())
        &&& (self.cursor matches Some(c) ==> c < self.input@.len())
    }

    /// A measure of the primitives left; consuming one lowers it.
    pub closed spec fn measure(&self) -> nat {
        self.mapper.measure() + self.lookahead@.len()
    }

    /// A primitive stands in the look-ahead, so `next` will return it.
    pub closed spec fn has_peeked(&self) -> bool {
        self.lookahead@.len() > 0
    }

    /// The index of the last significant byte consumed.
    pub closed spec fn cursor(&self) -> Option<usize> {
        self.cursor
    }

    pub closed spec fn bytes(&self) -> Seq<u8> {
        self.input@
    }

    pub closed spec fn view(&self) -> CtxView {
        CtxView {
            input: self.input@,
            mapper: self.mapper.view(),
            lookahead: self.lookahead@,
            cursor: self.cursor,
            new_line_seen: self.new_line_seen,
            line: self.line,
            content_line: self.content_line,
        }
    }

    /// The view carries the input.
    pub proof fn lemma_view_input(&self)
        ensures
            self.view().input == self.bytes(),
    {
    }

    pub fn new(input: &'a [u8], mapper: GlobalEventStreamMapper<'a>) -> (r: Context<'a>)
        requires
            mapper.wf(),
            mapper.input() == input@,
        ensures
            r.wf(),
            r.bytes() == input@,
            r.view() == (CtxView {
                input: input@,
                mapper: mapper.view(),
                lookahead: Seq::empty(),
                cursor: None,
                new_line_seen: false,
                line: 1,
                content_line: 1,
            }),
    {
        let _ = input.len();
        Context { input, mapper, lookahead: Vec::new(), cursor: None, new_line_seen: false, line: 1, content_line: 1 }
    }

    pub fn cursor_value(&self) -> (r: Option<usize>)
        requires
            self.wf(),
        ensures
            r == self.cursor(),
            r matches Some(c) ==> c < self.bytes().len(),
            r == self.view().cursor,
    {
        self.cursor
    }

    /// Fills the look-ahead up to `n` primitives where the input has them.
    fn fill(&mut self, n: usize)
        requires
            old(self).wf(),
            n <= 3,
        ensures
            final(self).wf(),
            final(self).bytes() == old(self).bytes(),
            final(self).cursor() == old(self).cursor(),
            final(self).measure() <= old(self).measure(),
            final(self).lookahead@.len() < n ==> final(self).mapper.measure() == 0,
            final(self).lookahead@.len() >= old(self).lookahead@.len(),
            old(self).lookahead@.len() > 0 ==> final(self).lookahead@[0] == old(self).lookahead@[0],
            final(self).view() == ctx_fill(old(self).view(), n as nat),
    {
        while self.lookahead.len() < n
            invariant
                self.wf(),
                self.bytes() == old(self).bytes(),
                self.cursor() == old(self).cursor(),
                self.measure() <= old(self).measure(),
                n <= 3,
                self.lookahead@.len() >= old(self).lookahead@.len(),
                old(self).lookahead@.len() > 0 ==> self.lookahead@[0] == old(self).lookahead@[0],
                ctx_fill(self.view(), n as nat) == ctx_fill(old(self).view(), n as nat),
            decreases n - self.lookahead@.len(),
        {
            match self.mapper.next() {
                Some(m) => {
                    let line = self.mapper.line();
                    self.lookahead.push((m, line));
                },
                None => {
                    return;
                },
            }
        }
    }

    /// The `k`-th primitive ahead (from 0), without consuming it.
    pub fn peek(&mut self, k: usize) -> (r: Option<Mapped>)
        requires
            old(self).wf(),
            k < 3,
        ensures
            final(self).wf(),
            final(self).bytes() == old(self).bytes(),
            final(self).cursor() == old(self).cursor(),
            final(self).measure() <= old(self).measure(),
            r matches Some(m) ==> mapped_within(m, final(self).bytes().len()),
            k == 0 && r is None ==> final(self).measure() == 0,
            r is Some ==> final(self).has_peeked(),
            old(self).has_peeked() ==> final(self).has_peeked(),
            (final(self).view(), r) == ctx_peek(old(self).view(), k as nat),
    {
        self.fill(k + 1);
        if k < self.lookahead.len() {
            Some(self.lookahead[k].0)
        } else {
            None
        }
    }

    pub fn peek_1(&mut self) -> (r: Option<Mapped>)
        requires
            old(self).wf(),
        ensures
            final(self).wf(),
            final(self).bytes() == old(self).bytes(),
            final(self).cursor() == old(self).cursor(),
            final(self).measure() <= old(self).measure(),
            r matches Some(m) ==> mapped_within(m, final(self).bytes().len()),
            r is None ==> final(self).measure() == 0,
            r is Some ==> final(self).has_peeked(),
            old(self).has_peeked() ==> final(self).has_peeked(),
            (final(self).view(), r) == ctx_peek(old(self).view(), 0),
    {
        self.peek(0)
    }

    /// Consumes the next primitive; a significant byte moves the cursor to it.
    pub fn next(&mut self) -> (r: Option<Mapped>)
        requires
            old(self).wf(),
        ensures
            final(self).wf(),
            final(self).bytes() == old(self).bytes(),
            r is Some ==> final(self).measure() < old(self).measure(),
            r is None ==> final(self).measure() == 0,
            r matches Some(m) ==> mapped_within(m, final(self).bytes().len()),
            old(self).has_peeked() ==> r is Some,
            (final(self).view(), r) == ctx_next(old(self).view()),
    {
        self.fill(1);
        if self.lookahead.len() == 0 {
            return None;
        }
        let ghost la = self.lookahead@;
        let (m, line) = self.lookahead.remove(0);
        assert(mapped_within(la[0].0, self.input@.len()));
        assert forall|i: int| 0 <= i < self.lookahead@.len() implies mapped_within(#[trigger] self.lookahead@[i].0, self.input@.len()) by {
            assert(self.lookahead@[i] == la[i + 1]);
        }
        self.apply(m);
        self.line = line;
        match m {
            Mapped::LineFeed | Mapped::BlankLine { .. } => {
                self.new_line_seen = true;
            },
            Mapped::CharAt(_) | Mapped::NextChar | Mapped::Text(_) => {
                self.content_line = line;
            },
            _ => {},
        }
        Some(m)
    }

    /// The index of the byte that a primitive stands for, given the index of
    /// the byte before it.
    fn resolve(&self, m: Mapped, prev: Option<usize>) -> (r: Option<usize>)
        requires
            self.wf(),
            mapped_within(m, self.bytes().len()),
            prev matches Some(p) ==> p < self.bytes().len(),
        ensures
            r matches Some(i) ==> i < self.bytes().len(),
            r == resolve_index(m, prev, self.bytes().len()),
    {
        match m {
            Mapped::CharAt(i) => Some(i),
            Mapped::NextChar => match prev {
                Some(p) => {
                    if p + 1 < self.input.len() {
                        Some(p + 1)
                    } else {
                        None
                    }
                },
                None => None,
            },
            _ => None,
        }
    }

    fn apply(&mut self, m: Mapped)
        requires
            old(self).wf(),
            mapped_within(m, old(self).bytes().len()),
        ensures
            final(self).wf(),
            final(self).bytes() == old(self).bytes(),
            final(self).measure() == old(self).measure(),
            final(self).lookahead == old(self).lookahead,
            final(self).view() == (CtxView {
                cursor: match resolve_index(m, old(self).view().cursor, old(self).bytes().len()) {
                    Some(i) => Some(i),
                    None => old(self).view().cursor,
                },
                ..old(self).view()
            }),
    {
        match self.resolve(m, self.cursor) {
            Some(i) => {
                self.cursor = Some(i);
            },
            None => {},
        }
    }

    /// The byte the next primitive stands for, if it is a significant byte.
    pub fn peek_next_char(&mut self) -> (r: Option<u8>)
        requires
            old(self).wf(),
        ensures
            final(self).wf(),
            final(self).bytes() == old(self).bytes(),
            final(self).cursor() == old(self).cursor(),
            final(self).measure() <= old(self).measure(),
            r is Some ==> final(self).has_peeked(),
            old(self).has_peeked() ==> final(self).has_peeked(),
            (final(self).view(), r) == ctx_peek_next_char(old(self).view()),
    {
        match self.peek(0) {
            Some(m) => match self.resolve(m, self.cursor) {
                Some(i) => Some(self.input[i]),
                None => None,
            },
            None => None,
        }
    }

    /// The bytes that the next three primitives stand for, as far as they are
    /// significant bytes in a row.
    pub fn peek_next_three_chars(&mut self) -> (r: (Option<u8>, Option<u8>, Option<u8>))
        requires
            old(self).wf(),
        ensures
            final(self).wf(),
            final(self).bytes() == old(self).bytes(),
            final(self).cursor() == old(self).cursor(),
            final(self).measure() <= old(self).measure(),
            old(self).has_peeked() ==> final(self).has_peeked(),
            (final(self).view(), r) == ctx_peek_next_three_chars(old(self).view()),
    {
        self.fill(3);
        let mut out: (Option<u8>, Option<u8>, Option<u8>) = (None, None, None);
        let mut prev = self.cursor;
        let n = self.lookahead.len();
        if n > 0 {
            prev = self.resolve(self.lookahead[0].0, prev);
            match prev {
                Some(i) => {
                    out.0 = Some(self.input[i]);
                },
                None => {
                    return out;
                },
            }
        }
        if n > 1 {
            prev = self.resolve(self.lookahead[1].0, prev);
            match prev {
                Some(i) => {
                    out.1 = Some(self.input[i]);
                },
                None => {
                    return out;
                },
            }
        }
        if n > 2 {
            prev = self.resolve(self.lookahead[2].0, prev);
            match prev {
                Some(i) => {
                    out.2 = Some(self.input[i]);
                },
                None => {
                    return out;
                },
            }
        }
        out
    }

    /// The number of the line at which consumption left off.
    pub fn current_line(&self) -> (r: usize)
        ensures
            r == self.view().line,
    {
        self.line
    }

    /// The number of the line of the last significant byte or text consumed.
    pub fn last_content_line(&self) -> (r: usize)
        ensures
            r == self.view().content_line,
    {
        self.content_line
    }

    /// A primitive in the look-ahead is work left.
    pub proof fn lemma_peeked_is_work_left(&self)
        requires
            self.wf(),
            self.has_peeked(),
        ensures
            self.measure() > 0,
    {
    }

    /// Whether a newline was consumed since the last call.
    pub fn take_new_line_seen(&mut self) -> (r: bool)
        requires
            old(self).wf(),
        ensures
            final(self).wf(),
            final(self).bytes() == old(self).bytes(),
            final(self).measure() == old(self).measure(),
            final(self).cursor() == old(self).cursor(),
            final(self).has_peeked() == old(self).has_peeked(),
            r == old(self).view().new_line_seen,
            final(self).view() == (CtxView { new_line_seen: false, ..old(self).view() }),
    {
        let r = self.new_line_seen;
        self.new_line_seen = false;
        r
    }

    /// Consumes `n` primitives.
    pub fn take_n(&mut self, n: usize)
        requires
            old(self).wf(),
        ensures
            final(self).wf(),
            final(self).bytes() == old(self).bytes(),
            final(self).measure() <= old(self).measure(),
            n > 0 && old(self).measure() > 0 ==> final(self).measure() < old(self).measure(),
            final(self).view() == ctx_take_n(old(self).view(), n as nat),
    {
        let mut k: usize = 0;
        while k < n
            invariant
                self.wf(),
                self.bytes() == old(self).bytes(),
                self.measure() <= old(self).measure(),
                k > 0 && old(self).measure() > 0 ==> self.measure() < old(self).measure(),
                k == 0 ==> self.measure() == old(self).measure(),
                k <= n,
                ctx_take_n(self.view(), (n - k) as nat) == ctx_take_n(old(self).view(), n as nat),
            decreases n - k,
        {
            if self.next().is_none() {
                return;
            }
            k += 1;
        }
    }

    /// Consumes significant bytes equal to `c`, at most `max` of them, and
    /// returns how many it consumed.
    pub fn drop_while_char_with_maximum(&mut self, c: u8, max: usize) -> (r: usize)
        requires
            old(self).wf(),
        ensures
            final(self).wf(),
            final(self).bytes() == old(self).bytes(),
            final(self).measure() + r <= old(self).measure(),
            r <= max,
            r == 0 ==> final(self).cursor() == old(self).cursor(),
            (final(self).view(), r as nat) == ctx_drop_while(old(self).view(), c, max as nat),
    {
        let mut k: usize = 0;
        while k < max
            invariant
                self.wf(),
                self.bytes() == old(self).bytes(),
                self.measure() + k <= old(self).measure(),
                k <= max,
                k == 0 ==> self.cursor() == old(self).cursor(),
                ({
                    let (w, j) = ctx_drop_while(self.view(), c, (max - k) as nat);
                    ctx_drop_while(old(self).view(), c, max as nat) == (w, (j + k) as nat)
                }),
            decreases max - k,
        {
            if self.peek_next_char() != Some(c) {
                return k;
            }
            self.next();
            k += 1;
        }
        k
    }

    /// Consumes significant bytes equal to `c` and returns how many.
    pub fn drop_while_char(&mut self, c: u8) -> (r: usize)
        requires
            old(self).wf(),
        ensures
            final(self).wf(),
            final(self).bytes() == old(self).bytes(),
            final(self).measure() + r <= old(self).measure(),
            r == 0 ==> final(self).cursor() == old(self).cursor(),
            (final(self).view(), r as nat) == ctx_drop_while(old(self).view(), c, usize::MAX as nat),
    {
        self.drop_while_char_with_maximum(c, usize::MAX)
    }
}

} // verus!
