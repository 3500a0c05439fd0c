use vstd::prelude::*;

use crate::common::{Range, BACKTICK, CR, GREATER_THAN, LESS_THAN, LF, PERCENT};
use crate::events::{GlobalEvent, NewLine, VerbatimEscaping};

verus! {

/// Whether a global event carries only ranges inside a buffer of `len` bytes.
pub open spec fn global_event_within(ev: GlobalEvent, len: nat) -> bool {
    match ev {
        GlobalEvent::Unparsed(r) => r.within(len) && r.length > 0,
        GlobalEvent::VerbatimEscaping(v) => v.content.within(len),
        GlobalEvent::NewLine(_) => true,
    }
}

/// A verbatim escape opens at `i`: `<` followed by a backtick.
pub open spec fn opens_verbatim(input: Seq<u8>, i: int) -> bool {
    0 <= i && i + 1 < input.len() && input[i] == LESS_THAN && input[i + 1] == BACKTICK
}

/// A comment opens at `i`: `<%`.
pub open spec fn opens_comment(input: Seq<u8>, i: int) -> bool {
    0 <= i && i + 1 < input.len() && input[i] == LESS_THAN && input[i + 1] == PERCENT
}

pub open spec fn is_line_break_byte(b: u8) -> bool {
    b == CR || b == LF
}

/// The byte at `i` ends a run of unparsed bytes.
pub open spec fn is_trivia_start(input: Seq<u8>, i: int) -> bool {
    is_line_break_byte(input[i]) || opens_verbatim(input, i) || opens_comment(input, i)
}

/// A line break ends at `i`: a LF, or a CR that no LF follows.
pub open spec fn ends_line_break(input: Seq<u8>, i: int) -> bool {
    input[i] == LF || (input[i] == CR && !(i + 1 < input.len() && input[i + 1] == LF))
}

/// The number of line breaks (CR, LF and CR LF each counting once) that end
/// in `[from, to)`.
pub open spec fn line_breaks(input: Seq<u8>, from: int, to: int) -> nat
    decreases to - from,
{
    if to <= from {
        0
    } else {
        line_breaks(input, from, to - 1) + if ends_line_break(input, to - 1) { 1nat } else { 0nat }
    }
}

/// The end of the run of unparsed bytes that starts at `i`.
pub open spec fn unparsed_end(input: Seq<u8>, i: int) -> int
    decreases input.len() - i,
{
    if i < 0 || i >= input.len() || is_trivia_start(input, i) {
        i
    } else {
        unparsed_end(input, i + 1)
    }
}

/// The end of the run of backticks that starts at `i`.
pub open spec fn backtick_run_end(input: Seq<u8>, i: int) -> int
    decreases input.len() - i,
{
    if i < 0 || i >= input.len() || input[i] != BACKTICK {
        i
    } else {
        backtick_run_end(input, i + 1)
    }
}

/// `k` backticks followed by `>` stand at `j`.
pub open spec fn closes_verbatim(input: Seq<u8>, j: int, k: int) -> bool {
    0 <= j && j + k < input.len() && (forall|t: int| j <= t < j + k ==> input[t] == BACKTICK) && input[j + k] == GREATER_THAN
}

/// The first index from `j` on where a verbatim escape opened with `k`
/// backticks closes.
pub open spec fn verbatim_close(input: Seq<u8>, j: int, k: int) -> Option<int>
    decreases input.len() - j,
{
    if j < 0 || j >= input.len() {
        None
    } else if closes_verbatim(input, j, k) {
        Some(j)
    } else {
        verbatim_close(input, j + 1, k)
    }
}

/// Where reading goes on after the comments that start at `pos`, one after
/// another.
pub open spec fn skip_comments(input: Seq<u8>, pos: int) -> int
    decreases input.len() - pos, 1int,
{
    if opens_comment(input, pos) {
        skip_comments_in(input, pos + 2)
    } else {
        pos
    }
}

/// Where reading goes on from inside the body of a comment at `j`.
pub open spec fn skip_comments_in(input: Seq<u8>, j: int) -> int
    decreases input.len() - j, 0int,
{
    if j < 0 || j >= input.len() {
        input.len() as int
    } else if j + 1 < input.len() && input[j] == PERCENT && input[j + 1] == GREATER_THAN {
        skip_comments(input, j + 2)
    } else {
        skip_comments_in(input, j + 1)
    }
}

/// The event that reading from `pos` on line `line` produces, and where
/// reading goes on.
pub open spec fn lex_step(input: Seq<u8>, pos: int, line: int) -> (Option<GlobalEvent>, int) {
    let (ev, p) = lex_step_at(input, pos);
    let line_after = (line + line_breaks(input, pos, p)) as usize;
    match ev {
        Some(GlobalEvent::NewLine(_)) => (Some(GlobalEvent::NewLine(NewLine { line_number_after: line_after })), p),
        Some(GlobalEvent::VerbatimEscaping(v)) => (
            Some(GlobalEvent::VerbatimEscaping(VerbatimEscaping { line_number_after: line_after, ..v })),
            p,
        ),
        _ => (ev, p),
    }
}

/// The event that reading from `pos` produces, with no line numbers filled
/// in, and where reading goes on.
pub open spec fn lex_step_at(input: Seq<u8>, pos: int) -> (Option<GlobalEvent>, int) {
    let s = skip_comments(input, pos);
    if s >= input.len() {
        (None, input.len() as int)
    } else if !is_trivia_start(input, s) {
        let e = unparsed_end(input, s);
        (Some(GlobalEvent::Unparsed(Range { start: s as usize, length: (e - s) as usize })), e)
    } else if input[s] == CR {
        (Some(GlobalEvent::NewLine(NewLine { line_number_after: 0 })), if s + 1 < input.len() && input[s + 1] == LF { s + 2 } else { s + 1 })
    } else if input[s] == LF {
        (Some(GlobalEvent::NewLine(NewLine { line_number_after: 0 })), s + 1)
    } else {
        let body = backtick_run_end(input, s + 1);
        let k = body - (s + 1);
        match verbatim_close(input, body, k) {
            Some(j) => (
                Some(GlobalEvent::VerbatimEscaping(VerbatimEscaping {
                    content: Range { start: body as usize, length: (j - body) as usize },
                    is_closed_forcedly: false,
                    line_number_after: 0,
                })),
                j + k + 1,
            ),
            None => (
                Some(GlobalEvent::VerbatimEscaping(VerbatimEscaping {
                    content: Range { start: body as usize, length: (input.len() - body) as usize },
                    is_closed_forcedly: true,
                    line_number_after: 0,
                })),
                input.len() as int,
            ),
        }
    }
}

/// Counting line breaks over two adjacent intervals is counting them over
/// their union.
pub proof fn lemma_line_breaks_split(input: Seq<u8>, a: int, b: int, c: int)
    requires
        a <= b <= c,
    ensures
        line_breaks(input, a, b) + line_breaks(input, b, c) == line_breaks(input, a, c),
    decreases c - b,
{
    if b < c {
        lemma_line_breaks_split(input, a, b, c - 1);
    }
}

proof fn lemma_unparsed_end_bounds(input: Seq<u8>, i: int)
    requires
        0 <= i <= input.len(),
    ensures
        i <= unparsed_end(input, i) <= input.len(),
        forall|j: int| i <= j < unparsed_end(input, i) ==> !#[trigger] is_trivia_start(input, j),
    decreases input.len() - i,
{
    if i < input.len() && !is_trivia_start(input, i) {
        lemma_unparsed_end_bounds(input, i + 1);
    }
}

proof fn lemma_backtick_run_end_bounds(input: Seq<u8>, i: int)
    requires
        0 <= i <= input.len(),
    ensures
        i <= backtick_run_end(input, i) <= input.len(),
    decreases input.len() - i,
{
    if i < input.len() && input[i] == BACKTICK {
        lemma_backtick_run_end_bounds(input, i + 1);
    }
}

proof fn lemma_verbatim_close_bounds(input: Seq<u8>, j: int, k: int)
    requires
        0 <= j,
        0 <= k,
    ensures
        verbatim_close(input, j, k) matches Some(c) ==> j <= c && c + k + 1 <= input.len(),
    decreases input.len() - j,
{
    if j < input.len() && !closes_verbatim(input, j, k) {
        lemma_verbatim_close_bounds(input, j + 1, k);
    }
}

proof fn lemma_skip_comments_bounds(input: Seq<u8>, pos: int)
    requires
        0 <= pos <= input.len(),
    ensures
        pos <= skip_comments(input, pos) <= input.len(),
        skip_comments(input, pos) < input.len() ==> !opens_comment(input, skip_comments(input, pos)),
    decreases input.len() - pos, 1int,
{
    if opens_comment(input, pos) {
        lemma_skip_comments_in_bounds(input, pos + 2);
    }
}

proof fn lemma_skip_comments_in_bounds(input: Seq<u8>, j: int)
    requires
        0 <= j <= input.len(),
    ensures
        j <= skip_comments_in(input, j) <= input.len(),
        skip_comments_in(input, j) < input.len() ==> !opens_comment(input, skip_comments_in(input, j)),
    decreases input.len() - j, 0int,
{
    if j < input.len() {
        if j + 1 < input.len() && input[j] == PERCENT && input[j + 1] == GREATER_THAN {
            lemma_skip_comments_bounds(input, j + 2);
        } else {
            lemma_skip_comments_in_bounds(input, j + 1);
        }
    }
}

/// Reading moves forward: an event comes from bytes at or after `pos`, and
/// reading goes on after them.
pub proof fn lemma_lex_step_advances(input: Seq<u8>, pos: int)
    requires
        0 <= pos <= input.len(),
        input.len() <= usize::MAX,
    ensures
        pos <= lex_step_at(input, pos).1 <= input.len(),
        lex_step_at(input, pos).0 is Some ==> pos < lex_step_at(input, pos).1,
        lex_step_at(input, pos).0 is None ==> lex_step_at(input, pos).1 == input.len(),
        lex_step_at(input, pos).0 matches Some(GlobalEvent::Unparsed(rg)) ==> pos <= rg.start && rg.length >= 1
            && rg.start + rg.length == lex_step_at(input, pos).1,
        lex_step_at(input, pos).0 matches Some(GlobalEvent::VerbatimEscaping(v)) ==> pos < v.content.start
            && v.content.start + v.content.length <= lex_step_at(input, pos).1,
{
    let s = skip_comments(input, pos);
    lemma_skip_comments_bounds(input, pos);
    if s < input.len() {
        if !is_trivia_start(input, s) {
            lemma_unparsed_end_bounds(input, s + 1);
        } else if input[s] != CR && input[s] != LF {
            lemma_backtick_run_end_bounds(input, s + 1);
            let body = backtick_run_end(input, s + 1);
            lemma_verbatim_close_bounds(input, body, body - (s + 1));
        }
    }
}

/// A run of unparsed bytes holds no line break, and neither the opening of
/// a comment nor of a verbatim escape.
pub proof fn lemma_unparsed_holds_no_trivia(input: Seq<u8>, pos: int)
    requires
        0 <= pos <= input.len(),
        input.len() <= usize::MAX,
    ensures
        lex_step_at(input, pos).0 matches Some(GlobalEvent::Unparsed(rg)) ==> forall|j: int|
            rg.start <= j < rg.start + rg.length ==> !#[trigger] is_trivia_start(input, j),
{
    let s = skip_comments(input, pos);
    lemma_skip_comments_bounds(input, pos);
    if s < input.len() && !is_trivia_start(input, s) {
        lemma_unparsed_end_bounds(input, s);
    }
}

/// A newline event stands for exactly one line break: CR, LF, or CR LF.
pub proof fn lemma_newline_is_one_line_break(input: Seq<u8>, pos: int)
    requires
        0 <= pos <= input.len(),
        input.len() <= usize::MAX,
    ensures
        lex_step_at(input, pos).0 matches Some(GlobalEvent::NewLine(_)) ==> {
            let s = skip_comments(input, pos);
            let p = lex_step_at(input, pos).1;
            &&& is_line_break_byte(input[s])
            &&& (p == s + 1 || (p == s + 2 && input[s] == CR && input[s + 1] == LF))
            &&& (input[s] == CR && s + 1 < input.len() && input[s + 1] == LF ==> p == s + 2)
        },
{
    lemma_skip_comments_bounds(input, pos);
}

/// The first stage: splits the input into unparsed runs, newlines and
/// verbatim escapes, and drops comments.
pub struct Parser<'a> {
    input: &'a [u8],
    pos: usize,
    /// The number of the line at `pos`, from 1.
    line: usize,
}

impl<'a> Parser<'a> {
    pub closed spec fn input(&self) -> Seq<u8> {
        self.input@
    }

    /// How far the parser has read.
    pub closed spec fn pos(&self) -> nat {
        self.pos as nat
    }

    pub closed spec fn line(&self) -> nat {
        self.line as nat
    }

    pub open spec fn wf(&self) -> bool {
        &&& self.pos() <= self.input().len()
        &&& self.input().len() < usize::MAX
        &&& self.line() == 1 + line_breaks(self.input(), 0, self.pos() as int)
        &&& self.line() <= self.pos() + 1
    }

    pub fn new(input: &'a [u8]) -> (r: Parser<'a>)
        requires
            input@.len() < usize::MAX,
        ensures
            r.wf(),
            r.input() == input@,
            r.pos() == 0,
            r.line() == 1,
    {
        Parser { input, pos: 0, line: 1 }
    }

    /// The number of the line at the read position.
    pub fn current_line(&self) -> (r: usize)
        ensures
            r == self.line(),
    {
        self.line
    }

    /// Moves to `p`; the line number then counts the line breaks from
    /// `origin` on, as it did before the move.
    fn step_to(&mut self, origin: Ghost<int>, p: usize) -> (r: usize)
        requires
            old(self).wf(),
            old(self).pos() <= p <= old(self).input().len(),
            0 <= origin@ <= old(self).pos(),
            old(self).line() >= line_breaks(old(self).input(), origin@, old(self).pos() as int),
        ensures
            final(self).wf(),
            final(self).input() == old(self).input(),
            final(self).pos() == p,
            final(self).line() == r,
            r == old(self).line() + line_breaks(old(self).input(), old(self).pos() as int, p as int),
            r - line_breaks(old(self).input(), origin@, p as int) == old(self).line() - line_breaks(old(self).input(), origin@, old(self).pos() as int),
    {
        let r = self.advance_to(p);
        proof {
            lemma_line_breaks_split(self.input@, origin@, old(self).pos() as int, p as int);
        }
        r
    }

    /// The number of line breaks that end in `[from, to)`.
    fn count_line_breaks(&self, from: usize, to: usize) -> (r: usize)
        requires
            self.wf(),
            from <= to <= self.input@.len(),
        ensures
            r == line_breaks(self.input@, from as int, to as int),
            r <= to - from,
    {
        let mut c: usize = 0;
        let mut i: usize = from;
        while i < to
            invariant
                self.wf(),
                from <= i <= to <= self.input@.len(),
                c == line_breaks(self.input@, from as int, i as int),
                c <= i - from,
            decreases to - i,
        {
            let b = self.input[i];
            if b == LF || (b == CR && !(i + 1 < self.input.len() && self.input[i + 1] == LF)) {
                c += 1;
            }
            i += 1;
        }
        c
    }

    /// Moves to `p`, counting the line breaks passed, and gives the new line
    /// number.
    fn advance_to(&mut self, p: usize) -> (r: usize)
        requires
            old(self).wf(),
            old(self).pos() <= p <= old(self).input().len(),
        ensures
            final(self).input() == old(self).input(),
            final(self).pos() == p,
            final(self).line() == r,
            r == old(self).line() + line_breaks(old(self).input(), old(self).pos() as int, p as int),
            final(self).wf(),
    {
        let breaks = self.count_line_breaks(self.pos, p);
        proof {
            lemma_line_breaks_split(self.input@, 0, self.pos as int, p as int);
        }
        self.line = self.line + breaks;
        self.pos = p;
        self.line
    }

    fn opens_verbatim_at(&self, i: usize) -> (r: bool)
        requires
            self.wf(),
            i < self.input@.len(),
        ensures
            r == opens_verbatim(self.input@, i as int),
    {
        i < self.input.len() - 1 && self.input[i] == LESS_THAN && self.input[i + 1] == BACKTICK
    }

    fn is_trivia_start_at(&self, i: usize) -> (r: bool)
        requires
            self.wf(),
            i < self.input@.len(),
        ensures
            r == is_trivia_start(self.input@, i as int),
    {
        let b = self.input[i];
        b == CR || b == LF || self.opens_verbatim_at(i) || self.opens_comment_at(i)
    }

    fn opens_comment_at(&self, i: usize) -> (r: bool)
        requires
            self.wf(),
            i < self.input@.len(),
        ensures
            r == opens_comment(self.input@, i as int),
    {
        i < self.input.len() - 1 && self.input[i] == LESS_THAN && self.input[i + 1] == PERCENT
    }

    /// Produces the next event and moves past it, or `None` once the whole
    /// input is read: exactly what `lex_step` gives from the current position.
    pub fn next(&mut self) -> (r: Option<GlobalEvent>)
        requires
            old(self).wf(),
        ensures
            final(self).wf(),
            final(self).input() == old(self).input(),
            r is None ==> final(self).pos() == old(self).input().len(),
            old(self).pos() == old(self).input().len() ==> r is None,
            r is Some ==> old(self).pos() < final(self).pos(),
            r is Some ==> global_event_within(r.unwrap(), old(self).input().len()),
            r matches Some(GlobalEvent::Unparsed(rg)) ==> old(self).pos() <= rg.start && rg.start + rg.length == final(self).pos()
                && forall|j: int| rg.start <= j < rg.start + rg.length ==> !#[trigger] is_trivia_start(old(self).input(), j),
            r matches Some(GlobalEvent::VerbatimEscaping(v)) ==> old(self).pos() < v.content.start
                && v.content.start + v.content.length <= final(self).pos(),
            old(self).pos() <= final(self).pos(),
            (r, final(self).pos() as int) == lex_step(old(self).input(), old(self).pos() as int, old(self).line() as int),
            final(self).line() == old(self).line() + line_breaks(old(self).input(), old(self).pos() as int, final(self).pos() as int),
            r matches Some(GlobalEvent::NewLine(n)) ==> n.line_number_after == 1 + line_breaks(old(self).input(), 0, final(self).pos() as int),
            r matches Some(GlobalEvent::VerbatimEscaping(v)) ==> v.line_number_after == 1 + line_breaks(old(self).input(), 0, final(self).pos() as int),
    {
        let len = self.input.len();
        loop
            invariant
                self.wf(),
                len == self.input@.len(),
                old(self).input() == self.input(),
                old(self).pos() <= self.pos(),
                skip_comments(self.input@, old(self).pos() as int) == skip_comments(self.input@, self.pos as int),
                self.line() == old(self).line() + line_breaks(self.input@, old(self).pos() as int, self.pos as int),
                old(self).wf(),
            decreases len - self.pos,
        {
            let start = self.pos;
            let mut i: usize = start;
            while i < len && !self.is_trivia_start_at(i)
                invariant
                    self.wf(),
                    len == self.input@.len(),
                    start == self.pos,
                    start <= i <= len,
                    forall|j: int| start <= j < i ==> !#[trigger] is_trivia_start(self.input@, j),
                    unparsed_end(self.input@, start as int) == unparsed_end(self.input@, i as int),
                decreases len - i,
            {
                i += 1;
            }
            if i > start {
                self.step_to(Ghost(old(self).pos() as int), i);
                return Some(GlobalEvent::Unparsed(Range::new(start, i - start)));
            }
            if i >= len {
                return None;
            }
            let b = self.input[i];
            if b == CR {
                let p = if i + 1 < len && self.input[i + 1] == LF {
                    i + 2
                } else {
                    i + 1
                };
                let line_number_after = self.step_to(Ghost(old(self).pos() as int), p);
                return Some(GlobalEvent::NewLine(NewLine { line_number_after }));
            } else if b == LF {
                let line_number_after = self.step_to(Ghost(old(self).pos() as int), i + 1);
                return Some(GlobalEvent::NewLine(NewLine { line_number_after }));
            } else if self.opens_verbatim_at(i) {
                // Count the opening backticks.
                let mut k: usize = 1;
                while i + 1 + k < len && self.input[i + 1 + k] == BACKTICK
                    invariant
                        1 <= k,
                        i + 1 + k <= len,
                        len == self.input@.len(),
                        backtick_run_end(self.input@, i + 1) == backtick_run_end(self.input@, (i + 1 + k) as int),
                    decreases len - k,
                {
                    k += 1;
                }
                let body_start = i + 1 + k;
                match self.find_verbatim_close(body_start, k) {
                    Some(j) => {
                        let line_number_after = self.step_to(Ghost(old(self).pos() as int), j + k + 1);
                        return Some(GlobalEvent::VerbatimEscaping(VerbatimEscaping {
                            content: Range::new(body_start, j - body_start),
                            is_closed_forcedly: false,
                            line_number_after,
                        }));
                    },
                    None => {
                        let line_number_after = self.step_to(Ghost(old(self).pos() as int), len);
                        return Some(GlobalEvent::VerbatimEscaping(VerbatimEscaping {
                            content: Range::new(body_start, len - body_start),
                            is_closed_forcedly: true,
                            line_number_after,
                        }));
                    },
                }
            } else {
                // A comment: skip to just after `%>`, or to the end of the input.
                let next_pos = self.find_comment_end(i + 2);
                self.step_to(Ghost(old(self).pos() as int), next_pos);
            }
        }
    }

    /// The first index from `from` on where `k` backticks followed by `>`
    /// stand.
    fn find_verbatim_close(&self, from: usize, k: usize) -> (r: Option<usize>)
        requires
            self.wf(),
            from <= self.input@.len(),
        ensures
            r matches Some(j) ==> from <= j && j + k + 1 <= self.input@.len(),
            r matches Some(j) ==> verbatim_close(self.input@, from as int, k as int) == Some(j as int),
            r is None ==> verbatim_close(self.input@, from as int, k as int) is None,
    {
        let len = self.input.len();
        let mut j: usize = from;
        while j < len
            invariant
                self.wf(),
                from <= j <= len,
                len == self.input@.len(),
                verbatim_close(self.input@, from as int, k as int) == verbatim_close(self.input@, j as int, k as int),
            decreases len - j,
        {
            if self.closes_verbatim_at(j, k) {
                return Some(j);
            }
            j += 1;
        }
        None
    }

    /// The index just after the first `%>` from `from` on, or the end of the
    /// input when there is none.
    fn find_comment_end(&self, from: usize) -> (r: usize)
        requires
            self.wf(),
            from <= self.input@.len(),
        ensures
            from <= r <= self.input@.len(),
            skip_comments(self.input@, r as int) == skip_comments_in(self.input@, from as int),
    {
        let len = self.input.len();
        let mut j: usize = from;
        while j < len
            invariant
                self.wf(),
                from <= j <= len,
                len == self.input@.len(),
                skip_comments_in(self.input@, from as int) == skip_comments_in(self.input@, j as int),
            decreases len - j,
        {
            if j + 1 < len && self.input[j] == PERCENT && self.input[j + 1] == GREATER_THAN {
                return j + 2;
            }
            j += 1;
        }
        len
    }

    /// `k` backticks followed by `>` stand at `j`.
    fn closes_verbatim_at(&self, j: usize, k: usize) -> (r: bool)
        requires
            self.wf(),
            j <= self.input@.len(),
        ensures
            r ==> j + k + 1 <= self.input@.len(),
            r <==> closes_verbatim(self.input@, j as int, k as int),
    {
        let len = self.input.len();
        if k >= len - j {
            return false;
        }
        let mut t: usize = 0;
        while t < k
            invariant
                t <= k,
                j + k < len,
                len == self.input@.len(),
                forall|u: int| j <= u < j + t ==> self.input@[u] == BACKTICK,
            decreases k - t,
        {
            if self.input[j + t] != BACKTICK {
                return false;
            }
            t += 1;
        }
        self.input[j + k] == GREATER_THAN
    }
}

} // verus!
