use vstd::prelude::*;

verus! {

/// The ASCII bytes that the syntax gives a meaning.
pub const CR: u8 = 13;
pub const LF: u8 = 10;
pub const SPACE: u8 = 32;
pub const TAB: u8 = 9;
pub const LESS_THAN: u8 = 60;
pub const GREATER_THAN: u8 = 62;
pub const BACKTICK: u8 = 96;
pub const PERCENT: u8 = 37;
pub const HYPHEN: u8 = 45;
pub const EQUALS: u8 = 61;

/// A half-open byte interval `[start, start + length)` into the input buffer.
#[derive(Debug, Clone, Copy, PartialEq, Eq, Structural)]
pub struct Range {
    pub start: usize,
    pub length: usize,
}

impl Range {
    /// The range lies inside a buffer of `len` bytes.
    pub open spec fn within(self, len: nat) -> bool {
        self.start + self.length <= len
    }

    /// The bytes of `input` that the range covers.
    pub open spec fn bytes(self, input: Seq<u8>) -> Seq<u8> {
        input.subrange(self.start as int, self.start + self.length)
    }

    pub fn new(start: usize, length: usize) -> (r: Range)
        ensures
            r.start == start,
            r.length == length,
    {
        Range { start, length }
    }

    pub fn start(&self) -> (r: usize)
        ensures
            r == self.start,
    {
        self.start
    }

    pub fn length(&self) -> (r: usize)
        ensures
            r == self.length,
    {
        self.length
    }

    /// Copies out the bytes that the range covers.
    pub fn content(&self, input: &[u8]) -> (r: Vec<u8>)
        requires
            self.within(input@.len()),
        ensures
            r@ == self.bytes(input@),
    {
        let mut out: Vec<u8> = Vec::new();
        let n = input.len();
        assert(self.start + self.length <= n);
        let end = self.start + self.length;
        let mut i: usize = self.start;
        while i < end
            invariant
                self.start <= i <= end,
                end == self.start + self.length,
                end <= input@.len(),
                out@ == input@.subrange(self.start as int, i as int),
            decreases end - i,
        {
            out.push(input[i]);
            i += 1;
            assert(out@ =~= input@.subrange(self.start as int, i as int));
        }
        out
    }
}

} // verus!
