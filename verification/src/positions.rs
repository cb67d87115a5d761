//! Position primitives: 1-based line numbers, byte offsets, byte spans and the
//! per-file index of line starts.

use vstd::prelude::*;
use vstd::string::StringSliceAdditionalSpecFns;

verus! {

/// A 1-based line number.
#[derive(Debug, Clone, Copy, PartialEq, Eq, Structural)]
pub struct LineNumber(usize);

impl View for LineNumber {
    type V = int;

    closed spec fn view(&self) -> int {
        self.0 as int
    }
}

impl LineNumber {
    /// The line that a 0-based index names.
    pub fn from_zero_based(index: usize) -> (line: Self)
        requires
            index < usize::MAX,
        ensures
            line@ == index + 1,
    {
        Self(index + 1)
    }

    /// The line with the given 1-based number.
    pub fn from_one_based(index: usize) -> (line: Self)
        requires
            index > 0,
        ensures
            line@ == index,
    {
        Self(index)
    }

    /// The value as a plain number.
    pub fn as_usize(self) -> (n: usize)
        ensures
            n == self@,
    {
        self.0
    }

    /// Whether this line directly follows `previous`. Nothing follows the
    /// largest representable line but itself.
    pub fn is_immediately_after(self, previous: Self) -> (yes: bool)
        ensures
            yes == (self@ == if previous@ < usize::MAX { previous@ + 1 } else { previous@ }),
    {
        self.0 == previous.0.saturating_add(1)
    }
}

/// A byte offset into a file's content.
#[derive(Debug, Clone, Copy, PartialEq, Eq, Structural)]
pub struct ByteOffset(usize);

impl View for ByteOffset {
    type V = int;

    closed spec fn view(&self) -> int {
        self.0 as int
    }
}

impl ByteOffset {
    /// The start of a file.
    pub fn zero() -> (offset: Self)
        ensures
            offset@ == 0,
    {
        Self(0)
    }

    /// The offset with the given value.
    pub fn from_usize(value: usize) -> (offset: Self)
        ensures
            offset@ == value,
    {
        Self(value)
    }

    /// The value as a plain number.
    pub fn as_usize(self) -> (n: usize)
        ensures
            n == self@,
    {
        self.0
    }

    /// The offset `amount` bytes further on.
    pub fn add(self, amount: usize) -> (offset: Self)
        requires
            self@ + amount <= usize::MAX,
        ensures
            offset@ == self@ + amount,
    {
        Self(self.0 + amount)
    }
}

/// A length in bytes.
#[derive(Debug, Clone, Copy, PartialEq, Eq, Structural)]
pub struct ByteLength(usize);

impl View for ByteLength {
    type V = int;

    closed spec fn view(&self) -> int {
        self.0 as int
    }
}

impl ByteLength {
    /// The value as a plain number.
    pub fn as_usize(self) -> (n: usize)
        ensures
            n == self@,
    {
        self.0
    }

    /// The number of bytes from `start` to `end_inclusive`, both counted.
    pub fn from_inclusive_bounds(start: usize, end_inclusive: usize) -> (length: Self)
        requires
            start <= end_inclusive,
            end_inclusive - start < usize::MAX,
        ensures
            length@ == end_inclusive - start + 1,
    {
        Self(end_inclusive - start + 1)
    }
}

/// A run of bytes: where it starts and how long it is.
#[derive(Debug, Clone, Copy, PartialEq, Eq, Structural)]
pub struct ByteSpan {
    offset: ByteOffset,
    length: ByteLength,
}

impl ByteSpan {
    /// The offset at which the span starts.
    pub closed spec fn spec_offset(self) -> int {
        self.offset@
    }

    /// The number of bytes of the span.
    pub closed spec fn spec_length(self) -> int {
        self.length@
    }

    /// The first offset past the span.
    pub open spec fn spec_end(self) -> int {
        self.spec_offset() + self.spec_length()
    }

    /// The span that covers `start_idx ..= end_idx_inclusive`, both relative to
    /// `base_offset`.
    pub fn from_relative_indices(
        base_offset: ByteOffset,
        start_idx: usize,
        end_idx_inclusive: usize,
    ) -> (span: Self)
        requires
            start_idx <= end_idx_inclusive,
            end_idx_inclusive - start_idx < usize::MAX,
            base_offset@ + start_idx <= usize::MAX,
        ensures
            span.spec_offset() == base_offset@ + start_idx,
            span.spec_length() == end_idx_inclusive - start_idx + 1,
    {
        Self {
            offset: base_offset.add(start_idx),
            length: ByteLength::from_inclusive_bounds(start_idx, end_idx_inclusive),
        }
    }

    /// Where the span starts.
    pub fn offset(self) -> (offset: ByteOffset)
        ensures
            offset@ == self.spec_offset(),
    {
        self.offset
    }

    /// How long the span is.
    pub fn length(self) -> (length: ByteLength)
        ensures
            length@ == self.spec_length(),
    {
        self.length
    }
}

/// Where a marker stands: its line and its bytes.
#[derive(Debug, Clone, Copy, PartialEq, Eq, Structural)]
pub struct RefLocation {
    line: LineNumber,
    span: ByteSpan,
}

impl RefLocation {
    /// The line of the marker.
    pub closed spec fn spec_line(self) -> LineNumber {
        self.line
    }

    /// The bytes of the marker.
    pub closed spec fn spec_span(self) -> ByteSpan {
        self.span
    }

    /// The location on `line` that covers `start_idx ..= end_idx_inclusive`,
    /// both relative to `base_offset`.
    pub fn from_relative_indices(
        line: LineNumber,
        base_offset: ByteOffset,
        start_idx: usize,
        end_idx_inclusive: usize,
    ) -> (location: Self)
        requires
            start_idx <= end_idx_inclusive,
            end_idx_inclusive - start_idx < usize::MAX,
            base_offset@ + start_idx <= usize::MAX,
        ensures
            location.spec_line() == line,
            location.spec_span().spec_offset() == base_offset@ + start_idx,
            location.spec_span().spec_length() == end_idx_inclusive - start_idx + 1,
    {
        Self {
            line,
            span: ByteSpan::from_relative_indices(base_offset, start_idx, end_idx_inclusive),
        }
    }

    /// The line of the marker.
    pub fn line(self) -> (line: LineNumber)
        ensures
            line == self.spec_line(),
    {
        self.line
    }

    /// The bytes of the marker.
    pub fn span(self) -> (span: ByteSpan)
        ensures
            span == self.spec_span(),
    {
        self.span
    }
}

/// Whether `starts` lists, in order, offset 0 and the offset after each line
/// feed of `bytes`, and nothing else.
pub open spec fn is_line_index(starts: Seq<int>, bytes: Seq<u8>) -> bool {
    &&& starts.len() >= 1
    &&& starts[0] == 0
    &&& forall|i: int, j: int| 0 <= i < j < starts.len() ==> starts[i] < starts[j]
    &&& forall|i: int|
        1 <= i < starts.len() ==> 1 <= #[trigger] starts[i] <= bytes.len() && bytes[starts[i] - 1]
            == 0x0au8
    &&& forall|k: int|
        0 <= k < bytes.len() && #[trigger] bytes[k] == 0x0au8 ==> starts.contains(k + 1)
}

/// The offsets at which the lines of one file start.
#[derive(Debug)]
pub struct LineStarts(Vec<ByteOffset>);

impl Clone for LineStarts {
    fn clone(&self) -> (copy: Self)
        ensures
            copy@ == self@,
    {
        proof {
            use_type_invariant(self);
        }
        let mut v: Vec<ByteOffset> = Vec::new();
        let mut i: usize = 0;
        while i < self.0.len()
            invariant
                i <= self.0@.len(),
                v@ == self.0@.subrange(0, i as int),
            decreases self.0@.len() - i,
        {
            v.push(self.0[i]);
            i += 1;
        }
        assert(v@ == self.0@);
        Self(v)
    }
}

impl View for LineStarts {
    type V = Seq<int>;

    closed spec fn view(&self) -> Seq<int> {
        self.0@.map_values(|o: ByteOffset| o@)
    }
}

impl LineStarts {
    #[verifier::type_invariant]
    spec fn ordered(self) -> bool {
        &&& self.0@.len() >= 1
        &&& self.0@[0]@ == 0
        &&& forall|i: int, j: int| 0 <= i < j < self.0@.len() ==> self.0@[i]@ < self.0@[j]@
    }

    /// Indexes `content` by its line feeds.
    pub fn from_content(content: &str) -> (starts: Self)
        ensures
            is_line_index(starts@, content.spec_bytes()),
    {
        let bytes = content.as_bytes();
        let mut v: Vec<ByteOffset> = Vec::new();
        v.push(ByteOffset::zero());
        let mut pos: usize = 0;
        while pos < bytes.len()
            invariant
                pos <= bytes.len(),
                bytes@ == content.spec_bytes(),
                v@.len() >= 1,
                v@[0]@ == 0,
                forall|i: int, j: int| 0 <= i < j < v@.len() ==> v@[i]@ < v@[j]@,
                forall|i: int| 0 <= i < v@.len() ==> #[trigger] v@[i]@ <= pos,
                forall|i: int|
                    1 <= i < v@.len() ==> 1 <= #[trigger] v@[i]@ && bytes@[v@[i]@ - 1] == 0x0au8,
                forall|k: int|
                    0 <= k < pos && #[trigger] bytes@[k] == 0x0au8 ==> exists|i: int|
                        0 <= i < v@.len() && #[trigger] v@[i]@ == k + 1,
            decreases bytes.len() - pos,
        {
            if bytes[pos] == 0x0au8 {
                let ghost before = v@;
                v.push(ByteOffset::from_usize(pos + 1));
                proof {
                    assert(v@[v@.len() - 1]@ == pos + 1);
                    assert forall|k: int| 0 <= k < pos + 1 && #[trigger] bytes@[k] == 0x0au8 implies exists|
                        i: int,
                    | 0 <= i < v@.len() && #[trigger] v@[i]@ == k + 1 by {
                        if k < pos {
                            let i = choose|i: int| 0 <= i < before.len() && #[trigger] before[i]@ == k + 1;
                            assert(v@[i]@ == k + 1);
                        } else {
                            assert(v@[v@.len() - 1]@ == k + 1);
                        }
                    }
                }
            }
            pos += 1;
        }
        let starts = Self(v);
        proof {
            let s = starts@;
            assert(s.len() == v@.len());
            assert forall|k: int| 0 <= k < bytes@.len() && #[trigger] bytes@[k] == 0x0au8 implies s.contains(
                k + 1,
            ) by {
                let i = choose|i: int| 0 <= i < v@.len() && #[trigger] v@[i]@ == k + 1;
                assert(s[i] == k + 1);
            }
        }
        starts
    }

    /// The 1-based line that holds `offset`: line `n` holds it when the
    /// `n`-th start is the last one at or before it.
    pub fn line_number_for_offset(&self, offset: ByteOffset) -> (line: LineNumber)
        ensures
            1 <= line@ <= self@.len(),
            self@[line@ - 1] <= offset@,
            line@ < self@.len() ==> offset@ < self@[line@ as int],
    {
        proof {
            use_type_invariant(self);
        }
        let target = offset.as_usize();
        let mut lo: usize = 1;
        let mut hi: usize = self.0.len();
        while lo < hi
            invariant
                1 <= lo <= hi <= self.0@.len(),
                forall|i: int, j: int| 0 <= i < j < self.0@.len() ==> self.0@[i]@ < self.0@[j]@,
                self.0@[0]@ == 0,
                forall|i: int| 0 <= i < lo ==> #[trigger] self.0@[i]@ <= target,
                forall|i: int| hi <= i < self.0@.len() ==> target < #[trigger] self.0@[i]@,
            decreases hi - lo,
        {
            let mid = lo + (hi - lo) / 2;
            if self.0[mid].as_usize() <= target {
                lo = mid + 1;
            } else {
                hi = mid;
            }
        }
        LineNumber::from_one_based(lo)
    }

    /// The offset at which the line with 0-based index `line_index` starts, or 0
    /// where the file has no such line.
    pub fn line_start_for_index(&self, line_index: usize) -> (offset: ByteOffset)
        ensures
            offset@ == if line_index < self@.len() { self@[line_index as int] } else { 0 },
    {
        if line_index < self.0.len() {
            self.0[line_index]
        } else {
            ByteOffset::zero()
        }
    }
}

} // verus!
