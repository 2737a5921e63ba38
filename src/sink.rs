//! Collectors for the change regions that an alignment reports, and the
//! derivation of matching blocks from them.

use std::ops::Range;
use vstd::prelude::*;

verus! {

/// A pair of half-open ranges: the first in sequence A, the second in sequence B.
pub type RangePair = (Range<u32>, Range<u32>);

/// Length of the range `start..end`, zero when it is empty.
pub open spec fn span_len(start: u32, end: u32) -> int {
    if start < end {
        end - start
    } else {
        0
    }
}

/// The block `a0..a1` / `b0..b1`, as a sequence of zero or one blocks: a block
/// is kept when either side is non-empty.
pub open spec fn gap_block(a0: u32, a1: u32, b0: u32, b1: u32) -> Seq<RangePair> {
    if a0 < a1 || b0 < b1 {
        seq![(Range { start: a0, end: a1 }, Range { start: b0, end: b1 })]
    } else {
        Seq::empty()
    }
}

/// The matching blocks between the change regions `changes`, scanning from the
/// cursors `last_a` / `last_b`, including the trailing block up to the totals.
pub open spec fn blocks_after(
    changes: Seq<RangePair>,
    last_a: u32,
    last_b: u32,
    total_a: u32,
    total_b: u32,
) -> Seq<RangePair>
    decreases changes.len(),
{
    if changes.len() == 0 {
        gap_block(last_a, total_a, last_b, total_b)
    } else {
        gap_block(last_a, changes[0].0.start, last_b, changes[0].1.start) + blocks_after(
            changes.drop_first(),
            changes[0].0.end,
            changes[0].1.end,
            total_a,
            total_b,
        )
    }
}

/// The ordered matching blocks of two sequences of lengths `total_a` and
/// `total_b` that differ exactly at the change regions `changes`.
pub open spec fn match_blocks(changes: Seq<RangePair>, total_a: u32, total_b: u32) -> Seq<
    RangePair,
> {
    blocks_after(changes, 0, 0, total_a, total_b)
}

/// Every gap between consecutive change regions (from the cursors on, and the
/// trailing one up to the totals) has the same length on both sides.
pub open spec fn gaps_balanced(
    changes: Seq<RangePair>,
    last_a: u32,
    last_b: u32,
    total_a: u32,
    total_b: u32,
) -> bool
    decreases changes.len(),
{
    if changes.len() == 0 {
        span_len(last_a, total_a) == span_len(last_b, total_b)
    } else {
        &&& span_len(last_a, changes[0].0.start) == span_len(last_b, changes[0].1.start)
        &&& gaps_balanced(changes.drop_first(), changes[0].0.end, changes[0].1.end, total_a, total_b)
    }
}

/// The two ranges of `blk` are equally long.
pub open spec fn block_balanced(blk: RangePair) -> bool {
    span_len(blk.0.start, blk.0.end) == span_len(blk.1.start, blk.1.end)
}

/// Collects change regions in the order they are reported.
#[derive(Debug)]
pub struct ChangeRangeCollector {
    changes: Vec<RangePair>,
}

impl ChangeRangeCollector {
    /// The change regions collected so far.
    pub closed spec fn changes(&self) -> Seq<RangePair> {
        self.changes@
    }

    pub fn new() -> (r: Self)
        ensures
            r.changes() == Seq::<RangePair>::empty(),
    {
        ChangeRangeCollector { changes: Vec::new() }
    }

    pub fn process_change(&mut self, before: Range<u32>, after: Range<u32>)
        ensures
            final(self).changes() == old(self).changes().push((before, after)),
    {
        self.changes.push((before, after));
    }

    pub fn finish(self) -> (r: Vec<RangePair>)
        ensures
            r@ == self.changes(),
    {
        self.changes
    }
}

/// Turns a stream of change regions into the matching blocks between them.
#[derive(Debug)]
pub struct MatchCollector {
    matches: Vec<RangePair>,
    last_a: u32,
    last_b: u32,
    total_a_len: u32,
    total_b_len: u32,
}

impl MatchCollector {
    /// The matching blocks emitted so far.
    pub closed spec fn matches(&self) -> Seq<RangePair> {
        self.matches@
    }

    /// End of the last change region seen in sequence A.
    pub closed spec fn last_a(&self) -> u32 {
        self.last_a
    }

    /// End of the last change region seen in sequence B.
    pub closed spec fn last_b(&self) -> u32 {
        self.last_b
    }

    pub closed spec fn total_a(&self) -> u32 {
        self.total_a_len
    }

    pub closed spec fn total_b(&self) -> u32 {
        self.total_b_len
    }

    pub fn new(total_a_len: u32, total_b_len: u32) -> (r: Self)
        ensures
            r.matches() == Seq::<RangePair>::empty(),
            r.last_a() == 0,
            r.last_b() == 0,
            r.total_a() == total_a_len,
            r.total_b() == total_b_len,
    {
        MatchCollector { matches: Vec::new(), last_a: 0, last_b: 0, total_a_len, total_b_len }
    }

    /// Records the unchanged block before the change `before` / `after`, then
    /// moves the cursors to the end of the change. The unchanged block must be
    /// equally long on both sides.
    pub fn process_change(&mut self, before: Range<u32>, after: Range<u32>)
        requires
            span_len(old(self).last_a(), before.start) == span_len(old(self).last_b(), after.start),
        ensures
            final(self).matches() == old(self).matches() + gap_block(
                old(self).last_a(),
                before.start,
                old(self).last_b(),
                after.start,
            ),
            final(self).last_a() == before.end,
            final(self).last_b() == after.end,
            final(self).total_a() == old(self).total_a(),
            final(self).total_b() == old(self).total_b(),
    {
        if self.last_a < before.start || self.last_b < after.start {
            let block = (
                Range { start: self.last_a, end: before.start },
                Range { start: self.last_b, end: after.start },
            );
            self.matches.push(block);
        }
        self.last_a = before.end;
        self.last_b = after.end;
    }

    /// Adds the trailing unchanged block after the last change, which must be
    /// equally long on both sides, and returns all matching blocks.
    pub fn finish(self) -> (r: Vec<RangePair>)
        requires
            span_len(self.last_a(), self.total_a()) == span_len(self.last_b(), self.total_b()),
        ensures
            r@ == self.matches() + gap_block(
                self.last_a(),
                self.total_a(),
                self.last_b(),
                self.total_b(),
            ),
    {
        let mut matches = self.matches;
        if self.last_a < self.total_a_len || self.last_b < self.total_b_len {
            let block = (
                Range { start: self.last_a, end: self.total_a_len },
                Range { start: self.last_b, end: self.total_b_len },
            );
            matches.push(block);
        }
        matches
    }
}

/// Feeds the change regions `changes`, in order, to a `MatchCollector` for
/// sequences of lengths `total_a` and `total_b`, and returns its blocks.
pub fn extract_matches(changes: &Vec<RangePair>, total_a: u32, total_b: u32) -> (r: Vec<RangePair>)
    requires
        gaps_balanced(changes@, 0, 0, total_a, total_b),
    ensures
        r@ == match_blocks(changes@, total_a, total_b),
        forall|i: int| 0 <= i < r@.len() ==> block_balanced(#[trigger] r@[i]),
{
    let mut sink = MatchCollector::new(total_a, total_b);
    let mut i: usize = 0;
    proof {
        assert(changes@.skip(0) =~= changes@);
        assert(sink.matches() + match_blocks(changes@, total_a, total_b) =~= match_blocks(
            changes@,
            total_a,
            total_b,
        ));
    }
    while i < changes.len()
        invariant
            i <= changes@.len(),
            forall|j: int|
                0 <= j < sink.matches().len() ==> block_balanced(#[trigger] sink.matches()[j]),
            sink.total_a() == total_a,
            sink.total_b() == total_b,
            gaps_balanced(changes@.skip(i as int), sink.last_a(), sink.last_b(), total_a, total_b),
            sink.matches() + blocks_after(
                changes@.skip(i as int),
                sink.last_a(),
                sink.last_b(),
                total_a,
                total_b,
            ) == match_blocks(changes@, total_a, total_b),
        decreases changes@.len() - i,
    {
        let before = Range { start: changes[i].0.start, end: changes[i].0.end };
        let after = Range { start: changes[i].1.start, end: changes[i].1.end };
        proof {
            assert(changes@.skip(i as int)[0] == changes@[i as int]);
            assert(changes@.skip(i as int).drop_first() =~= changes@.skip(i + 1));
        }
        let ghost prev = sink.matches();
        let ghost la = sink.last_a();
        let ghost lb = sink.last_b();
        sink.process_change(before, after);
        proof {
            assert forall|j: int|
                0 <= j < sink.matches().len() implies block_balanced(#[trigger] sink.matches()[j]) by {
                if j < prev.len() {
                    assert(sink.matches()[j] == prev[j]);
                }
            }
            let g = gap_block(la, before.start, lb, after.start);
            let rest = blocks_after(changes@.skip(i + 1), before.end, after.end, total_a, total_b);
            vstd::seq_lib::lemma_concat_associative(prev, g, rest);
        }
        i = i + 1;
    }
    proof {
        assert(changes@.skip(i as int).len() == 0);
    }
    let r = sink.finish();
    proof {
        assert forall|j: int| 0 <= j < r@.len() implies block_balanced(#[trigger] r@[j]) by {
            if j < sink.matches().len() {
                assert(r@[j] == sink.matches()[j]);
            }
        }
    }
    r
}

} // verus!
