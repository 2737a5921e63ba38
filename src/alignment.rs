//! The sequence alignment: imara-diff's histogram diff on two token slices.

use crate::sink::{gaps_balanced, ChangeRangeCollector, RangePair};
use crate::source::I32Slice;
use imara_diff::intern::InternedInput;
use imara_diff::{diff, Algorithm};
use std::ops::Range;
use vstd::prelude::*;

verus! {

/// The change regions that the histogram diff reports for `a` against `b`.
pub uninterp spec fn histogram_changes(a: Seq<i32>, b: Seq<i32>) -> Seq<RangePair>;

/// `changes`, read from the cursors `last_a` / `last_b` on, are ordered change
/// regions inside `a` and `b`, and the tokens between them (and after the last
/// one) are the same in `a` as in `b`.
pub open spec fn unchanged_between(
    changes: Seq<RangePair>,
    a: Seq<i32>,
    b: Seq<i32>,
    last_a: int,
    last_b: int,
) -> bool
    decreases changes.len(),
{
    if changes.len() == 0 {
        &&& 0 <= last_a <= a.len()
        &&& 0 <= last_b <= b.len()
        &&& a.subrange(last_a, a.len() as int) == b.subrange(last_b, b.len() as int)
    } else {
        let before = changes[0].0;
        let after = changes[0].1;
        &&& last_a <= before.start <= before.end
        &&& last_b <= after.start <= after.end
        &&& a.subrange(last_a, before.start as int) == b.subrange(last_b, after.start as int)
        &&& unchanged_between(changes.drop_first(), a, b, before.end as int, after.end as int)
    }
}

/// `changes` is an edit script from `a` to `b`: replacing each change region of
/// `a` by the matching region of `b` turns `a` into `b`, and every token outside
/// the regions is kept.
pub open spec fn is_edit_script(changes: Seq<RangePair>, a: Seq<i32>, b: Seq<i32>) -> bool {
    unchanged_between(changes, a, b, 0, 0)
}

/// In an edit script, the unchanged stretches are equally long on both sides.
pub proof fn lemma_edit_script_balanced(
    changes: Seq<RangePair>,
    a: Seq<i32>,
    b: Seq<i32>,
    last_a: u32,
    last_b: u32,
)
    requires
        unchanged_between(changes, a, b, last_a as int, last_b as int),
        a.len() <= u32::MAX,
        b.len() <= u32::MAX,
    ensures
        last_a <= a.len(),
        last_b <= b.len(),
        gaps_balanced(changes, last_a, last_b, a.len() as u32, b.len() as u32),
    decreases changes.len(),
{
    if changes.len() > 0 {
        let before = changes[0].0;
        let after = changes[0].1;
        lemma_edit_script_balanced(changes.drop_first(), a, b, before.end, after.end);
        assert(a.subrange(last_a as int, before.start as int).len() == b.subrange(
            last_b as int,
            after.start as int,
        ).len());
    } else {
        assert(a.subrange(last_a as int, a.len() as int).len() == b.subrange(
            last_b as int,
            b.len() as int,
        ).len());
    }
}

/// Relies on `imara_diff::diff` with `Algorithm::Histogram` (imara-diff 0.1):
/// it passes the change regions to the sink in increasing order, the tokens
/// between them are unchanged (`Sink::process_change`), and the regions depend
/// on the two token sequences alone, since tokens are interned in order of
/// first appearance. It panics on inputs of `i32::MAX` tokens or more.
#[verifier::external_body]
pub(crate) fn histogram_diff(a: I32Slice, b: I32Slice) -> (r: Vec<RangePair>)
    requires
        a@.len() < i32::MAX,
        b@.len() < i32::MAX,
    ensures
        r@ == histogram_changes(a@, b@),
        is_edit_script(r@, a@, b@),
{
    let mut input = InternedInput::default();
    input.update_before(a.0.iter().copied());
    input.update_after(b.0.iter().copied());
    let mut collector = ChangeRangeCollector::new();
    diff(
        Algorithm::Histogram,
        &input,
        |before: Range<u32>, after: Range<u32>| collector.process_change(before, after),
    );
    collector.finish()
}

} // verus!
