//! Facts about the predictor that relate its inputs, windows and repeated calls.

use crate::nextchunk::{
    chunk_at,
    observed_window,
    predicted_chunk,
    reference_window,
    window_bounds,
    WindowConfig,
};
use crate::alignment::{is_edit_script, unchanged_between};
use crate::sink::{blocks_after, gap_block, match_blocks, RangePair};
use std::ops::Range;
use vstd::prelude::*;

verus! {

/// With nothing observed yet, the prediction is the first
/// `min(chunk_size, len)` tokens of a non-empty reference.
pub proof fn lemma_cold_start(
    reference: Seq<i32>,
    cfg: WindowConfig,
    chunk_size: int,
    changes: Seq<RangePair>,
)
    requires
        reference.len() > 0,
        chunk_size > 0,
    ensures
        predicted_chunk(reference, cfg, Seq::empty(), chunk_size, changes) == reference.take(
            if chunk_size < reference.len() {
                chunk_size
            } else {
                reference.len() as int
            },
        ),
{
}

/// An empty reference yields an empty prediction, whatever the other inputs.
pub proof fn lemma_empty_reference(
    cfg: WindowConfig,
    observed: Seq<i32>,
    chunk_size: int,
    changes: Seq<RangePair>,
)
    ensures
        predicted_chunk(Seq::empty(), cfg, observed, chunk_size, changes) == Seq::<i32>::empty(),
{
}

/// A window size below the threshold never turns windowing on: both whole
/// sequences are aligned, whatever their lengths.
pub proof fn lemma_no_windowing_below_threshold(cfg: WindowConfig, a_len: int, b_len: int)
    requires
        cfg.window_size < cfg.min_window_threshold,
    ensures
        !cfg.applies(b_len),
        window_bounds(cfg, a_len, b_len) == (0int, a_len, 0int),
{
}

/// A window size at or above the threshold turns windowing on once the observed
/// sequence is at least one window long: the observed window is then its last
/// `window_size` tokens, and the reference window lies inside the reference.
pub proof fn lemma_windowing_at_threshold(cfg: WindowConfig, a_len: int, b_len: int)
    requires
        cfg.window_size > 0,
        cfg.window_size >= cfg.min_window_threshold,
        b_len >= cfg.window_size,
        a_len >= 0,
    ensures
        cfg.applies(b_len),
        window_bounds(cfg, a_len, b_len).2 == b_len - cfg.window_size,
        0 <= window_bounds(cfg, a_len, b_len).0 <= window_bounds(cfg, a_len, b_len).1 <= a_len,
{
    assert(cfg.window_size * cfg.a_window_factor >= 0) by (nonlinear_arith);
}

/// Every prediction is a contiguous slice of the reference, taken at a position
/// of the whole reference, windowed or not.
pub proof fn lemma_chunk_is_reference_slice(
    reference: Seq<i32>,
    cfg: WindowConfig,
    observed: Seq<i32>,
    chunk_size: int,
    changes: Seq<RangePair>,
)
    requires
        chunk_size >= 0,
    ensures
        ({
            let r = predicted_chunk(reference, cfg, observed, chunk_size, changes);
            exists|start: int|
                0 <= start && start + r.len() <= reference.len() && r == #[trigger] reference.subrange(
                    start,
                    start + r.len(),
                )
        }),
{
    let r = predicted_chunk(reference, cfg, observed, chunk_size, changes);
    let n = reference.len() as int;
    assert(cfg.window_size * cfg.a_window_factor >= 0) by (nonlinear_arith);
    if r.len() == 0 {
        assert(r =~= reference.subrange(0int, 0int + r.len()));
    } else {
        let bounds = window_bounds(cfg, n, observed.len() as int);
        let b_len = observed.len() - bounds.2;
        let blocks = match_blocks(changes, (bounds.1 - bounds.0) as u32, b_len as u32);
        if b_len == 0 || blocks.len() == 0 {
            assert(r =~= reference.subrange(0int, 0int + r.len()));
        } else {
            let start = bounds.0 + blocks.last().0.end as int;
            assert(0 <= bounds.0);
            assert(start < n);
            assert(r == chunk_at(reference, start, chunk_size));
            assert(r =~= reference.subrange(start, start + r.len()));
        }
    }
}

/// The block `blk` pairs two equal, equally long stretches of `a` and `b`.
pub open spec fn block_matches(blk: RangePair, a: Seq<i32>, b: Seq<i32>) -> bool {
    &&& blk.0.start <= blk.0.end <= a.len()
    &&& blk.1.start <= blk.1.end <= b.len()
    &&& a.subrange(blk.0.start as int, blk.0.end as int) == b.subrange(
        blk.1.start as int,
        blk.1.end as int,
    )
}

/// Every matching block derived from an edit script pairs equal stretches.
pub proof fn lemma_blocks_match(
    changes: Seq<RangePair>,
    a: Seq<i32>,
    b: Seq<i32>,
    last_a: u32,
    last_b: u32,
)
    requires
        unchanged_between(changes, a, b, last_a as int, last_b as int),
        a.len() <= u32::MAX,
        b.len() <= u32::MAX,
    ensures
        last_a <= a.len(),
        last_b <= b.len(),
        forall|i: int|
            0 <= i < blocks_after(changes, last_a, last_b, a.len() as u32, b.len() as u32).len()
                ==> block_matches(
                #[trigger] blocks_after(changes, last_a, last_b, a.len() as u32, b.len() as u32)[i],
                a,
                b,
            ),
    decreases changes.len(),
{
    let blocks = blocks_after(changes, last_a, last_b, a.len() as u32, b.len() as u32);
    if changes.len() > 0 {
        let before = changes[0].0;
        let after = changes[0].1;
        let rest = blocks_after(changes.drop_first(), before.end, after.end, a.len() as u32, b.len() as u32);
        let g = gap_block(last_a, before.start, last_b, after.start);
        lemma_blocks_match(changes.drop_first(), a, b, before.end, after.end);
        assert forall|i: int| 0 <= i < blocks.len() implies block_matches(#[trigger] blocks[i], a, b) by {
            if i < g.len() {
                assert(blocks[i] == g[i]);
            } else {
                assert(blocks[i] == rest[i - g.len()]);
            }
        }
    }
}

/// When windowing applies and the alignment reports an edit script, a
/// non-empty prediction starts, in the whole reference, right after a token
/// equal to the last observed token: the resume position is global, not
/// relative to the window.
pub proof fn lemma_windowed_resume_is_global(
    reference: Seq<i32>,
    cfg: WindowConfig,
    observed: Seq<i32>,
    chunk_size: int,
    changes: Seq<RangePair>,
)
    requires
        reference.len() <= u32::MAX,
        observed.len() <= u32::MAX,
        chunk_size > 0,
        cfg.applies(observed.len() as int),
        is_edit_script(
            changes,
            reference_window(reference, cfg, observed),
            observed_window(reference, cfg, observed),
        ),
        predicted_chunk(reference, cfg, observed, chunk_size, changes).len() > 0,
    ensures
        ({
            let r = predicted_chunk(reference, cfg, observed, chunk_size, changes);
            exists|start: int|
                1 <= start && start + r.len() <= reference.len() && r == #[trigger] reference.subrange(
                    start,
                    start + r.len(),
                ) && reference[start - 1] == observed.last()
        }),
{
    let r = predicted_chunk(reference, cfg, observed, chunk_size, changes);
    let n = reference.len() as int;
    let bounds = window_bounds(cfg, n, observed.len() as int);
    lemma_windowing_at_threshold(cfg, n, observed.len() as int);
    let aw = reference_window(reference, cfg, observed);
    let bw = observed_window(reference, cfg, observed);
    let b_len = observed.len() - bounds.2;
    let blocks = match_blocks(changes, aw.len() as u32, bw.len() as u32);
    assert(aw.len() == bounds.1 - bounds.0);
    assert(bw.len() == b_len);
    lemma_blocks_match(changes, aw, bw, 0, 0);
    let last = blocks.last();
    assert(block_matches(blocks[blocks.len() - 1], aw, bw));
    let sa = aw.subrange(last.0.start as int, last.0.end as int);
    let sb = bw.subrange(last.1.start as int, last.1.end as int);
    assert(sa.len() == sb.len());
    assert(last.1.end == b_len);
    assert(last.0.start < last.0.end || last.1.start < last.1.end) by {
        lemma_blocks_nonempty(changes, 0, 0, aw.len() as u32, bw.len() as u32);
    }
    assert(sa[sa.len() - 1] == sb[sb.len() - 1]);
    let start = bounds.0 + last.0.end as int;
    assert(reference[start - 1] == aw[last.0.end - 1]);
    assert(observed.last() == bw[b_len - 1]);
    assert(r =~= reference.subrange(start, start + r.len()));
}

/// Every derived matching block is non-empty on one side at least.
proof fn lemma_blocks_nonempty(
    changes: Seq<RangePair>,
    last_a: u32,
    last_b: u32,
    total_a: u32,
    total_b: u32,
)
    ensures
        forall|i: int|
            0 <= i < blocks_after(changes, last_a, last_b, total_a, total_b).len() ==> ({
                let blk = #[trigger] blocks_after(changes, last_a, last_b, total_a, total_b)[i];
                blk.0.start < blk.0.end || blk.1.start < blk.1.end
            }),
    decreases changes.len(),
{
    let blocks = blocks_after(changes, last_a, last_b, total_a, total_b);
    if changes.len() > 0 {
        let before = changes[0].0;
        let after = changes[0].1;
        let rest = blocks_after(changes.drop_first(), before.end, after.end, total_a, total_b);
        let g = gap_block(last_a, before.start, last_b, after.start);
        lemma_blocks_nonempty(changes.drop_first(), before.end, after.end, total_a, total_b);
        assert forall|i: int| 0 <= i < blocks.len() implies ({
            let blk = #[trigger] blocks[i];
            blk.0.start < blk.0.end || blk.1.start < blk.1.end
        }) by {
            if i < g.len() {
                assert(blocks[i] == g[i]);
            } else {
                assert(blocks[i] == rest[i - g.len()]);
            }
        }
    }
}

/// The change regions of a reference of `a_len` tokens against its first
/// `b_len` tokens, when the alignment matches the prefix to itself: the rest
/// of the reference is one deletion.
pub open spec fn prefix_changes(a_len: u32, b_len: u32) -> Seq<RangePair> {
    if b_len < a_len {
        seq![(Range { start: b_len, end: a_len }, Range { start: b_len, end: b_len })]
    } else {
        Seq::empty()
    }
}

/// When the observed tokens are the first `k` tokens of the reference, no
/// windowing applies and the alignment matches that prefix to itself, the
/// prediction is the reference from `k` on: empty once `k` is its length.
pub proof fn lemma_prefix_prediction(
    reference: Seq<i32>,
    cfg: WindowConfig,
    k: int,
    chunk_size: int,
)
    requires
        0 <= k <= reference.len() <= u32::MAX,
        chunk_size > 0,
        !cfg.applies(k),
    ensures
        predicted_chunk(
            reference,
            cfg,
            reference.take(k),
            chunk_size,
            prefix_changes(reference.len() as u32, k as u32),
        ) == chunk_at(reference, k, chunk_size),
{
    let n = reference.len() as int;
    if n > 0 && k > 0 {
        let changes = prefix_changes(n as u32, k as u32);
        let blocks = match_blocks(changes, n as u32, k as u32);
        if k < n {
            assert(changes.drop_first() =~= Seq::<RangePair>::empty());
            assert(changes[0].0.end == n as u32);
            assert(blocks_after(changes.drop_first(), n as u32, k as u32, n as u32, k as u32)
                =~= Seq::<RangePair>::empty());
            assert(blocks =~= seq![(Range { start: 0u32, end: k as u32 }, Range { start: 0u32, end: k as u32 })]);
        } else {
            assert(changes =~= Seq::<RangePair>::empty());
            assert(blocks =~= seq![(Range { start: 0u32, end: n as u32 }, Range { start: 0u32, end: n as u32 })]);
            assert(chunk_at(reference, k, chunk_size) =~= Seq::<i32>::empty());
        }
    } else if n == 0 {
        assert(chunk_at(reference, k, chunk_size) =~= Seq::<i32>::empty());
    }
}

/// The observed sequence after `steps` rounds of appending the prediction to
/// it, with `align` as the alignment of the reference window against the
/// observed window.
pub open spec fn after_rounds(
    reference: Seq<i32>,
    cfg: WindowConfig,
    chunk_size: int,
    align: spec_fn(Seq<i32>, Seq<i32>) -> Seq<RangePair>,
    observed: Seq<i32>,
    steps: nat,
) -> Seq<i32>
    decreases steps,
{
    if steps == 0 {
        observed
    } else {
        let chunk = predicted_chunk(
            reference,
            cfg,
            observed,
            chunk_size,
            align(
                reference_window(reference, cfg, observed),
                observed_window(reference, cfg, observed),
            ),
        );
        after_rounds(reference, cfg, chunk_size, align, observed + chunk, (steps - 1) as nat)
    }
}

/// Rounds of appending the prediction, starting from the first `k` tokens,
/// extend the prefix by `chunk_size` tokens each, up to the whole reference.
proof fn lemma_rounds_extend_prefix(
    reference: Seq<i32>,
    cfg: WindowConfig,
    chunk_size: int,
    align: spec_fn(Seq<i32>, Seq<i32>) -> Seq<RangePair>,
    k: int,
    steps: nat,
)
    requires
        reference.len() <= u32::MAX,
        chunk_size > 0,
        0 <= k <= reference.len(),
        forall|j: int| 0 <= j <= reference.len() ==> !#[trigger] cfg.applies(j),
        forall|j: int|
            0 <= j <= reference.len() ==> #[trigger] align(reference, reference.take(j))
                == prefix_changes(reference.len() as u32, j as u32),
    ensures
        after_rounds(reference, cfg, chunk_size, align, reference.take(k), steps) == reference.take(
            if k + steps * chunk_size < reference.len() {
                k + steps * chunk_size
            } else {
                reference.len() as int
            },
        ),
    decreases steps,
{
    let n = reference.len() as int;
    if steps > 0 {
        let observed = reference.take(k);
        assert(!cfg.applies(k));
        assert(reference_window(reference, cfg, observed) =~= reference);
        assert(observed_window(reference, cfg, observed) =~= observed);
        assert(align(reference, reference.take(k)) == prefix_changes(n as u32, k as u32));
        lemma_prefix_prediction(reference, cfg, k, chunk_size);
        let next = if k + chunk_size < n {
            k + chunk_size
        } else {
            n
        };
        assert(observed + chunk_at(reference, k, chunk_size) =~= reference.take(next));
        let chunk = predicted_chunk(
            reference,
            cfg,
            observed,
            chunk_size,
            align(
                reference_window(reference, cfg, observed),
                observed_window(reference, cfg, observed),
            ),
        );
        assert(chunk == chunk_at(reference, k, chunk_size));
        assert(after_rounds(reference, cfg, chunk_size, align, observed, steps) == after_rounds(
            reference,
            cfg,
            chunk_size,
            align,
            reference.take(next),
            (steps - 1) as nat,
        ));
        lemma_rounds_extend_prefix(reference, cfg, chunk_size, align, next, (steps - 1) as nat);
        assert((steps - 1) * chunk_size + chunk_size == steps * chunk_size) by (nonlinear_arith);
        assert((steps - 1) * chunk_size >= 0) by (nonlinear_arith)
            requires
                steps >= 1,
                chunk_size > 0,
        ;
    } else {
        assert(steps * chunk_size == 0) by (nonlinear_arith)
            requires
                steps == 0,
        ;
    }
}

/// Starting from nothing observed, with no windowing and an alignment that
/// matches every prefix of the reference to itself, appending the prediction
/// `ceil(len / chunk_size)` times or more yields the whole reference, and the
/// prediction for the whole reference is empty.
pub proof fn lemma_rounds_converge(
    reference: Seq<i32>,
    cfg: WindowConfig,
    chunk_size: int,
    align: spec_fn(Seq<i32>, Seq<i32>) -> Seq<RangePair>,
    steps: nat,
)
    requires
        reference.len() <= u32::MAX,
        chunk_size > 0,
        forall|j: int| 0 <= j <= reference.len() ==> !#[trigger] cfg.applies(j),
        forall|j: int|
            0 <= j <= reference.len() ==> #[trigger] align(reference, reference.take(j))
                == prefix_changes(reference.len() as u32, j as u32),
        steps >= (reference.len() + chunk_size - 1) / chunk_size,
    ensures
        after_rounds(reference, cfg, chunk_size, align, Seq::empty(), steps) == reference,
        predicted_chunk(
            reference,
            cfg,
            reference,
            chunk_size,
            align(
                reference_window(reference, cfg, reference),
                observed_window(reference, cfg, reference),
            ),
        ) == Seq::<i32>::empty(),
{
    let n = reference.len() as int;
    assert(reference.take(0) =~= Seq::<i32>::empty());
    lemma_rounds_extend_prefix(reference, cfg, chunk_size, align, 0, steps);
    assert(steps * chunk_size >= n) by (nonlinear_arith)
        requires
            steps >= (n + chunk_size - 1) / chunk_size,
            chunk_size > 0,
            n >= 0,
    ;
    assert(reference.take(n) =~= reference);
    assert(!cfg.applies(n));
    assert(reference_window(reference, cfg, reference) =~= reference);
    assert(observed_window(reference, cfg, reference) =~= reference);
    lemma_prefix_prediction(reference, cfg, n, chunk_size);
    assert(chunk_at(reference, n, chunk_size) =~= Seq::<i32>::empty());
}

} // verus!
