//! The windowed alignment predictor: proposes the next chunk of a reference
//! sequence from the tokens observed so far.

use crate::alignment::{
    histogram_changes,
    histogram_diff,
    lemma_edit_script_balanced,
};
use crate::sink::{extract_matches, gaps_balanced, match_blocks, RangePair};
use crate::source::I32Slice;
use vstd::prelude::*;
use vstd::slice::slice_subrange;

verus! {

/// Windowing starts only once the window size reaches this many tokens.
pub const MIN_WINDOW_THRESHOLD: usize = 100;

/// The reference window is this many window sizes wide.
pub const A_WINDOW_FACTOR: usize = 3;

/// The default window size is the reference length divided by this.
pub const WINDOW_DIVISOR: usize = 15;

/// How the predictor trims its inputs before aligning them.
#[derive(Clone, Copy, Debug, PartialEq, Eq, Structural)]
pub struct WindowConfig {
    /// Number of most recent observed tokens kept in a window.
    pub window_size: usize,
    /// Smallest window size for which windowing is used at all.
    pub min_window_threshold: usize,
    /// Width of the reference window, in multiples of `window_size`.
    pub a_window_factor: usize,
}

/// The default window size for a reference of `len` tokens.
pub open spec fn default_window_size(len: int) -> int {
    if len == 0 {
        0
    } else if len / WINDOW_DIVISOR as int >= 1 {
        len / WINDOW_DIVISOR as int
    } else {
        1
    }
}

/// The default configuration for a reference of `len` tokens.
pub open spec fn default_config(len: int) -> WindowConfig {
    WindowConfig {
        window_size: default_window_size(len) as usize,
        min_window_threshold: MIN_WINDOW_THRESHOLD,
        a_window_factor: A_WINDOW_FACTOR,
    }
}

impl WindowConfig {
    /// Whether an observed sequence of `b_len` tokens is aligned through windows.
    pub open spec fn applies(self, b_len: int) -> bool {
        &&& b_len > 0
        &&& self.window_size > 0
        &&& self.window_size >= self.min_window_threshold
        &&& b_len >= self.window_size
    }

    /// The default configuration for a reference of `reference_len` tokens.
    pub fn default_for(reference_len: usize) -> (r: WindowConfig)
        ensures
            r == default_config(reference_len as int),
    {
        let window_size = if reference_len == 0 {
            0
        } else if reference_len / WINDOW_DIVISOR >= 1 {
            reference_len / WINDOW_DIVISOR
        } else {
            1
        };
        WindowConfig {
            window_size,
            min_window_threshold: MIN_WINDOW_THRESHOLD,
            a_window_factor: A_WINDOW_FACTOR,
        }
    }

    /// Whether an observed sequence of `b_len` tokens is aligned through windows.
    pub fn is_active_for(&self, b_len: usize) -> (r: bool)
        ensures
            r == self.applies(b_len as int),
    {
        b_len > 0 && self.window_size > 0 && self.window_size >= self.min_window_threshold
            && b_len >= self.window_size
    }
}

/// The aligned windows, as (start in the reference, end in the reference,
/// start in the observed sequence); the observed window runs to its end.
pub open spec fn window_bounds(cfg: WindowConfig, a_len: int, b_len: int) -> (int, int, int) {
    if cfg.applies(b_len) {
        let w = cfg.window_size as int;
        let trim = b_len - w;
        let lo = if trim > w {
            trim - w
        } else {
            0
        };
        let hi = if lo + w * cfg.a_window_factor < a_len {
            lo + w * cfg.a_window_factor
        } else {
            a_len
        };
        (
            if lo < hi {
                lo
            } else {
                hi
            },
            hi,
            trim,
        )
    } else {
        (0, a_len, 0)
    }
}

/// The part of the reference that is aligned.
pub open spec fn reference_window(reference: Seq<i32>, cfg: WindowConfig, observed: Seq<i32>) -> Seq<
    i32,
> {
    let bounds = window_bounds(cfg, reference.len() as int, observed.len() as int);
    reference.subrange(bounds.0, bounds.1)
}

/// The part of the observed sequence that is aligned.
pub open spec fn observed_window(reference: Seq<i32>, cfg: WindowConfig, observed: Seq<i32>) -> Seq<
    i32,
> {
    let bounds = window_bounds(cfg, reference.len() as int, observed.len() as int);
    observed.subrange(bounds.2, observed.len() as int)
}

/// At most `chunk_size` tokens of `reference` from `start` on.
pub open spec fn chunk_at(reference: Seq<i32>, start: int, chunk_size: int) -> Seq<i32> {
    reference.subrange(
        start,
        if start + chunk_size < reference.len() {
            start + chunk_size
        } else {
            reference.len() as int
        },
    )
}

/// The chunk proposed for `observed`, given the change regions `changes` that
/// the alignment reports for the reference window against the observed window.
pub open spec fn predicted_chunk(
    reference: Seq<i32>,
    cfg: WindowConfig,
    observed: Seq<i32>,
    chunk_size: int,
    changes: Seq<RangePair>,
) -> Seq<i32> {
    let n = reference.len() as int;
    if n == 0 || chunk_size == 0 {
        Seq::empty()
    } else {
        let bounds = window_bounds(cfg, n, observed.len() as int);
        let b_len = observed.len() - bounds.2;
        if b_len == 0 {
            chunk_at(reference, 0, chunk_size)
        } else {
            let blocks = match_blocks(changes, (bounds.1 - bounds.0) as u32, b_len as u32);
            if blocks.len() == 0 {
                if cfg.applies(observed.len() as int) {
                    Seq::empty()
                } else {
                    chunk_at(reference, 0, chunk_size)
                }
            } else if blocks.last().1.end as int != b_len {
                Seq::empty()
            } else if bounds.0 + blocks.last().0.end as int >= n {
                Seq::empty()
            } else {
                chunk_at(reference, bounds.0 + blocks.last().0.end as int, chunk_size)
            }
        }
    }
}

/// Predicts the next chunk of a fixed reference sequence.
pub struct StreamNextChunk {
    a: Vec<i32>,
    config: WindowConfig,
}

impl StreamNextChunk {
    /// The reference sequence.
    pub closed spec fn spec_reference(&self) -> Seq<i32> {
        self.a@
    }

    /// The window configuration.
    pub closed spec fn spec_config(&self) -> WindowConfig {
        self.config
    }

    /// A predictor over `a_slice` with the default window configuration.
    pub fn new(a_slice: &[i32]) -> (r: Self)
        ensures
            r.spec_reference() == a_slice@,
            r.spec_config() == default_config(a_slice@.len() as int),
    {
        let a = vstd::slice::slice_to_vec(a_slice);
        let config = WindowConfig::default_for(a.len());
        StreamNextChunk { a, config }
    }

    /// A predictor over `a_slice` with the window configuration `config`.
    pub fn with_config(a_slice: &[i32], config: WindowConfig) -> (r: Self)
        ensures
            r.spec_reference() == a_slice@,
            r.spec_config() == config,
    {
        StreamNextChunk { a: vstd::slice::slice_to_vec(a_slice), config }
    }

    /// The reference sequence.
    pub fn reference(&self) -> (r: &[i32])
        ensures
            r@ == self.spec_reference(),
    {
        self.a.as_slice()
    }

    /// The window configuration.
    pub fn config(&self) -> (r: WindowConfig)
        ensures
            r == self.spec_config(),
    {
        self.config
    }

    fn window_bounds(&self, b_len: usize) -> (r: (usize, usize, usize))
        ensures
            r.0 as int == window_bounds(self.config, self.a@.len() as int, b_len as int).0,
            r.1 as int == window_bounds(self.config, self.a@.len() as int, b_len as int).1,
            r.2 as int == window_bounds(self.config, self.a@.len() as int, b_len as int).2,
            r.0 <= r.1 <= self.a@.len(),
            r.2 <= b_len,
    {
        let n = self.a.len();
        if self.config.is_active_for(b_len) {
            let w = self.config.window_size;
            let trim = b_len - w;
            let lo = trim.saturating_sub(w);
            let hi = match w.checked_mul(self.config.a_window_factor) {
                Some(span) => if lo < n && span < n - lo {
                    lo + span
                } else {
                    n
                },
                None => n,
            };
            let lo_final = if lo < hi {
                lo
            } else {
                hi
            };
            (lo_final, hi, trim)
        } else {
            (0, n, 0)
        }
    }

    /// At most `chunk_size` tokens of the reference from `start` on.
    fn chunk_at(&self, start: usize, chunk_size: usize) -> (r: &[i32])
        requires
            start <= self.a@.len(),
        ensures
            r@ == chunk_at(self.a@, start as int, chunk_size as int),
    {
        let n = self.a.len();
        let end = if chunk_size < n - start {
            start + chunk_size
        } else {
            n
        };
        slice_subrange(self.a.as_slice(), start, end)
    }

    /// The chunk proposed for `current_b`, from the change regions `changes`
    /// that an alignment reported for the reference window against the
    /// observed window.
    pub fn next_chunk_from_changes(
        &self,
        current_b: &[i32],
        chunk_size: usize,
        changes: &Vec<RangePair>,
    ) -> (r: &[i32])
        requires
            self.spec_reference().len() <= u32::MAX,
            current_b@.len() <= u32::MAX,
            gaps_balanced(
                changes@,
                0,
                0,
                reference_window(self.spec_reference(), self.spec_config(), current_b@).len() as u32,
                observed_window(self.spec_reference(), self.spec_config(), current_b@).len() as u32,
            ),
        ensures
            r@ == predicted_chunk(
                self.spec_reference(),
                self.spec_config(),
                current_b@,
                chunk_size as int,
                changes@,
            ),
    {
        let n = self.a.len();
        if n == 0 || chunk_size == 0 {
            return slice_subrange(self.a.as_slice(), 0, 0);
        }
        let (lo, hi, b_lo) = self.window_bounds(current_b.len());
        let source_a = I32Slice(slice_subrange(self.a.as_slice(), lo, hi));
        let source_b = I32Slice(slice_subrange(current_b, b_lo, current_b.len()));
        let a_len = source_a.estimate_tokens();
        let b_len = source_b.estimate_tokens();
        if b_len == 0 {
            return self.chunk_at(0, chunk_size);
        }
        let matches = extract_matches(changes, a_len, b_len);
        if matches.len() == 0 {
            if self.config.is_active_for(current_b.len()) {
                return slice_subrange(self.a.as_slice(), 0, 0);
            } else {
                return self.chunk_at(0, chunk_size);
            }
        }
        let last = matches.len() - 1;
        if matches[last].1.end != b_len {
            return slice_subrange(self.a.as_slice(), 0, 0);
        }
        let offset_in_window = matches[last].0.end as usize;
        if offset_in_window >= n - lo {
            return slice_subrange(self.a.as_slice(), 0, 0);
        }
        self.chunk_at(lo + offset_in_window, chunk_size)
    }

    /// The chunk proposed for `current_b`: the reference window and the
    /// observed window are aligned with the histogram diff, and the chunk
    /// resumes the reference after the last matching block.
    pub fn next_chunk(&self, current_b: &[i32], chunk_size: usize) -> (r: &[i32])
        requires
            self.spec_reference().len() < i32::MAX,
            current_b@.len() < i32::MAX,
        ensures
            r@ == predicted_chunk(
                self.spec_reference(),
                self.spec_config(),
                current_b@,
                chunk_size as int,
                histogram_changes(
                    reference_window(self.spec_reference(), self.spec_config(), current_b@),
                    observed_window(self.spec_reference(), self.spec_config(), current_b@),
                ),
            ),
    {
        let n = self.a.len();
        if n == 0 || chunk_size == 0 {
            return slice_subrange(self.a.as_slice(), 0, 0);
        }
        let (lo, hi, b_lo) = self.window_bounds(current_b.len());
        let source_a = I32Slice(slice_subrange(self.a.as_slice(), lo, hi));
        let source_b = I32Slice(slice_subrange(current_b, b_lo, current_b.len()));
        if source_b.tokens().len() == 0 {
            return self.chunk_at(0, chunk_size);
        }
        let changes = histogram_diff(source_a, source_b);
        proof {
            lemma_edit_script_balanced(changes@, source_a@, source_b@, 0, 0);
        }
        self.next_chunk_from_changes(current_b, chunk_size, &changes)
    }
}

} // verus!
