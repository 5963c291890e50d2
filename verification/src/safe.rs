//! Safe-content markers and the filter pass. A marker is a line of `%`
//! characters (indent at most three spaces). The filter pass walks the
//! top-level blocks of a document in order, always removes the markers, and,
//! when filtering is enabled, also removes every block outside the
//! marker-delimited regions: visibility starts off and each marker toggles
//! it.

use vstd::prelude::*;

use crate::bytes::trim_bytes;
use crate::bytes::trim_spec;

verus! {

/// The marker byte, `%`.
pub const MARKER: u8 = 0x25;

/// True when the line is a safe-content marker: its indent is at most three
/// spaces and, after trimming whitespace, it is a non-empty run of `%`.
pub open spec fn marker_line_spec(line: Seq<u8>, indent: int) -> bool {
    &&& indent <= 3
    &&& trim_spec(line).len() > 0
    &&& forall|i: int| 0 <= i < trim_spec(line).len() ==> trim_spec(line)[i] == MARKER
}

/// Decides whether one logical input line is a safe-content marker.
pub fn is_marker_line(line: &[u8], indent: i32) -> (r: bool)
    ensures
        r == marker_line_spec(line@, indent as int),
{
    if indent > 3 {
        return false;
    }
    let t = trim_bytes(line);
    let n = t.len();
    if n == 0 {
        return false;
    }
    let mut i: usize = 0;
    while i < n
        invariant
            0 <= i <= n == trim_spec(line@).len(),
            t@ == trim_spec(line@),
            forall|j: int| 0 <= j < i ==> trim_spec(line@)[j] == MARKER,
        decreases n - i,
    {
        if t[i] != MARKER {
            return false;
        }
        i = i + 1;
    }
    true
}

/// The safety filter pass over the top-level blocks of a document.
/// When `enabled`, blocks outside the marker-delimited regions are removed
/// together with the markers; otherwise only the markers are removed.
pub struct FilterUnsafe {
    pub enabled: bool,
}

impl FilterUnsafe {
    /// Whether block `i` is visible, given which of the preceding top-level
    /// blocks were markers: visibility starts at `!enabled` and, when the
    /// pass is enabled, each marker toggles it.
    pub open spec fn visible_before(self, m: Seq<bool>, i: int) -> bool
        decreases i,
    {
        if i <= 0 {
            !self.enabled
        } else if m[i - 1] && self.enabled {
            !self.visible_before(m, i - 1)
        } else {
            self.visible_before(m, i - 1)
        }
    }

    /// Whether block `i` survives the pass: it is not a marker and it is
    /// visible where it stands.
    pub open spec fn keep_spec(self, m: Seq<bool>, i: int) -> bool {
        !m[i] && self.visible_before(m, i)
    }

    /// The whole keep mask of a document whose marker flags are `m`.
    pub open spec fn keep_seq(self, m: Seq<bool>) -> Seq<bool> {
        Seq::new(m.len(), |i: int| self.keep_spec(m, i))
    }

    /// Computes which top-level blocks survive, from the marker flags of
    /// the blocks in source order. No marker is ever kept.
    pub fn keep_mask(&self, markers: &Vec<bool>) -> (keep: Vec<bool>)
        ensures
            keep@.len() == markers@.len(),
            keep@ == self.keep_seq(markers@),
            forall|i: int| 0 <= i < keep@.len() ==> keep@[i] == self.keep_spec(markers@, i),
            forall|i: int| 0 <= i < keep@.len() && keep@[i] ==> !markers@[i],
    {
        let n = markers.len();
        let mut keep: Vec<bool> = Vec::new();
        let mut vis = !self.enabled;
        let mut i: usize = 0;
        while i < n
            invariant
                0 <= i <= n == markers@.len(),
                keep@.len() == i,
                vis == self.visible_before(markers@, i as int),
                forall|j: int| 0 <= j < i ==> keep@[j] == self.keep_spec(markers@, j),
            decreases n - i,
        {
            let is_marker = markers[i];
            keep.push(!is_marker && vis);
            if is_marker && self.enabled {
                vis = !vis;
            }
            i = i + 1;
            assert(vis == self.visible_before(markers@, i as int));
        }
        assert(keep@ =~= self.keep_seq(markers@));
        keep
    }
}

/// The blocks selected by a keep mask, in source order.
pub open spec fn mask_filter_spec<T>(xs: Seq<T>, keep: Seq<bool>) -> Seq<T>
    decreases xs.len(),
{
    if xs.len() == 0 {
        Seq::empty()
    } else if keep.len() == xs.len() && keep.first() {
        seq![xs.first()] + mask_filter_spec(xs.drop_first(), keep.drop_first())
    } else {
        mask_filter_spec(xs.drop_first(), keep.drop_first())
    }
}

/// Keeps exactly the elements whose mask entry is true, preserving the
/// relative order of the survivors. Removal runs from the tail towards the
/// head, so each removal shifts only elements that are themselves kept.
pub fn filter_by_mask<T>(xs: Vec<T>, keep: &Vec<bool>) -> (r: Vec<T>)
    requires
        xs@.len() == keep@.len(),
    ensures
        r@ == mask_filter_spec(xs@, keep@),
{
    let ghost orig = xs@;
    let n = xs.len();
    let mut r = xs;
    let mut i: usize = n;
    while i > 0
        invariant
            0 <= i <= n == orig.len() == keep@.len(),
            r@ =~= orig.subrange(0, i as int) + mask_filter_spec(
                orig.subrange(i as int, n as int),
                keep@.subrange(i as int, n as int),
            ),
        decreases i,
    {
        i = i - 1;
        proof {
            let xt = orig.subrange(i as int, n as int);
            let kt = keep@.subrange(i as int, n as int);
            assert(xt.drop_first() =~= orig.subrange(i + 1, n as int));
            assert(kt.drop_first() =~= keep@.subrange(i + 1, n as int));
            assert(xt.first() == orig[i as int]);
            assert(kt.first() == keep@[i as int]);
        }
        if !keep[i] {
            r.remove(i);
        }
        assert(r@ =~= orig.subrange(0, i as int) + mask_filter_spec(
            orig.subrange(i as int, n as int),
            keep@.subrange(i as int, n as int),
        ));
    }
    assert(orig.subrange(0, n as int) =~= orig);
    assert(keep@.subrange(0, n as int) =~= keep@);
    r
}

/// Every element selected by a mask satisfies whatever the mask guarantees
/// of the positions it selects. In particular, with a mask that never
/// selects a marker, no marker remains after filtering.
pub proof fn lemma_mask_filter_elements<T>(xs: Seq<T>, keep: Seq<bool>, p: spec_fn(T) -> bool)
    requires
        keep.len() == xs.len(),
        forall|i: int| 0 <= i < xs.len() && keep[i] ==> p(xs[i]),
    ensures
        forall|k: int|
            0 <= k < mask_filter_spec(xs, keep).len() ==> p(mask_filter_spec(xs, keep)[k]),
    decreases xs.len(),
{
    if xs.len() > 0 {
        assert(forall|i: int|
            0 <= i < xs.drop_first().len() && keep.drop_first()[i] ==> p(xs.drop_first()[i]));
        lemma_mask_filter_elements(xs.drop_first(), keep.drop_first(), p);
        let rest = mask_filter_spec(xs.drop_first(), keep.drop_first());
        if keep.len() == xs.len() && keep.first() {
            assert(p(xs[0]));
            assert(mask_filter_spec(xs, keep) == seq![xs.first()] + rest);
            assert(forall|k: int|
                0 <= k < mask_filter_spec(xs, keep).len() ==> p(mask_filter_spec(xs, keep)[k]));
        }
    }
}

/// After the filter pass no marker remains: filtering a block sequence
/// under its own marker flags leaves only blocks that are not markers,
/// whichever way the flag is set.
pub proof fn lemma_filter_removes_markers<T>(
    xs: Seq<T>,
    m: Seq<bool>,
    f: FilterUnsafe,
    is_marker: spec_fn(T) -> bool,
)
    requires
        m.len() == xs.len(),
        forall|i: int| 0 <= i < xs.len() ==> m[i] == is_marker(xs[i]),
    ensures
        forall|k: int|
            0 <= k < mask_filter_spec(xs, f.keep_seq(m)).len() ==> !is_marker(
                mask_filter_spec(xs, f.keep_seq(m))[k],
            ),
{
    lemma_mask_filter_elements(xs, f.keep_seq(m), |x: T| !is_marker(x));
}

/// The number of markers among the first `i` blocks.
pub open spec fn marker_count(m: Seq<bool>, i: int) -> int
    decreases i,
{
    if i <= 0 {
        0
    } else {
        marker_count(m, i - 1) + if m[i - 1] {
            1int
        } else {
            0int
        }
    }
}

/// With filtering enabled, a block is visible exactly when an odd number of
/// markers precede it: the document alternates hidden and shown regions.
pub proof fn lemma_visible_is_parity(m: Seq<bool>, i: int)
    requires
        0 <= i <= m.len(),
    ensures
        (FilterUnsafe { enabled: true }).visible_before(m, i) == (marker_count(m, i) % 2 == 1),
    decreases i,
{
    if i > 0 {
        lemma_visible_is_parity(m, i - 1);
    }
}

proof fn lemma_count_stable(m: Seq<bool>, i: int, k: int)
    requires
        0 <= i <= k <= m.len(),
        forall|j: int| i <= j < k ==> !m[j],
    ensures
        marker_count(m, k) == marker_count(m, i),
    decreases k - i,
{
    if i < k {
        lemma_count_stable(m, i, k - 1);
    }
}

/// With filtering enabled and an odd number of markers in the document,
/// every non-marker block after the last marker is kept: the trailing
/// region is emitted even though no closing marker follows it.
pub proof fn lemma_trailing_region_kept(m: Seq<bool>, i: int)
    requires
        0 <= i < m.len(),
        marker_count(m, m.len() as int) % 2 == 1,
        forall|j: int| i <= j < m.len() ==> !m[j],
    ensures
        (FilterUnsafe { enabled: true }).keep_spec(m, i),
{
    lemma_count_stable(m, i, m.len() as int);
    lemma_visible_is_parity(m, i);
}

/// With filtering disabled every non-marker block is kept: the pass only
/// erases the markers themselves.
pub proof fn lemma_disabled_keeps_content(m: Seq<bool>, i: int)
    requires
        0 <= i < m.len(),
        !m[i],
    ensures
        (FilterUnsafe { enabled: false }).keep_spec(m, i),
{
    lemma_disabled_visible(m, i);
}

proof fn lemma_disabled_visible(m: Seq<bool>, i: int)
    ensures
        (FilterUnsafe { enabled: false }).visible_before(m, i),
    decreases i,
{
    if i > 0 {
        lemma_disabled_visible(m, i - 1);
    }
}

/// A document with no top-level blocks filters to itself whichever way the
/// flag is set; a single visible block already separates the two settings.
pub proof fn lemma_empty_doc_flag_agnostic<T>(xs: Seq<T>, m: Seq<bool>)
    requires
        xs.len() == m.len(),
        xs.len() == 0,
    ensures
        ({
            let on = Seq::new(m.len(), |i: int| (FilterUnsafe { enabled: true }).keep_spec(m, i));
            let off = Seq::new(m.len(), |i: int| (FilterUnsafe { enabled: false }).keep_spec(m, i));
            mask_filter_spec(xs, on) == mask_filter_spec(xs, off)
        }),
{
}

} // verus!
