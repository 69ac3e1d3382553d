//! The rendering pipeline's bookkeeping: the revision-gated timeline cache
//! and the fixed-priority height allocation of the input box's sections.
use vstd::prelude::*;

verus! {

/// The cached formatted timeline, keyed by revision, viewport width and
/// compact flag.
pub struct RenderCache {
    /// Timeline revision the lines were computed from.
    pub revision: u64,
    /// Viewport width the lines were wrapped to.
    pub width: usize,
    /// Whether the compact view was active.
    pub compact: bool,
    /// The formatted lines.
    pub lines: Vec<String>,
}

/// Whether a lookup hits: never while loading, otherwise exactly when all
/// three key components are unchanged.
pub open spec fn spec_cache_hit(
    c: RenderCache,
    revision: u64,
    width: usize,
    compact: bool,
    loading: bool,
) -> bool {
    !loading && c.revision == revision && c.width == width && c.compact == compact
}

impl RenderCache {
    /// An empty cache that no lookup with a positive revision hits.
    pub fn new() -> (r: RenderCache)
        ensures
            r.revision == 0,
            r.width == 0,
            !r.compact,
            r.lines@.len() == 0,
    {
        RenderCache { revision: 0, width: 0, compact: false, lines: Vec::new() }
    }

    /// Decide whether the cached lines can be reused for this frame.
    pub fn lookup(&self, revision: u64, width: usize, compact: bool, loading: bool) -> (hit:
        bool)
        ensures
            hit == spec_cache_hit(*self, revision, width, compact, loading),
    {
        !loading && self.revision == revision && self.width == width && self.compact == compact
    }

    /// Replace the cached lines and their key.
    pub fn store(&mut self, revision: u64, width: usize, compact: bool, lines: Vec<String>)
        ensures
            final(self).revision == revision,
            final(self).width == width,
            final(self).compact == compact,
            final(self).lines == lines,
    {
        self.revision = revision;
        self.width = width;
        self.compact = compact;
        self.lines = lines;
    }
}

/// Law: rendering the same state twice at the same viewport width without
/// an intervening change hits the cache, unless the session is loading;
/// any change of revision, width or compact flag misses.
pub proof fn lemma_cache_round_trip(
    c: RenderCache,
    revision: u64,
    width: usize,
    compact: bool,
    revision2: u64,
    width2: usize,
    compact2: bool,
)
    requires
        c.revision == revision && c.width == width && c.compact == compact,
    ensures
        spec_cache_hit(c, revision, width, compact, false),
        !spec_cache_hit(c, revision, width, compact, true),
        revision2 != revision || width2 != width || compact2 != compact ==> !spec_cache_hit(
            c,
            revision2,
            width2,
            compact2,
            false,
        ),
{
}

/// One section's height after shrinking: cut down toward its minimum by at
/// most the overflow, never below it.
pub open spec fn spec_shrink(h: int, min: int, overflow: int) -> (int, int) {
    if h <= min || overflow <= 0 {
        (h, overflow)
    } else if overflow <= h - min {
        (h - overflow, 0)
    } else {
        (min, overflow - (h - min))
    }
}

/// The input box's section heights after fitting: the todo strip shrinks
/// first, then the overlay down to its minimum, then the input area down
/// to one row; the status section is never shrunk.
pub open spec fn spec_layout(
    avail: int,
    status: int,
    todo: int,
    overlay: int,
    overlay_min: int,
    input: int,
) -> (int, int, int) {
    let total = status + todo + overlay + input;
    if total <= avail {
        (todo, overlay, input)
    } else {
        let (t2, ov1) = spec_shrink(todo, 0, total - avail);
        let (o2, ov2) = spec_shrink(overlay, if overlay_min >= 1 {
            overlay_min
        } else {
            1
        }, ov1);
        let (i2, _) = spec_shrink(input, 1, ov2);
        (t2, o2, i2)
    }
}

/// Cut one section toward its minimum by at most the remaining overflow.
fn shrink_section(h: usize, min: usize, overflow: usize) -> (r: (usize, usize))
    ensures
        (r.0 as int, r.1 as int) == spec_shrink(h as int, min as int, overflow as int),
{
    if h <= min || overflow == 0 {
        (h, overflow)
    } else if overflow <= h - min {
        (h - overflow, 0)
    } else {
        (min, overflow - (h - min))
    }
}

/// Allocate the input box's section heights for this frame, shrinking in
/// the documented priority order when the sum exceeds the available rows.
pub fn layout_heights(
    avail: usize,
    status: usize,
    todo: usize,
    overlay: usize,
    overlay_min: usize,
    input: usize,
) -> (h: (usize, usize, usize))
    requires
        status + todo + overlay + input <= usize::MAX,
    ensures
        (h.0 as int, h.1 as int, h.2 as int) == spec_layout(
            avail as int,
            status as int,
            todo as int,
            overlay as int,
            overlay_min as int,
            input as int,
        ),
        h.0 <= todo,
        h.1 <= overlay,
        h.2 <= input,
{
    let total = status + todo + overlay + input;
    if total <= avail {
        return (todo, overlay, input);
    }
    let om = if overlay_min >= 1 {
        overlay_min
    } else {
        1
    };
    let (t2, ov1) = shrink_section(todo, 0, total - avail);
    let (o2, ov2) = shrink_section(overlay, om, ov1);
    let (i2, _) = shrink_section(input, 1, ov2);
    (t2, o2, i2)
}

} // verus!
