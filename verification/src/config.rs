//! The user's settings, and the screen corner that the pet starts in.
use vstd::prelude::*;
use vstd::string::StringSliceAdditionalSpecFns;

verus! {

/// The settings read from the configuration file; a missing key takes its default.
pub struct Config {
    /// Sprite size multiplier: a 32 by 32 frame is shown at `32 * scale` pixels.
    pub scale: u32,
    /// Milliseconds per animation frame.
    pub anim_ms: u32,
    /// Starting corner: `bottom-right`, `bottom-left`, `top-right` or `top-left`.
    pub corner: String,
    /// How often the stretch animation fires, in seconds; 0 disables it.
    pub stretch_every_secs: u64,
    /// Milliseconds per frame of the stretch animation.
    pub stretch_anim_ms: u32,
    /// How long the last stretch frame holds before zooming out, in milliseconds.
    pub stretch_hold_ms: u32,
    /// How often the bounce animation fires, in seconds; 0 disables it.
    pub bounce_every_secs: u64,
    /// How often the lean animation fires, in seconds; 0 disables it.
    pub lean_every_secs: u64,
}

impl Default for Config {
    fn default() -> (c: Self)
        ensures
            c.scale == 3,
            c.anim_ms == 120,
            c.corner@ == "bottom-right"@,
            c.stretch_every_secs == 1800,
            c.stretch_anim_ms == 400,
            c.stretch_hold_ms == 1500,
            c.bounce_every_secs == 60,
            c.lean_every_secs == 45,
    {
        Config {
            scale: 3,
            anim_ms: 120,
            corner: "bottom-right".to_owned(),
            stretch_every_secs: 1800,
            stretch_anim_ms: 400,
            stretch_hold_ms: 1500,
            bounce_every_secs: 60,
            lean_every_secs: 45,
        }
    }
}

/// `needle` occurs in `hay` as a run of consecutive items.
pub open spec fn has_run<T>(hay: Seq<T>, needle: Seq<T>) -> bool {
    exists|i: int| 0 <= i && i + needle.len() <= hay.len() && #[trigger] hay.subrange(i, i + needle.len()) == needle
}

/// Whether `needle` occurs in `hay` at byte offset `i`.
fn run_at(hay: &[u8], needle: &[u8], i: usize) -> (res: bool)
    requires
        i + needle@.len() <= hay@.len(),
    ensures
        res == (hay@.subrange(i as int, i + needle@.len()) == needle@),
{
    let n = needle.len();
    let hl = hay.len();
    let mut k: usize = 0;
    while k < n
        invariant
            n == needle@.len(),
            hl == hay@.len(),
            i + n <= hay@.len(),
            k <= n,
            forall|j: int| 0 <= j < k ==> hay@[i + j] == needle@[j],
        decreases n - k,
    {
        if hay[i + k] != needle[k] {
            assert(hay@.subrange(i as int, i + n)[k as int] != needle@[k as int]);
            return false;
        }
        k += 1;
    }
    assert(hay@.subrange(i as int, i + n) =~= needle@);
    true
}

/// Whether the bytes of `needle` occur in the bytes of `hay`, as `str::contains` finds them.
pub fn contains_str(hay: &str, needle: &str) -> (res: bool)
    ensures
        res == has_run(hay.spec_bytes(), needle.spec_bytes()),
{
    let h = hay.as_bytes();
    let n = needle.as_bytes();
    let hl = h.len();
    let nl = n.len();
    if nl > hl {
        return false;
    }
    let mut i: usize = 0;
    while i < hl - nl
        invariant
            h@ == hay.spec_bytes(),
            n@ == needle.spec_bytes(),
            hl == h@.len(),
            nl == n@.len(),
            nl <= hl,
            i <= hl - nl,
            forall|j: int| 0 <= j < i ==> #[trigger] h@.subrange(j, j + nl) != n@,
        decreases hl - nl - i,
    {
        if run_at(h, n, i) {
            assert(h@.subrange(i as int, i + nl) == n@);
            return true;
        }
        i += 1;
    }
    let found = run_at(h, n, i);
    if found {
        assert(h@.subrange(i as int, i + nl) == n@);
    } else {
        assert forall|j: int| 0 <= j && j + nl <= hl implies #[trigger] h@.subrange(j, j + nl) != n@ by {
            if j == i as int {
            }
        }
    }
    found
}

/// Which edges the configured corner names: (`right` occurs in it, `top` occurs in it).
/// Any other corner text means the left and bottom edges.
pub fn corner_edges(corner: &str) -> (res: (bool, bool))
    ensures
        res.0 == has_run(corner.spec_bytes(), "right".spec_bytes()),
        res.1 == has_run(corner.spec_bytes(), "top".spec_bytes()),
{
    (contains_str(corner, "right"), contains_str(corner, "top"))
}

} // verus!
