use vstd::prelude::*;

verus! {

/// How deep a ray may go: a ray from the camera has depth 0, and every
/// reflection or refraction is one deeper than the ray that caused it.
pub const MAX_DEPTH: u8 = 5;

/// How many more levels of rays can follow from a ray at `depth`, the ray
/// itself counted: none once the ray is deeper than `max_depth`.
pub open spec fn levels_left(depth: int, max_depth: int) -> nat {
    if depth > max_depth {
        0
    } else {
        (max_depth - depth + 1) as nat
    }
}

/// The depths of the rays that a hit sends on, where it sends any.
#[derive(Debug, Clone, Copy, PartialEq, Eq)]
pub struct Bounces {
    /// The depth of the reflected ray, if the surface reflects.
    pub reflect: Option<u8>,
    /// The depth of the refracted ray, if the surface refracts.
    pub refract: Option<u8>,
}

/// Tells whether a ray at `depth` is cut off: it is not traced, and counts as
/// the fixed gray.
pub fn cut_off(depth: u8, max_depth: u8) -> (stop: bool)
    ensures
        stop == (depth > max_depth),
        stop == (levels_left(depth as int, max_depth as int) == 0),
{
    depth > max_depth
}

/// The rays that follow from a hit of a ray at `depth`: one for a reflecting
/// surface, one for a refracting one, each a level deeper and so with fewer
/// levels left.
pub fn bounces(depth: u8, max_depth: u8, reflective: bool, refractive: bool) -> (next: Bounces)
    requires
        depth <= max_depth,
        depth < u8::MAX,
    ensures
        next.reflect == if reflective {
            Some((depth + 1) as u8)
        } else {
            None
        },
        next.refract == if refractive {
            Some((depth + 1) as u8)
        } else {
            None
        },
        levels_left(depth + 1, max_depth as int) < levels_left(depth as int, max_depth as int),
{
    let deeper: u8 = depth + 1;
    Bounces {
        reflect: if reflective {
            Some(deeper)
        } else {
            None
        },
        refract: if refractive {
            Some(deeper)
        } else {
            None
        },
    }
}

/// Rays end: a chain of rays, each caused by the one before it and none of
/// them cut off, is no longer than `max_depth + 1` when it starts at the
/// camera.
pub proof fn lemma_chain_ends(chain: Seq<u8>, max_depth: u8)
    requires
        chain.len() > 0,
        chain[0] == 0,
        forall|i: int| 0 <= i < chain.len() ==> #[trigger] chain[i] <= max_depth,
        forall|i: int| 0 <= i < chain.len() - 1 ==> #[trigger] chain[i + 1] == chain[i] + 1,
    ensures
        chain.len() <= max_depth + 1,
{
    lemma_chain_counts(chain, chain.len() - 1);
}

/// In a chain that starts at the camera, ray number `i` has depth `i`.
proof fn lemma_chain_counts(chain: Seq<u8>, i: int)
    requires
        0 <= i < chain.len(),
        chain[0] == 0,
        forall|i: int| 0 <= i < chain.len() - 1 ==> #[trigger] chain[i + 1] == chain[i] + 1,
    ensures
        chain[i] == i,
    decreases i,
{
    if i > 0 {
        lemma_chain_counts(chain, i - 1);
        assert(chain[(i - 1) + 1] == chain[i - 1] + 1);
    }
}

} // verus!
