use vstd::prelude::*;

verus! {

/// How a texture is sampled between texels.
#[derive(Debug, Clone, Copy, PartialEq, Eq, Structural)]
pub enum FilterMode {
    Nearest,
    Linear,
}

/// The minification and magnification filters of a texture sampler.
#[derive(Debug, Clone, Copy, PartialEq, Eq, Structural)]
pub struct SamplerFilters {
    pub min_filter: FilterMode,
    pub mag_filter: FilterMode,
}

/// The filters a tileset texture is to get, where they must change: a texture that samples
/// other than nearest-neighbour, when minifying or when magnifying, would blend texels across
/// the edges of neighbouring tiles in the atlas, so it is set to nearest-neighbour on both
/// filters.
pub fn tileset_sampler_fix(current: SamplerFilters) -> (r: Option<SamplerFilters>)
    ensures
        (current.min_filter == FilterMode::Nearest && current.mag_filter == FilterMode::Nearest)
            ==> r is None,
        !(current.min_filter == FilterMode::Nearest && current.mag_filter == FilterMode::Nearest)
            ==> r == Some(
            SamplerFilters { min_filter: FilterMode::Nearest, mag_filter: FilterMode::Nearest },
        ),
{
    match (current.min_filter, current.mag_filter) {
        (FilterMode::Nearest, FilterMode::Nearest) => None,
        _ => Some(
            SamplerFilters { min_filter: FilterMode::Nearest, mag_filter: FilterMode::Nearest },
        ),
    }
}

/// How many of the first `n` textures have loaded.
pub open spec fn loaded_count(loaded: Seq<bool>, n: int) -> nat
    decreases n,
{
    if n <= 0 {
        0
    } else {
        loaded_count(loaded, n - 1) + if loaded[n - 1] {
            1nat
        } else {
            0nat
        }
    }
}

proof fn lemma_loaded_count_full(loaded: Seq<bool>, n: int)
    requires
        0 <= n <= loaded.len(),
    ensures
        loaded_count(loaded, n) <= n,
        loaded_count(loaded, n) == n <==> forall|i: int| 0 <= i < n ==> #[trigger] loaded[i],
    decreases n,
{
    if n > 0 {
        lemma_loaded_count_full(loaded, n - 1);
    }
}

/// Whether a map's tilesets are ready, given which of their textures have loaded: they are
/// when the loaded ones are all of them. Once a map is ready the readiness tracker leaves it.
pub fn tilesets_ready(loaded: &Vec<bool>) -> (r: bool)
    ensures
        r == (loaded_count(loaded@, loaded@.len() as int) == loaded@.len()),
        r == forall|i: int| 0 <= i < loaded@.len() ==> #[trigger] loaded@[i],
{
    let mut count: usize = 0;
    let mut i: usize = 0;
    while i < loaded.len()
        invariant
            i <= loaded@.len(),
            count == loaded_count(loaded@, i as int),
            count <= i,
        decreases loaded@.len() - i,
    {
        if loaded[i] {
            count += 1;
        }
        i += 1;
    }
    proof {
        lemma_loaded_count_full(loaded@, loaded@.len() as int);
    }
    count == loaded.len()
}

} // verus!
