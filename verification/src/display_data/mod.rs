//! Display data layer: structures derived from chart data for one viewport,
//! and a cache that rebuilds them only when the viewport changes enough.

pub mod footprint;
pub mod heatmap;

use crate::market::{ChartBasis, LodLevel, ViewportBounds};
use vstd::prelude::*;

verus! {

/// Cache key for display data invalidation: display data is rebuilt only
/// when this key changes significantly.
#[derive(Clone, Copy, Debug, Eq, Hash)]
pub struct DisplayCacheKey {
    /// Chart basis (time or tick).
    pub basis: ChartBasis,
    /// Viewport time range.
    pub time_range: (u64, u64),
    /// Viewport price range (in units).
    pub price_range: (i64, i64),
    /// LOD level.
    pub lod_level: LodLevel,
    /// Scaling factor times 1000.
    pub scaling_key: u32,
    /// Cell width and height times 100.
    pub cell_key: (u32, u32),
}

impl PartialEq for DisplayCacheKey {
    fn eq(&self, other: &Self) -> (r: bool) {
        self.basis == other.basis && self.time_range.0 == other.time_range.0 && self.time_range.1
            == other.time_range.1 && self.price_range.0 == other.price_range.0
            && self.price_range.1 == other.price_range.1 && self.lod_level == other.lod_level
            && self.scaling_key == other.scaling_key && self.cell_key.0 == other.cell_key.0
            && self.cell_key.1 == other.cell_key.1
    }
}

impl vstd::std_specs::cmp::PartialEqSpecImpl for DisplayCacheKey {
    open spec fn obeys_eq_spec() -> bool {
        true
    }

    open spec fn eq_spec(&self, other: &DisplayCacheKey) -> bool {
        *self == *other
    }
}

/// Tolerance, in thousandths, under which the cache reuses data.
pub const CACHE_TOLERANCE_PERMILLE: u32 = 200;

/// Length of the overlap of the two time ranges.
pub open spec fn time_overlap(a: (u64, u64), b: (u64, u64)) -> int {
    let start = if a.0 >= b.0 { a.0 } else { b.0 };
    let end = if a.1 <= b.1 { a.1 } else { b.1 };
    if end > start {
        end - start
    } else {
        0
    }
}

impl DisplayCacheKey {
    /// Key of a viewport, with its scaling times 1000 and its cell width
    /// and height times 100.
    pub fn from_viewport(
        basis: ChartBasis,
        bounds: &ViewportBounds,
        lod_level: LodLevel,
        scaling_key: u32,
        cell_key: (u32, u32),
    ) -> (r: Self)
        ensures
            r == (DisplayCacheKey {
                basis,
                time_range: (bounds.time_start, bounds.time_end),
                price_range: (bounds.price_low, bounds.price_high),
                lod_level,
                scaling_key,
                cell_key,
            }),
    {
        DisplayCacheKey {
            basis,
            time_range: (bounds.time_start, bounds.time_end),
            price_range: (bounds.price_low, bounds.price_high),
            lod_level,
            scaling_key,
            cell_key,
        }
    }

    /// Same basis and level of detail, and the other time range covers at
    /// least `1 - tolerance` of this key's time range (tolerance in thousandths).
    pub open spec fn similar(self, other: DisplayCacheKey, tolerance_permille: int) -> bool {
        let span = self.time_range.1 - self.time_range.0;
        &&& self.basis == other.basis
        &&& self.lod_level == other.lod_level
        &&& if span > 0 {
            time_overlap(self.time_range, other.time_range) * 1000 >= span * (1000 - tolerance_permille)
        } else {
            tolerance_permille >= 1000
        }
    }

    /// Checking similarity cannot underflow the time span.
    pub open spec fn similar_ok(self, other: DisplayCacheKey) -> bool {
        self.basis == other.basis && self.lod_level == other.lod_level ==> self.time_range.0
            <= self.time_range.1
    }

    /// Check if the key is similar enough to reuse cached data, allowing small
    /// viewport movements without invalidation.
    pub fn is_similar_to(&self, other: &DisplayCacheKey, tolerance_permille: u32) -> (r: bool)
        requires
            self.similar_ok(*other),
        ensures
            r == self.similar(*other, tolerance_permille as int),
    {
        if self.basis != other.basis || self.lod_level != other.lod_level {
            return false;
        }
        let start = if self.time_range.0 >= other.time_range.0 {
            self.time_range.0
        } else {
            other.time_range.0
        };
        let end = if self.time_range.1 <= other.time_range.1 {
            self.time_range.1
        } else {
            other.time_range.1
        };
        let overlap: u64 = if end > start { end - start } else { 0 };
        let span: u64 = self.time_range.1 - self.time_range.0;
        proof {
            assert(overlap == time_overlap(self.time_range, other.time_range));
        }
        if span > 0 {
            if tolerance_permille >= 1000 {
                proof {
                    assert(span * (1000 - tolerance_permille) <= 0) by (nonlinear_arith)
                        requires
                            span > 0,
                            tolerance_permille >= 1000,
                    ;
                }
                true
            } else {
                let f: u128 = (1000 - tolerance_permille) as u128;
                proof {
                    assert(span * f <= 0xffff_ffff_ffff_ffff * 1000) by (nonlinear_arith)
                        requires
                            span <= 0xffff_ffff_ffff_ffffu64,
                            f <= 1000,
                    ;
                }
                (overlap as u128) * 1000 >= (span as u128) * f
            }
        } else {
            tolerance_permille >= 1000
        }
    }
}

/// `x`, or `usize::MAX` where `x` is larger.
pub open spec fn clamp_usize(x: int) -> int {
    if x <= usize::MAX {
        x
    } else {
        usize::MAX as int
    }
}

/// Common interface of display data structures.
pub trait DisplayData: Sized + View {
    /// Type of source data.
    type SourceData;

    /// Extra parameters needed for building (tick size, etc.).
    type ExtraParams;

    /// The display data built from the given inputs.
    spec fn build_spec(
        source: &Self::SourceData,
        bounds: ViewportBounds,
        lod_level: LodLevel,
        extra_params: &Self::ExtraParams,
    ) -> Self::V;

    /// Inputs on which building cannot overflow.
    spec fn build_ok(
        source: &Self::SourceData,
        bounds: ViewportBounds,
        lod_level: LodLevel,
        extra_params: &Self::ExtraParams,
    ) -> bool;

    /// Whether display data holds nothing to draw.
    spec fn empty_spec(v: Self::V) -> bool;

    /// Estimated memory, in bytes, taken by display data.
    spec fn memory_spec(v: Self::V) -> int;

    /// Build display data from source data and viewport.
    fn build(
        source: &Self::SourceData,
        bounds: &ViewportBounds,
        lod_level: LodLevel,
        extra_params: &Self::ExtraParams,
    ) -> (r: Self)
        requires
            Self::build_ok(source, *bounds, lod_level, extra_params),
        ensures
            r@ == Self::build_spec(source, *bounds, lod_level, extra_params),
    ;

    /// Estimate of memory usage in bytes (saturating at `usize::MAX`).
    fn memory_usage(&self) -> (r: usize)
        ensures
            r == clamp_usize(Self::memory_spec(self@)),
    ;

    /// Check if display data is empty.
    fn is_empty(&self) -> (r: bool)
        ensures
            r == Self::empty_spec(self@),
    ;
}

/// Cached display data: rebuilt only when the viewport changes significantly.
pub struct DisplayDataCache<T: DisplayData> {
    /// Cached data.
    data: Option<T>,
    /// Cache key for the current data.
    key: Option<DisplayCacheKey>,
    /// Number of cache hits.
    hits: u64,
    /// Number of cache misses (rebuilds).
    misses: u64,
}

/// Mathematical value of a [`DisplayDataCache`].
pub struct CacheState<V> {
    pub data: Option<V>,
    pub key: Option<DisplayCacheKey>,
    pub hits: nat,
    pub misses: nat,
}

/// Cache performance statistics.
#[derive(Clone, Copy, Debug)]
pub struct CacheStats {
    pub hits: u64,
    pub misses: u64,
    pub memory_bytes: usize,
}

impl<T: DisplayData> View for DisplayDataCache<T> {
    type V = CacheState<T::V>;

    closed spec fn view(&self) -> CacheState<T::V> {
        CacheState {
            data: match self.data {
                Some(d) => Some(d@),
                None => None,
            },
            key: self.key,
            hits: self.hits as nat,
            misses: self.misses as nat,
        }
    }
}

impl<V> CacheState<V> {
    /// Data is cached exactly when a key is.
    pub open spec fn wf(self) -> bool {
        self.data is Some <==> self.key is Some
    }

    /// The cached data can be reused for `key`.
    pub open spec fn reusable(self, key: DisplayCacheKey) -> bool {
        match self.key {
            Some(k) => k == key || k.similar(key, CACHE_TOLERANCE_PERMILLE as int),
            None => false,
        }
    }

    /// The state after a request for `key`: a hit is counted where the cached
    /// data can be reused, else `built` is cached under `key` and a miss counted.
    pub open spec fn after_get(self, key: DisplayCacheKey, built: V) -> CacheState<V> {
        if self.reusable(key) {
            CacheState { hits: self.hits + 1, ..self }
        } else {
            CacheState { data: Some(built), key: Some(key), misses: self.misses + 1, ..self }
        }
    }

    /// The state after an invalidation: nothing is cached, the counts stay.
    pub open spec fn after_invalidate(self) -> CacheState<V> {
        CacheState { data: None, key: None, ..self }
    }

    /// Checking reuse for `key` cannot underflow.
    pub open spec fn reuse_ok(self, key: DisplayCacheKey) -> bool {
        match self.key {
            Some(k) => k == key || k.similar_ok(key),
            None => true,
        }
    }
}

impl<T: DisplayData> DisplayDataCache<T> {
    /// Create a new empty cache.
    pub fn new() -> (r: Self)
        ensures
            r@ == (CacheState::<T::V> { data: None, key: None, hits: 0, misses: 0 }),
            r@.wf(),
    {
        DisplayDataCache { data: None, key: None, hits: 0, misses: 0 }
    }

    /// Get cached data, or rebuild it if the key is neither equal nor similar
    /// to the cached one.
    pub fn get_or_build(
        &mut self,
        new_key: DisplayCacheKey,
        source: &T::SourceData,
        bounds: &ViewportBounds,
        lod_level: LodLevel,
        params: &T::ExtraParams,
    ) -> (r: &T)
        requires
            old(self)@.wf(),
            old(self)@.reuse_ok(new_key),
            old(self)@.reusable(new_key) ==> old(self)@.hits < u64::MAX,
            !old(self)@.reusable(new_key) ==> old(self)@.misses < u64::MAX && T::build_ok(
                source,
                *bounds,
                lod_level,
                params,
            ),
        ensures
            final(self)@.wf(),
            final(self)@ == old(self)@.after_get(new_key, T::build_spec(source, *bounds, lod_level, params)),
            old(self)@.reusable(new_key) ==> old(self)@.data == Some(r@),
            !old(self)@.reusable(new_key) ==> r@ == T::build_spec(source, *bounds, lod_level, params),
    {
        let cache_valid = match &self.key {
            Some(k) => *k == new_key || k.is_similar_to(&new_key, CACHE_TOLERANCE_PERMILLE),
            None => false,
        };
        if cache_valid {
            self.hits = self.hits + 1;
            match &self.data {
                Some(d) => d,
                None => {
                    proof {
                        assert(false);
                    }
                    unreached()
                },
            }
        } else {
            self.misses = self.misses + 1;
            let new_data = T::build(source, bounds, lod_level, params);
            self.data = Some(new_data);
            self.key = Some(new_key);
            match &self.data {
                Some(d) => d,
                None => unreached(),
            }
        }
    }

    /// Force invalidation.
    pub fn invalidate(&mut self)
        ensures
            final(self)@ == old(self)@.after_invalidate(),
            final(self)@.wf(),
    {
        self.data = None;
        self.key = None;
    }

    /// Cache statistics.
    pub fn stats(&self) -> (r: CacheStats)
        ensures
            r.hits == self@.hits,
            r.misses == self@.misses,
            r.memory_bytes == match self@.data {
                Some(d) => clamp_usize(T::memory_spec(d)),
                None => 0,
            },
    {
        CacheStats {
            hits: self.hits,
            misses: self.misses,
            memory_bytes: match &self.data {
                Some(d) => d.memory_usage(),
                None => 0,
            },
        }
    }

    /// Check if the cache holds data.
    pub fn is_cached(&self) -> (r: bool)
        ensures
            r == self@.data is Some,
    {
        self.data.is_some()
    }
}

impl<T: DisplayData> Default for DisplayDataCache<T> {
    fn default() -> (r: Self)
        ensures
            r@ == (CacheState::<T::V> { data: None, key: None, hits: 0, misses: 0 }),
    {
        Self::new()
    }
}

/// A second request with the key that just filled the cache is served from it.
pub proof fn lemma_same_key_hits<V>(s: CacheState<V>, key: DisplayCacheKey, data: V)
    ensures
        (CacheState { data: Some(data), key: Some(key), ..s }).reusable(key),
{
}

/// After invalidation nothing is reused: the next request rebuilds.
pub proof fn lemma_invalidated_rebuilds<V>(s: CacheState<V>, key: DisplayCacheKey)
    ensures
        !(CacheState::<V> { data: None, key: None, ..s }).reusable(key),
{
}

/// A call on a display-data cache: a request for a key (with the data a
/// rebuild would produce), or an invalidation.
pub enum CacheCall<V> {
    Get(DisplayCacheKey, V),
    Invalidate,
}

/// The cache state after `calls`, made in order from `s`.
pub open spec fn run_calls<V>(s: CacheState<V>, calls: Seq<CacheCall<V>>) -> CacheState<V>
    decreases calls.len(),
{
    if calls.len() == 0 {
        s
    } else {
        let before = run_calls(s, calls.drop_last());
        match calls.last() {
            CacheCall::Get(key, built) => before.after_get(key, built),
            CacheCall::Invalidate => before.after_invalidate(),
        }
    }
}

/// Some request comes after the last invalidation (or there is none).
pub open spec fn requested_since_invalidate<V>(calls: Seq<CacheCall<V>>) -> bool {
    exists|i: int|
        0 <= i < calls.len() && #[trigger] calls[i] is Get && forall|j: int|
            i < j < calls.len() ==> !(#[trigger] calls[j] is Invalidate)
}

/// Starting from a cache that holds nothing (as `new` makes it), data is
/// cached exactly when a request was made after the last invalidation, or
/// after the start if there was none.
pub proof fn lemma_cached_iff_requested_since_invalidate<V>(s: CacheState<V>, calls: Seq<CacheCall<V>>)
    requires
        s.data is None,
        s.wf(),
    ensures
        run_calls(s, calls).wf(),
        run_calls(s, calls).data is Some <==> requested_since_invalidate(calls),
    decreases calls.len(),
{
    if calls.len() > 0 {
        let front = calls.drop_last();
        let n = calls.len() - 1;
        lemma_cached_iff_requested_since_invalidate(s, front);
        match calls.last() {
            CacheCall::Get(_, _) => {
                assert(calls[n] is Get);
                assert(requested_since_invalidate(calls));
            },
            CacheCall::Invalidate => {
                if requested_since_invalidate(calls) {
                    let i = choose|i: int|
                        0 <= i < calls.len() && #[trigger] calls[i] is Get && forall|j: int|
                            i < j < calls.len() ==> !(#[trigger] calls[j] is Invalidate);
                    assert(calls[n] is Invalidate);
                    assert(i != n);
                    assert(false);
                }
            },
        }
    }
}

} // verus!
