//! Read-only global-memory loads.
//!
//! [`load`] is the safe equivalent of CUDA's `__ldg`: its shared borrow shows that the
//! operation cannot write through the supplied reference. The compiler keeps the load as
//! one cache-qualified instruction, also for the over-aligned vector values;
//! [`crate::access`] selects it.

use vstd::arithmetic::div_mod::lemma_fundamental_div_mod;
use vstd::arithmetic::div_mod::lemma_mod_multiples_basic;
use vstd::prelude::*;
use vstd::set_lib::lemma_int_range;
use vstd::set_lib::set_int_range;
use vstd::std_specs::cmp::PartialOrdIs;
use vstd::std_specs::cmp::PartialOrdSpec;

verus! {

/// Number of scalar samples in a complete tile.
pub open spec fn tile_capacity(pixels: nat, channels: nat) -> nat {
    pixels * channels
}

/// Whether a thread may own `valid` live samples of a tile: the tile is neither empty nor
/// larger than a signed 32-bit count, the live samples make up whole pixels of it, and a
/// full tile is live as a whole.
pub open spec fn tile_accepts(pixels: nat, channels: nat, full: bool, valid: int) -> bool {
    let capacity = tile_capacity(pixels, channels);
    &&& 0 < capacity <= i32::MAX
    &&& 0 <= valid <= capacity
    &&& valid % channels as int == 0
    &&& full ==> valid == capacity
}

/// The live samples of a tile that begins at `start`: a run of the input, or nothing for
/// an inactive thread, whose start is not looked at. There is none where the thread may
/// not own that many samples or the input ends before them.
pub open spec fn tile_extent<T>(
    input: Seq<T>,
    pixels: nat,
    channels: nat,
    full: bool,
    start: nat,
    valid: int,
) -> Option<Seq<T>> {
    if !tile_accepts(pixels, channels, full, valid) {
        None
    } else if valid == 0 {
        Some(Seq::empty())
    } else if start + valid <= input.len() {
        Some(input.subrange(start as int, start + valid))
    } else {
        None
    }
}

/// The sample at a coordinate of a tile, for a coordinate of the tile whose whole pixel
/// is live.
pub open spec fn tile_sample<T>(
    samples: Seq<T>,
    pixels: nat,
    channels: nat,
    full: bool,
    pixel: nat,
    channel: nat,
) -> Option<T> {
    let base = pixel * channels;
    if pixel < pixels && channel < channels && (full || base + channels <= samples.len()) {
        Some(samples[(base + channel) as int])
    } else {
        None
    }
}

/// A bounds-proved contiguous register tile for one CUDA thread.
///
/// CUDA block algorithms commonly prove a complete global-memory tile once, then issue
/// several statically unrolled register loads from that tile. A slice access at every
/// unrolled coordinate would repeat the same bounds failure edge. This capability keeps
/// only the proved run of samples: its data pointer is the tile base and its length is
/// the live sample count. [`Self::load`] exposes only coordinates that are selected at
/// compile time.
///
/// `FULL` distinguishes complete from partial tiles. In the partial form [`Self::load`]
/// returns `None` exactly for pixels beyond the live sample count; the extent of the run
/// was still checked once by the constructor.
///
/// The view of a tile is the sequence of its live samples.
#[derive(Copy)]
pub struct ThreadTile<'a, T, const PIXELS: usize, const CHANNELS: usize, const FULL: bool> {
    samples: &'a [T],
}

impl<'a, T, const PIXELS: usize, const CHANNELS: usize, const FULL: bool> View for ThreadTile<
    'a,
    T,
    PIXELS,
    CHANNELS,
    FULL,
> {
    type V = Seq<T>;

    closed spec fn view(&self) -> Seq<T> {
        self.samples@
    }
}

impl<'a, T, const PIXELS: usize, const CHANNELS: usize, const FULL: bool> ThreadTile<
    'a,
    T,
    PIXELS,
    CHANNELS,
    FULL,
> {
    #[verifier::type_invariant]
    spec fn wf(self) -> bool {
        tile_accepts(PIXELS as nat, CHANNELS as nat, FULL, self.samples@.len() as int)
    }
}

impl<'a, T: Clone, const PIXELS: usize, const CHANNELS: usize, const FULL: bool> Clone for ThreadTile<
    'a,
    T,
    PIXELS,
    CHANNELS,
    FULL,
> {
    fn clone(&self) -> (copy: Self)
        ensures
            copy == *self,
    {
        proof {
            use_type_invariant(self);
        }
        Self { samples: self.samples }
    }
}

impl<'a, T: Copy, const PIXELS: usize, const CHANNELS: usize, const FULL: bool> ThreadTile<
    'a,
    T,
    PIXELS,
    CHANNELS,
    FULL,
> {
    /// The live samples of a tile that may not exist.
    pub open spec fn extent(tile: Option<Self>) -> Option<Seq<T>> {
        match tile {
            Some(tile) => Some(tile@),
            None => None,
        }
    }

    /// Prove the complete active extent beginning at `start`.
    ///
    /// `valid_samples` is the number of active scalar samples that this thread owns, not
    /// the remaining size of the block tile. A full tile requires the complete
    /// `PIXELS * CHANNELS` extent; a partial tile accepts any whole-pixel prefix of it,
    /// also the empty one of an inactive thread.
    #[inline(always)]
    pub fn new(input: &'a [T], start: usize, valid_samples: i32) -> (tile: Option<Self>)
        ensures
            Self::extent(tile) == tile_extent(
                input@,
                PIXELS as nat,
                CHANNELS as nat,
                FULL,
                start as nat,
                valid_samples as int,
            ),
            tile is Some <==> {
                &&& 0 < PIXELS * CHANNELS <= i32::MAX
                &&& 0 <= valid_samples <= PIXELS * CHANNELS
                &&& valid_samples as int % CHANNELS as int == 0
                &&& FULL ==> valid_samples == PIXELS * CHANNELS
                &&& valid_samples == 0 || start + valid_samples <= input@.len()
            },
            tile matches Some(tile) ==> {
                &&& tile@.len() == valid_samples
                &&& forall|i: int|
                    0 <= i < valid_samples ==> #[trigger] tile@[i] == input@[start + i]
            },
    {
        let available: usize = input.len();
        let capacity: usize = match PIXELS.checked_mul(CHANNELS) {
            Some(capacity) => capacity,
            None => return None,
        };
        if capacity == 0 || capacity > i32::MAX as usize || valid_samples < 0 {
            return None;
        }
        let valid_samples: usize = valid_samples as usize;
        if valid_samples > capacity || !valid_samples.is_multiple_of(CHANNELS) || (FULL
            && valid_samples != capacity) {
            return None;
        }
        if valid_samples == 0 {
            return Some(Self { samples: &input[0..0] });
        }
        let end: usize = match start.checked_add(valid_samples) {
            Some(end) => end,
            None => return None,
        };
        if end > available {
            return None;
        }
        Some(Self { samples: &input[start..end] })
    }

    /// Load one statically selected channel from a statically selected pixel.
    ///
    /// `None` is the normal inactive state of a partial tile. A full tile needs no dynamic
    /// check, because its construction proved the complete extent.
    #[inline(always)]
    pub fn load<const PIXEL: usize, const CHANNEL: usize>(&self) -> (sample: Option<T>)
        ensures
            sample == tile_sample(
                self@,
                PIXELS as nat,
                CHANNELS as nat,
                FULL,
                PIXEL as nat,
                CHANNEL as nat,
            ),
            sample is Some <==> PIXEL < PIXELS && CHANNEL < CHANNELS && PIXEL * CHANNELS + CHANNELS
                <= self@.len(),
            sample matches Some(sample) ==> sample == self@[PIXEL * CHANNELS + CHANNEL],
    {
        if PIXEL >= PIXELS || CHANNEL >= CHANNELS {
            return None;
        }
        proof {
            use_type_invariant(self);
            assert(PIXEL * CHANNELS + CHANNELS <= PIXELS * CHANNELS) by (nonlinear_arith)
                requires
                    PIXEL < PIXELS,
            ;
            assert(0 <= PIXEL * CHANNELS) by (nonlinear_arith);
        }
        let local: usize = PIXEL * CHANNELS;
        if !FULL && local + CHANNELS > self.samples.len() {
            return None;
        }
        Some(__load_at(self.samples, local + CHANNEL))
    }
}

/// Copy a value through CUDA's read-only global-memory path.
///
/// Device compilation recognizes this function as a memory intrinsic, so a value whose type
/// carries 8- or 16-byte alignment is not split when its lanes are consumed later. It serves
/// the integers of 8, 16, 32 and 64 bits, the floating-point numbers of 32 and 64 bits, and
/// the over-aligned vectors of two and of four 32-bit lanes.
#[must_use]
#[inline(never)]
pub fn load<T: Copy>(_value: &T) -> (copy: T)
    ensures
        copy == *_value,
{
    *_value
}

/// The one indexed read of [`upper_bound`] and [`ThreadTile::load`].
///
/// It is private, so no other code can present an index that was not proved: the search
/// keeps its interval within the input, and the run of a tile was validated when the tile
/// was made.
#[inline(never)]
fn __load_at<T: Copy>(input: &[T], index: usize) -> (value: T)
    requires
        index < input@.len(),
    ensures
        value == input@[index as int],
{
    input[index]
}

/// Whether `sample < input[i]` may answer `greater`.
pub open spec fn may_answer<T: PartialOrd>(
    input: Seq<T>,
    sample: T,
    i: int,
    greater: bool,
) -> bool {
    call_ensures(T::lt, (&sample, &input[i]), greater)
}

/// Whether `greater` settles what `sample < input[i]` answers for every element.
pub open spec fn answers<T: PartialOrd>(
    input: Seq<T>,
    sample: T,
    greater: spec_fn(int) -> bool,
) -> bool {
    forall|i: int, answer: bool|
        0 <= i < input.len() && #[trigger] may_answer(input, sample, i, answer) ==> answer
            == greater(i)
}

/// Whether comparisons of `T` are the pure function that their specification names.
pub open spec fn comparisons_specified<T: PartialOrd>() -> bool {
    T::obeys_partial_cmp_spec()
}

/// Which elements compare greater than `sample`, by the specification of the comparison.
pub open spec fn specified_answers<T: PartialOrd>(input: Seq<T>, sample: T) -> spec_fn(
    int,
) -> bool {
    |i: int| sample.is_lt(&input[i])
}

/// How many elements a search looks at: all of them, up to the largest index that a signed
/// 32-bit result can name.
pub open spec fn searched_length(len: nat) -> nat {
    if len <= i32::MAX {
        len
    } else {
        i32::MAX as nat
    }
}

/// Whether halving the interval of `n` elements from `lo` may end at `bound`: the part
/// below the middle element stays where that element compares greater than `sample`, the
/// part above it otherwise, until nothing is left.
pub open spec fn search_ends<T: PartialOrd>(
    input: Seq<T>,
    sample: T,
    lo: int,
    n: int,
    bound: int,
) -> bool
    decreases n,
{
    if n <= 0 {
        bound == lo
    } else {
        ||| may_answer(input, sample, lo + n / 2, true) && search_ends(
            input,
            sample,
            lo,
            n / 2,
            bound,
        )
        ||| may_answer(input, sample, lo + n / 2, false) && search_ends(
            input,
            sample,
            lo + n / 2 + 1,
            n - n / 2 - 1,
            bound,
        )
    }
}

/// Where halving the interval of `n` elements from `lo` ends for settled answers.
pub open spec fn bisect(greater: spec_fn(int) -> bool, lo: int, n: int) -> int
    decreases n,
{
    if n <= 0 {
        lo
    } else if greater(lo + n / 2) {
        bisect(greater, lo, n / 2)
    } else {
        bisect(greater, lo + n / 2 + 1, n - n / 2 - 1)
    }
}

/// Whether, of `len` elements, none that compares greater comes before one that does not.
pub open spec fn partitioned(greater: spec_fn(int) -> bool, len: nat) -> bool {
    forall|i: int, j: int|
        0 <= i <= j < len && #[trigger] greater(i) ==> #[trigger] greater(j)
}

/// Whether `bound` is the first index whose element compares greater, or `len` where there
/// is none.
pub open spec fn is_first_greater(greater: spec_fn(int) -> bool, len: nat, bound: int) -> bool {
    &&& 0 <= bound <= len
    &&& forall|i: int| 0 <= i < bound ==> !#[trigger] greater(i)
    &&& bound < len ==> greater(bound)
}

/// Return the first index whose value compares greater than `sample`.
///
/// This is the upper-bound search over read-only memory. The interval that is left always
/// lies within the input, so every indexed load is in bounds. The input is taken to be
/// ordered. Where no value compares greater the result is the length. A result above
/// `i32::MAX` cannot be named; `i32::MAX` stands for it.
#[must_use]
#[inline(always)]
pub fn upper_bound<T: Copy + PartialOrd>(input: &[T], sample: T) -> (bound: i32)
    ensures
        0 <= bound <= input@.len(),
        search_ends(input@, sample, 0, searched_length(input@.len()) as int, bound as int),
        comparisons_specified::<T>() ==> bound == bisect(
            specified_answers(input@, sample),
            0,
            searched_length(input@.len()) as int,
        ),
        comparisons_specified::<T>() && partitioned(
            specified_answers(input@, sample),
            input@.len(),
        ) ==> is_first_greater(
            specified_answers(input@, sample),
            searched_length(input@.len()),
            bound as int,
        ),
        comparisons_specified::<T>() && partitioned(
            specified_answers(input@, sample),
            input@.len(),
        ) ==> forall|first: int|
            is_first_greater(specified_answers(input@, sample), input@.len(), first) && first
                <= i32::MAX ==> bound == first,
{
    let len: usize = input.len();
    let mut retval: i32 = 0i32;
    let mut num_items: i32 = if len > i32::MAX as usize {
        i32::MAX
    } else {
        len as i32
    };
    let ghost total = num_items as int;
    while num_items > 0
        invariant
            total == searched_length(input@.len()),
            0 <= retval,
            0 <= num_items,
            retval + num_items <= total,
            forall|bound: int|
                search_ends(input@, sample, retval as int, num_items as int, bound)
                    ==> #[trigger] search_ends(input@, sample, 0, total, bound),
        decreases num_items,
    {
        let half: i32 = num_items >> 1;
        assert(num_items > 0 ==> half == num_items / 2 && 0 <= half < num_items) by (bit_vector)
            requires
                half == num_items >> 1,
        ;
        let probe: i32 = retval.wrapping_add(half);
        let greater: bool = sample < __load_at(input, probe as usize);
        assert(may_answer(input@, sample, retval + num_items / 2, greater));
        if greater {
            num_items = half;
        } else {
            let consumed: i32 = half.wrapping_add(1);
            retval = retval.wrapping_add(consumed);
            num_items = num_items.wrapping_sub(consumed);
        }
    }
    assert(search_ends(input@, sample, retval as int, num_items as int, retval as int));
    proof {
        if comparisons_specified::<T>() {
            let greater = specified_answers(input@, sample);
            law_specified_comparisons_are_settled(input@, sample);
            law_settled_search_ends_at_one_place(input@, sample, greater, retval as int);
            if partitioned(greater, input@.len()) {
                law_upper_bound_is_the_first_greater(input@, sample, greater, retval as int);
            }
        }
    }
    retval
}

/// A tile reads exactly its live pixels: a coordinate of the tile has a sample if and
/// only if its pixel lies before the live sample count, and the sample is the element of
/// the input at the coordinate's place behind the start.
pub proof fn law_tile_reads_its_live_pixels<T>(
    input: Seq<T>,
    pixels: nat,
    channels: nat,
    full: bool,
    start: nat,
    valid: int,
    pixel: nat,
    channel: nat,
)
    requires
        tile_extent(input, pixels, channels, full, start, valid) is Some,
        pixel < pixels,
        channel < channels,
    ensures
        ({
            let samples = tile_extent(input, pixels, channels, full, start, valid)->0;
            let place = start + pixel * channels + channel;
            tile_sample(samples, pixels, channels, full, pixel, channel) == if pixel * channels
                < valid {
                Some(input[place as int])
            } else {
                None
            }
        }),
        pixel * channels < valid ==> start <= start + pixel * channels + channel < start + valid
            <= input.len(),
{
    let whole = valid / channels as int;
    let base = pixel * channels;
    assert(base + channels <= pixels * channels) by (nonlinear_arith)
        requires
            pixel < pixels,
            base == pixel * channels,
    ;
    lemma_fundamental_div_mod(valid, channels as int);
    assert(base < valid ==> base + channels <= valid) by (nonlinear_arith)
        requires
            valid == channels * whole,
            base == pixel * channels,
    ;
}

/// A complete tile has a sample at every coordinate.
pub proof fn law_full_tile_is_complete<T>(
    input: Seq<T>,
    pixels: nat,
    channels: nat,
    start: nat,
    valid: int,
    pixel: nat,
    channel: nat,
)
    requires
        tile_extent(input, pixels, channels, true, start, valid) is Some,
        pixel < pixels,
        channel < channels,
    ensures
        ({
            let samples = tile_extent(input, pixels, channels, true, start, valid)->0;
            tile_sample(samples, pixels, channels, true, pixel, channel) == Some(
                input[(start + pixel * channels + channel) as int],
            )
        }),
{
    law_tile_reads_its_live_pixels(
        input,
        pixels,
        channels,
        true,
        start,
        valid,
        pixel,
        channel,
    );
    assert(pixel * channels < pixels * channels) by (nonlinear_arith)
        requires
            pixel < pixels,
            0 < channels,
    ;
}

/// Where the complete extent is live, the complete and the partial form are one tile.
pub proof fn law_tile_forms_agree<T>(
    input: Seq<T>,
    pixels: nat,
    channels: nat,
    start: nat,
    valid: int,
    pixel: nat,
    channel: nat,
)
    requires
        tile_extent(input, pixels, channels, true, start, valid) is Some,
    ensures
        ({
            let samples = tile_extent(input, pixels, channels, true, start, valid)->0;
            &&& tile_extent(input, pixels, channels, false, start, valid) == Some(samples)
            &&& tile_sample(samples, pixels, channels, true, pixel, channel) == tile_sample(
                samples,
                pixels,
                channels,
                false,
                pixel,
                channel,
            )
        }),
{
    assert(pixel < pixels ==> pixel * channels + channels <= pixels * channels)
        by (nonlinear_arith);
}

/// An inactive thread gets a tile without samples, whatever its nominal start is.
pub proof fn law_inactive_thread_forms_no_address<T>(
    input: Seq<T>,
    pixels: nat,
    channels: nat,
    start: nat,
    pixel: nat,
    channel: nat,
)
    requires
        0 < tile_capacity(pixels, channels) <= i32::MAX,
    ensures
        tile_extent(input, pixels, channels, false, start, 0) == Some(Seq::<T>::empty()),
        tile_sample(Seq::<T>::empty(), pixels, channels, false, pixel, channel) is None,
{
    assert(channels > 0) by (nonlinear_arith)
        requires
            pixels * channels > 0,
    ;
    assert(0 <= pixel * channels) by (nonlinear_arith);
}

/// A tile is made for exactly those threads whose live samples exist: a thread may own any
/// whole number of pixels of a tile that is neither empty nor too large, a complete tile
/// all of them, and the samples it owns lie in the input. Neither the capacity of the tile
/// nor the place of its start asks for anything more of the input. Its samples are those
/// of the input from the start on.
pub proof fn law_tile_is_made_where_its_samples_lie<
    'a,
    T: Copy,
    const PIXELS: usize,
    const CHANNELS: usize,
    const FULL: bool,
>(
    input: &'a [T],
    start: usize,
    valid: i32,
    tile: Option<ThreadTile<'a, T, PIXELS, CHANNELS, FULL>>,
)
    requires
        call_ensures(
            ThreadTile::<'a, T, PIXELS, CHANNELS, FULL>::new,
            (input, start, valid),
            tile,
        ),
    ensures
        tile is None <==> {
            ||| PIXELS * CHANNELS == 0
            ||| PIXELS * CHANNELS > i32::MAX
            ||| valid < 0
            ||| valid > PIXELS * CHANNELS
            ||| !(exists|whole: int| valid == #[trigger] (whole * CHANNELS))
            ||| FULL && valid < PIXELS * CHANNELS
            ||| valid > 0 && input@.len() - start < valid
        },
        tile matches Some(tile) ==> tile@.len() == valid && forall|i: int|
            0 <= i < valid ==> #[trigger] tile@[i] == input@[start + i],
{
    if 0 < PIXELS * CHANNELS {
        let channels = CHANNELS as int;
        assert(channels > 0) by (nonlinear_arith)
            requires
                PIXELS * channels > 0,
                channels >= 0,
        ;
        lemma_fundamental_div_mod(valid as int, channels);
        if valid as int % channels == 0 {
            let whole = valid as int / channels;
            assert(whole * channels == channels * whole) by (nonlinear_arith);
            assert(valid == whole * CHANNELS);
        }
        assert forall|whole: int| valid == #[trigger] (whole * CHANNELS) implies valid as int
            % channels == 0 by {
            lemma_mod_multiples_basic(whole, channels);
        }
    }
}

/// Where a tile begins does not matter beyond which samples it finds there: a tile at a
/// start is the tile at the beginning of the rest of the input.
pub proof fn law_tile_start_only_moves_the_tile<
    'a,
    T: Copy,
    const PIXELS: usize,
    const CHANNELS: usize,
    const FULL: bool,
>(
    input: &'a [T],
    rest: &'a [T],
    start: usize,
    valid: i32,
    tile: Option<ThreadTile<'a, T, PIXELS, CHANNELS, FULL>>,
    moved: Option<ThreadTile<'a, T, PIXELS, CHANNELS, FULL>>,
)
    requires
        start <= input@.len(),
        rest@ == input@.skip(start as int),
        call_ensures(
            ThreadTile::<'a, T, PIXELS, CHANNELS, FULL>::new,
            (input, start, valid),
            tile,
        ),
        call_ensures(
            ThreadTile::<'a, T, PIXELS, CHANNELS, FULL>::new,
            (rest, 0usize, valid),
            moved,
        ),
    ensures
        tile is Some <==> moved is Some,
        tile is Some ==> tile->0@ == moved->0@,
{
    if tile is Some {
        assert(tile->0@ =~= moved->0@);
    }
}

/// What lies in the input around the live samples of a tile has no part in it.
pub proof fn law_tile_looks_at_its_live_samples_only<
    'a,
    T: Copy,
    const PIXELS: usize,
    const CHANNELS: usize,
    const FULL: bool,
>(
    input: &'a [T],
    other: &'a [T],
    start: usize,
    valid: i32,
    tile: Option<ThreadTile<'a, T, PIXELS, CHANNELS, FULL>>,
    same: Option<ThreadTile<'a, T, PIXELS, CHANNELS, FULL>>,
)
    requires
        start + valid <= input@.len(),
        start + valid <= other@.len(),
        forall|i: int| start <= i < start + valid ==> input@[i] == #[trigger] other@[i],
        call_ensures(
            ThreadTile::<'a, T, PIXELS, CHANNELS, FULL>::new,
            (input, start, valid),
            tile,
        ),
        call_ensures(
            ThreadTile::<'a, T, PIXELS, CHANNELS, FULL>::new,
            (other, start, valid),
            same,
        ),
    ensures
        tile is Some <==> same is Some,
        tile is Some ==> tile->0@ == same->0@,
{
    if tile is Some {
        assert(tile->0@ =~= same->0@);
    }
}

/// A thread that may own some pixels of a partial tile may own fewer of them, and finds the
/// first samples of the larger tile.
pub proof fn law_partial_tile_accepts_every_prefix<
    'a,
    T: Copy,
    const PIXELS: usize,
    const CHANNELS: usize,
>(
    input: &'a [T],
    start: usize,
    valid: i32,
    fewer: i32,
    tile: Option<ThreadTile<'a, T, PIXELS, CHANNELS, false>>,
    prefix: Option<ThreadTile<'a, T, PIXELS, CHANNELS, false>>,
)
    requires
        call_ensures(
            ThreadTile::<'a, T, PIXELS, CHANNELS, false>::new,
            (input, start, valid),
            tile,
        ),
        call_ensures(
            ThreadTile::<'a, T, PIXELS, CHANNELS, false>::new,
            (input, start, fewer),
            prefix,
        ),
        tile is Some,
        0 <= fewer <= valid,
    ensures
        prefix is Some <==> fewer as int % CHANNELS as int == 0,
        prefix is Some ==> prefix->0@ == tile->0@.take(fewer as int),
{
    if prefix is Some {
        assert(prefix->0@ =~= tile->0@.take(fewer as int));
    }
}

/// A sample of a tile is the element of the input that lies as far behind the start as the
/// coordinate lies behind the first one, and every coordinate of a live pixel has one. No
/// other coordinate has.
pub proof fn law_tile_loads_its_input<
    'a,
    T: Copy,
    const PIXELS: usize,
    const CHANNELS: usize,
    const FULL: bool,
    const PIXEL: usize,
    const CHANNEL: usize,
>(
    input: &'a [T],
    start: usize,
    valid: i32,
    tile: ThreadTile<'a, T, PIXELS, CHANNELS, FULL>,
    sample: Option<T>,
)
    requires
        call_ensures(
            ThreadTile::<'a, T, PIXELS, CHANNELS, FULL>::new,
            (input, start, valid),
            Some(tile),
        ),
        call_ensures(
            ThreadTile::<'a, T, PIXELS, CHANNELS, FULL>::load::<PIXEL, CHANNEL>,
            (&tile,),
            sample,
        ),
    ensures
        sample is Some <==> PIXEL < PIXELS && CHANNEL < CHANNELS && PIXEL * CHANNELS < valid,
        sample is Some ==> sample == Some(input@[start + PIXEL * CHANNELS + CHANNEL]),
{
    let whole = valid as int / CHANNELS as int;
    lemma_fundamental_div_mod(valid as int, CHANNELS as int);
    assert(PIXEL * CHANNELS < valid ==> PIXEL * CHANNELS + CHANNELS <= valid) by (nonlinear_arith)
        requires
            valid == CHANNELS * whole,
    ;
    assert(0 <= PIXEL * CHANNELS) by (nonlinear_arith);
    if sample is Some {
        assert(tile@[PIXEL * CHANNELS + CHANNEL] == input@[start + (PIXEL * CHANNELS + CHANNEL)]);
    }
}

/// A comparison that keeps to its specification settles every answer.
pub proof fn law_specified_comparisons_are_settled<T: PartialOrd>(input: Seq<T>, sample: T)
    requires
        comparisons_specified::<T>(),
    ensures
        answers(input, sample, specified_answers(input, sample)),
{
}

/// Where the answers are settled, the search ends at one place only.
pub proof fn law_settled_search_ends_at_one_place<T: PartialOrd>(
    input: Seq<T>,
    sample: T,
    greater: spec_fn(int) -> bool,
    bound: int,
)
    requires
        answers(input, sample, greater),
        search_ends(input, sample, 0, searched_length(input.len()) as int, bound),
    ensures
        bound == bisect(greater, 0, searched_length(input.len()) as int),
{
    lemma_settled_search(input, sample, greater, 0, searched_length(input.len()) as int, bound);
}

/// Whatever the comparison answers, it answered `false` for the element before the place
/// where the search ends, and `true` for the element at that place.
pub proof fn law_search_ends_where_the_answer_turns<T: PartialOrd>(
    input: Seq<T>,
    sample: T,
    bound: int,
)
    requires
        search_ends(input, sample, 0, searched_length(input.len()) as int, bound),
    ensures
        0 <= bound,
        bound > 0 ==> may_answer(input, sample, bound - 1, false),
        bound < searched_length(input.len()) ==> may_answer(input, sample, bound, true),
{
    lemma_search_turns(input, sample, 0, searched_length(input.len()) as int, bound);
}

/// The search over an ordered input ends at the first index whose element compares greater
/// than the sample, for every comparison whose answers are settled and every length. Only
/// an index that a signed 32-bit number cannot name is given as the largest one instead.
pub proof fn law_upper_bound_is_the_first_greater<T: PartialOrd>(
    input: Seq<T>,
    sample: T,
    greater: spec_fn(int) -> bool,
    bound: int,
)
    requires
        answers(input, sample, greater),
        partitioned(greater, input.len()),
        search_ends(input, sample, 0, searched_length(input.len()) as int, bound),
    ensures
        is_first_greater(greater, searched_length(input.len()), bound),
        forall|first: int|
            #[trigger] is_first_greater(greater, input.len(), first) ==> bound == if first
                <= i32::MAX {
                first
            } else {
                i32::MAX as int
            },
{
    let len = searched_length(input.len());
    lemma_search_turns(input, sample, 0, len as int, bound);
    assert forall|i: int| 0 <= i < bound implies !#[trigger] greater(i) by {
        assert(!greater(bound - 1));
    }
    assert forall|first: int| #[trigger]
        is_first_greater(greater, input.len(), first) implies bound == if first <= i32::MAX {
        first
    } else {
        i32::MAX as int
    } by {
        assert(bound < len ==> greater(bound));
        assert(first < input.len() ==> greater(first));
        if first < bound {
            assert(!greater(first));
        }
    }
}

/// The result splits the elements it was found among: what comes before it does not compare
/// greater than the sample, and all that comes from it on does.
pub proof fn law_upper_bound_splits_the_input(
    greater: spec_fn(int) -> bool,
    len: nat,
    bound: int,
)
    requires
        partitioned(greater, len),
        is_first_greater(greater, len, bound),
    ensures
        forall|i: int| 0 <= i < len ==> (#[trigger] greater(i) <==> bound <= i),
{
    if bound < len {
        assert(greater(bound));
    }
}

/// Whether `a` compares less than `b`, by the specification of the comparison.
pub open spec fn less<T: PartialOrd>(a: T, b: T) -> bool {
    a.is_lt(&b)
}

/// Whether no element compares less than one that comes before it.
pub open spec fn ordered<T: PartialOrd>(input: Seq<T>) -> bool {
    forall|i: int, j: int| 0 <= i < j < input.len() ==> !#[trigger] less(input[j], input[i])
}

/// The first greater index is the last place at which the sample can be inserted into an
/// ordered input: there the input stays ordered, and at every later place it does not.
pub proof fn law_upper_bound_is_the_last_place_to_insert<T: PartialOrd>(
    input: Seq<T>,
    sample: T,
    bound: int,
)
    requires
        forall|a: T, b: T| #[trigger] less(a, b) ==> !less(b, a),
        ordered(input),
        partitioned(specified_answers(input, sample), input.len()),
        is_first_greater(specified_answers(input, sample), input.len(), bound),
    ensures
        ordered(input.insert(bound, sample)),
        forall|place: int|
            bound < place <= input.len() ==> !ordered(#[trigger] input.insert(place, sample)),
{
    let greater = specified_answers(input, sample);
    law_upper_bound_splits_the_input(greater, input.len(), bound);
    let longer = input.insert(bound, sample);
    assert forall|i: int, j: int| 0 <= i < j < longer.len() implies !#[trigger] less(
        longer[j],
        longer[i],
    ) by {
        if j == bound {
            assert(!greater(i));
        } else if i == bound {
            assert(greater(j - 1));
            assert(less(sample, input[j - 1]));
        } else {
            let before = if i < bound { i } else { i - 1 };
            let after = if j < bound { j } else { j - 1 };
            assert(!less(input[after], input[before]));
        }
    }
    assert forall|place: int| bound < place <= input.len() implies !ordered(
        #[trigger] input.insert(place, sample),
    ) by {
        assert(greater(bound));
        let other = input.insert(place, sample);
        assert(less(other[place], other[bound]));
    }
}

/// The elements that compare greater than a lower sample and not greater than an upper one.
pub open spec fn elements_between(
    above_lower: spec_fn(int) -> bool,
    above_upper: spec_fn(int) -> bool,
    len: nat,
) -> Set<int> {
    set_int_range(0, len as int).filter(|i: int| above_lower(i) && !above_upper(i))
}

/// The results for two samples enclose exactly the elements between the samples, and their
/// number is the difference of the results.
pub proof fn law_bounds_enclose_the_elements_between(
    above_lower: spec_fn(int) -> bool,
    above_upper: spec_fn(int) -> bool,
    len: nat,
    lower: int,
    upper: int,
)
    requires
        partitioned(above_lower, len),
        partitioned(above_upper, len),
        is_first_greater(above_lower, len, lower),
        is_first_greater(above_upper, len, upper),
    ensures
        elements_between(above_lower, above_upper, len) == set_int_range(lower, upper),
        lower <= upper ==> elements_between(above_lower, above_upper, len).len() == upper - lower,
{
    law_upper_bound_splits_the_input(above_lower, len, lower);
    law_upper_bound_splits_the_input(above_upper, len, upper);
    assert(elements_between(above_lower, above_upper, len) =~= set_int_range(lower, upper));
    if lower <= upper {
        lemma_int_range(lower, upper);
    }
}

/// Whatever the comparison is, the sample did not compare less than the element before the
/// result, and did compare less than the element at the result.
pub proof fn law_upper_bound_lies_where_the_comparison_turns<T: Copy + PartialOrd>(
    input: &[T],
    sample: T,
    bound: i32,
)
    requires
        call_ensures(upper_bound::<T>, (input, sample), bound),
    ensures
        0 <= bound <= input@.len(),
        bound > 0 ==> call_ensures(T::lt, (&sample, &input@[bound - 1]), false),
        bound < input@.len() && bound < i32::MAX ==> call_ensures(
            T::lt,
            (&sample, &input@[bound as int]),
            true,
        ),
{
    law_search_ends_where_the_answer_turns(input@, sample, bound as int);
}

/// Of an input in which nothing that the sample compares less than comes before something
/// that it does not, the result is the first index at which the sample compares less. Only
/// an index that a signed 32-bit number cannot name is given as the largest one instead.
pub proof fn law_upper_bound_is_the_first_index_above_the_sample<T: Copy + PartialOrd>(
    input: &[T],
    sample: T,
    bound: i32,
)
    requires
        call_ensures(upper_bound::<T>, (input, sample), bound),
        T::obeys_partial_cmp_spec(),
        forall|i: int, j: int|
            0 <= i <= j < input@.len() && sample.partial_cmp_spec(&#[trigger] input@[i]) == Some(
                core::cmp::Ordering::Less,
            ) ==> sample.partial_cmp_spec(&#[trigger] input@[j]) == Some(
                core::cmp::Ordering::Less,
            ),
    ensures
        forall|i: int|
            0 <= i < bound ==> sample.partial_cmp_spec(&#[trigger] input@[i]) != Some(
                core::cmp::Ordering::Less,
            ),
        bound < i32::MAX ==> forall|i: int|
            bound <= i < input@.len() ==> sample.partial_cmp_spec(&#[trigger] input@[i]) == Some(
                core::cmp::Ordering::Less,
            ),
{
    let greater = specified_answers(input@, sample);
    assert forall|i: int, j: int|
        0 <= i <= j < input@.len() && #[trigger] greater(i) implies #[trigger] greater(j) by {
        assert(sample.partial_cmp_spec(&input@[i]) == Some(core::cmp::Ordering::Less));
        assert(sample.partial_cmp_spec(&input@[j]) == Some(core::cmp::Ordering::Less));
    }
    assert forall|i: int| 0 <= i < bound implies sample.partial_cmp_spec(&#[trigger] input@[i])
        != Some(core::cmp::Ordering::Less) by {
        assert(!greater(i));
    }
    if bound < i32::MAX && bound < input@.len() {
        assert(greater(bound + 0));
        assert forall|i: int| bound <= i < input@.len() implies sample.partial_cmp_spec(
            &#[trigger] input@[i],
        ) == Some(core::cmp::Ordering::Less) by {
            assert(greater(i));
        }
    }
}

/// In sorted numbers, what comes before the result is at most the sample, and what comes
/// from the result on is above it.
pub proof fn law_upper_bound_of_sorted_numbers(input: &[i32], sample: i32, bound: i32)
    requires
        call_ensures(upper_bound::<i32>, (input, sample), bound),
        input@.len() <= i32::MAX,
        forall|i: int, j: int|
            0 <= i <= j < input@.len() ==> #[trigger] input@[i] <= #[trigger] input@[j],
    ensures
        0 <= bound <= input@.len(),
        forall|i: int| 0 <= i < bound ==> #[trigger] input@[i] <= sample,
        forall|i: int| bound <= i < input@.len() ==> #[trigger] input@[i] > sample,
{
    law_upper_bound_is_the_first_index_above_the_sample(input, sample, bound);
}

/// Whatever order the input has, the search looks at its middle element and goes on in one
/// of the two parts beside it as it would in that part alone.
pub proof fn law_upper_bound_goes_on_in_one_half<T: Copy + PartialOrd>(
    input: &[T],
    below: &[T],
    above: &[T],
    sample: T,
    greater: spec_fn(int) -> bool,
    bound: i32,
    bound_below: i32,
    bound_above: i32,
)
    requires
        0 < input@.len() <= i32::MAX,
        below@ == input@.take((input@.len() / 2) as int),
        above@ == input@.skip((input@.len() / 2 + 1) as int),
        forall|i: int, answer: bool|
            0 <= i < input@.len() && #[trigger] call_ensures(
                T::lt,
                (&sample, &input@[i]),
                answer,
            ) ==> answer == greater(i),
        call_ensures(upper_bound::<T>, (input, sample), bound),
        call_ensures(upper_bound::<T>, (below, sample), bound_below),
        call_ensures(upper_bound::<T>, (above, sample), bound_above),
    ensures
        bound == if greater((input@.len() / 2) as int) {
            bound_below as int
        } else {
            input@.len() / 2 + 1 + bound_above
        },
{
    let middle = (input@.len() / 2) as int;
    let greater_above = |i: int| greater(middle + 1 + i);
    assert(answers(input@, sample, greater));
    assert(answers(below@, sample, greater)) by {
        assert forall|i: int, answer: bool|
            0 <= i < below@.len() && #[trigger] may_answer(below@, sample, i, answer) implies answer
            == greater(i) by {
            assert(may_answer(input@, sample, i, answer));
        }
    }
    assert(answers(above@, sample, greater_above)) by {
        assert forall|i: int, answer: bool|
            0 <= i < above@.len() && #[trigger] may_answer(above@, sample, i, answer) implies answer
            == greater_above(i) by {
            assert(may_answer(input@, sample, middle + 1 + i, answer));
        }
    }
    law_settled_search_ends_at_one_place(input@, sample, greater, bound as int);
    law_settled_search_ends_at_one_place(below@, sample, greater, bound_below as int);
    law_settled_search_ends_at_one_place(above@, sample, greater_above, bound_above as int);
    lemma_bisect_moves(greater, greater_above, middle + 1, 0, above@.len() as int);
}

/// An input that is longer than a signed 32-bit number can count is searched as its part
/// that such a number counts.
pub proof fn law_upper_bound_of_a_long_input<T: Copy + PartialOrd>(
    input: &[T],
    counted: &[T],
    sample: T,
    greater: spec_fn(int) -> bool,
    bound: i32,
    bound_counted: i32,
)
    requires
        input@.len() > i32::MAX,
        counted@ == input@.take(i32::MAX as int),
        forall|i: int, answer: bool|
            0 <= i < input@.len() && #[trigger] call_ensures(
                T::lt,
                (&sample, &input@[i]),
                answer,
            ) ==> answer == greater(i),
        call_ensures(upper_bound::<T>, (input, sample), bound),
        call_ensures(upper_bound::<T>, (counted, sample), bound_counted),
    ensures
        bound == bound_counted,
{
    assert(answers(input@, sample, greater));
    assert(answers(counted@, sample, greater)) by {
        assert forall|i: int, answer: bool|
            0 <= i < counted@.len() && #[trigger] may_answer(counted@, sample, i, answer) implies
            answer == greater(i) by {
            assert(may_answer(input@, sample, i, answer));
        }
    }
    law_settled_search_ends_at_one_place(input@, sample, greater, bound as int);
    law_settled_search_ends_at_one_place(counted@, sample, greater, bound_counted as int);
}

proof fn lemma_bisect_moves(
    greater: spec_fn(int) -> bool,
    moved: spec_fn(int) -> bool,
    by: int,
    lo: int,
    n: int,
)
    requires
        forall|i: int| #[trigger] moved(i) == greater(by + i),
    ensures
        bisect(greater, by + lo, n) == by + bisect(moved, lo, n),
    decreases n,
{
    if n > 0 {
        assert(moved(lo + n / 2) == greater(by + (lo + n / 2)));
        lemma_bisect_moves(greater, moved, by, lo, n / 2);
        lemma_bisect_moves(greater, moved, by, lo + n / 2 + 1, n - n / 2 - 1);
        assert(by + (lo + n / 2 + 1) == by + lo + n / 2 + 1);
    }
}

proof fn lemma_settled_search<T: PartialOrd>(
    input: Seq<T>,
    sample: T,
    greater: spec_fn(int) -> bool,
    lo: int,
    n: int,
    bound: int,
)
    requires
        answers(input, sample, greater),
        0 <= lo,
        lo + n <= input.len(),
        search_ends(input, sample, lo, n, bound),
    ensures
        bound == bisect(greater, lo, n),
    decreases n,
{
    if n > 0 {
        if may_answer(input, sample, lo + n / 2, true) && search_ends(
            input,
            sample,
            lo,
            n / 2,
            bound,
        ) {
            lemma_settled_search(input, sample, greater, lo, n / 2, bound);
        } else {
            lemma_settled_search(
                input,
                sample,
                greater,
                lo + n / 2 + 1,
                n - n / 2 - 1,
                bound,
            );
        }
    }
}

proof fn lemma_search_turns<T: PartialOrd>(input: Seq<T>, sample: T, lo: int, n: int, bound: int)
    requires
        search_ends(input, sample, lo, n, bound),
    ensures
        lo <= bound,
        n >= 0 ==> bound <= lo + n,
        bound > lo ==> may_answer(input, sample, bound - 1, false),
        bound < lo + n ==> may_answer(input, sample, bound, true),
    decreases n,
{
    if n > 0 {
        if may_answer(input, sample, lo + n / 2, true) && search_ends(
            input,
            sample,
            lo,
            n / 2,
            bound,
        ) {
            lemma_search_turns(input, sample, lo, n / 2, bound);
        } else {
            lemma_search_turns(input, sample, lo + n / 2 + 1, n - n / 2 - 1, bound);
        }
    }
}

} // verus!
