use std::collections::VecDeque;
use vstd::prelude::*;

verus! {

/// Segments shorter than this (in nanoseconds) are too short to blend across;
/// sampling such a segment snaps to its newer end.
pub const MIN_SEGMENT_NANOS: u64 = 1000;

/// Blend factor between a start and an end sample.
///
/// The factor is the exact ratio `t = base + part / span`, where `base` is
/// one when extrapolating past the end sample and zero otherwise.
/// `t = 0` selects the start value, `t = 1` the end value.
#[derive(Clone, Copy, Debug, PartialEq, Eq, Structural)]
pub struct Factor {
    /// Whether the factor lies beyond the end sample (`t >= 1`).
    pub extrapolate: bool,
    /// Numerator of the fractional part, in nanoseconds.
    pub part: u64,
    /// Denominator of the fractional part, in nanoseconds (never zero in a
    /// factor the buffer computes).
    pub span: u64,
}

impl Factor {
    /// Numerator of `t` over the common denominator `span`.
    pub open spec fn numerator(self) -> int {
        (if self.extrapolate { self.span as int } else { 0int }) + self.part as int
    }

    /// Denominator of `t`.
    pub open spec fn denominator(self) -> int {
        self.span as int
    }

    /// The factor that selects the start value exactly.
    pub open spec fn zero_spec() -> Factor {
        Factor { extrapolate: false, part: 0, span: 1 }
    }

    /// Whether `t == 0`.
    pub open spec fn is_zero_spec(self) -> bool {
        !self.extrapolate && self.part == 0
    }

    /// The factor `t = 0`.
    pub fn zero() -> (f: Factor)
        ensures
            f == Factor::zero_spec(),
    {
        Factor { extrapolate: false, part: 0, span: 1 }
    }

    /// Whether `t == 0` (the start value is taken unchanged).
    pub fn is_zero(&self) -> (b: bool)
        ensures
            b == self.is_zero_spec(),
            self.span > 0 ==> (b <==> self.numerator() == 0),
    {
        !self.extrapolate && self.part == 0
    }
}

/// A value recorded at a point in time (nanoseconds on a monotonic clock).
pub struct Sample<T> {
    pub time: u64,
    pub value: T,
}

/// `a - b`, or zero when `b` is later than `a`.
pub open spec fn elapsed(a: u64, b: u64) -> u64 {
    if a >= b { (a - b) as u64 } else { 0 }
}

pub open spec fn min_u64(a: u64, b: u64) -> u64 {
    if a <= b { a } else { b }
}

fn elapsed_exec(a: u64, b: u64) -> (r: u64)
    ensures
        r == elapsed(a, b),
{
    if a >= b { a - b } else { 0 }
}

fn min_exec(a: u64, b: u64) -> (r: u64)
    ensures
        r == min_u64(a, b),
{
    if a <= b { a } else { b }
}

/// The buffer contents after making room for one more sample: the oldest
/// sample is dropped once the buffer holds `capacity` samples.
pub open spec fn evict<T>(s: Seq<Sample<T>>, capacity: usize) -> Seq<Sample<T>> {
    if s.len() >= capacity && s.len() > 0 { s.drop_first() } else { s }
}


/// Index of the newer end of the newest segment `(i - 1, i)`, with `i <= last`,
/// whose start was recorded at or before `render`; zero when there is none.
pub open spec fn segment_end<T>(s: Seq<Sample<T>>, render: u64, last: int) -> int
    decreases last,
{
    if last < 1 {
        0
    } else if s[last - 1].time <= render {
        last
    } else {
        segment_end(s, render, last - 1)
    }
}

/// Which samples `render` falls between, and at which factor:
/// `Some((start, end, t))` with indices into `s`, or `None` for no samples.
///
/// - at or after the newest sample: extrapolation along the newest segment
///   (`t >= 1`), the overshoot clamped to `max_extrapolate`;
/// - between two recorded samples: interpolation with `0 <= t <= 1`;
/// - before the oldest sample: the oldest value;
/// - a segment shorter than `MIN_SEGMENT_NANOS` snaps to its newer end.
pub open spec fn bracket_spec<T>(s: Seq<Sample<T>>, render: u64, max_extrapolate: u64) -> Option<
    (int, int, Factor),
> {
    let n: int = s.len() as int;
    if n == 0 {
        None
    } else if render >= s[n - 1].time {
        if n == 1 {
            Some((n - 1, n - 1, Factor::zero_spec()))
        } else {
            let span: u64 = elapsed(s[n - 1].time, s[n - 2].time);
            if span < MIN_SEGMENT_NANOS {
                Some((n - 1, n - 1, Factor::zero_spec()))
            } else {
                Some(
                    (
                        n - 2,
                        n - 1,
                        Factor {
                            extrapolate: true,
                            part: min_u64((render - s[n - 1].time) as u64, max_extrapolate),
                            span,
                        },
                    ),
                )
            }
        }
    } else {
        let i: int = segment_end(s, render, n - 1);
        if i == 0 {
            Some((0, 0, Factor::zero_spec()))
        } else {
            let span: u64 = elapsed(s[i].time, s[i - 1].time);
            if span < MIN_SEGMENT_NANOS {
                Some((i, i, Factor::zero_spec()))
            } else {
                Some(
                    (
                        i - 1,
                        i,
                        Factor {
                            extrapolate: false,
                            part: min_u64((render - s[i - 1].time) as u64, span),
                            span,
                        },
                    ),
                )
            }
        }
    }
}

proof fn lemma_segment_end_range<T>(s: Seq<Sample<T>>, render: u64, last: int)
    ensures
        last >= 0 ==> 0 <= segment_end(s, render, last) <= last,
        segment_end(s, render, last) >= 1 ==> s[segment_end(s, render, last) - 1].time <= render,
    decreases last,
{
    if last >= 1 {
        lemma_segment_end_range(s, render, last - 1);
    }
}

/// The indices chosen by `bracket_spec` address recorded samples.
pub proof fn lemma_bracket_in_range<T>(s: Seq<Sample<T>>, render: u64, max_extrapolate: u64)
    ensures
        bracket_spec(s, render, max_extrapolate) matches Some((i, j, f)) ==> {
            &&& 0 <= i <= j < s.len()
            &&& f.span > 0
        },
        bracket_spec(s, render, max_extrapolate) is None <==> s.len() == 0,
{
    if s.len() > 0 {
        lemma_segment_end_range(s, render, s.len() - 1);
    }
}


/// Every pair of corresponding positions was judged close by `close`
/// (and the two layouts have the same length).
pub open spec fn all_close<P, F: Fn(&P, &P) -> bool>(a: Seq<P>, b: Seq<P>, close: F) -> bool {
    &&& a.len() == b.len()
    &&& forall|i: int| 0 <= i < a.len() ==> #[trigger] close.ensures((&a[i], &b[i]), true)
}

/// The layouts differ in length, or some pair of corresponding positions was
/// judged apart by `close`.
pub open spec fn some_apart<P, F: Fn(&P, &P) -> bool>(a: Seq<P>, b: Seq<P>, close: F) -> bool {
    ||| a.len() != b.len()
    ||| exists|i: int| 0 <= i < a.len() && #[trigger] close.ensures((&a[i], &b[i]), false)
}

/// Whether two position lists are equal within tolerance: same length and
/// every pair of corresponding positions close (as `close` judges a pair).
pub fn positions_approx_eq<P, F: Fn(&P, &P) -> bool>(a: &[P], b: &[P], close: F) -> (r: bool)
    requires
        forall|x: &P, y: &P| #[trigger] close.requires((x, y)),
    ensures
        r ==> all_close(a@, b@, close),
        !r ==> some_apart(a@, b@, close),
{
    if a.len() != b.len() {
        return false;
    }
    let mut i: usize = 0;
    while i < a.len()
        invariant
            a@.len() == b@.len(),
            i <= a@.len(),
            forall|x: &P, y: &P| #[trigger] close.requires((x, y)),
            forall|k: int| 0 <= k < i ==> #[trigger] close.ensures((&a@[k], &b@[k]), true),
        decreases a@.len() - i,
    {
        if !close(&a[i], &b[i]) {
            return false;
        }
        i = i + 1;
    }
    true
}

/// `r` is the pointwise blend of `a` and `b` at factor `t` (each position
/// a result of `lerp_point`), or `b` unchanged when the layouts differ in length.
pub open spec fn blended<P, W, F: Fn(&P, &P, W) -> P>(a: Seq<P>, b: Seq<P>, t: W, lerp_point: F, r: Seq<P>) -> bool {
    if a.len() != b.len() {
        r == b
    } else {
        &&& r.len() == a.len()
        &&& forall|k: int| 0 <= k < a.len() ==> #[trigger] lerp_point.ensures((&a[k], &b[k], t), r[k])
    }
}

/// Blend two position lists pointwise with `lerp_point` at the factor `t`.
/// When the layouts differ in length the end layout is taken unchanged
/// instead of blending mismatched positions.
pub fn lerp_points<P: Copy, W: Copy, F: Fn(&P, &P, W) -> P>(a: &[P], b: &[P], t: W, lerp_point: F) -> (r: Vec<P>)
    requires
        forall|x: &P, y: &P, w: W| #[trigger] lerp_point.requires((x, y, w)),
    ensures
        blended(a@, b@, t, lerp_point, r@),
{
    let mut out: Vec<P> = Vec::with_capacity(b.len());
    if a.len() != b.len() {
        append_copies(&mut out, b);
        return out;
    }
    append_blend(&mut out, a, b, t, lerp_point);
    assert forall|k: int| 0 <= k < a@.len() implies #[trigger] lerp_point.ensures((&a@[k], &b@[k], t), out@[k]) by {
        assert(lerp_point.ensures((&a@[k], &b@[k], t), out@[0 + k]));
    }
    out
}

/// Append a copy of every position of `src` to `out`.
fn append_copies<P: Copy>(out: &mut Vec<P>, src: &[P])
    ensures
        final(out)@ == old(out)@ + src@,
{
    let ghost start = out@;
    let mut i: usize = 0;
    while i < src.len()
        invariant
            i <= src@.len(),
            out@ == start + src@.subrange(0, i as int),
        decreases src@.len() - i,
    {
        out.push(src[i]);
        i = i + 1;
        assert(out@ =~= start + src@.subrange(0, i as int));
    }
    assert(src@.subrange(0, src@.len() as int) =~= src@);
}

/// Append the pointwise blend of `a` and `b` at factor `t` to `out`.
fn append_blend<P: Copy, W: Copy, F: Fn(&P, &P, W) -> P>(out: &mut Vec<P>, a: &[P], b: &[P], t: W, lerp_point: F)
    requires
        a@.len() == b@.len(),
        forall|x: &P, y: &P, w: W| #[trigger] lerp_point.requires((x, y, w)),
    ensures
        final(out)@.len() == old(out)@.len() + a@.len(),
        final(out)@.subrange(0, old(out)@.len() as int) == old(out)@,
        forall|k: int| 0 <= k < a@.len() ==> #[trigger] lerp_point.ensures((&a@[k], &b@[k], t), final(out)@[old(out)@.len() + k]),
{
    let ghost start = out@;
    let mut i: usize = 0;
    while i < a.len()
        invariant
            a@.len() == b@.len(),
            i <= a@.len(),
            forall|x: &P, y: &P, w: W| #[trigger] lerp_point.requires((x, y, w)),
            out@.len() == start.len() + i,
            out@.subrange(0, start.len() as int) == start,
            forall|k: int| 0 <= k < i ==> #[trigger] lerp_point.ensures((&a@[k], &b@[k], t), out@[start.len() + k]),
        decreases a@.len() - i,
    {
        let p = lerp_point(&a[i], &b[i], t);
        out.push(p);
        assert(out@.subrange(0, start.len() as int) =~= start);
        i = i + 1;
    }
}


/// The buffer `new` and the report `recorded` after `push_changed(time,
/// value, same)` on the buffer `old` of the given capacity: nothing happens
/// when `same` judged the newest value equal to `value`; otherwise the
/// sample is recorded, evicting the oldest one when the buffer is full.
pub open spec fn push_outcome<T, F: Fn(&T, &T) -> bool>(
    old: Seq<Sample<T>>,
    capacity: usize,
    time: u64,
    value: T,
    same: F,
    recorded: bool,
    new: Seq<Sample<T>>,
) -> bool {
    &&& !recorded ==> {
        &&& old.len() > 0
        &&& same.ensures((&old.last().value, &value), true)
        &&& new == old
    }
    &&& recorded ==> {
        &&& (old.len() == 0 || same.ensures((&old.last().value, &value), false))
        &&& new == evict(old, capacity).push(Sample { time, value })
    }
}

/// The buffer `new` and the report `recorded` after `push_bones_changed(time,
/// positions, close)` on the buffer `old`: nothing happens when every
/// position is close to the newest recorded one; otherwise a copy of
/// `positions` is recorded, evicting the oldest sample when the buffer is full.
pub open spec fn points_push_outcome<P, F: Fn(&P, &P) -> bool>(
    old: Seq<Sample<Vec<P>>>,
    capacity: usize,
    time: u64,
    positions: Seq<P>,
    close: F,
    recorded: bool,
    new: Seq<Sample<Vec<P>>>,
) -> bool {
    &&& !recorded ==> {
        &&& old.len() > 0
        &&& all_close(old.last().value@, positions, close)
        &&& new == old
    }
    &&& recorded ==> {
        &&& (old.len() == 0 || some_apart(old.last().value@, positions, close))
        &&& new.len() == evict(old, capacity).len() + 1
        &&& new.drop_last() == evict(old, capacity)
        &&& new.last().time == time
        &&& new.last().value@ == positions
    }
}

/// The report `sampled` and the contents `out` (formerly `old_out`) after
/// `sample_into` on samples `s`: nothing when `s` is empty; otherwise the
/// bracketing end layout when the layouts differ in length, the start layout
/// at the factor zero, and the pointwise blend otherwise.
pub open spec fn sampled_into<P, F: Fn(&P, &P, Factor) -> P>(
    s: Seq<Sample<Vec<P>>>,
    render: u64,
    max_extrapolate: u64,
    lerp_point: F,
    sampled: bool,
    old_out: Seq<P>,
    out: Seq<P>,
) -> bool {
    match bracket_spec(s, render, max_extrapolate) {
        None => !sampled && out == old_out,
        Some((i, j, f)) => {
            &&& sampled
            &&& s[i].value@.len() != s[j].value@.len() ==> out == s[j].value@
            &&& s[i].value@.len() == s[j].value@.len() && f.is_zero_spec() ==> out == s[i].value@
            &&& s[i].value@.len() == s[j].value@.len() && !f.is_zero_spec() ==> blended(
                s[i].value@,
                s[j].value@,
                f,
                lerp_point,
                out,
            )
        },
    }
}

/// The zero test on factors is the test `t == 0`: a factor with a positive
/// span is zero exactly when its numerator is; in particular an
/// extrapolating factor (`t >= 1`) is never zero.
pub proof fn lemma_zero_test_is_t_zero(f: Factor)
    requires
        f.span > 0,
    ensures
        f.is_zero_spec() <==> f.numerator() == 0,
        f.extrapolate ==> !f.is_zero_spec(),
        Factor::zero_spec().numerator() == 0,
        Factor::zero_spec().denominator() > 0,
{
}

/// On equal layouts `sample_into` copies the start layout exactly when the
/// factor is `t == 0`, and otherwise (in particular whenever it
/// extrapolates past the newest sample) blends every pair of positions
/// with `lerp_point`; on layouts of different length it copies the end layout.
pub proof fn lemma_sample_into_blends_unless_exact<P, F: Fn(&P, &P, Factor) -> P>(
    s: Seq<Sample<Vec<P>>>,
    render: u64,
    max_extrapolate: u64,
    lerp_point: F,
    sampled: bool,
    old_out: Seq<P>,
    out: Seq<P>,
)
    requires
        sampled_into(s, render, max_extrapolate, lerp_point, sampled, old_out, out),
    ensures
        s.len() == 0 ==> !sampled && out == old_out,
        bracket_spec(s, render, max_extrapolate) matches Some((i, j, f)) ==> {
            let a = s[i].value@;
            let b = s[j].value@;
            &&& sampled
            &&& a.len() != b.len() ==> out == b
            &&& a.len() == b.len() && f.numerator() == 0 ==> out == a
            &&& a.len() == b.len() && f.numerator() != 0 ==> {
                &&& out.len() == a.len()
                &&& forall|k: int| 0 <= k < a.len() ==> #[trigger] lerp_point.ensures((&a[k], &b[k], f), out[k])
            }
            &&& f.extrapolate && a.len() == b.len() ==> {
                &&& out.len() == a.len()
                &&& forall|k: int| 0 <= k < a.len() ==> #[trigger] lerp_point.ensures((&a[k], &b[k], f), out[k])
            }
        },
{
    lemma_bracket_in_range(s, render, max_extrapolate);
    if let Some((i, j, f)) = bracket_spec(s, render, max_extrapolate) {
        lemma_zero_test_is_t_zero(f);
    }
}

/// Samples were recorded in time order (times never decrease).
pub open spec fn in_time_order<T>(s: Seq<Sample<T>>) -> bool {
    forall|i: int, j: int| 0 <= i <= j < s.len() ==> s[i].time <= s[j].time
}

/// Sample times strictly increase.
pub open spec fn strictly_in_time_order<T>(s: Seq<Sample<T>>) -> bool {
    forall|i: int, j: int| 0 <= i < j < s.len() ==> s[i].time < s[j].time
}

/// Recording a sample makes it the newest one: after `push_changed` (or
/// `push_bones_changed`) reports a recording, `latest_value` yields the
/// recorded value.
pub proof fn lemma_recorded_sample_is_latest<T>(s: Seq<Sample<T>>, capacity: usize, sample: Sample<T>)
    ensures
        evict(s, capacity).push(sample).len() > 0,
        evict(s, capacity).push(sample).last() == sample,
{
}

/// The buffer keeps exactly the newest samples: after a recording it holds
/// the last `min(n + 1, max(capacity, 1))` samples of the history extended
/// by the new one, oldest first.
pub proof fn lemma_keeps_newest_samples<T>(s: Seq<Sample<T>>, capacity: usize, sample: Sample<T>)
    requires
        s.len() <= if capacity == 0 { 1 } else { capacity as int },
    ensures
        ({
            let bound: int = if capacity == 0 { 1 } else { capacity as int };
            let kept: int = if s.len() + 1 <= bound { s.len() + 1int } else { bound };
            evict(s, capacity).push(sample) == s.push(sample).subrange(s.len() + 1 - kept, s.len() + 1int)
        }),
{
    let bound: int = if capacity == 0 { 1 } else { capacity as int };
    let kept: int = if s.len() + 1 <= bound { s.len() + 1int } else { bound };
    assert(evict(s, capacity).push(sample) =~= s.push(sample).subrange(s.len() + 1 - kept, s.len() + 1int));
}

/// Recording samples with non-decreasing times keeps the buffer in time order.
pub proof fn lemma_recording_keeps_time_order<T>(s: Seq<Sample<T>>, capacity: usize, sample: Sample<T>)
    requires
        in_time_order(s),
        s.len() > 0 ==> s.last().time <= sample.time,
    ensures
        in_time_order(evict(s, capacity).push(sample)),
{
    let r = evict(s, capacity).push(sample);
    assert forall|i: int, j: int| 0 <= i <= j < r.len() implies r[i].time <= r[j].time by {
        if s.len() >= capacity && s.len() > 0 {
            if j < r.len() - 1 {
                assert(r[i] == s[i + 1] && r[j] == s[j + 1]);
            } else if i < r.len() - 1 {
                assert(r[i] == s[i + 1]);
            }
        } else {
            if j < r.len() - 1 {
                assert(r[i] == s[i] && r[j] == s[j]);
            } else if i < r.len() - 1 {
                assert(r[i] == s[i]);
            }
        }
    }
}

proof fn lemma_segment_end_is_newest<T>(s: Seq<Sample<T>>, render: u64, last: int)
    requires
        last < s.len(),
    ensures
        forall|j: int| segment_end(s, render, last) <= j < last && j >= 0 ==> #[trigger] s[j].time > render,
    decreases last,
{
    if last >= 1 && s[last - 1].time > render {
        lemma_segment_end_is_newest(s, render, last - 1);
    }
}

/// `render` lies in the segment `(e - 1, e)`, and `bracket_spec` blends
/// across that segment at the fraction of it elapsed at `render` (or snaps
/// to its newer end when the segment is too short to blend across).
pub open spec fn interpolates_in<T>(s: Seq<Sample<T>>, render: u64, max_extrapolate: u64, e: int) -> bool {
    &&& 1 <= e < s.len()
    &&& s[e - 1].time <= render < s[e].time
    &&& {
        let span: u64 = (s[e].time - s[e - 1].time) as u64;
        if span < MIN_SEGMENT_NANOS {
            bracket_spec(s, render, max_extrapolate) == Some((e, e, Factor::zero_spec()))
        } else {
            bracket_spec(s, render, max_extrapolate) == Some(
                (e - 1, e, Factor { extrapolate: false, part: (render - s[e - 1].time) as u64, span }),
            )
        }
    }
}

/// Between two recorded samples the buffer interpolates: the chosen segment
/// `(e - 1, e)` is the one whose times enclose `render`, and the factor is
/// the fraction of the segment elapsed at `render`, within `[0, 1)`.
/// A segment too short to blend across snaps to its newer end.
pub proof fn lemma_bracket_interpolates<T>(s: Seq<Sample<T>>, render: u64, max_extrapolate: u64)
    requires
        in_time_order(s),
        s.len() >= 2,
        s[0].time <= render < s.last().time,
    ensures
        exists|e: int| #[trigger] interpolates_in(s, render, max_extrapolate, e),
{
    let n: int = s.len() as int;
    lemma_segment_end_range(s, render, n - 1);
    lemma_segment_end_is_newest(s, render, n - 1);
    let e: int = segment_end(s, render, n - 1);
    assert(e >= 1) by {
        if e == 0 {
            assert(s[0].time > render);
        }
    }
    assert(s[e].time > render) by {
        if e < n - 1 {
            assert(s[e].time > render);
        }
    }
    assert(s[e - 1].time <= s[e].time);
    assert(interpolates_in(s, render, max_extrapolate, e));
}

/// At or after the newest sample the buffer extrapolates along the newest
/// segment: `t = 1 + min(render - newest, max_extrapolate) / segment`, so
/// `1 <= t <= 1 + max_extrapolate / segment`.
pub proof fn lemma_bracket_extrapolates<T>(s: Seq<Sample<T>>, render: u64, max_extrapolate: u64)
    requires
        s.len() >= 2,
        render >= s.last().time,
        s[s.len() - 2].time + MIN_SEGMENT_NANOS <= s.last().time,
    ensures
        bracket_spec(s, render, max_extrapolate) matches Some((i, j, f)) && {
            &&& i == s.len() - 2
            &&& j == s.len() - 1
            &&& f.extrapolate
            &&& f.span == s.last().time - s[s.len() - 2].time
            &&& f.part <= max_extrapolate
            &&& f.part <= render - s.last().time
            &&& (f.part == max_extrapolate || f.part == render - s.last().time)
            &&& f.denominator() <= f.numerator() <= f.denominator() + max_extrapolate
        },
{
}

/// Before the oldest sample the buffer yields the oldest value.
pub proof fn lemma_bracket_before_oldest<T>(s: Seq<Sample<T>>, render: u64, max_extrapolate: u64)
    requires
        in_time_order(s),
        s.len() >= 1,
        render < s[0].time,
    ensures
        bracket_spec(s, render, max_extrapolate) matches Some((i, j, f)) && i == 0 && j == 0
            && f.numerator() == 0 && f.denominator() > 0,
{
    let n: int = s.len() as int;
    lemma_segment_end_range(s, render, n - 1);
    let e: int = segment_end(s, render, n - 1);
    if e >= 1 {
        assert(s[0].time <= s[e - 1].time);
    }
}

/// At the exact time of a recorded sample (other than the newest) the buffer
/// selects that sample with factor zero, when times strictly increase and
/// the following segment is long enough to blend across.
pub proof fn lemma_bracket_at_sample_time<T>(s: Seq<Sample<T>>, k: int, max_extrapolate: u64)
    requires
        strictly_in_time_order(s),
        0 <= k < s.len() - 1,
        s[k + 1].time - s[k].time >= MIN_SEGMENT_NANOS,
    ensures
        bracket_spec(s, s[k].time, max_extrapolate) matches Some((i, j, f)) && i == k && j == k + 1
            && f.numerator() == 0 && f.denominator() > 0,
{
    let n: int = s.len() as int;
    let render: u64 = s[k].time;
    assert(in_time_order(s));
    lemma_segment_end_range(s, render, n - 1);
    lemma_segment_end_is_newest(s, render, n - 1);
    let e: int = segment_end(s, render, n - 1);
    if e < k + 1 {
        assert(s[k].time > render);
    }
    if e > k + 1 {
        assert(s[e - 1].time > s[k].time);
    }
    assert(e == k + 1);
}

/// The factor never lies outside `[0, 1]` when interpolating, and never
/// exceeds `1 + max_extrapolate / segment` when extrapolating.
pub proof fn lemma_factor_bounds<T>(s: Seq<Sample<T>>, render: u64, max_extrapolate: u64)
    ensures
        bracket_spec(s, render, max_extrapolate) matches Some((i, j, f)) ==> {
            &&& f.denominator() > 0
            &&& 0 <= f.numerator()
            &&& !f.extrapolate ==> f.numerator() <= f.denominator()
            &&& f.extrapolate ==> f.denominator() <= f.numerator() <= f.denominator() + max_extrapolate
        },
{
}

/// A pointwise judgement that gives one answer per pair of positions.
pub open spec fn deterministic_close<P, F: Fn(&P, &P) -> bool>(close: F) -> bool {
    forall|x: &P, y: &P, r1: bool, r2: bool|
        #![trigger close.ensures((x, y), r1), close.ensures((x, y), r2)]
        close.ensures((x, y), r1) && close.ensures((x, y), r2) ==> r1 == r2
}

/// With a judgement that gives one answer per pair, two layouts cannot be
/// both all close and somewhere apart.
pub proof fn lemma_close_and_apart_exclusive<P, F: Fn(&P, &P) -> bool>(a: Seq<P>, b: Seq<P>, close: F)
    requires
        deterministic_close(close),
    ensures
        !(all_close(a, b, close) && some_apart(a, b, close)),
{
    if all_close(a, b, close) && some_apart(a, b, close) {
        let i = choose|i: int| 0 <= i < a.len() && #[trigger] close.ensures((&a[i], &b[i]), false);
        assert(close.ensures((&a[i], &b[i]), true));
    }
}

/// The tolerance test on position lists is symmetric when the pointwise
/// judgement is: `positions_approx_eq(a, b)` and `positions_approx_eq(b, a)`
/// agree (`r_ab` and `r_ba` are their results, as its contract states them).
pub proof fn lemma_positions_approx_eq_symmetric<P, F: Fn(&P, &P) -> bool>(
    a: Seq<P>,
    b: Seq<P>,
    close: F,
    r_ab: bool,
    r_ba: bool,
)
    requires
        deterministic_close(close),
        forall|x: &P, y: &P, r: bool| #[trigger] close.ensures((x, y), r) ==> close.ensures((y, x), r),
        r_ab ==> all_close(a, b, close),
        !r_ab ==> some_apart(a, b, close),
        r_ba ==> all_close(b, a, close),
        !r_ba ==> some_apart(b, a, close),
    ensures
        r_ab == r_ba,
{
    if r_ab && !r_ba {
        let i = choose|i: int| 0 <= i < b.len() && #[trigger] close.ensures((&b[i], &a[i]), false);
        assert(close.ensures((&a[i], &b[i]), true));
        assert(close.ensures((&a[i], &b[i]), false));
    }
    if !r_ab && r_ba {
        let i = choose|i: int| 0 <= i < a.len() && #[trigger] close.ensures((&a[i], &b[i]), false);
        assert(close.ensures((&b[i], &a[i]), true));
        assert(close.ensures((&b[i], &a[i]), false));
    }
}

/// Recording bone positions with `push_bones_changed` agrees with
/// `push_changed` on the same buffer, when the latter's tolerance test on
/// position lists answers as `positions_approx_eq` does: the same decision,
/// the same eviction and the same recorded sample.
pub proof fn lemma_push_bones_agrees_with_push_changed<P, F: Fn(&P, &P) -> bool, G: Fn(&Vec<P>, &Vec<P>) -> bool>(
    old: Seq<Sample<Vec<P>>>,
    capacity: usize,
    time: u64,
    value: Vec<P>,
    close: F,
    same: G,
    bones_recorded: bool,
    bones_new: Seq<Sample<Vec<P>>>,
    recorded: bool,
    new: Seq<Sample<Vec<P>>>,
)
    requires
        deterministic_close(close),
        forall|a: &Vec<P>, b: &Vec<P>, r: bool| #[trigger]
            same.ensures((a, b), r) ==> (r ==> all_close(a@, b@, close)) && (!r ==> some_apart(a@, b@, close)),
        points_push_outcome(old, capacity, time, value@, close, bones_recorded, bones_new),
        push_outcome(old, capacity, time, value, same, recorded, new),
    ensures
        bones_recorded == recorded,
        bones_new.len() == new.len(),
        forall|i: int| 0 <= i < new.len() ==> #[trigger] bones_new[i].time == new[i].time && bones_new[i].value@ == new[i].value@,
{
    if old.len() > 0 {
        lemma_close_and_apart_exclusive(old.last().value@, value@, close);
    }
    if recorded {
        if old.len() > 0 {
            assert(same.ensures((&old.last().value, &value), false));
        }
        assert(bones_recorded);
        assert forall|i: int| 0 <= i < new.len() implies #[trigger] bones_new[i].time == new[i].time && bones_new[i].value@ == new[i].value@ by {
            if i < new.len() - 1 {
                assert(bones_new[i] == bones_new.drop_last()[i]);
            }
        }
    } else {
        assert(same.ensures((&old.last().value, &value), true));
        assert(!bones_recorded);
    }
}

/// Pushing the value just recorded again is ignored, when the tolerance test
/// judges every value equal to itself and gives one answer per pair.
pub proof fn lemma_repeated_push_is_ignored<T, F: Fn(&T, &T) -> bool>(
    older: Seq<Sample<T>>,
    capacity: usize,
    first_time: u64,
    value: T,
    same: F,
    old: Seq<Sample<T>>,
    second_time: u64,
    recorded: bool,
    new: Seq<Sample<T>>,
)
    requires
        forall|a: &T, r: bool| #[trigger] same.ensures((a, a), r) ==> r,
        push_outcome(older, capacity, first_time, value, same, true, old),
        push_outcome(old, capacity, second_time, value, same, recorded, new),
    ensures
        !recorded,
        new == old,
{
    assert(old.last().value == value);
    if recorded {
        assert(same.ensures((&value, &value), false));
    }
}

/// `sample_into` yields what blending the bracketing layouts with
/// `lerp_points` (the blend behind `sample` on position lists) yields, when
/// the pointwise blend gives one answer per input and returns the start
/// position at the factor zero.
pub proof fn lemma_sample_into_agrees_with_blend<P, F: Fn(&P, &P, Factor) -> P>(
    s: Seq<Sample<Vec<P>>>,
    render: u64,
    max_extrapolate: u64,
    lerp_point: F,
    old_out: Seq<P>,
    out: Seq<P>,
    blend: Seq<P>,
)
    requires
        s.len() > 0,
        forall|x: &P, y: &P, f: Factor, v: P, w: P|
            #![trigger lerp_point.ensures((x, y, f), v), lerp_point.ensures((x, y, f), w)]
            lerp_point.ensures((x, y, f), v) && lerp_point.ensures((x, y, f), w) ==> v == w,
        forall|x: &P, y: &P, f: Factor, v: P| #[trigger] lerp_point.ensures((x, y, f), v) && f.numerator() == 0 ==> v == *x,
        sampled_into(s, render, max_extrapolate, lerp_point, true, old_out, out),
        bracket_spec(s, render, max_extrapolate) matches Some((i, j, f)) && blended(s[i].value@, s[j].value@, f, lerp_point, blend),
    ensures
        out == blend,
{
    lemma_bracket_in_range(s, render, max_extrapolate);
    let (i, j, f) = bracket_spec(s, render, max_extrapolate).unwrap();
    let a = s[i].value@;
    let b = s[j].value@;
    if a.len() == b.len() {
        if f.is_zero_spec() {
            assert forall|k: int| 0 <= k < a.len() implies blend[k] == a[k] by {
                assert(lerp_point.ensures((&a[k], &b[k], f), blend[k]));
            }
            assert(out =~= blend);
        } else {
            assert forall|k: int| 0 <= k < a.len() implies out[k] == blend[k] by {
                assert(lerp_point.ensures((&a[k], &b[k], f), out[k]));
                assert(lerp_point.ensures((&a[k], &b[k], f), blend[k]));
            }
            assert(out =~= blend);
        }
    }
}

/// Ring buffer of timestamped value snapshots.
///
/// Game state is read at a fixed cadence while the overlay renders at a much
/// higher, variable frame rate. This buffer allows sampling the game state at
/// any point in time, either interpolated (slightly in the past, perfectly
/// smooth) or extrapolated (up-to-date, velocity projected).
pub struct InterpBuffer<T> {
    samples: VecDeque<Sample<T>>,
    capacity: usize,
}

impl<T> View for InterpBuffer<T> {
    type V = Seq<Sample<T>>;

    /// The recorded samples, oldest first.
    closed spec fn view(&self) -> Seq<Sample<T>> {
        self.samples@
    }
}

impl<T> InterpBuffer<T> {
    /// The number of samples the buffer keeps.
    pub closed spec fn capacity(&self) -> usize {
        self.capacity
    }

    /// The buffer never holds more than `capacity` samples (one, when the
    /// capacity is zero: the newest sample is always kept).
    pub open spec fn wf(&self) -> bool {
        self@.len() <= if self.capacity() == 0 { 1 } else { self.capacity() as int }
    }

    pub fn new(capacity: usize) -> (buffer: Self)
        ensures
            buffer.wf(),
            buffer@ == Seq::<Sample<T>>::empty(),
            buffer.capacity() == capacity,
    {
        InterpBuffer { samples: VecDeque::with_capacity(capacity), capacity }
    }

    pub fn clear(&mut self)
        ensures
            final(self).wf(),
            final(self)@ == Seq::<Sample<T>>::empty(),
            final(self).capacity() == old(self).capacity(),
    {
        self.samples.clear();
    }

    pub fn len(&self) -> (n: usize)
        ensures
            n == self@.len(),
    {
        self.samples.len()
    }

    /// The value of the newest recorded sample.
    pub fn latest_value(&self) -> (latest: Option<&T>)
        ensures
            self@.len() == 0 ==> latest is None,
            self@.len() > 0 ==> latest == Some(&self@.last().value),
    {
        let n: usize = self.samples.len();
        if n == 0 {
            None
        } else {
            Some(&self.samples[n - 1].value)
        }
    }

    /// Record a new sample if the value actually changed: `same` tells whether
    /// the newest recorded value and `value` are equal within tolerance.
    /// Returns true whenever a new sample has been recorded.
    pub fn push_changed<F: Fn(&T, &T) -> bool>(&mut self, time: u64, value: T, same: F) -> (recorded: bool)
        requires
            old(self).wf(),
            forall|a: &T, b: &T| #[trigger] same.requires((a, b)),
        ensures
            final(self).wf(),
            final(self).capacity() == old(self).capacity(),
            push_outcome(old(self)@, old(self).capacity(), time, value, same, recorded, final(self)@),
    {
        let n: usize = self.samples.len();
        if n > 0 {
            let latest = &self.samples[n - 1];
            if same(&latest.value, &value) {
                return false;
            }
        }
        if self.samples.len() >= self.capacity {
            self.samples.pop_front();
        }
        self.samples.push_back(Sample { time, value });
        true
    }
    /// Find the two samples bracketing `render_time` along with the
    /// interpolation factor (see `bracket_spec`).
    pub fn bracket(&self, render_time: u64, max_extrapolate: u64) -> (r: Option<(&T, &T, Factor)>)
        ensures
            match bracket_spec(self@, render_time, max_extrapolate) {
                None => r is None,
                Some((i, j, f)) => r == Some((&self@[i].value, &self@[j].value, f)),
            },
    {
        let n: usize = self.samples.len();
        if n == 0 {
            return None;
        }
        let newest_index: usize = n - 1;
        let newest = &self.samples[newest_index];
        if render_time >= newest.time {
            /* current or future: extrapolate from the newest segment */
            if newest_index == 0 {
                return Some((&newest.value, &newest.value, Factor::zero()));
            }
            let previous = &self.samples[newest_index - 1];
            let segment: u64 = elapsed_exec(newest.time, previous.time);
            if segment < MIN_SEGMENT_NANOS {
                return Some((&newest.value, &newest.value, Factor::zero()));
            }
            let overshoot: u64 = min_exec(render_time - newest.time, max_extrapolate);
            return Some(
                (&previous.value, &newest.value, Factor { extrapolate: true, part: overshoot, span: segment }),
            );
        }
        /* find the segment containing render_time (scanning newest to oldest) */
        let mut index: usize = newest_index;
        while index > 0
            invariant
                n == self@.len(),
                newest_index == n - 1,
                index <= newest_index,
                render_time < self@[n - 1].time,
                segment_end(self@, render_time, n - 1) == segment_end(self@, render_time, index as int),
            decreases index,
        {
            let start = &self.samples[index - 1];
            if render_time >= start.time {
                let end = &self.samples[index];
                let segment: u64 = elapsed_exec(end.time, start.time);
                if segment < MIN_SEGMENT_NANOS {
                    return Some((&end.value, &end.value, Factor::zero()));
                }
                let part: u64 = min_exec(render_time - start.time, segment);
                return Some((&start.value, &end.value, Factor { extrapolate: false, part, span: segment }));
            }
            index = index - 1;
        }
        /* render_time is older than everything we have */
        let oldest = &self.samples[0];
        Some((&oldest.value, &oldest.value, Factor::zero()))
    }

    /// Sample the buffer at the given point in time: `lerp` blends the two
    /// bracketing values at the factor `bracket_spec` selects.
    /// Returns `None` when no samples have been recorded.
    pub fn sample<F: Fn(&T, &T, Factor) -> T>(&self, render_time: u64, max_extrapolate: u64, lerp: F) -> (r: Option<T>)
        requires
            forall|a: &T, b: &T, f: Factor| #[trigger] lerp.requires((a, b, f)),
        ensures
            match bracket_spec(self@, render_time, max_extrapolate) {
                None => r is None,
                Some((i, j, f)) => r matches Some(v) && lerp.ensures((&self@[i].value, &self@[j].value, f), v),
            },
    {
        match self.bracket(render_time, max_extrapolate) {
            None => None,
            Some((start, end, t)) => Some(lerp(start, end, t)),
        }
    }
}


impl<P: Copy> InterpBuffer<Vec<P>> {
    /// Record a position list if it differs from the newest recorded one
    /// (`close` judges whether two positions are equal within tolerance),
    /// reusing the allocation of the evicted oldest sample.
    /// Returns true whenever a new sample has been recorded.
    pub fn push_bones_changed<F: Fn(&P, &P) -> bool>(&mut self, time: u64, positions: &[P], close: F) -> (recorded: bool)
        requires
            old(self).wf(),
            forall|x: &P, y: &P| #[trigger] close.requires((x, y)),
        ensures
            final(self).wf(),
            final(self).capacity() == old(self).capacity(),
            points_push_outcome(old(self)@, old(self).capacity(), time, positions@, close, recorded, final(self)@),
    {
        let n: usize = self.samples.len();
        if n > 0 {
            let latest = &self.samples[n - 1];
            if positions_approx_eq(latest.value.as_slice(), positions, close) {
                return false;
            }
        }
        let mut value: Vec<P> = if self.samples.len() >= self.capacity {
            match self.samples.pop_front() {
                Some(sample) => sample.value,
                None => Vec::new(),
            }
        } else {
            Vec::with_capacity(positions.len())
        };
        value.clear();
        append_copies(&mut value, positions);
        self.samples.push_back(Sample { time, value });
        assert(self@.drop_last() =~= evict(old(self)@, old(self).capacity()));
        true
    }

    /// Sample the buffer into `out`, reusing its allocation: `lerp_point`
    /// blends corresponding positions of the bracketing samples. When the
    /// layouts differ in length the end layout is copied unchanged; at the
    /// factor zero the start layout (the sample at that time) is copied.
    /// Returns false (leaving `out` untouched) when no samples have been recorded yet.
    pub fn sample_into<F: Fn(&P, &P, Factor) -> P>(
        &self,
        render_time: u64,
        max_extrapolate: u64,
        out: &mut Vec<P>,
        lerp_point: F,
    ) -> (sampled: bool)
        requires
            forall|x: &P, y: &P, f: Factor| #[trigger] lerp_point.requires((x, y, f)),
        ensures
            sampled_into(self@, render_time, max_extrapolate, lerp_point, sampled, old(out)@, final(out)@),
    {
        let (start, end, t) = match self.bracket(render_time, max_extrapolate) {
            None => return false,
            Some(found) => found,
        };
        out.clear();
        if start.len() != end.len() {
            /* layout changed: snap instead of blending mismatched positions */
            append_copies(out, end.as_slice());
            return true;
        }
        if t.is_zero() {
            /* exact sample: take it as recorded */
            append_copies(out, start.as_slice());
            return true;
        }
        append_blend(out, start.as_slice(), end.as_slice(), t, lerp_point);
        assert forall|k: int| 0 <= k < start@.len() implies #[trigger] lerp_point.ensures((&start@[k], &end@[k], t), out@[k]) by {
            assert(lerp_point.ensures((&start@[k], &end@[k], t), out@[0 + k]));
        }
        true
    }
}

} // verus!
