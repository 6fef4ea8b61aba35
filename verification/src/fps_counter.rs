//! The frames-per-second overlay: how its number is laid out in digit glyphs, and the
//! sliding window of frame times it is computed from.
use vstd::prelude::*;
use std::collections::VecDeque;
use std::time::Instant;

verus! {

/// The number of digit glyphs drawn for a value: one below 10, two below 100, else three.
pub open spec fn digit_count(value: u32) -> int {
    if value < 10 {
        1
    } else if value < 100 {
        2
    } else {
        3
    }
}

/// The width in buffer pixels that one digit glyph takes up, spacing included.
pub open spec fn glyph_advance() -> int {
    24
}

/// The height in buffer pixels of the overlay.
pub open spec fn glyph_height() -> int {
    35
}

/// The decimal digits of a number, most significant first ("0" for zero).
pub open spec fn decimal_digits(n: nat) -> Seq<nat>
    decreases n,
{
    if n < 10 {
        seq![n]
    } else {
        decimal_digits(n / 10).push(n % 10)
    }
}

/// The number that a sequence of decimal digits spells.
pub open spec fn digits_number(d: Seq<nat>) -> nat
    decreases d.len(),
{
    if d.len() == 0 {
        0
    } else {
        digits_number(d.drop_last()) * 10 + d.last()
    }
}

/// The value the overlay shows: values above 999 are shown as 999.
pub open spec fn shown_value(value: u32) -> nat {
    if value > 999 {
        999
    } else {
        value as nat
    }
}

/// The number of glyphs the overlay's source area is sized for.
pub fn fps_digit_count(value: u32) -> (n: i32)
    ensures
        n == digit_count(value),
{
    if value < 10 {
        1
    } else if value < 100 {
        2
    } else {
        3
    }
}

/// The digits the overlay draws for a value, most significant first: the decimal
/// digits of the value capped at 999.
pub fn display_digits(value: u32) -> (d: Vec<u32>)
    ensures
        d@.len() == decimal_digits(shown_value(value)).len(),
        forall|i: int| 0 <= i < d@.len() ==> d@[i] as nat == #[trigger] decimal_digits(shown_value(value))[i],
{
    let v: u32 = if value > 999 { 999 } else { value };
    let mut d: Vec<u32> = Vec::new();
    if v >= 100 {
        d.push(v / 100);
    }
    if v >= 10 {
        d.push((v / 10) % 10);
    }
    d.push(v % 10);
    proof {
        let n = v as nat;
        if n >= 100 {
            assert(decimal_digits(n / 10 / 10) == seq![n / 100]);
            assert(decimal_digits(n / 10) == seq![n / 100].push((n / 10) % 10));
        } else if n >= 10 {
            assert(decimal_digits(n / 10) == seq![n / 10]);
        }
    }
    d
}

/// Where a digit's glyph lies in the digits texture: its x and y offset, width and
/// height in buffer pixels. The atlas holds three rows: 9 6 3 1 / 8 0 2 / 7 4 5.
pub open spec fn glyph_rect(digit: u32) -> (i32, i32, i32, i32) {
    if digit == 9 {
        (0, 0, 22, 35)
    } else if digit == 6 {
        (22, 0, 22, 35)
    } else if digit == 3 {
        (44, 0, 22, 35)
    } else if digit == 1 {
        (66, 0, 22, 35)
    } else if digit == 8 {
        (0, 35, 22, 35)
    } else if digit == 0 {
        (22, 35, 22, 35)
    } else if digit == 2 {
        (44, 35, 22, 35)
    } else if digit == 7 {
        (0, 70, 22, 35)
    } else if digit == 4 {
        (22, 70, 22, 35)
    } else {
        (44, 70, 22, 35)
    }
}

/// What the digits texture depicts: three rows of 22 by 35 cells, showing the digits
/// 9 6 3 1, then 8 0 2, then 7 4 5, from left to right.
pub open spec fn atlas_rows() -> Seq<Seq<u32>> {
    seq![seq![9u32, 6u32, 3u32, 1u32], seq![8u32, 0u32, 2u32], seq![7u32, 4u32, 5u32]]
}

/// The glyph of a digit in the digits texture (see `glyph_rect`): the cell of the
/// atlas that depicts that digit.
pub fn digit_texture_src(digit: u32) -> (r: (i32, i32, i32, i32))
    requires
        digit < 10,
    ensures
        r == glyph_rect(digit),
        forall|row: int, col: int|
            0 <= row < atlas_rows().len() && 0 <= col < atlas_rows()[row].len() && #[trigger] atlas_rows()[row][col] == digit
                ==> r.0 == 22 * col && r.1 == 35 * row && r.2 == 22 && r.3 == 35,
{
    match digit {
        9 => (0, 0, 22, 35),
        6 => (22, 0, 22, 35),
        3 => (44, 0, 22, 35),
        1 => (66, 0, 22, 35),
        8 => (0, 35, 22, 35),
        0 => (22, 35, 22, 35),
        2 => (44, 35, 22, 35),
        7 => (0, 70, 22, 35),
        4 => (22, 70, 22, 35),
        _ => (44, 70, 22, 35),
    }
}

/// The commit that follows another: one more, wrapping around to 0 after the largest.
pub open spec fn next_commit(c: usize) -> usize {
    if c == usize::MAX {
        0
    } else {
        (c + 1) as usize
    }
}

/// The shown value and commit after showing `fps`: the commit advances exactly when
/// the value changes.
pub open spec fn after_update(value: u32, commit: usize, fps: u32) -> (u32, usize) {
    if value != fps {
        (fps, next_commit(commit))
    } else {
        (value, commit)
    }
}

/// The overlay element that shows a frames-per-second value with digit glyphs from a
/// texture. Its commit counter advances each time the shown value changes, so that
/// the renderer redraws it.
#[derive(Debug, Clone)]
pub struct FpsElement<T> {
    value: u32,
    texture: T,
    commit_counter: usize,
}

impl<T> FpsElement<T> {
    /// The value shown.
    pub closed spec fn spec_value(&self) -> u32 {
        self.value
    }

    /// The commit counter's value.
    pub closed spec fn spec_commit(&self) -> usize {
        self.commit_counter
    }

    /// The digits texture.
    pub closed spec fn spec_texture(&self) -> T {
        self.texture
    }

    /// A new overlay over the digits texture: it shows 0, at commit 0.
    pub fn new(texture: T) -> (e: Self)
        ensures
            e.spec_value() == 0,
            e.spec_commit() == 0,
            e.spec_texture() == texture,
    {
        FpsElement { texture, value: 0, commit_counter: 0 }
    }

    /// Shows a new value. The commit counter advances (wrapping around) exactly when
    /// the value differs from the one shown.
    pub fn update_fps(&mut self, fps: u32)
        ensures
            final(self).spec_texture() == old(self).spec_texture(),
            (final(self).spec_value(), final(self).spec_commit())
                == after_update(old(self).spec_value(), old(self).spec_commit(), fps),
    {
        if self.value != fps {
            self.value = fps;
            self.commit_counter = if self.commit_counter == usize::MAX {
                0
            } else {
                self.commit_counter + 1
            };
        }
    }

    /// The value shown.
    pub fn value(&self) -> (v: u32)
        ensures
            v == self.spec_value(),
    {
        self.value
    }

    /// The digits texture.
    pub fn texture(&self) -> (t: &T)
        ensures
            *t == self.spec_texture(),
    {
        &self.texture
    }

    /// The current commit, as the renderer's commit counter counts it.
    pub fn current_commit(&self) -> (c: usize)
        ensures
            c == self.spec_commit(),
    {
        self.commit_counter
    }

    /// The size of the overlay's source area in buffer pixels: one glyph advance per
    /// digit wide, one glyph high.
    pub fn src_size(&self) -> (s: (i32, i32))
        ensures
            s.0 == glyph_advance() * digit_count(self.spec_value()),
            s.1 == glyph_height(),
    {
        (24 * fps_digit_count(self.value), 35)
    }

    /// The digits drawn for the shown value (see `display_digits`).
    pub fn digits(&self) -> (d: Vec<u32>)
        ensures
            d@.len() == decimal_digits(shown_value(self.spec_value())).len(),
            forall|i: int| 0 <= i < d@.len() ==> d@[i] as nat == #[trigger] decimal_digits(shown_value(self.spec_value()))[i],
    {
        display_digits(self.value)
    }
}

} // verus!

verus! {

#[verifier::external_type_specification]
#[verifier::external_body]
pub struct ExInstant(Instant);

/// `Instant` is `Copy`: cloning it, through `<Instant as Clone>::clone`, gives the
/// same instant. Trusted, as std documents for `Copy` types.
pub assume_specification[ <Instant as Clone>::clone ](instant: &Instant) -> (r: Instant)
    ensures
        r == *instant,
;

/// Reads the monotonic clock, through `std::time::Instant::now`.
///
/// Trusted only to return; nothing is stated of the instant, which depends on the time.
#[verifier::external_body]
fn instant_now() -> Instant {
    Instant::now()
}

/// The time in nanoseconds from one instant to a later one, as
/// `Instant::duration_since(..).as_nanos()` computes it from the two instants alone
/// (zero when `earlier` is in fact later).
pub uninterp spec fn spec_nanos_between(now: Instant, earlier: Instant) -> u128;

/// The time from `earlier` to `now` in nanoseconds, through
/// `std::time::Instant::duration_since` and `Duration::as_nanos`.
///
/// Trusted: the result is `spec_nanos_between` of the two instants; its value is left
/// unsaid, as it depends on when the instants were taken.
#[verifier::external_body]
fn nanos_between(now: &Instant, earlier: &Instant) -> (r: u128)
    ensures
        r == spec_nanos_between(*now, *earlier),
{
    now.duration_since(*earlier).as_nanos()
}

/// The last `n` elements of `s` (all of `s` when it is shorter).
pub open spec fn last_n<A>(s: Seq<A>, n: nat) -> Seq<A> {
    if s.len() > n {
        s.skip(s.len() - n)
    } else {
        s
    }
}

/// Tracking frames-per-second: the times of the most recent frames, in nanoseconds,
/// oldest first, over a window of a fixed number of frames.
#[derive(Debug)]
pub struct Fps {
    window_len: usize,
    window: VecDeque<u128>,
    last: Instant,
}

impl Fps {
    /// The window length used by the default constructor.
    pub const DEFAULT_WINDOW_LEN: usize = 60;

    /// The window never holds more frames than it spans.
    #[verifier::type_invariant]
    spec fn wf(&self) -> bool {
        self.window@.len() <= self.window_len
    }

    /// The number of frames the window spans.
    pub closed spec fn spec_window_len(&self) -> nat {
        self.window_len as nat
    }

    /// The frame times in the window, oldest first.
    pub closed spec fn spec_window(&self) -> Seq<u128> {
        self.window@
    }

    /// The instant the last frame ended (or the `Fps` was created).
    pub closed spec fn spec_last(&self) -> Instant {
        self.last
    }

    /// Creates a new `Fps` with the given window length as a number of frames, with no
    /// frame recorded yet. The larger the window, the "smoother" the FPS.
    pub fn with_window_len(window_len: usize) -> (f: Fps)
        ensures
            f.spec_window_len() == window_len,
            f.spec_window().len() == 0,
    {
        let window = VecDeque::with_capacity(window_len);
        let last = instant_now();
        Fps { window_len, window, last }
    }

    /// Records the time of one frame: the oldest frames leave the window so that, with
    /// the new one, it spans at most its length.
    pub fn push_frame_time(&mut self, delta: u128)
        requires
            old(self).spec_window_len() > 0,
        ensures
            final(self).spec_window_len() == old(self).spec_window_len(),
            final(self).spec_last() == old(self).spec_last(),
            final(self).spec_window() == last_n(old(self).spec_window().push(delta), old(self).spec_window_len()),
    {
        proof {
            use_type_invariant(&*self);
        }
        let mut window: VecDeque<u128> = VecDeque::new();
        std::mem::swap(&mut window, &mut self.window);
        let ghost start = window@;
        let wl = self.window_len;
        while window.len() >= wl
            invariant
                wl > 0,
                start.len() <= wl,
                window@.len() <= start.len(),
                window@.len() + 1 >= wl || window@.len() == start.len(),
                window@ == start.skip(start.len() - window@.len()),
            decreases window@.len(),
        {
            window.pop_front();
            assert(window@ =~= start.skip(start.len() - window@.len()));
        }
        window.push_back(delta);
        proof {
            let s = start.push(delta);
            let w = wl as nat;
            if s.len() > w {
                assert(window@ =~= s.skip(s.len() - w));
            } else {
                assert(window@ =~= s);
            }
        }
        self.window = window;
    }

    /// Call this once per frame to allow the `Fps` instance to sample the rate: the
    /// time from the end of the previous frame (or the creation) to now is recorded as
    /// a frame time, and now becomes the end of the last frame.
    pub fn tick(&mut self)
        requires
            old(self).spec_window_len() > 0,
        ensures
            final(self).spec_window_len() == old(self).spec_window_len(),
            final(self).spec_window() == last_n(
                old(self).spec_window().push(spec_nanos_between(final(self).spec_last(), old(self).spec_last())),
                old(self).spec_window_len(),
            ),
    {
        proof {
            use_type_invariant(&*self);
        }
        let now = instant_now();
        let delta = nanos_between(&now, &self.last);
        self.last = now;
        self.push_frame_time(delta);
    }

    /// The number of frames in the window.
    pub fn frame_count(&self) -> (n: usize)
        ensures
            n == self.spec_window().len(),
    {
        self.window.len()
    }

    /// The time of the `i`-th frame in the window, oldest first.
    pub fn frame_time(&self, i: usize) -> (t: u128)
        requires
            i < self.spec_window().len(),
        ensures
            t == self.spec_window()[i as int],
    {
        self.window[i]
    }

    /// The longest frame time in the window, which gives the minimum frames per second;
    /// `None` when the window is empty.
    pub fn slowest_frame(&self) -> (m: Option<u128>)
        ensures
            match m {
                Some(t) => self.spec_window().contains(t)
                    && forall|i: int| 0 <= i < self.spec_window().len() ==> self.spec_window()[i] <= t,
                None => self.spec_window().len() == 0,
            },
    {
        let n = self.window.len();
        if n == 0 {
            return None;
        }
        let mut best = self.window[0];
        let ghost mut k: int = 0;
        let mut i: usize = 1;
        while i < n
            invariant
                n == self.window@.len(),
                1 <= i <= n,
                0 <= k < i,
                best == self.window@[k],
                forall|j: int| 0 <= j < i ==> self.window@[j] <= best,
            decreases n - i,
        {
            if self.window[i] > best {
                best = self.window[i];
                proof {
                    k = i as int;
                }
            }
            i = i + 1;
        }
        Some(best)
    }

    /// The shortest frame time in the window, which gives the maximum frames per
    /// second; `None` when the window is empty.
    pub fn fastest_frame(&self) -> (m: Option<u128>)
        ensures
            match m {
                Some(t) => self.spec_window().contains(t)
                    && forall|i: int| 0 <= i < self.spec_window().len() ==> t <= self.spec_window()[i],
                None => self.spec_window().len() == 0,
            },
    {
        let n = self.window.len();
        if n == 0 {
            return None;
        }
        let mut best = self.window[0];
        let ghost mut k: int = 0;
        let mut i: usize = 1;
        while i < n
            invariant
                n == self.window@.len(),
                1 <= i <= n,
                0 <= k < i,
                best == self.window@[k],
                forall|j: int| 0 <= j < i ==> best <= self.window@[j],
            decreases n - i,
        {
            if self.window[i] < best {
                best = self.window[i];
                proof {
                    k = i as int;
                }
            }
            i = i + 1;
        }
        Some(best)
    }
}

impl Clone for Fps {
    /// A copy of the window, its length and the end of its last frame.
    fn clone(&self) -> (c: Fps)
        ensures
            c.spec_window_len() == self.spec_window_len(),
            c.spec_window() == self.spec_window(),
            c.spec_last() == self.spec_last(),
    {
        proof {
            use_type_invariant(self);
        }
        let window = self.window.clone();
        assert(window@ =~= self.window@);
        Fps { window_len: self.window_len, window, last: self.last.clone() }
    }
}

impl Default for Fps {
    /// An `Fps` over the default window of 60 frames.
    fn default() -> (f: Fps)
        ensures
            f.spec_window_len() == 60,
            f.spec_window().len() == 0,
    {
        Fps::with_window_len(Self::DEFAULT_WINDOW_LEN)
    }
}

/// Showing a value always shows it; the commit changes if and only if the shown value
/// does; and showing the same value again changes nothing.
pub proof fn lemma_update_laws(value: u32, commit: usize, fps: u32)
    ensures
        after_update(value, commit, fps).0 == fps,
        (after_update(value, commit, fps).1 != commit) <==> (value != fps),
        after_update(after_update(value, commit, fps).0, after_update(value, commit, fps).1, fps)
            == after_update(value, commit, fps),
        value != fps ==> after_update(value, commit, fps).1 as int == (commit + 1) % (usize::MAX as int + 1),
{
    let m = usize::MAX as int + 1;
    if commit < usize::MAX {
        assert((commit + 1) % m == commit + 1) by (nonlinear_arith)
            requires
                0 <= commit + 1 < m,
        ;
    } else {
        assert((commit + 1) % m == 0) by (nonlinear_arith)
            requires
                commit + 1 == m,
                m > 0,
        ;
    }
}

/// The overlay is sized for exactly the glyphs it draws: the digits shown for a value
/// are as many as `digit_count` says, each below ten, and they spell the shown value.
pub proof fn lemma_digits_fit(value: u32)
    ensures
        decimal_digits(shown_value(value)).len() == digit_count(value),
        forall|i: int| 0 <= i < decimal_digits(shown_value(value)).len()
            ==> #[trigger] decimal_digits(shown_value(value))[i] < 10,
        digits_number(decimal_digits(shown_value(value))) == shown_value(value),
        shown_value(value) > 0 ==> decimal_digits(shown_value(value))[0] > 0,
        shown_value(value) <= 999,
        shown_value(value) <= value,
        value <= 999 ==> shown_value(value) == value,
        1 <= digit_count(value) <= 3,
{
    let n = shown_value(value);
    let d = decimal_digits(n);
    if n >= 100 {
        let hi = n / 100;
        let mid = (n / 10) % 10;
        assert(decimal_digits(n / 10 / 10) == seq![hi]) by {
            assert(n / 10 / 10 == n / 100);
        }
        assert(decimal_digits(n / 10) == seq![hi].push(mid));
        assert(d.drop_last() == decimal_digits(n / 10));
        assert(seq![hi].push(mid).drop_last() =~= seq![hi]);
        assert(seq![hi].drop_last() =~= Seq::<nat>::empty());
        assert(digits_number(Seq::<nat>::empty()) == 0);
        assert(seq![hi].last() == hi);
        assert(digits_number(seq![hi]) == hi);
        assert(seq![hi].push(mid).last() == mid);
        assert(digits_number(seq![hi].push(mid)) == hi * 10 + mid);
        assert(hi * 10 + mid == n / 10);
        assert((n / 10) * 10 + n % 10 == n);
    } else if n >= 10 {
        assert(decimal_digits(n / 10) == seq![n / 10]);
        assert(d.drop_last() == seq![n / 10]);
        assert(seq![n / 10].drop_last() =~= Seq::<nat>::empty());
        assert(digits_number(Seq::<nat>::empty()) == 0);
        assert(seq![n / 10].last() == n / 10);
        assert(digits_number(seq![n / 10]) == n / 10);
        assert(d.last() == n % 10);
        assert((n / 10) * 10 + n % 10 == n);
    } else {
        assert(d.drop_last() =~= Seq::<nat>::empty());
        assert(digits_number(Seq::<nat>::empty()) == 0);
    }
}

/// The overlay's source area is one glyph high, and each digit takes up its glyph's
/// width and two pixels of spacing.
pub proof fn lemma_overlay_geometry(digit: u32)
    requires
        digit < 10,
    ensures
        glyph_advance() == glyph_rect(digit).2 + 2,
        glyph_height() == glyph_rect(digit).3,
        glyph_rect(digit).2 == 22,
{
}

/// Every digit's glyph is a 22 by 35 area inside the 88 by 105 digits texture, and
/// different digits have different glyphs.
pub proof fn lemma_glyphs_distinct(a: u32, b: u32)
    requires
        a < 10,
        b < 10,
    ensures
        0 <= glyph_rect(a).0 && glyph_rect(a).0 + glyph_rect(a).2 <= 88,
        0 <= glyph_rect(a).1 && glyph_rect(a).1 + glyph_rect(a).3 <= 105,
        glyph_rect(a).2 == 22 && glyph_rect(a).3 == 35,
        a != b ==> (glyph_rect(a).0, glyph_rect(a).1) != (glyph_rect(b).0, glyph_rect(b).1),
{
}

/// Each digit's glyph is the atlas cell that depicts it: the digit in row `row` and
/// column `col` of the atlas is drawn from the 22 by 35 area at (22 * col, 35 * row);
/// and every digit has a cell.
pub proof fn lemma_glyph_is_atlas_cell(row: int, col: int, digit: u32)
    requires
        digit < 10,
    ensures
        0 <= row < atlas_rows().len() && 0 <= col < atlas_rows()[row].len() && atlas_rows()[row][col] == digit
            ==> glyph_rect(digit).0 == 22 * col && glyph_rect(digit).1 == 35 * row && glyph_rect(digit).2 == 22
                && glyph_rect(digit).3 == 35,
        exists|r: int, c: int| 0 <= r < atlas_rows().len() && 0 <= c < atlas_rows()[r].len() && #[trigger] atlas_rows()[r][c] == digit,
{
    let a = atlas_rows();
    assert(a[0][0] == 9 && a[0][1] == 6 && a[0][2] == 3 && a[0][3] == 1);
    assert(a[1][0] == 8 && a[1][1] == 0 && a[1][2] == 2);
    assert(a[2][0] == 7 && a[2][1] == 4 && a[2][2] == 5);
    assert(a.len() == 3 && a[0].len() == 4 && a[1].len() == 3 && a[2].len() == 3);
}

/// `last_n` keeps the end of a sequence: at most `n` elements, all of them when there
/// are no more, and the last ones in their order.
pub proof fn lemma_last_n_suffix<A>(s: Seq<A>, n: nat)
    ensures
        last_n(s, n).len() == if s.len() < n { s.len() } else { n },
        forall|i: int| 0 <= i < last_n(s, n).len() ==> #[trigger] last_n(s, n)[i] == s[s.len() - last_n(s, n).len() + i],
{
}

/// Recording frame times one by one into a window that starts empty keeps exactly
/// the most recent ones: after the next frame, the window is the last `len` of all
/// frames recorded so far.
pub proof fn lemma_window_keeps_latest(frames: Seq<u128>, delta: u128, len: nat)
    requires
        len > 0,
    ensures
        last_n(last_n(frames, len).push(delta), len) == last_n(frames.push(delta), len),
{
    let w = last_n(frames, len);
    let s = frames.push(delta);
    if frames.len() > len {
        assert(last_n(w.push(delta), len) =~= last_n(s, len));
    } else {
        assert(w.push(delta) =~= s);
    }
}

} // verus!

verus! {

/// The window after recording `frames`, one by one, into an empty window spanning `len`
/// frames.
pub open spec fn window_after(frames: Seq<u128>, len: nat) -> Seq<u128>
    decreases frames.len(),
{
    if frames.len() == 0 {
        Seq::empty()
    } else {
        last_n(window_after(frames.drop_last(), len).push(frames.last()), len)
    }
}

/// Over any number of ticks, the window holds exactly the latest `len` frame times, in
/// order, and so `min(ticks, len)` of them.
pub proof fn lemma_window_after_ticks(frames: Seq<u128>, len: nat)
    requires
        len > 0,
    ensures
        window_after(frames, len) == last_n(frames, len),
        window_after(frames, len).len() == if frames.len() < len { frames.len() } else { len },
    decreases frames.len(),
{
    if frames.len() > 0 {
        let prev = frames.drop_last();
        lemma_window_after_ticks(prev, len);
        lemma_window_keeps_latest(prev, frames.last(), len);
        assert(prev.push(frames.last()) =~= frames);
    }
}

/// The sum of the frame times of a window.
pub open spec fn total_time(w: Seq<u128>) -> int
    decreases w.len(),
{
    if w.len() == 0 {
        0
    } else {
        total_time(w.drop_last()) + w.last()
    }
}

/// The mean frame time lies between the fastest and the slowest frame, so the average
/// frame rate lies between the minimum and the maximum one.
pub proof fn lemma_mean_between_extremes(w: Seq<u128>, fastest: u128, slowest: u128)
    requires
        forall|i: int| 0 <= i < w.len() ==> fastest <= #[trigger] w[i] && w[i] <= slowest,
    ensures
        fastest * w.len() <= total_time(w) <= slowest * w.len(),
    decreases w.len(),
{
    if w.len() > 0 {
        let prev = w.drop_last();
        assert forall|i: int| 0 <= i < prev.len() implies fastest <= #[trigger] prev[i] && prev[i] <= slowest by {
            assert(prev[i] == w[i]);
        }
        lemma_mean_between_extremes(prev, fastest, slowest);
        let n = prev.len() as int;
        assert(fastest * n + fastest == fastest * (n + 1)) by (nonlinear_arith);
        assert(slowest * n + slowest == slowest * (n + 1)) by (nonlinear_arith);
        assert(fastest <= w.last() <= slowest);
    }
}

} // verus!

verus! {

/// A rectangle in integer pixel coordinates: its top-left corner and its size.
#[derive(Debug, Clone, Copy, PartialEq, Eq, Structural)]
pub struct Rect {
    pub x: i32,
    pub y: i32,
    pub w: i32,
    pub h: i32,
}

/// An integer clamped to the range of `i32`, as saturating arithmetic gives it.
pub open spec fn saturate(v: int) -> int {
    if v > i32::MAX {
        i32::MAX as int
    } else if v < i32::MIN {
        i32::MIN as int
    } else {
        v
    }
}

/// Whether two rectangles share an area (touching edges do not count), with the far
/// edges computed by saturating addition, as smithay's `Rectangle::overlaps` does.
pub open spec fn rects_overlap(a: Rect, b: Rect) -> bool {
    &&& a.x < saturate(b.x + b.w)
    &&& b.x < saturate(a.x + a.w)
    &&& a.y < saturate(b.y + b.h)
    &&& b.y < saturate(a.y + a.h)
}

/// The larger of two integers.
pub open spec fn int_max(a: int, b: int) -> int {
    if a >= b { a } else { b }
}

/// The smaller of two integers.
pub open spec fn int_min(a: int, b: int) -> int {
    if a <= b { a } else { b }
}

/// The area two rectangles share, as smithay's `Rectangle::intersection` computes it;
/// `None` when they do not overlap.
pub open spec fn rect_intersection(a: Rect, b: Rect) -> Option<Rect> {
    if !rects_overlap(a, b) {
        None
    } else {
        let x = int_max(a.x as int, b.x as int);
        let y = int_max(a.y as int, b.y as int);
        let right = int_min(saturate(a.x + a.w), saturate(b.x + b.w));
        let bottom = int_min(saturate(a.y + a.h), saturate(b.y + b.h));
        Some(Rect {
            x: x as i32,
            y: y as i32,
            w: saturate(right - x) as i32,
            h: saturate(bottom - y) as i32,
        })
    }
}

/// The damage of one glyph: each damaged rectangle clipped to the glyph's destination
/// and moved to the glyph's own coordinates, in order, leaving out those that miss it.
pub open spec fn glyph_damage(damage: Seq<Rect>, dst: Rect) -> Seq<Rect>
    decreases damage.len(),
{
    if damage.len() == 0 {
        Seq::empty()
    } else {
        let earlier = glyph_damage(damage.drop_last(), dst);
        match rect_intersection(damage.last(), dst) {
            Some(r) => earlier.push(Rect {
                x: saturate(r.x - dst.x) as i32,
                y: saturate(r.y - dst.y) as i32,
                w: r.w,
                h: r.h,
            }),
            None => earlier,
        }
    }
}

/// Saturating `i32` addition.
fn sat_add(a: i32, b: i32) -> (r: i32)
    ensures
        r == saturate(a + b),
{
    let v: i64 = a as i64 + b as i64;
    if v > 0x7fff_ffff {
        0x7fff_ffff
    } else if v < -0x8000_0000 {
        -0x8000_0000
    } else {
        v as i32
    }
}

/// Saturating `i32` subtraction.
fn sat_sub(a: i32, b: i32) -> (r: i32)
    ensures
        r == saturate(a - b),
{
    let v: i64 = a as i64 - b as i64;
    if v > 0x7fff_ffff {
        0x7fff_ffff
    } else if v < -0x8000_0000 {
        -0x8000_0000
    } else {
        v as i32
    }
}

/// The area two rectangles share (see `rect_intersection`).
pub fn intersect_rects(a: Rect, b: Rect) -> (r: Option<Rect>)
    ensures
        r == rect_intersection(a, b),
{
    let a_right = sat_add(a.x, a.w);
    let b_right = sat_add(b.x, b.w);
    let a_bottom = sat_add(a.y, a.h);
    let b_bottom = sat_add(b.y, b.h);
    if !(a.x < b_right && b.x < a_right && a.y < b_bottom && b.y < a_bottom) {
        return None;
    }
    let x = if a.x >= b.x { a.x } else { b.x };
    let y = if a.y >= b.y { a.y } else { b.y };
    let right = if a_right <= b_right { a_right } else { b_right };
    let bottom = if a_bottom <= b_bottom { a_bottom } else { b_bottom };
    Some(Rect { x, y, w: sat_sub(right, x), h: sat_sub(bottom, y) })
}

/// The damage to redraw for one glyph drawn at `dst` (see `glyph_damage`).
pub fn clip_damage(damage: &Vec<Rect>, dst: Rect) -> (r: Vec<Rect>)
    ensures
        r@ == glyph_damage(damage@, dst),
{
    let mut out: Vec<Rect> = Vec::new();
    let n = damage.len();
    let mut i: usize = 0;
    while i < n
        invariant
            n == damage@.len(),
            i <= n,
            out@ == glyph_damage(damage@.take(i as int), dst),
        decreases n - i,
    {
        let d = damage[i];
        let ghost prefix = damage@.take(i + 1);
        assert(prefix.drop_last() =~= damage@.take(i as int));
        assert(prefix.last() == d);
        match intersect_rects(d, dst) {
            Some(c) => {
                out.push(Rect { x: sat_sub(c.x, dst.x), y: sat_sub(c.y, dst.y), w: c.w, h: c.h });
            },
            None => {},
        }
        i = i + 1;
    }
    assert(damage@.take(n as int) =~= damage@);
    out
}

/// Whether a pixel lies inside a rectangle.
pub open spec fn contains_pixel(r: Rect, px: int, py: int) -> bool {
    r.x <= px < r.x + r.w && r.y <= py < r.y + r.h
}

/// The intersection of two rectangles holds exactly the pixels that lie in both, and
/// there is none only when no pixel lies in both (for rectangles with no negative size
/// that do not reach past the range of `i32`).
pub proof fn lemma_intersection_pixels(a: Rect, b: Rect, px: int, py: int)
    requires
        a.w >= 0 && a.h >= 0 && b.w >= 0 && b.h >= 0,
        a.x + a.w <= i32::MAX && a.y + a.h <= i32::MAX,
        b.x + b.w <= i32::MAX && b.y + b.h <= i32::MAX,
    ensures
        rect_intersection(a, b) matches Some(r) ==> (contains_pixel(r, px, py) <==> (contains_pixel(a, px, py)
            && contains_pixel(b, px, py))),
        rect_intersection(a, b) is None ==> !(contains_pixel(a, px, py) && contains_pixel(b, px, py)),
{
    assert(saturate(a.x + a.w) == a.x + a.w);
    assert(saturate(b.x + b.w) == b.x + b.w);
    assert(saturate(a.y + a.h) == a.y + a.h);
    assert(saturate(b.y + b.h) == b.y + b.h);
    if rects_overlap(a, b) {
        let x = int_max(a.x as int, b.x as int);
        let y = int_max(a.y as int, b.y as int);
        let right = int_min(a.x + a.w, b.x + b.w);
        let bottom = int_min(a.y + a.h, b.y + b.h);
        assert(x <= right && y <= bottom);
        assert(saturate(right - x) == right - x);
        assert(saturate(bottom - y) == bottom - y);
        let r = rect_intersection(a, b).unwrap();
        assert(r.x == x && r.y == y && r.w == right - x && r.h == bottom - y);
    }
}

/// Clipped damage lies inside the glyph:/// Clipped damage lies inside the glyph: when rectangles have no negative size and do
/// not reach past the range of `i32`, every clipped rectangle starts inside the glyph's
/// own coordinates and ends within its size.
pub proof fn lemma_clipped_inside(d: Rect, dst: Rect)
    requires
        d.w >= 0 && d.h >= 0 && dst.w >= 0 && dst.h >= 0,
        d.x + d.w <= i32::MAX && d.y + d.h <= i32::MAX,
        dst.x + dst.w <= i32::MAX && dst.y + dst.h <= i32::MAX,
    ensures
        rect_intersection(d, dst) matches Some(r) ==> {
            &&& 0 <= r.x - dst.x && r.x - dst.x + r.w <= dst.w
            &&& 0 <= r.y - dst.y && r.y - dst.y + r.h <= dst.h
            &&& r.w >= 0 && r.h >= 0
        },
{
    if rects_overlap(d, dst) {
        let x = int_max(d.x as int, dst.x as int);
        let y = int_max(d.y as int, dst.y as int);
        let right = int_min(saturate(d.x + d.w), saturate(dst.x + dst.w));
        let bottom = int_min(saturate(d.y + d.h), saturate(dst.y + dst.h));
        assert(saturate(d.x + d.w) == d.x + d.w);
        assert(saturate(dst.x + dst.w) == dst.x + dst.w);
        assert(saturate(d.y + d.h) == d.y + d.h);
        assert(saturate(dst.y + dst.h) == dst.y + dst.h);
        assert(x <= right && y <= bottom);
        assert(saturate(right - x) == right - x);
        assert(saturate(bottom - y) == bottom - y);
        let r = rect_intersection(d, dst).unwrap();
        assert(r.x == x && r.y == y && r.w == right - x && r.h == bottom - y);
    }
}

/// The damage handed to a glyph is in the glyph's own coordinates: every rectangle lies
/// within the glyph's size from its origin (for rectangles with no negative size that
/// do not reach past the range of `i32`), and there are no more of them than there was
/// damage.
pub proof fn lemma_glyph_damage_local(damage: Seq<Rect>, dst: Rect)
    requires
        dst.w >= 0 && dst.h >= 0 && dst.x + dst.w <= i32::MAX && dst.y + dst.h <= i32::MAX,
        forall|k: int| 0 <= k < damage.len() ==> {
            &&& (#[trigger] damage[k]).w >= 0 && damage[k].h >= 0
            &&& damage[k].x + damage[k].w <= i32::MAX && damage[k].y + damage[k].h <= i32::MAX
        },
    ensures
        glyph_damage(damage, dst).len() <= damage.len(),
        forall|i: int| 0 <= i < glyph_damage(damage, dst).len() ==> {
            &&& 0 <= (#[trigger] glyph_damage(damage, dst)[i]).x
            &&& glyph_damage(damage, dst)[i].x + glyph_damage(damage, dst)[i].w <= dst.w
            &&& 0 <= glyph_damage(damage, dst)[i].y
            &&& glyph_damage(damage, dst)[i].y + glyph_damage(damage, dst)[i].h <= dst.h
            &&& glyph_damage(damage, dst)[i].w >= 0 && glyph_damage(damage, dst)[i].h >= 0
        },
    decreases damage.len(),
{
    if damage.len() > 0 {
        let prev = damage.drop_last();
        assert forall|k: int| 0 <= k < prev.len() implies {
            &&& (#[trigger] prev[k]).w >= 0 && prev[k].h >= 0
            &&& prev[k].x + prev[k].w <= i32::MAX && prev[k].y + prev[k].h <= i32::MAX
        } by {
            assert(prev[k] == damage[k]);
        }
        lemma_glyph_damage_local(prev, dst);
        let d = damage.last();
        assert(d == damage[damage.len() - 1]);
        lemma_clipped_inside(d, dst);
        match rect_intersection(d, dst) {
            Some(r) => {
                assert(saturate(r.x - dst.x) == r.x - dst.x);
                assert(saturate(r.y - dst.y) == r.y - dst.y);
            },
            None => {},
        }
    }
}

} // verus!
