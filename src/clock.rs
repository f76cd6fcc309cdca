use vstd::prelude::*;

verus! {

/// A time of day as hours, minutes, seconds and frame number.
pub type Hmsf = (int, int, int, int);

/// A date as two-digit year, month and day.
pub type Ymd = (int, int, int);

pub open spec fn time_valid(t: Hmsf, fps: int) -> bool {
    0 <= t.0 < 24 && 0 <= t.1 < 60 && 0 <= t.2 < 60 && 0 <= t.3 < fps
}

/// The next frame of the day, without drop-frame numbering.
pub open spec fn next_time(t: Hmsf, fps: int) -> Hmsf {
    if t.3 + 1 < fps {
        (t.0, t.1, t.2, t.3 + 1)
    } else if t.2 + 1 < 60 {
        (t.0, t.1, t.2 + 1, 0)
    } else if t.1 + 1 < 60 {
        (t.0, t.1 + 1, 0, 0)
    } else if t.0 + 1 < 24 {
        (t.0 + 1, 0, 0, 0)
    } else {
        (0, 0, 0, 0)
    }
}

/// The previous frame of the day, without drop-frame numbering.
pub open spec fn prev_time(t: Hmsf, fps: int) -> Hmsf {
    if t.3 > 0 {
        (t.0, t.1, t.2, t.3 - 1)
    } else if t.2 > 0 {
        (t.0, t.1, t.2 - 1, fps - 1)
    } else if t.1 > 0 {
        (t.0, t.1 - 1, 59, fps - 1)
    } else if t.0 > 0 {
        (t.0 - 1, 59, 59, fps - 1)
    } else {
        (23, 59, 59, fps - 1)
    }
}

/// Frame numbers that drop-frame counting skips: 0 and 1 at the start of
/// every minute that is not a multiple of ten.
pub open spec fn dropped(t: Hmsf) -> bool {
    t.1 % 10 != 0 && t.2 == 0 && t.3 < 2
}

/// One frame forward, skipping dropped frame numbers when `df` holds.
pub open spec fn step_forward(t: Hmsf, fps: int, df: bool) -> Hmsf {
    let n = next_time(t, fps);
    if df && dropped(n) {
        (n.0, n.1, n.2, 2)
    } else {
        n
    }
}

/// One frame back, skipping dropped frame numbers when `df` holds.
pub open spec fn step_back(t: Hmsf, fps: int, df: bool) -> Hmsf {
    let p = prev_time(t, fps);
    if df && dropped(p) {
        (p.0, p.1 - 1, 59, fps - 1)
    } else {
        p
    }
}

/// Stepping forward from the last frame of the day passes midnight.
pub open spec fn wraps_forward(t: Hmsf, fps: int) -> bool {
    t == (23int, 59int, 59int, fps - 1)
}

/// Stepping back from the first frame of the day passes midnight.
pub open spec fn wraps_back(t: Hmsf) -> bool {
    t == (0int, 0int, 0int, 0int)
}

/// Days in a month of a two-digit year; every fourth year is a leap year.
pub open spec fn days_in_month(mo: int, y: int) -> int {
    if mo == 2 {
        if y % 4 == 0 {
            29
        } else {
            28
        }
    } else if mo == 4 || mo == 6 || mo == 9 || mo == 11 {
        30
    } else {
        31
    }
}

/// A date that a day step can advance: month 1 to 12, year and day of two digits.
pub open spec fn date_steppable(d: Ymd) -> bool {
    0 <= d.0 < 100 && 1 <= d.1 <= 12 && 0 <= d.2 <= 31
}

/// The following day; year 99 is followed by year 0.
pub open spec fn next_date(d: Ymd) -> Ymd {
    if d.2 + 1 > days_in_month(d.1, d.0) {
        if d.1 + 1 > 12 {
            ((d.0 + 1) % 100, 1, 1)
        } else {
            (d.0, d.1 + 1, 1)
        }
    } else {
        (d.0, d.1, d.2 + 1)
    }
}

/// The day before; year 0 is preceded by year 99.
pub open spec fn prev_date(d: Ymd) -> Ymd {
    if d.2 > 1 {
        (d.0, d.1, d.2 - 1)
    } else if d.1 == 1 {
        ((d.0 + 99) % 100, 12, 31)
    } else {
        (d.0, d.1 - 1, days_in_month(d.1 - 1, d.0))
    }
}

/// `n` frames forward without drop-frame numbering.
pub open spec fn advance(t: Hmsf, fps: int, n: nat) -> Hmsf
    decreases n,
{
    if n == 0 {
        t
    } else {
        next_time(advance(t, fps, (n - 1) as nat), fps)
    }
}

/// Stepping keeps a valid time valid.
pub proof fn lemma_advance_valid(t: Hmsf, fps: int, n: nat)
    requires
        fps >= 1,
        time_valid(t, fps),
    ensures
        time_valid(advance(t, fps, n), fps),
    decreases n,
{
    if n > 0 {
        lemma_advance_valid(t, fps, (n - 1) as nat);
    }
}

proof fn lemma_advance_split(t: Hmsf, fps: int, a: nat, b: nat)
    ensures
        advance(t, fps, a + b) == advance(advance(t, fps, a), fps, b),
    decreases b,
{
    if b > 0 {
        lemma_advance_split(t, fps, a, (b - 1) as nat);
        assert(advance(t, fps, a + b) == next_time(advance(t, fps, (a + b - 1) as nat), fps));
    }
}

proof fn lemma_advance_frames(t: Hmsf, fps: int, n: nat)
    requires
        t.3 + n < fps,
    ensures
        advance(t, fps, n) == (t.0, t.1, t.2, t.3 + n),
    decreases n,
{
    if n > 0 {
        lemma_advance_frames(t, fps, (n - 1) as nat);
    }
}

/// The time one second later, frame number kept.
pub open spec fn second_after(t: Hmsf) -> Hmsf {
    if t.2 + 1 < 60 {
        (t.0, t.1, t.2 + 1, t.3)
    } else if t.1 + 1 < 60 {
        (t.0, t.1 + 1, 0, t.3)
    } else if t.0 + 1 < 24 {
        (t.0 + 1, 0, 0, t.3)
    } else {
        (0, 0, 0, t.3)
    }
}

/// Without drop-frame numbering, `fps` frame steps make one second: the
/// frame number comes back and the seconds move on by one, with carry.
pub proof fn lemma_fps_steps_make_a_second(t: Hmsf, fps: int)
    requires
        time_valid(t, fps),
    ensures
        advance(t, fps, fps as nat) == second_after(t),
        time_valid(second_after(t), fps),
{
    let k = (fps - 1 - t.3) as nat;
    lemma_advance_frames(t, fps, k);
    lemma_advance_split(t, fps, k, 1);
    let z = advance(t, fps, k + 1);
    assert(z == (second_after(t).0, second_after(t).1, second_after(t).2, 0int));
    lemma_advance_frames(z, fps, t.3 as nat);
    lemma_advance_split(t, fps, k + 1, t.3 as nat);
}

proof fn lemma_seconds_within_minute(t: Hmsf, fps: int, k: nat)
    requires
        time_valid(t, fps),
        t.2 + k < 60,
    ensures
        advance(t, fps, k * fps as nat) == (t.0, t.1, t.2 + k, t.3),
    decreases k,
{
    if k > 0 {
        lemma_seconds_within_minute(t, fps, (k - 1) as nat);
        let a = ((k - 1) * fps) as nat;
        assert(k * fps == a + fps) by (nonlinear_arith)
            requires
                a == (k - 1) * fps,
        ;
        lemma_advance_split(t, fps, a, fps as nat);
        lemma_fps_steps_make_a_second((t.0, t.1, t.2 + k - 1, t.3), fps);
        assert(k * fps as nat == a + fps as nat);
    } else {
        assert(k * fps as nat == 0) by (nonlinear_arith)
            requires
                k == 0,
        ;
    }
}

/// Without drop-frame numbering, `60 * fps` frame steps make one minute:
/// seconds and frame number come back and the minutes move on by one.
pub proof fn lemma_minute_of_steps(t: Hmsf, fps: int)
    requires
        time_valid(t, fps),
        t.1 < 59,
    ensures
        advance(t, fps, (60 * fps) as nat) == (t.0, t.1 + 1, t.2, t.3),
{
    let a = (59 - t.2) as nat;
    lemma_seconds_within_minute(t, fps, a);
    let u = (t.0, t.1, 59int, t.3);
    lemma_fps_steps_make_a_second(u, fps);
    let v = (t.0, t.1 + 1, 0int, t.3);
    lemma_seconds_within_minute(v, fps, t.2 as nat);
    assert((60 * fps) as nat == a * fps as nat + fps as nat + t.2 * fps as nat) by (nonlinear_arith)
        requires
            a == 59 - t.2,
            fps >= 1,
    ;
    lemma_advance_split(t, fps, a * fps as nat, fps as nat);
    lemma_advance_split(t, fps, a * fps as nat + fps as nat, t.2 as nat * fps as nat);
}

/// Under drop-frame numbering, stepping from the last frame of a minute
/// into a minute that is not a multiple of ten lands on frame 2: frame
/// numbers 0 and 1 are skipped.
pub proof fn lemma_drop_frame_skips(t: Hmsf, fps: int)
    requires
        time_valid(t, fps),
        fps > 2,
        t.2 == 59,
        t.3 == fps - 1,
        t.1 + 1 < 60,
        (t.1 + 1) % 10 != 0,
    ensures
        step_forward(t, fps, true) == (t.0, t.1 + 1, 0int, 2int),
        step_back(step_forward(t, fps, true), fps, true) == t,
{
}

/// A step back undoes a step forward, with or without drop-frame
/// numbering, from any valid time that is not itself a dropped frame number.
pub proof fn lemma_back_undoes_forward(t: Hmsf, fps: int, df: bool)
    requires
        time_valid(t, fps),
        df ==> fps > 2 && !dropped(t),
    ensures
        step_back(step_forward(t, fps, df), fps, df) == t,
        time_valid(step_forward(t, fps, df), fps),
{
}

} // verus!
