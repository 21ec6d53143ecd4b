//! Screens and their colour transitions.

use crate::fixmath::{div_toward_zero, div_tz, lemma_div_toward_zero_bounds, LIMIT};
use crate::gamedata::color::Color;
use crate::gamedata::various::Time;
use vstd::prelude::*;

verus! {

/// An active colour transition: how much of the duration has elapsed, and
/// the colours interpolated between.
#[derive(Debug, Clone, Copy, PartialEq)]
pub struct ColorTransition {
    pub elapsed_time: Time,
    pub duration: Time,
    pub initial_color: Color,
    pub final_color: Color,
}

/// One of the two screens: its current colour, and at most one active
/// colour transition.
#[derive(Debug, Clone, Copy, PartialEq)]
pub struct Screen {
    pub actual_color: Color,
    pub ongoing_transition: Option<ColorTransition>,
}

/// One colour channel linearly interpolated `e / d` of the way from `a` to
/// `b`.
pub open spec fn lerp_channel(a: i64, b: i64, e: int, d: int) -> int {
    a + div_toward_zero((b - a) * e, d)
}

/// One tick of a screen: an active transition accumulates the elapsed time;
/// once the elapsed time covers the duration the colour becomes the final
/// colour exactly and the transition is cleared, otherwise every channel is
/// interpolated linearly and the transition stays active.
pub open spec fn screen_tick(s: Screen, dt: Time) -> Screen {
    match s.ongoing_transition {
        None => s,
        Some(tr) => {
            let e = tr.elapsed_time.0 + dt.0;
            if e >= tr.duration.0 {
                Screen { actual_color: tr.final_color, ongoing_transition: None }
            } else {
                let d = tr.duration.0 as int;
                Screen {
                    actual_color: Color {
                        r: lerp_channel(tr.initial_color.r, tr.final_color.r, e, d) as i64,
                        g: lerp_channel(tr.initial_color.g, tr.final_color.g, e, d) as i64,
                        b: lerp_channel(tr.initial_color.b, tr.final_color.b, e, d) as i64,
                        a: lerp_channel(tr.initial_color.a, tr.final_color.a, e, d) as i64,
                    },
                    ongoing_transition: Some(
                        ColorTransition { elapsed_time: Time(e as i64), ..tr },
                    ),
                }
            }
        },
    }
}

impl Screen {
    /// Colours in range; an active transition has spent a non-negative part
    /// of a bounded duration, and has not covered it yet unless it has spent
    /// nothing at all.
    pub open spec fn wf(self) -> bool {
        &&& self.actual_color.wf()
        &&& match self.ongoing_transition {
            None => true,
            Some(tr) => {
                &&& tr.initial_color.wf()
                &&& tr.final_color.wf()
                &&& -LIMIT <= tr.duration.0 <= LIMIT
                &&& 0 <= tr.elapsed_time.0
                &&& tr.elapsed_time.0 == 0 || tr.elapsed_time.0 < tr.duration.0
            },
        }
    }

    /// The value of a fresh screen: transparent, with no transition.
    pub open spec fn init() -> Screen {
        Screen {
            actual_color: Color::transparent_spec(),
            ongoing_transition: None::<ColorTransition>,
        }
    }

    /// A fresh transparent screen with no transition.
    pub fn new() -> (s: Screen)
        ensures
            s == Screen::init(),
    {
        Screen { actual_color: Color::transparent(), ongoing_transition: None }
    }

    /// Replace the screen's colour at once, cancelling any active
    /// transition.
    pub fn set_color_immediate(&mut self, dest_color: Color)
        ensures
            *final(self) == (Screen {
                actual_color: dest_color,
                ongoing_transition: None::<ColorTransition>,
            }),
    {
        self.actual_color = dest_color;
        self.ongoing_transition = None;
    }

    /// Start a transition from the current colour toward `dest_color`,
    /// discarding any previous transition.
    pub fn set_color_transition(&mut self, duration: Time, dest_color: Color)
        ensures
            *final(self) == (Screen {
                actual_color: old(self).actual_color,
                ongoing_transition: Some(
                    ColorTransition {
                        elapsed_time: Time(0),
                        duration,
                        initial_color: old(self).actual_color,
                        final_color: dest_color,
                    },
                ),
            }),
    {
        self.ongoing_transition = Some(
            ColorTransition {
                elapsed_time: Time(0),
                duration,
                initial_color: self.actual_color,
                final_color: dest_color,
            },
        );
    }

    /// Advance any active transition by `time`.
    pub fn time_spent(&mut self, time: Time)
        requires
            old(self).wf(),
            0 <= time.0 <= LIMIT,
        ensures
            *final(self) == screen_tick(*old(self), time),
            final(self).wf(),
    {
        proof {
            lemma_screen_tick_wf(*old(self), time);
        }
        let tr = match self.ongoing_transition {
            None => {
                return ;
            },
            Some(tr) => tr,
        };
        let e: i64 = tr.elapsed_time.0 + time.0;
        if e >= tr.duration.0 {
            self.actual_color = tr.final_color;
            self.ongoing_transition = None;
        } else {
            self.actual_color = Color {
                r: lerp_channel_exec(tr.initial_color.r, tr.final_color.r, e, tr.duration.0),
                g: lerp_channel_exec(tr.initial_color.g, tr.final_color.g, e, tr.duration.0),
                b: lerp_channel_exec(tr.initial_color.b, tr.final_color.b, e, tr.duration.0),
                a: lerp_channel_exec(tr.initial_color.a, tr.final_color.a, e, tr.duration.0),
            };
            self.ongoing_transition = Some(ColorTransition { elapsed_time: Time(e), ..tr });
        }
    }
}

/// A tick leaves a well-formed screen well-formed.
pub proof fn lemma_screen_tick_wf(s: Screen, dt: Time)
    requires
        s.wf(),
        0 <= dt.0 <= LIMIT,
    ensures
        screen_tick(s, dt).wf(),
{
    match s.ongoing_transition {
        None => {},
        Some(tr) => {
            let e = tr.elapsed_time.0 + dt.0;
            if e >= tr.duration.0 {
            } else {
                let d = tr.duration.0 as int;
                lemma_lerp_channel_in_range(tr.initial_color.r, tr.final_color.r, e, d);
                lemma_lerp_channel_in_range(tr.initial_color.g, tr.final_color.g, e, d);
                lemma_lerp_channel_in_range(tr.initial_color.b, tr.final_color.b, e, d);
                lemma_lerp_channel_in_range(tr.initial_color.a, tr.final_color.a, e, d);
            }
        },
    }
}

/// While `0 <= e < d`, the interpolated channel lies between its endpoints.
pub proof fn lemma_lerp_channel_in_range(a: i64, b: i64, e: int, d: int)
    requires
        0 <= a <= 1000,
        0 <= b <= 1000,
        0 <= e < d,
    ensures
        a <= b ==> a <= lerp_channel(a, b, e, d) <= b,
        b < a ==> b <= lerp_channel(a, b, e, d) <= a,
        0 <= lerp_channel(a, b, e, d) <= 1000,
{
    crate::fixmath::lemma_scale_within(b - a, e, d);
}

/// One interpolated channel, on machine words.
fn lerp_channel_exec(a: i64, b: i64, e: i64, d: i64) -> (r: i64)
    requires
        0 <= a <= 1000,
        0 <= b <= 1000,
        0 <= e < d,
        d <= LIMIT,
    ensures
        r == lerp_channel(a, b, e as int, d as int),
{
    proof {
        lemma_lerp_channel_in_range(a, b, e as int, d as int);
        assert(-0x8000_0000_0000i128 <= (b - a) as i128 * e as i128 <= 0x8000_0000_0000i128)
            by (nonlinear_arith)
            requires
                -1000 <= (b - a) as i128 <= 1000,
                0 <= e as i128 <= 0x8000_0000i128,
        {
        }
    }
    let q: i128 = div_tz((b as i128 - a as i128) * (e as i128), d as i128);
    proof {
        lemma_div_toward_zero_bounds((b - a) as int * e as int, d as int);
    }
    a + (q as i64)
}

} // verus!
