//! Frame pacing: whether the display can follow the content's rate (VRR),
//! the pacing parameters derived once per session, and the per-tick choice
//! between a real frame and a synthesised one (black-frame insertion).
//! Rates are integers in millihertz: 59.94 Hz is 59940.
use vstd::prelude::*;
use vstd::arithmetic::div_mod::lemma_fundamental_div_mod_converse;

verus! {

/// Whether a display with these mode refresh rates can follow content of
/// rate `fps`: the content rate lies within the lowest and highest rate, and
/// at least two distinct rates are not multiples of 5 Hz, the sign of a
/// continuous VRR range rather than a fixed list of rates.
pub open spec fn vrr_capable(rates: Seq<u32>, fps: u32) -> bool {
    &&& exists|i: int| 0 <= i < rates.len() && #[trigger] rates[i] <= fps
    &&& exists|i: int| 0 <= i < rates.len() && fps <= #[trigger] rates[i]
    &&& exists|i: int, j: int|
        0 <= i < rates.len() && 0 <= j < rates.len() && #[trigger] rates[i] % 5000 != 0
            && #[trigger] rates[j] % 5000 != 0 && rates[i] != rates[j]
}

/// Decides VRR eligibility from the refresh rates of the display's modes and
/// the content's frame rate, all in millihertz.
pub fn is_vrr_ready(refresh_rates_mhz: &[u32], content_fps_mhz: u32) -> (r: bool)
    ensures
        r == vrr_capable(refresh_rates_mhz@, content_fps_mhz),
{
    let rates = refresh_rates_mhz;
    let n = rates.len();
    if n == 0 {
        return false;
    }
    let mut min_rate: u32 = rates[0];
    let mut max_rate: u32 = rates[0];
    let mut first_odd: Option<u32> = None;
    let mut two_odd = false;
    let mut i: usize = 0;
    while i < n
        invariant
            n == rates@.len(),
            n > 0,
            i <= n,
            exists|k: int| 0 <= k < n && rates@[k] == min_rate,
            exists|k: int| 0 <= k < n && rates@[k] == max_rate,
            forall|k: int| 0 <= k < i ==> min_rate <= #[trigger] rates@[k],
            forall|k: int| 0 <= k < i ==> #[trigger] rates@[k] <= max_rate,
            i == 0 ==> min_rate == rates@[0] && max_rate == rates@[0],
            match first_odd {
                None => forall|k: int| 0 <= k < i ==> #[trigger] rates@[k] % 5000 == 0,
                Some(v) => exists|k: int| 0 <= k < i && #[trigger] rates@[k] == v && v % 5000 != 0,
            },
            !two_odd ==> forall|k: int|
                0 <= k < i && #[trigger] rates@[k] % 5000 != 0 ==> first_odd == Some(rates@[k]),
            two_odd ==> exists|a: int, b: int|
                0 <= a < i && 0 <= b < i && #[trigger] rates@[a] % 5000 != 0
                    && #[trigger] rates@[b] % 5000 != 0 && rates@[a] != rates@[b],
        decreases n - i,
    {
        let r = rates[i];
        if r < min_rate {
            min_rate = r;
        }
        if r > max_rate {
            max_rate = r;
        }
        if r % 5000 != 0 {
            match first_odd {
                None => {
                    first_odd = Some(r);
                },
                Some(v) => {
                    if v != r {
                        two_odd = true;
                    }
                },
            }
        }
        i = i + 1;
    }
    let r = two_odd && min_rate <= content_fps_mhz && content_fps_mhz <= max_rate;
    proof {
        let fps = content_fps_mhz;
        if min_rate <= fps {
            let k = choose|k: int| 0 <= k < n && rates@[k] == min_rate;
            assert(rates@[k] <= fps);
        }
        if fps <= max_rate {
            let k = choose|k: int| 0 <= k < n && rates@[k] == max_rate;
            assert(fps <= rates@[k]);
        }
        if vrr_capable(rates@, fps) {
            let (a, b) = choose|a: int, b: int|
                0 <= a < n && 0 <= b < n && #[trigger] rates@[a] % 5000 != 0
                    && #[trigger] rates@[b] % 5000 != 0 && rates@[a] != rates@[b];
            assert(rates@[a] % 5000 != 0);
            assert(rates@[b] % 5000 != 0);
            let k1 = choose|k: int| 0 <= k < n && #[trigger] rates@[k] <= fps;
            let k2 = choose|k: int| 0 <= k < n && fps <= #[trigger] rates@[k];
            assert(min_rate <= rates@[k1]);
            assert(rates@[k2] <= max_rate);
        }
    }
    r
}

/// `m / c` rounded to the nearest integer, halves up.
pub open spec fn rounded_ratio(m: int, c: int) -> int {
    (2 * m + c) / (2 * c)
}

/// Pacing parameters of a session, derived once from the display's refresh
/// rate, the content's frame rate and sample rate, and VRR eligibility.
pub struct PacingState {
    pub monitor_refresh_mhz: u32,
    pub content_fps_mhz: u32,
    pub is_vrr_capable: bool,
    /// Display refreshes per content frame.
    pub swap_interval: u64,
    /// Synthesised frames shown after each real frame.
    pub bfi_factor: u64,
    /// Rate at which ticks run.
    pub target_fps_mhz: u32,
    pub content_sample_rate: u32,
    /// Content sample rate scaled by the same ratio as the video.
    pub effective_sample_rate: u64,
}

impl PacingState {
    /// The parameters are those derived from their inputs.
    pub open spec fn wf(&self) -> bool {
        let m = self.monitor_refresh_mhz as int;
        let c = self.content_fps_mhz as int;
        &&& m > 0
        &&& c > 0
        &&& if self.is_vrr_capable {
            &&& self.swap_interval == 1
            &&& self.bfi_factor == 0
            &&& self.target_fps_mhz == c
            &&& self.effective_sample_rate == self.content_sample_rate
        } else {
            &&& self.swap_interval == rounded_ratio(m, c)
            &&& self.bfi_factor == (if rounded_ratio(m, c) > 0 {
                rounded_ratio(m, c) - 1
            } else {
                0
            })
            &&& self.target_fps_mhz == m
            &&& self.effective_sample_rate == self.content_sample_rate * m / c
        }
    }

    /// Derives the pacing of a session. On a VRR display the display follows
    /// the content: one refresh per frame, no synthesised frames, audio at
    /// its own rate. Otherwise the display keeps its rate, each content frame
    /// spans `round(monitor / content)` refreshes, all but the first of which
    /// are synthesised, and audio is scaled by `monitor / content`. `None`
    /// when either rate is zero: no pacing exists for an unknown rate.
    pub fn new(monitor_refresh_mhz: u32, content_fps_mhz: u32, content_sample_rate: u32, is_vrr_capable: bool) -> (r: Option<PacingState>)
        ensures
            r is None <==> (monitor_refresh_mhz == 0 || content_fps_mhz == 0),
            r matches Some(p) ==> {
                &&& p.wf()
                &&& p.monitor_refresh_mhz == monitor_refresh_mhz
                &&& p.content_fps_mhz == content_fps_mhz
                &&& p.content_sample_rate == content_sample_rate
                &&& p.is_vrr_capable == is_vrr_capable
            },
    {
        if monitor_refresh_mhz == 0 || content_fps_mhz == 0 {
            return None;
        }
        let m = monitor_refresh_mhz as u64;
        let c = content_fps_mhz as u64;
        if is_vrr_capable {
            Some(PacingState {
                monitor_refresh_mhz,
                content_fps_mhz,
                is_vrr_capable,
                swap_interval: 1,
                bfi_factor: 0,
                target_fps_mhz: content_fps_mhz,
                content_sample_rate,
                effective_sample_rate: content_sample_rate as u64,
            })
        } else {
            let swap_interval = (2 * m + c) / (2 * c);
            let bfi_factor = if swap_interval > 0 {
                swap_interval - 1
            } else {
                0
            };
            proof {
                assert((content_sample_rate as u64) * m <= 0xFFFF_FFFF * 0xFFFF_FFFF) by (nonlinear_arith)
                    requires
                        content_sample_rate <= 0xFFFF_FFFF,
                        m <= 0xFFFF_FFFF,
                ;
            }
            let effective_sample_rate = (content_sample_rate as u64) * m / c;
            Some(PacingState {
                monitor_refresh_mhz,
                content_fps_mhz,
                is_vrr_capable,
                swap_interval,
                bfi_factor,
                target_fps_mhz: monitor_refresh_mhz,
                content_sample_rate,
                effective_sample_rate,
            })
        }
    }

    /// Length of one tick, one display-frame interval, in microseconds.
    pub fn frame_interval_us(&self) -> (r: u64)
        requires
            self.wf(),
        ensures
            r == 1_000_000_000int / (self.target_fps_mhz as int),
    {
        1_000_000_000 / (self.target_fps_mhz as u64)
    }

    /// Number of samples that `n` samples at the content's rate take at the
    /// effective rate: `n` on a VRR display, else `n * monitor / content`.
    pub fn resampled_len(&self, n: u32) -> (r: u64)
        requires
            self.wf(),
        ensures
            r == (if self.is_vrr_capable {
                n as int
            } else {
                n * (self.monitor_refresh_mhz as int) / (self.content_fps_mhz as int)
            }),
    {
        if self.is_vrr_capable {
            n as u64
        } else {
            proof {
                assert((n as u64) * (self.monitor_refresh_mhz as u64) <= 0xFFFF_FFFF * 0xFFFF_FFFF)
                    by (nonlinear_arith)
                    requires
                        n <= 0xFFFF_FFFF,
                        self.monitor_refresh_mhz <= 0xFFFF_FFFF,
                ;
            }
            (n as u64) * (self.monitor_refresh_mhz as u64) / (self.content_fps_mhz as u64)
        }
    }
}

/// What the presentation does on a tick.
#[derive(Clone, Copy, Debug, PartialEq, Eq, Structural)]
pub enum FrameAction {
    /// Run the engine for one frame and present what it produced.
    RealFrame,
    /// Present a solid frame of this ARGB8888 colour without running the
    /// engine.
    SyntheticFrame(u32),
}

/// The synthesised-frame count after a tick that found `shown` of them
/// since the last real frame, with `bfi` owed per real frame.
pub open spec fn pacer_step(bfi: nat, shown: nat) -> nat {
    if shown < bfi {
        shown + 1
    } else {
        0
    }
}

/// The synthesised-frame count of a fresh pacer after `n` ticks.
pub open spec fn shown_after(bfi: nat, n: nat) -> nat
    decreases n,
{
    if n == 0 {
        bfi
    } else {
        pacer_step(bfi, shown_after(bfi, (n - 1) as nat))
    }
}

/// Tick `n` (counting from 0) of a fresh pacer presents a real frame.
pub open spec fn tick_is_real(bfi: nat, n: nat) -> bool {
    shown_after(bfi, n) >= bfi
}

/// Black-frame insertion scheduler: after each real frame it asks for
/// `bfi_factor` synthesised frames, in the dominant colour of the last real
/// frame, before the next real one.
pub struct FramePacer {
    bfi_factor: u64,
    synthetic_shown: u64,
    dominant_color: u32,
}

impl FramePacer {
    /// Synthesised frames owed after each real frame.
    pub closed spec fn bfi_factor(&self) -> nat {
        self.bfi_factor as nat
    }

    /// Synthesised frames shown since the last real frame.
    pub closed spec fn synthetic_shown(&self) -> nat {
        self.synthetic_shown as nat
    }

    /// Colour of the synthesised frames.
    pub closed spec fn dominant_color(&self) -> u32 {
        self.dominant_color
    }

    /// The count never passes the factor.
    pub closed spec fn wf(&self) -> bool {
        self.synthetic_shown <= self.bfi_factor
    }

    /// A pacer whose first tick is a real frame; synthesised frames are
    /// opaque black until a real frame's colour is recorded.
    pub fn new(bfi_factor: u64) -> (r: FramePacer)
        ensures
            r.wf(),
            r.bfi_factor() == bfi_factor,
            r.synthetic_shown() == bfi_factor,
            r.dominant_color() == 0xFF00_0000u32,
    {
        FramePacer { bfi_factor, synthetic_shown: bfi_factor, dominant_color: 0xFF00_0000 }
    }

    /// Decides the next tick: a synthesised frame while fewer than
    /// `bfi_factor` have been shown since the last real frame, else a real
    /// frame, which resets the count.
    pub fn tick(&mut self) -> (r: FrameAction)
        requires
            old(self).wf(),
        ensures
            final(self).wf(),
            final(self).bfi_factor() == old(self).bfi_factor(),
            final(self).dominant_color() == old(self).dominant_color(),
            final(self).synthetic_shown() == pacer_step(old(self).bfi_factor(), old(self).synthetic_shown()),
            r == (if old(self).synthetic_shown() < old(self).bfi_factor() {
                FrameAction::SyntheticFrame(old(self).dominant_color())
            } else {
                FrameAction::RealFrame
            }),
    {
        if self.synthetic_shown < self.bfi_factor {
            self.synthetic_shown = self.synthetic_shown + 1;
            FrameAction::SyntheticFrame(self.dominant_color)
        } else {
            self.synthetic_shown = 0;
            FrameAction::RealFrame
        }
    }

    /// Remembers the dominant colour of the real frame just produced.
    pub fn record_real_frame(&mut self, color: u32)
        requires
            old(self).wf(),
        ensures
            final(self).wf(),
            final(self).bfi_factor() == old(self).bfi_factor(),
            final(self).synthetic_shown() == old(self).synthetic_shown(),
            final(self).dominant_color() == color,
    {
        self.dominant_color = color;
    }
}

/// The BFI pattern never drifts: a fresh pacer with factor `k` shows a real
/// frame on tick `n` exactly when `n` is a multiple of `k + 1`, so each real
/// frame is followed by exactly `k` synthesised ones, forever.
pub proof fn lemma_bfi_pattern(k: nat, n: nat)
    ensures
        shown_after(k, n) == (n + k) % (k + 1),
        tick_is_real(k, n) <==> n % (k + 1) == 0,
    decreases n,
{
    let d = (k + 1) as int;
    if n == 0 {
        lemma_fundamental_div_mod_converse(k as int, d, 0, k as int);
    } else {
        lemma_bfi_pattern(k, (n - 1) as nat);
        let x = (n - 1 + k) as int;
        let q = x / d;
        let r = x % d;
        lemma_div_mod_parts(x, d);
        if r < k {
            lemma_fundamental_div_mod_converse(x + 1, d, q, r + 1);
        } else {
            assert((q + 1) * d == q * d + d) by (nonlinear_arith);
            lemma_fundamental_div_mod_converse(x + 1, d, q + 1, 0);
        }
    }
    let d = (k + 1) as int;
    let a = (n as int) / d;
    let b = (n as int) % d;
    lemma_div_mod_parts(n as int, d);
    if b == 0 {
        lemma_fundamental_div_mod_converse((n + k) as int, d, a, k as int);
    } else {
        assert((a + 1) * d == a * d + d) by (nonlinear_arith);
        lemma_fundamental_div_mod_converse((n + k) as int, d, a + 1, b - 1);
    }
}

proof fn lemma_div_mod_parts(x: int, d: int)
    requires
        x >= 0,
        d > 0,
    ensures
        x == (x / d) * d + x % d,
        0 <= x % d < d,
{
    vstd::arithmetic::div_mod::lemma_fundamental_div_mod(x, d);
    vstd::arithmetic::div_mod::lemma_mod_bound(x, d);
    assert(d * (x / d) == (x / d) * d) by (nonlinear_arith);
}

} // verus!
