use vstd::prelude::*;

verus! {

/// An outfit's id in the appearance data.
#[derive(Clone, Copy, Debug, PartialEq, Eq, Hash, Structural)]
pub struct OutfitId(pub u16);

/// Ids of the `effect` appearance category.
#[derive(Clone, Copy, Debug, PartialEq, Eq, Hash, Structural)]
pub struct EffectId(pub u16);

/// Ids of the `missile` appearance category.
#[derive(Clone, Copy, Debug, PartialEq, Eq, Hash, Structural)]
pub struct MissileId(pub u16);

/// The four dyeable regions of an outfit, in wire order.
#[derive(Clone, Copy, Debug, PartialEq, Eq, Hash, Default, Structural)]
pub struct OutfitColors {
    pub head: u8,
    pub body: u8,
    pub legs: u8,
    pub feet: u8,
}

impl OutfitColors {
    pub fn new(head: u8, body: u8, legs: u8, feet: u8) -> (c: OutfitColors)
        ensures
            c == (OutfitColors { head, body, legs, feet }),
    {
        OutfitColors { head, body, legs, feet }
    }

    /// One region per byte, head in the low byte: the layout the outfit shader reads.
    pub fn packed(self) -> (p: u32)
        ensures
            p == self.head + self.body * 0x100 + self.legs * 0x10000 + self.feet * 0x1000000,
    {
        (self.head as u32) + (self.body as u32) * 0x100 + (self.legs as u32) * 0x10000 + (self.feet as u32)
            * 0x1000000
    }
}

/// What happens when an animation runs off its last phase.
#[derive(Clone, Copy, Debug, PartialEq, Eq, Structural)]
pub enum AnimationLoop {
    /// Wrap to phase zero forever.
    Infinite,
    /// Walk back down to phase zero, then up again.
    PingPong,
    /// Run `count` times, then stop on the last phase.
    Counted { count: u32 },
}

/// A phase's display time as a `[min, max]` range of milliseconds.
#[derive(Clone, Copy, Debug, PartialEq, Eq, Structural)]
pub struct PhaseRange {
    pub min_ms: u32,
    pub max_ms: u32,
}

#[derive(Clone, Debug)]
pub enum SpriteAnimation {
    Static,
    Uniform { loop_mode: AnimationLoop, phase_count: u32, phase_duration_ms: u64 },
    NonUniform { loop_mode: AnimationLoop, phases: Vec<PhaseRange> },
}

/// A bounding box as the appearance data gives it: `max_*` is a size, not a corner.
#[derive(Clone, Copy, Debug, PartialEq, Eq, Structural)]
pub struct SpriteBox {
    pub min_x: u64,
    pub min_y: u64,
    pub max_x: u64,
    pub max_y: u64,
}

/// How one appearance is drawn.
#[derive(Clone, Debug)]
pub struct SpriteConfig {
    pub id: u16,
    pub group: String,
    pub pattern_x: u32,
    pub pattern_y: u32,
    pub pattern_z: u32,
    pub layers: u32,
    pub sprite_ids: Vec<u32>,
    pub animation: SpriteAnimation,
    pub boxes: Vec<SpriteBox>,
    /// The art's displacement, `(0, 0)` when the data gives none.
    pub shift_x: u64,
    pub shift_y: u64,
}

pub open spec fn spec_total_phases(a: SpriteAnimation) -> nat {
    match a {
        SpriteAnimation::Static => 1,
        SpriteAnimation::Uniform { phase_count, .. } => phase_count as nat,
        SpriteAnimation::NonUniform { phases, .. } => (phases@.len() as u32) as nat,
    }
}

pub open spec fn spec_loop_mode(a: SpriteAnimation) -> AnimationLoop {
    match a {
        SpriteAnimation::Static => AnimationLoop::Infinite,
        SpriteAnimation::Uniform { loop_mode, .. } => loop_mode,
        SpriteAnimation::NonUniform { loop_mode, .. } => loop_mode,
    }
}

/// Whether the config gives `phase` no time at all; read off the range, never
/// off a sample.
pub open spec fn spec_phase_untimed(a: SpriteAnimation, phase: int) -> bool {
    match a {
        SpriteAnimation::Static => true,
        SpriteAnimation::Uniform { phase_duration_ms, .. } => phase_duration_ms == 0,
        SpriteAnimation::NonUniform { phases, .. } => {
            0 <= phase < phases@.len() ==> (phases@[phase].min_ms == 0 && phases@[phase].max_ms == 0)
        },
    }
}

/// No phase has any time on it, so nothing ever moves the animation forward.
pub open spec fn spec_never_advances(a: SpriteAnimation) -> bool {
    forall|p: int| 0 <= p < spec_total_phases(a) ==> #[trigger] spec_phase_untimed(a, p)
}

/// The shortest time `phase` may be shown for, in milliseconds.
pub open spec fn spec_phase_min(a: SpriteAnimation, phase: int) -> int {
    match a {
        SpriteAnimation::Static => 0,
        SpriteAnimation::Uniform { phase_duration_ms, .. } => phase_duration_ms as int,
        SpriteAnimation::NonUniform { phases, .. } => if 0 <= phase < phases@.len() {
            phases@[phase].min_ms as int
        } else {
            0
        },
    }
}

/// The longest time `phase` may be shown for: its range's top when the range
/// is a real one, else the same as its minimum.
pub open spec fn spec_phase_max(a: SpriteAnimation, phase: int) -> int {
    match a {
        SpriteAnimation::NonUniform { phases, .. } => if 0 <= phase < phases@.len()
            && phases@[phase].max_ms > phases@[phase].min_ms {
            phases@[phase].max_ms as int
        } else {
            spec_phase_min(a, phase)
        },
        _ => spec_phase_min(a, phase),
    }
}

/// The sum over the first `n` phases of `f`.
pub open spec fn spec_pass_sum(a: SpriteAnimation, n: int, longest: bool) -> int
    decreases n,
{
    if n <= 0 {
        0
    } else {
        spec_pass_sum(a, n - 1, longest) + if longest {
            spec_phase_max(a, n - 1)
        } else {
            spec_phase_min(a, n - 1)
        }
    }
}

pub open spec fn spec_saturate_u64(v: int) -> int {
    if v > u64::MAX {
        u64::MAX as int
    } else {
        v
    }
}

/// A number drawn from `lo..=hi`. Calls `fastrand::u32`, whose documentation
/// and source promise a value inside the inclusive range and panic only on an
/// empty one; which value comes out is chance.
#[verifier::external_body]
fn random_u32_in(lo: u32, hi: u32) -> (r: u32)
    requires
        lo <= hi,
    ensures
        lo <= r <= hi,
{
    fastrand::u32(lo..=hi)
}

impl SpriteAnimation {
    pub fn total_animation_phases(&self) -> (n: u32)
        ensures
            n == spec_total_phases(*self),
    {
        match self {
            SpriteAnimation::Static => 1,
            SpriteAnimation::Uniform { phase_count, .. } => *phase_count,
            SpriteAnimation::NonUniform { phases, .. } => phases.len() as u32,
        }
    }

    pub fn loop_mode(&self) -> (m: AnimationLoop)
        ensures
            m == spec_loop_mode(*self),
    {
        match self {
            SpriteAnimation::Static => AnimationLoop::Infinite,
            SpriteAnimation::Uniform { loop_mode, .. } => *loop_mode,
            SpriteAnimation::NonUniform { loop_mode, .. } => *loop_mode,
        }
    }

    /// How long `phase` is displayed, in milliseconds. A ranged phase is sampled,
    /// which keeps a room of torches out of lockstep.
    pub fn phase_duration(&self, phase: u32) -> (ms: u64)
        ensures
            spec_phase_min(*self, phase as int) <= ms <= spec_phase_max(*self, phase as int),
    {
        match self {
            SpriteAnimation::Static => 0,
            SpriteAnimation::Uniform { phase_duration_ms, .. } => *phase_duration_ms,
            SpriteAnimation::NonUniform { phases, .. } => {
                if (phase as usize) < phases.len() {
                    let range = phases[phase as usize];
                    if range.max_ms > range.min_ms {
                        random_u32_in(range.min_ms, range.max_ms) as u64
                    } else {
                        range.min_ms as u64
                    }
                } else {
                    0
                }
            },
        }
    }

    pub fn phase_is_untimed(&self, phase: u32) -> (b: bool)
        ensures
            b == spec_phase_untimed(*self, phase as int),
    {
        match self {
            SpriteAnimation::Static => true,
            SpriteAnimation::Uniform { phase_duration_ms, .. } => *phase_duration_ms == 0,
            SpriteAnimation::NonUniform { phases, .. } => {
                if (phase as usize) < phases.len() {
                    let range = phases[phase as usize];
                    range.min_ms == 0 && range.max_ms == 0
                } else {
                    true
                }
            },
        }
    }

    /// True when no phase has any time on it.
    pub fn never_advances(&self) -> (b: bool)
        ensures
            b == spec_never_advances(*self),
    {
        let n = self.total_animation_phases();
        let mut p: u32 = 0;
        while p < n
            invariant
                n == spec_total_phases(*self),
                p <= n,
                forall|q: int| 0 <= q < p ==> #[trigger] spec_phase_untimed(*self, q),
            decreases n - p,
        {
            if !self.phase_is_untimed(p) {
                return false;
            }
            p = p + 1;
        }
        true
    }

    /// One pass over every phase, each sampled independently, in milliseconds;
    /// saturates rather than overflowing. Exact when no phase is ranged.
    pub fn pass_duration(&self) -> (ms: u64)
        ensures
            spec_saturate_u64(spec_pass_sum(*self, spec_total_phases(*self) as int, false)) <= ms,
            ms <= spec_saturate_u64(spec_pass_sum(*self, spec_total_phases(*self) as int, true)),
    {
        let n = self.total_animation_phases();
        let mut total: u64 = 0;
        let mut p: u32 = 0;
        while p < n
            invariant
                n == spec_total_phases(*self),
                p <= n,
                spec_saturate_u64(spec_pass_sum(*self, p as int, false)) <= total,
                total <= spec_saturate_u64(spec_pass_sum(*self, p as int, true)),
            decreases n - p,
        {
            let d = self.phase_duration(p);
            proof {
                lemma_pass_sum_monotone(*self, p as int);
            }
            total = total.saturating_add(d);
            p = p + 1;
        }
        total
    }
}

proof fn lemma_pass_sum_monotone(a: SpriteAnimation, n: int)
    ensures
        spec_pass_sum(a, n, false) <= spec_pass_sum(a, n, true),
        0 <= spec_pass_sum(a, n, false),
    decreases n,
{
    if n > 0 {
        lemma_pass_sum_monotone(a, n - 1);
    }
}


} // verus!
