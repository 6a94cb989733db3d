use std::sync::Arc;

use vstd::prelude::*;

use crate::appearance::sprite::{
    spec_loop_mode, spec_never_advances, spec_phase_max, spec_phase_min, spec_phase_untimed,
    spec_total_phases, AnimationLoop, SpriteAnimation, SpriteConfig,
};

verus! {

/// Layers an animator resolves sprite ids for.
pub const MAX_LAYERS: usize = 6;

/// Where an animator stands in its walk over the phases.
#[derive(Clone, Copy, Debug, PartialEq, Eq, Structural)]
pub struct PhaseWalk {
    pub phase: u32,
    pub descending: bool,
    pub loops_completed: u32,
    pub finished: bool,
}

/// The walk states an animation can be in: on a real phase, heading the right
/// way for a ping-pong, and, for a counted run, not past its count.
pub open spec fn walk_valid(a: SpriteAnimation, w: PhaseWalk) -> bool {
    let n = spec_total_phases(a);
    &&& (n == 0 ==> w.phase == 0)
    &&& (n >= 1 ==> w.phase < n)
    &&& (spec_loop_mode(a) is PingPong && n >= 2 ==> (w.descending ==> w.phase > 0) && (!w.descending
        ==> w.phase + 1 < n))
    &&& (!(spec_loop_mode(a) is PingPong) ==> !w.descending)
    &&& (match spec_loop_mode(a) {
        AnimationLoop::Counted { count } => !w.finished ==> (w.loops_completed < count
            || w.loops_completed == 0),
        _ => !w.finished,
    })
}

/// One phase forward, honouring the loop mode.
pub open spec fn step_walk(a: SpriteAnimation, w: PhaseWalk) -> PhaseWalk {
    let n = spec_total_phases(a);
    if n <= 1 {
        match spec_loop_mode(a) {
            AnimationLoop::Counted { count } => {
                let l = w.loops_completed + 1;
                PhaseWalk { loops_completed: l as u32, finished: l >= count, ..w }
            },
            _ => w,
        }
    } else {
        match spec_loop_mode(a) {
            AnimationLoop::Infinite => PhaseWalk { phase: ((w.phase + 1) % (n as int)) as u32, ..w },
            AnimationLoop::PingPong => if w.descending {
                let p = w.phase - 1;
                PhaseWalk { phase: p as u32, descending: p > 0, ..w }
            } else {
                let p = w.phase + 1;
                PhaseWalk { phase: p as u32, descending: p >= n - 1, ..w }
            },
            AnimationLoop::Counted { count } => if w.phase + 1 < n {
                PhaseWalk { phase: (w.phase + 1) as u32, ..w }
            } else {
                let l = w.loops_completed + 1;
                if l >= count {
                    PhaseWalk { loops_completed: l as u32, finished: true, ..w }
                } else {
                    PhaseWalk { loops_completed: l as u32, phase: 0, ..w }
                }
            },
        }
    }
}

/// Steps forward, at most `fuel` times, until the walk finishes or stands on a
/// phase the config gives time to.
pub open spec fn skip_untimed(a: SpriteAnimation, w: PhaseWalk, fuel: nat) -> PhaseWalk
    decreases fuel,
{
    if fuel == 0 || w.finished || !spec_phase_untimed(a, w.phase as int) {
        w
    } else {
        skip_untimed(a, step_walk(a, w), (fuel - 1) as nat)
    }
}

/// Walking down from `p` to the last phase at or below it that the config
/// gives time to, stopping at zero.
pub open spec fn last_timed_at_or_below(a: SpriteAnimation, p: nat) -> nat
    decreases p,
{
    if p > 0 && spec_phase_untimed(a, p as int) {
        last_timed_at_or_below(a, (p - 1) as nat)
    } else {
        p
    }
}

/// Where a walk settles: forward over untimed phases (the bound `2n` covers a
/// ping-pong lap), and, once finished on padding, back to the last timed phase.
pub open spec fn settle_walk(a: SpriteAnimation, w: PhaseWalk) -> PhaseWalk {
    let s = skip_untimed(a, w, 2 * spec_total_phases(a));
    if s.finished && spec_phase_untimed(a, s.phase as int) {
        PhaseWalk { phase: last_timed_at_or_below(a, s.phase as nat) as u32, ..s }
    } else {
        s
    }
}

/// Drives a sprite config's animation: which phase shows, for how long, and which
/// sprite ids that phase draws. The timer is kept in milliseconds; a zero
/// duration means the animator never advances.
pub struct SpriteAnimator {
    pub config: Arc<SpriteConfig>,
    pub current_sprite_ids: [u32; 6],
    pub timer_duration_ms: u64,
    pub timer_elapsed_ms: u64,
    pub current_phase: u32,
    pub pattern_x: u32,
    pub pattern_y: u32,
    pub pattern_z: u32,
    pub moving_animation: bool,
    pub loops_completed: u32,
    pub descending: bool,
    pub finished: bool,
}

/// The flat index of a sprite id: phase, then the three patterns, then the layer.
pub open spec fn sprite_index(
    cfg: SpriteConfig,
    phase: int,
    px: int,
    py: int,
    pz: int,
    layer: int,
) -> int {
    (((phase * cfg.pattern_z + pz) * cfg.pattern_y + py) * cfg.pattern_x + px) * cfg.layers + layer
}

/// Sprite ids are laid out phase first, then the mount pattern (z), then the
/// addon pattern (y), then the direction pattern (x), then the layer: the id of
/// a phase, pattern and layer sits at
/// `(((phase * pattern_z + pz) * pattern_y + py) * pattern_x + px) * layers + layer`,
/// and an index past the list reads as zero.
pub proof fn lemma_sprite_ids_are_phase_major(cfg: SpriteConfig, phase: int, px: int, py: int, pz: int, layer: int)
    ensures
        ({
            let (z, y, x, n) = (cfg.pattern_z, cfg.pattern_y, cfg.pattern_x, cfg.layers);
            let flat = (((phase * z + pz) * y + py) * x + px) * n + layer;
            &&& sprite_index(cfg, phase, px, py, pz, layer) == flat
            &&& 0 <= flat < cfg.sprite_ids@.len() ==> sprite_at(cfg, sprite_index(cfg, phase, px, py, pz, layer))
                == cfg.sprite_ids@[flat]
            &&& flat >= cfg.sprite_ids@.len() ==> sprite_at(cfg, sprite_index(cfg, phase, px, py, pz, layer)) == 0
        }),
{
}

/// The id at `index`, zero past the end of the list.
pub open spec fn sprite_at(cfg: SpriteConfig, index: int) -> u32 {
    if 0 <= index < cfg.sprite_ids@.len() {
        cfg.sprite_ids@[index]
    } else {
        0
    }
}

pub open spec fn min_layers(layers: u32) -> int {
    if layers < MAX_LAYERS {
        layers as int
    } else {
        MAX_LAYERS as int
    }
}

impl SpriteAnimator {
    pub open spec fn walk(&self) -> PhaseWalk {
        PhaseWalk {
            phase: self.current_phase,
            descending: self.descending,
            loops_completed: self.loops_completed,
            finished: self.finished,
        }
    }

    pub open spec fn animation(&self) -> SpriteAnimation {
        self.config.animation
    }

    pub open spec fn wf(&self) -> bool {
        walk_valid(self.animation(), self.walk())
    }

    /// The sprite ids drawn for the current phase and patterns: each of the
    /// first `min(layers, MAX_LAYERS)` slots holds its layer's id, the rest
    /// are left as they were.
    pub open spec fn ids_resolved(&self, before: [u32; 6]) -> bool {
        forall|l: int|
            0 <= l < 6 ==> #[trigger] self.current_sprite_ids@[l] == if l < min_layers(
                self.config.layers,
            ) {
                sprite_at(
                    *self.config,
                    sprite_index(
                        *self.config,
                        self.current_phase as int,
                        self.pattern_x as int,
                        self.pattern_y as int,
                        self.pattern_z as int,
                        l,
                    ),
                )
            } else {
                before@[l]
            }
    }

    /// Everything but the walk, the timer and the ids is as it was.
    pub open spec fn same_setup(&self, other: &SpriteAnimator) -> bool {
        &&& self.config == other.config
        &&& self.pattern_x == other.pattern_x
        &&& self.pattern_y == other.pattern_y
        &&& self.pattern_z == other.pattern_z
        &&& self.moving_animation == other.moving_animation
    }

    pub fn new(config: Arc<SpriteConfig>, pattern_x: u32, pattern_y: u32, pattern_z: u32) -> (s:
        Self)
        ensures
            *s.config == *config,
            s.pattern_x == pattern_x,
            s.pattern_y == pattern_y,
            s.pattern_z == pattern_z,
            !s.moving_animation,
            s.timer_elapsed_ms == 0,
            s.wf(),
            spec_never_advances(config.animation) ==> s.timer_duration_ms == 0 && s.walk() == (
            PhaseWalk { phase: 0, descending: false, loops_completed: 0, finished: false }),
            !spec_never_advances(config.animation) ==> s.walk() == settle_walk(
                config.animation,
                PhaseWalk { phase: 0, descending: false, loops_completed: 0, finished: false },
            ) && spec_phase_min(config.animation, s.current_phase as int) <= s.timer_duration_ms
                <= spec_phase_max(config.animation, s.current_phase as int),
            s.ids_resolved([0, 0, 0, 0, 0, 0]),
    {
        let mut s = SpriteAnimator {
            config,
            current_sprite_ids: [0, 0, 0, 0, 0, 0],
            timer_duration_ms: 0,
            timer_elapsed_ms: 0,
            current_phase: 0,
            pattern_x,
            pattern_y,
            pattern_z,
            moving_animation: false,
            loops_completed: 0,
            descending: false,
            finished: false,
        };
        if !s.config.animation.never_advances() {
            s.settle_on_timed_phase();
            s.timer_duration_ms = s.config.animation.phase_duration(s.current_phase);
        }
        resolve_simple_sprite_ids(&mut s);
        s
    }

    pub fn is_finished(&self) -> (b: bool)
        ensures
            b == self.walk().finished,
    {
        self.finished
    }

    /// One phase forward, then settle onto a phase that is actually displayed,
    /// then re-point the timer at however long that phase lasts.
    pub fn advance(&mut self)
        requires
            old(self).wf(),
            !old(self).walk().finished,
        ensures
            final(self).wf(),
            final(self).walk() == settle_walk(
                old(self).animation(),
                step_walk(old(self).animation(), old(self).walk()),
            ),
            spec_total_phases(old(self).animation()) >= 1 ==> final(self).current_phase < spec_total_phases(
                old(self).animation(),
            ),
            final(self).finished ==> spec_loop_mode(old(self).animation()) is Counted,
            spec_loop_mode(old(self).animation()) is Infinite && spec_total_phases(old(self).animation()) >= 2
                && (forall|p: int|
                0 <= p < spec_total_phases(old(self).animation()) ==> !#[trigger] spec_phase_untimed(
                    old(self).animation(),
                    p,
                )) ==> final(self).current_phase == (old(self).current_phase + 1) % (spec_total_phases(
                old(self).animation(),
            ) as int),
            spec_phase_min(final(self).animation(), final(self).current_phase as int)
                <= final(self).timer_duration_ms <= spec_phase_max(
                final(self).animation(),
                final(self).current_phase as int,
            ),
            final(self).same_setup(old(self)),
            final(self).current_sprite_ids == old(self).current_sprite_ids,
            final(self).timer_elapsed_ms == old(self).timer_elapsed_ms,
    {
        proof {
            lemma_advance_laws(old(self).animation(), old(self).walk());
        }
        self.step();
        self.settle_on_timed_phase();
        self.timer_duration_ms = self.config.animation.phase_duration(self.current_phase);
    }

    /// Moves off any phase the config gives no time to, so the animator rests on
    /// one that is displayed: forward while the run is still going, backward once
    /// it has finished on padding.
    fn settle_on_timed_phase(&mut self)
        requires
            old(self).wf(),
        ensures
            final(self).wf(),
            final(self).walk() == settle_walk(old(self).animation(), old(self).walk()),
            final(self).same_setup(old(self)),
            final(self).current_sprite_ids == old(self).current_sprite_ids,
            final(self).timer_duration_ms == old(self).timer_duration_ms,
            final(self).timer_elapsed_ms == old(self).timer_elapsed_ms,
    {
        let ghost a = self.animation();
        let phase_count = self.config.animation.total_animation_phases();
        let bound: u64 = 2 * (phase_count as u64);
        let mut i: u64 = 0;
        while i < bound && !self.finished && self.config.animation.phase_is_untimed(
            self.current_phase,
        )
            invariant
                self.wf(),
                a == self.animation(),
                phase_count == spec_total_phases(a),
                bound == 2 * spec_total_phases(a),
                i <= bound,
                skip_untimed(a, self.walk(), (bound - i) as nat) == skip_untimed(
                    a,
                    old(self).walk(),
                    bound as nat,
                ),
                self.same_setup(old(self)),
                self.current_sprite_ids == old(self).current_sprite_ids,
                self.timer_duration_ms == old(self).timer_duration_ms,
                self.timer_elapsed_ms == old(self).timer_elapsed_ms,
            decreases bound - i,
        {
            self.step();
            i = i + 1;
        }
        if self.finished && self.config.animation.phase_is_untimed(self.current_phase) {
            self.rest_on_last_timed_phase();
        }
    }

    /// Walks back from a finished run's untimed tail to the last phase the config
    /// gave time to: the frame a finished effect or item is left showing.
    fn rest_on_last_timed_phase(&mut self)
        requires
            old(self).wf(),
            old(self).walk().finished,
        ensures
            final(self).wf(),
            final(self).walk() == (PhaseWalk {
                phase: last_timed_at_or_below(
                    old(self).animation(),
                    old(self).current_phase as nat,
                ) as u32,
                ..old(self).walk()
            }),
            final(self).same_setup(old(self)),
            final(self).current_sprite_ids == old(self).current_sprite_ids,
            final(self).timer_duration_ms == old(self).timer_duration_ms,
            final(self).timer_elapsed_ms == old(self).timer_elapsed_ms,
    {
        let ghost a = self.animation();
        let ghost p0 = self.current_phase as nat;
        proof {
            lemma_last_timed_bounds(a, p0);
        }
        while self.current_phase > 0 && self.config.animation.phase_is_untimed(self.current_phase)
            invariant
                a == self.animation(),
                self.current_phase <= p0,
                last_timed_at_or_below(a, self.current_phase as nat) == last_timed_at_or_below(
                    a,
                    p0,
                ),
                self.walk() == (PhaseWalk { phase: self.current_phase, ..old(self).walk() }),
                self.same_setup(old(self)),
                self.current_sprite_ids == old(self).current_sprite_ids,
                self.timer_duration_ms == old(self).timer_duration_ms,
                self.timer_elapsed_ms == old(self).timer_elapsed_ms,
            decreases self.current_phase,
        {
            self.current_phase = self.current_phase - 1;
        }
        proof {
            lemma_lowering_phase_keeps_walk_valid(a, old(self).walk(), self.current_phase);
        }
    }

    /// One phase forward, honouring the loop mode, without touching the timer.
    pub fn step(&mut self)
        requires
            old(self).wf(),
            !old(self).walk().finished,
        ensures
            final(self).wf(),
            final(self).walk() == step_walk(old(self).animation(), old(self).walk()),
            spec_total_phases(old(self).animation()) >= 1 ==> final(self).current_phase < spec_total_phases(
                old(self).animation(),
            ),
            final(self).finished ==> spec_loop_mode(old(self).animation()) is Counted,
            spec_loop_mode(old(self).animation()) is Infinite && spec_total_phases(old(self).animation()) >= 2
                ==> final(self).current_phase == (old(self).current_phase + 1) % (spec_total_phases(
                old(self).animation(),
            ) as int),
            final(self).same_setup(old(self)),
            final(self).current_sprite_ids == old(self).current_sprite_ids,
            final(self).timer_duration_ms == old(self).timer_duration_ms,
            final(self).timer_elapsed_ms == old(self).timer_elapsed_ms,
    {
        proof {
            lemma_step_keeps_walk_valid(old(self).animation(), old(self).walk());
            if !(spec_loop_mode(old(self).animation()) is Counted) {
                lemma_endless_walks_never_finish(old(self).animation(), step_walk(old(self).animation(), old(self).walk()));
            }
        }
        let phase_count = self.config.animation.total_animation_phases();
        if phase_count <= 1 {
            if let AnimationLoop::Counted { count } = self.config.animation.loop_mode() {
                self.loops_completed = self.loops_completed + 1;
                self.finished = self.loops_completed >= count;
            }
            return ;
        }
        match self.config.animation.loop_mode() {
            AnimationLoop::Infinite => {
                self.current_phase = (self.current_phase + 1) % phase_count;
            },
            AnimationLoop::PingPong => {
                if self.descending {
                    self.current_phase = self.current_phase - 1;
                    self.descending = self.current_phase > 0;
                } else {
                    self.current_phase = self.current_phase + 1;
                    self.descending = self.current_phase >= phase_count - 1;
                }
            },
            AnimationLoop::Counted { count } => {
                let next = self.current_phase + 1;
                if next < phase_count {
                    self.current_phase = next;
                    return ;
                }
                self.loops_completed = self.loops_completed + 1;
                if self.loops_completed >= count {
                    self.finished = true;
                } else {
                    self.current_phase = 0;
                }
            },
        }
    }
}

proof fn lemma_last_timed_bounds(a: SpriteAnimation, p: nat)
    ensures
        last_timed_at_or_below(a, p) <= p,
        last_timed_at_or_below(a, p) == 0 || !spec_phase_untimed(
            a,
            last_timed_at_or_below(a, p) as int,
        ),
        forall|q: int|
            last_timed_at_or_below(a, p) < q <= p ==> #[trigger] spec_phase_untimed(a, q),
    decreases p,
{
    if p > 0 && spec_phase_untimed(a, p as int) {
        lemma_last_timed_bounds(a, (p - 1) as nat);
    }
}

proof fn lemma_lowering_phase_keeps_walk_valid(a: SpriteAnimation, w: PhaseWalk, p: u32)
    requires
        walk_valid(a, w),
        p <= w.phase,
        w.finished || !(spec_loop_mode(a) is PingPong) || p == w.phase,
    ensures
        walk_valid(a, PhaseWalk { phase: p, ..w }),
{
}

/// Resolves the sprite ids of the animator's current phase and patterns into
/// `current_sprite_ids`, one per layer up to `MAX_LAYERS`; an index past the
/// config's list gives id zero.
pub fn resolve_simple_sprite_ids(animator: &mut SpriteAnimator)
    ensures
        final(animator).ids_resolved(old(animator).current_sprite_ids),
        final(animator).walk() == old(animator).walk(),
        final(animator).same_setup(old(animator)),
        final(animator).timer_duration_ms == old(animator).timer_duration_ms,
        final(animator).timer_elapsed_ms == old(animator).timer_elapsed_ms,
{
    let n: usize = if animator.config.layers < 6 {
        animator.config.layers as usize
    } else {
        MAX_LAYERS
    };
    let ghost before = animator.current_sprite_ids;
    let mut layer: usize = 0;
    while layer < n
        invariant
            n == min_layers(animator.config.layers),
            layer <= n,
            forall|l: int|
                0 <= l < 6 ==> #[trigger] animator.current_sprite_ids@[l] == if l < layer {
                    sprite_at(
                        *animator.config,
                        sprite_index(
                            *animator.config,
                            animator.current_phase as int,
                            animator.pattern_x as int,
                            animator.pattern_y as int,
                            animator.pattern_z as int,
                            l,
                        ),
                    )
                } else {
                    before@[l]
                },
            animator.walk() == old(animator).walk(),
            animator.same_setup(old(animator)),
            animator.timer_duration_ms == old(animator).timer_duration_ms,
            animator.timer_elapsed_ms == old(animator).timer_elapsed_ms,
        decreases n - layer,
    {
        let id = sprite_id_for(
            &animator.config,
            animator.current_phase,
            animator.pattern_x,
            animator.pattern_y,
            animator.pattern_z,
            layer as u32,
        );
        animator.current_sprite_ids[layer] = id;
        layer = layer + 1;
    }
}

pub(crate) fn sprite_id_for(cfg: &SpriteConfig, phase: u32, px: u32, py: u32, pz: u32, layer: u32) -> (id:
    u32)
    requires
        layer < cfg.layers,
    ensures
        id == sprite_at(
            *cfg,
            sprite_index(*cfg, phase as int, px as int, py as int, pz as int, layer as int),
        ),
        ({
            let (z, y, x, n) = (cfg.pattern_z, cfg.pattern_y, cfg.pattern_x, cfg.layers);
            let flat = (((phase * z + pz) * y + py) * x + px) * n + layer;
            &&& flat < cfg.sprite_ids@.len() ==> id == cfg.sprite_ids@[flat]
            &&& flat >= cfg.sprite_ids@.len() ==> id == 0
        }),
{
    let (a, b, c) = (phase as u128, cfg.pattern_z as u128, pz as u128);
    assert(a * b + c < 0x1_0000_0000_0000_0000) by (nonlinear_arith)
        requires
            a < 0x1_0000_0000,
            b < 0x1_0000_0000,
            c < 0x1_0000_0000,
    ;
    let s1: u128 = a * b + c;
    let (b, c) = (cfg.pattern_y as u128, py as u128);
    assert(s1 * b + c < 0x1_0000_0000_0000_0000_0000_0000) by (nonlinear_arith)
        requires
            s1 < 0x1_0000_0000_0000_0000,
            b < 0x1_0000_0000,
            c < 0x1_0000_0000,
    ;
    let s2: u128 = s1 * b + c;
    let (b, c) = (cfg.pattern_x as u128, px as u128);
    assert(s2 * b + c <= u128::MAX) by (nonlinear_arith)
        requires
            s2 < 0x1_0000_0000_0000_0000_0000_0000,
            b < 0x1_0000_0000,
            c < 0x1_0000_0000,
    ;
    let s3: u128 = s2 * b + c;
    let ghost full = sprite_index(*cfg, phase as int, px as int, py as int, pz as int, layer as int);
    assert(full == s3 * cfg.layers + layer);
    let len = cfg.sprite_ids.len();
    match s3.checked_mul(cfg.layers as u128) {
        Some(m) => match m.checked_add(layer as u128) {
            Some(index) => {
                assert(index == full);
                if index < len as u128 {
                    cfg.sprite_ids[index as usize]
                } else {
                    0
                }
            },
            None => {
                assert(full > u128::MAX);
                0
            },
        },
        None => {
            assert(full >= s3 * cfg.layers);
            assert(full > u128::MAX);
            0
        },
    }
}

/// What one tick does: a zero-duration timer, a moving animation or a finished
/// run change nothing; otherwise the timer runs, saturating at the clock's top,
/// and the tick that completes the phase advances the walk one step, settles it
/// on a displayed phase, re-times the timer for that phase and re-resolves the
/// ids, keeping the overshoot modulo the old duration.
pub open spec fn ticked(before: SpriteAnimator, after: SpriteAnimator, delta_ms: u64, advanced: bool) -> bool {
    let idle = before.timer_duration_ms == 0 || before.moving_animation || before.walk().finished;
    let total = if before.timer_elapsed_ms + delta_ms > u64::MAX {
        u64::MAX as int
    } else {
        before.timer_elapsed_ms + delta_ms
    };
    &&& after.wf()
    &&& after.same_setup(&before)
    &&& idle ==> !advanced && after == before
    &&& !idle && total < before.timer_duration_ms ==> {
        &&& !advanced
        &&& after.timer_elapsed_ms == total
        &&& after.walk() == before.walk()
        &&& after.timer_duration_ms == before.timer_duration_ms
        &&& after.current_sprite_ids == before.current_sprite_ids
    }
    &&& !idle && total >= before.timer_duration_ms ==> {
        &&& advanced
        &&& after.timer_elapsed_ms == total % (before.timer_duration_ms as int)
        &&& after.walk() == settle_walk(before.animation(), step_walk(before.animation(), before.walk()))
        &&& spec_phase_min(after.animation(), after.current_phase as int) <= after.timer_duration_ms
            <= spec_phase_max(after.animation(), after.current_phase as int)
        &&& after.ids_resolved(before.current_sprite_ids)
    }
}

impl SpriteAnimator {
    /// Hands the animator `delta_ms` of frame time. A zero-duration timer, a
    /// moving animation or a finished run consume nothing. Otherwise the timer
    /// runs, and the frame that completes the phase advances exactly one phase,
    /// however much time it carried, and re-resolves the sprite ids. Returns
    /// whether the phase advanced.
    pub fn tick(&mut self, delta_ms: u64) -> (advanced: bool)
        requires
            old(self).wf(),
        ensures
            ticked(*old(self), *final(self), delta_ms, advanced),
    {
        if self.timer_duration_ms == 0 || self.moving_animation || self.finished {
            return false;
        }
        let total = self.timer_elapsed_ms.saturating_add(delta_ms);
        if total < self.timer_duration_ms {
            self.timer_elapsed_ms = total;
            return false;
        }
        self.timer_elapsed_ms = total % self.timer_duration_ms;
        self.advance();
        resolve_simple_sprite_ids(self);
        true
    }
}

/// What holds of every tick: the phase stays on the animation; a finished run
/// stays finished; only a counted run ever finishes; and an endless animation
/// of two or more phases, each given time, steps to the next phase, wrapping at
/// the end, on every tick that advances it.
pub proof fn lemma_tick_laws(before: SpriteAnimator, after: SpriteAnimator, delta_ms: u64, advanced: bool)
    requires
        before.wf(),
        ticked(before, after, delta_ms, advanced),
    ensures
        spec_total_phases(after.animation()) >= 1 ==> after.current_phase < spec_total_phases(after.animation()),
        before.finished ==> after.finished,
        after.finished ==> spec_loop_mode(after.animation()) is Counted,
        ({
            let a = before.animation();
            let n = spec_total_phases(a);
            spec_loop_mode(a) is Infinite && n >= 2 && advanced && (forall|p: int|
                0 <= p < n ==> !#[trigger] spec_phase_untimed(a, p)) ==> after.current_phase == (
            before.current_phase + 1) % (n as int)
        }),
{
    let a = before.animation();
    let n = spec_total_phases(a);
    if !(spec_loop_mode(after.animation()) is Counted) {
        lemma_endless_walks_never_finish(after.animation(), after.walk());
    }
    if spec_loop_mode(a) is Infinite && n >= 2 && advanced && (forall|p: int|
        0 <= p < n ==> !#[trigger] spec_phase_untimed(a, p)) {
        let w = step_walk(a, before.walk());
        assert(w.phase == (before.current_phase + 1) % (n as int));
        assert(w.phase < n);
        assert(!spec_phase_untimed(a, w.phase as int));
        assert(!w.finished);
        assert(skip_untimed(a, w, 2 * n) == w);
    }
}

/// What one advance of a running walk (a step, then settling onto a displayed
/// phase) keeps: the phase stays on the animation; only a counted run ever
/// finishes; and an endless animation of two or more phases, each given time,
/// moves to the next phase, wrapping at the end.
pub proof fn lemma_advance_laws(a: SpriteAnimation, w: PhaseWalk)
    requires
        walk_valid(a, w),
        !w.finished,
    ensures
        walk_valid(a, settle_walk(a, step_walk(a, w))),
        spec_total_phases(a) >= 1 ==> settle_walk(a, step_walk(a, w)).phase < spec_total_phases(a),
        settle_walk(a, step_walk(a, w)).finished ==> spec_loop_mode(a) is Counted,
        spec_loop_mode(a) is Infinite && spec_total_phases(a) >= 2 && (forall|p: int|
            0 <= p < spec_total_phases(a) ==> !#[trigger] spec_phase_untimed(a, p)) ==> settle_walk(
            a,
            step_walk(a, w),
        ).phase == (w.phase + 1) % (spec_total_phases(a) as int),
{
    let n = spec_total_phases(a);
    lemma_step_keeps_walk_valid(a, w);
    let st = step_walk(a, w);
    lemma_skip_keeps_walk_valid(a, st, 2 * n);
    let sk = skip_untimed(a, st, 2 * n);
    if sk.finished && spec_phase_untimed(a, sk.phase as int) {
        lemma_last_timed_bounds(a, sk.phase as nat);
        lemma_lowering_phase_keeps_walk_valid(a, sk, last_timed_at_or_below(a, sk.phase as nat) as u32);
    }
    let v = settle_walk(a, st);
    if !(spec_loop_mode(a) is Counted) {
        lemma_endless_walks_never_finish(a, v);
    }
    if spec_loop_mode(a) is Infinite && n >= 2 && (forall|p: int|
        0 <= p < n ==> !#[trigger] spec_phase_untimed(a, p)) {
        assert(st.phase == (w.phase + 1) % (n as int));
        assert(!spec_phase_untimed(a, st.phase as int));
        assert(sk == st);
    }
}

/// Stepping a valid walk that has not finished gives a valid walk: the phase stays
/// on the animation, a ping-pong keeps heading the right way, a counted run never
/// passes its count, and only a counted run ever finishes.
pub proof fn lemma_step_keeps_walk_valid(a: SpriteAnimation, w: PhaseWalk)
    requires
        walk_valid(a, w),
        !w.finished,
    ensures
        walk_valid(a, step_walk(a, w)),
{
    let n = spec_total_phases(a);
    if n >= 2 {
        if spec_loop_mode(a) is Infinite {
            assert(((w.phase + 1) % (n as int)) < n);
        }
    }
}

/// An animation that is not counted never finishes.
pub proof fn lemma_endless_walks_never_finish(a: SpriteAnimation, w: PhaseWalk)
    requires
        walk_valid(a, w),
        !(spec_loop_mode(a) is Counted),
    ensures
        !w.finished,
        !step_walk(a, w).finished,
{
}

proof fn lemma_skip_keeps_walk_valid(a: SpriteAnimation, w: PhaseWalk, fuel: nat)
    requires
        walk_valid(a, w),
    ensures
        walk_valid(a, skip_untimed(a, w, fuel)),
    decreases fuel,
{
    if !(fuel == 0 || w.finished || !spec_phase_untimed(a, w.phase as int)) {
        lemma_step_keeps_walk_valid(a, w);
        lemma_skip_keeps_walk_valid(a, step_walk(a, w), (fuel - 1) as nat);
    }
}

/// `(p + 1) % n` then `j - 1` more lands where `p` then `j` lands.
proof fn lemma_shift_one(p: int, j: int, n: int)
    requires
        0 <= p < n,
        1 <= j,
    ensures
        (((p + 1) % n) + (j - 1)) % n == (p + j) % n,
{
    if p + 1 < n {
        vstd::arithmetic::div_mod::lemma_small_mod((p + 1) as nat, n as nat);
    } else {
        vstd::arithmetic::div_mod::lemma_mod_self_0(n);
        vstd::arithmetic::div_mod::lemma_mod_add_multiples_vanish(j - 1, n);
    }
}

/// A wrapping or counted walk reaches the timed phase `q`, `j` steps ahead, or
/// finishes first.
proof fn lemma_forward_walk_reaches(a: SpriteAnimation, w: PhaseWalk, fuel: nat, q: int, j: nat)
    requires
        walk_valid(a, w),
        spec_total_phases(a) >= 2,
        spec_loop_mode(a) is Infinite || spec_loop_mode(a) is Counted,
        0 <= q < spec_total_phases(a),
        !spec_phase_untimed(a, q),
        j < fuel,
        (w.phase + j) % (spec_total_phases(a) as int) == q,
    ensures
        skip_untimed(a, w, fuel).finished || !spec_phase_untimed(
            a,
            skip_untimed(a, w, fuel).phase as int,
        ),
    decreases j,
{
    let n = spec_total_phases(a) as int;
    if w.finished || !spec_phase_untimed(a, w.phase as int) {
    } else {
        if j == 0 {
            vstd::arithmetic::div_mod::lemma_small_mod(w.phase as nat, n as nat);
            assert(false);
        }
        lemma_step_keeps_walk_valid(a, w);
        let w2 = step_walk(a, w);
        if w2.finished {
        } else {
            if w.phase + 1 < n {
                vstd::arithmetic::div_mod::lemma_small_mod((w.phase + 1) as nat, n as nat);
            } else {
                vstd::arithmetic::div_mod::lemma_mod_self_0(n);
            }
            assert(w2.phase == (w.phase + 1) % n);
            lemma_shift_one(w.phase as int, j as int, n);
            lemma_forward_walk_reaches(a, w2, (fuel - 1) as nat, q, (j - 1) as nat);
        }
    }
}

/// A ping-pong walk's place in its lap of `2n - 2` steps.
pub open spec fn lap_position(n: int, w: PhaseWalk) -> int {
    if w.descending {
        2 * (n - 1) - w.phase
    } else {
        w.phase as int
    }
}

proof fn lemma_lap_step(a: SpriteAnimation, w: PhaseWalk)
    requires
        walk_valid(a, w),
        spec_loop_mode(a) is PingPong,
        spec_total_phases(a) >= 2,
    ensures
        0 <= lap_position(spec_total_phases(a) as int, w) < 2 * (spec_total_phases(a) - 1),
        lap_position(spec_total_phases(a) as int, step_walk(a, w)) == (lap_position(
            spec_total_phases(a) as int,
            w,
        ) + 1) % (2 * (spec_total_phases(a) - 1)),
{
    let n = spec_total_phases(a) as int;
    let l = 2 * (n - 1);
    let c = lap_position(n, w);
    if c + 1 < l {
        vstd::arithmetic::div_mod::lemma_small_mod((c + 1) as nat, l as nat);
    } else {
        vstd::arithmetic::div_mod::lemma_mod_self_0(l);
    }
}

/// A ping-pong walk reaches the timed phase `q`, `j` steps ahead in its lap.
proof fn lemma_pingpong_walk_reaches(a: SpriteAnimation, w: PhaseWalk, fuel: nat, q: int, j: nat)
    requires
        walk_valid(a, w),
        spec_total_phases(a) >= 2,
        spec_loop_mode(a) is PingPong,
        0 <= q < spec_total_phases(a),
        !spec_phase_untimed(a, q),
        j < fuel,
        (lap_position(spec_total_phases(a) as int, w) + j) % (2 * (spec_total_phases(a) - 1)) == q,
    ensures
        !spec_phase_untimed(a, skip_untimed(a, w, fuel).phase as int),
    decreases j,
{
    let n = spec_total_phases(a) as int;
    let l = 2 * (n - 1);
    lemma_lap_step(a, w);
    if !spec_phase_untimed(a, w.phase as int) {
    } else {
        if j == 0 {
            vstd::arithmetic::div_mod::lemma_small_mod(lap_position(n, w) as nat, l as nat);
            assert(false);
        }
        lemma_step_keeps_walk_valid(a, w);
        let w2 = step_walk(a, w);
        lemma_shift_one(lap_position(n, w), j as int, l);
        lemma_pingpong_walk_reaches(a, w2, (fuel - 1) as nat, q, (j - 1) as nat);
    }
}

/// Wherever a valid walk stands, settling it, forward over untimed phases and then,
/// for a finished run, back over its untimed tail, leaves it valid and on a phase
/// the config gives time to, unless no phase has any time at all or a finished run
/// had nothing timed below it (then it rests on phase zero).
pub proof fn lemma_settled_walk_rests_on_timed_phase(a: SpriteAnimation, w: PhaseWalk)
    requires
        walk_valid(a, w),
        !spec_never_advances(a),
    ensures
        walk_valid(a, settle_walk(a, w)),
        !spec_phase_untimed(a, settle_walk(a, w).phase as int) || (settle_walk(a, w).finished
            && settle_walk(a, w).phase == 0),
{
    let n = spec_total_phases(a) as int;
    let fuel = 2 * spec_total_phases(a);
    let q = choose|q: int| 0 <= q < n && !#[trigger] spec_phase_untimed(a, q);
    let s = skip_untimed(a, w, fuel);
    lemma_skip_keeps_walk_valid(a, w, fuel);
    if w.finished {
    } else if n == 1 {
    } else if spec_loop_mode(a) is PingPong {
        let c = lap_position(n, w);
        let l = 2 * (n - 1);
        lemma_lap_step(a, w);
        let j: int = if q >= c {
            q - c
        } else {
            q + l - c
        };
        if q >= c {
            vstd::arithmetic::div_mod::lemma_small_mod(q as nat, l as nat);
        } else {
            vstd::arithmetic::div_mod::lemma_mod_add_multiples_vanish(q, l);
            vstd::arithmetic::div_mod::lemma_small_mod(q as nat, l as nat);
        }
        lemma_pingpong_walk_reaches(a, w, fuel, q, j as nat);
    } else {
        let p = w.phase as int;
        let j: int = if q >= p {
            q - p
        } else {
            q + n - p
        };
        vstd::arithmetic::div_mod::lemma_small_mod(q as nat, n as nat);
        if q < p {
            vstd::arithmetic::div_mod::lemma_mod_add_multiples_vanish(q, n);
        }
        lemma_forward_walk_reaches(a, w, fuel, q, j as nat);
    }
    if s.finished && spec_phase_untimed(a, s.phase as int) {
        lemma_last_timed_bounds(a, s.phase as nat);
        lemma_lowering_phase_keeps_walk_valid(
            a,
            s,
            last_timed_at_or_below(a, s.phase as nat) as u32,
        );
    }
}

} // verus!
