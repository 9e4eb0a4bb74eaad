//! Structural recovery: a bounded snap-back policy. In a known-stable
//! regime that starts to drift, a recovery window opens for a fixed number
//! of iterations, during which anchors are held more firmly and ambiguity is
//! swept harder.
use vstd::prelude::*;

verus! {

/// Bounded snap-back policy configuration.
#[derive(Debug, Clone, Copy)]
pub struct Phase61StructuralRecoveryConfig {
    pub enabled: bool,
    pub activation_anchor_overlap_floor: usize,
    pub activation_anchor_coherence_floor: i64,
    pub activation_energy_delta_multiplier: i64,
    pub activation_anchor_drift_floor: i64,
    pub active_window_iterations: usize,
    pub anchor_min_persistence_relaxation: usize,
    pub anchor_pull_boost: i64,
    pub ambiguity_margin_divisor: i64,
    pub extra_disambiguation_sweeps: usize,
}

impl Default for Phase61StructuralRecoveryConfig {
    fn default() -> (c: Self)
        ensures
            c.enabled,
            c.activation_anchor_overlap_floor == 780,
            c.activation_anchor_coherence_floor == 780,
            c.activation_energy_delta_multiplier == 2,
            c.activation_anchor_drift_floor == 1,
            c.active_window_iterations == 3,
            c.anchor_min_persistence_relaxation == 1,
            c.anchor_pull_boost == 2,
            c.ambiguity_margin_divisor == 2,
            c.extra_disambiguation_sweeps == 2,
    {
        Phase61StructuralRecoveryConfig {
            enabled: true,
            activation_anchor_overlap_floor: 780,
            activation_anchor_coherence_floor: 780,
            activation_energy_delta_multiplier: 2,
            activation_anchor_drift_floor: 1,
            active_window_iterations: 3,
            anchor_min_persistence_relaxation: 1,
            anchor_pull_boost: 2,
            ambiguity_margin_divisor: 2,
            extra_disambiguation_sweeps: 2,
        }
    }
}

/// What one iteration observed.
#[derive(Debug, Clone, Copy)]
pub struct Phase61SignalSnapshot {
    pub has_previous_iteration: bool,
    pub contradiction_count: usize,
    pub unresolved_subjects: usize,
    pub anchor_overlap: usize,
    pub anchor_field_coherence: i64,
    pub anchor_drift: i64,
    pub energy_delta: i64,
    pub energy_delta_threshold: i64,
}

/// The parameters an iteration runs with.
#[derive(Debug, Clone, Copy)]
pub struct Phase61RuntimePolicy {
    pub active: bool,
    pub effective_anchor_min_persistence: usize,
    pub effective_anchor_pull_strength: i64,
    pub sweep_ambiguity_margin: i64,
    pub extra_disambiguation_sweeps: usize,
}

/// The recovery window: the last iteration it covers, if one is open.
#[derive(Debug, Clone)]
pub struct Phase61StructuralRecoveryState {
    active_until_iteration: Option<usize>,
}

impl Default for Phase61SignalSnapshot {
    /// No previous iteration, and every count and measure zero.
    fn default() -> (s: Self)
        ensures
            !s.has_previous_iteration,
            s.contradiction_count == 0,
            s.unresolved_subjects == 0,
            s.anchor_overlap == 0,
            s.anchor_field_coherence == 0,
            s.anchor_drift == 0,
            s.energy_delta == 0,
            s.energy_delta_threshold == 0,
    {
        Phase61SignalSnapshot {
            has_previous_iteration: false,
            contradiction_count: 0,
            unresolved_subjects: 0,
            anchor_overlap: 0,
            anchor_field_coherence: 0,
            anchor_drift: 0,
            energy_delta: 0,
            energy_delta_threshold: 0,
        }
    }
}

impl Default for Phase61StructuralRecoveryState {
    /// No recovery window open.
    fn default() -> (s: Self)
        ensures
            s@ is None,
    {
        Phase61StructuralRecoveryState { active_until_iteration: None }
    }
}

impl View for Phase61StructuralRecoveryState {
    type V = Option<usize>;

    closed spec fn view(&self) -> Option<usize> {
        self.active_until_iteration
    }
}

// ── model ────────────────────────────────────────────────────────────────────

/// `i64::saturating_mul`: the product clamped to the `i64` range.
pub open spec fn sat_mul(a: int, b: int) -> int {
    if a * b > i64::MAX {
        i64::MAX as int
    } else if a * b < i64::MIN {
        i64::MIN as int
    } else {
        a * b
    }
}

pub open spec fn max_int(a: int, b: int) -> int {
    if a >= b {
        a
    } else {
        b
    }
}

/// No contradictions or open subjects, and anchors overlap and cohere above
/// the configured floors.
pub open spec fn known_stable(s: Phase61SignalSnapshot, c: Phase61StructuralRecoveryConfig) -> bool {
    &&& s.has_previous_iteration
    &&& s.contradiction_count == 0
    &&& s.unresolved_subjects == 0
    &&& s.anchor_overlap >= c.activation_anchor_overlap_floor
    &&& s.anchor_field_coherence >= c.activation_anchor_coherence_floor
}

/// Anchors drift, or energy moves faster than the scaled threshold allows.
pub open spec fn drift_trigger(s: Phase61SignalSnapshot, c: Phase61StructuralRecoveryConfig) -> bool {
    s.anchor_drift >= c.activation_anchor_drift_floor || s.energy_delta > sat_mul(
        max_int(s.energy_delta_threshold as int, 0),
        max_int(c.activation_energy_delta_multiplier as int, 1),
    )
}

pub open spec fn covers(window: Option<usize>, iter: usize) -> bool {
    match window {
        Some(until) => iter <= until,
        None => false,
    }
}

/// The window after iteration `iter`: cleared when disabled; opened for
/// `active_window_iterations` iterations when a stable regime drifts while
/// no window covers `iter`; otherwise unchanged.
pub open spec fn next_window(
    window: Option<usize>,
    iter: usize,
    s: Phase61SignalSnapshot,
    c: Phase61StructuralRecoveryConfig,
) -> Option<usize> {
    if !c.enabled {
        None
    } else if !covers(window, iter) && known_stable(s, c) && drift_trigger(s, c) {
        Some(
            (iter + if c.active_window_iterations >= 1 {
                c.active_window_iterations - 1
            } else {
                0
            }) as usize,
        )
    } else {
        window
    }
}

/// Opening a window at `iter` does not overflow `usize`.
pub open spec fn window_fits(
    window: Option<usize>,
    iter: usize,
    s: Phase61SignalSnapshot,
    c: Phase61StructuralRecoveryConfig,
) -> bool {
    (c.enabled && !covers(window, iter) && known_stable(s, c) && drift_trigger(s, c)) ==> iter + (
    if c.active_window_iterations >= 1 {
        c.active_window_iterations - 1
    } else {
        0
    }) <= usize::MAX
}

/// The policy for an iteration, active or not.
pub open spec fn policy_for(
    active: bool,
    base_persistence: usize,
    base_pull: i64,
    base_margin: i64,
    c: Phase61StructuralRecoveryConfig,
) -> Phase61RuntimePolicy {
    let relaxed = if base_persistence >= c.anchor_min_persistence_relaxation {
        base_persistence - c.anchor_min_persistence_relaxation
    } else {
        0
    };
    let divisor = max_int(c.ambiguity_margin_divisor as int, 1);
    Phase61RuntimePolicy {
        active,
        effective_anchor_min_persistence: if active {
            max_int(relaxed, 1) as usize
        } else {
            max_int(base_persistence as int, 1) as usize
        },
        effective_anchor_pull_strength: if active {
            (if base_pull + c.anchor_pull_boost <= 8 {
                base_pull + c.anchor_pull_boost
            } else {
                8
            }) as i64
        } else {
            base_pull
        },
        sweep_ambiguity_margin: if active {
            max_int(trunc_div(base_margin as int, divisor), 1) as i64
        } else {
            base_margin
        },
        extra_disambiguation_sweeps: if active {
            c.extra_disambiguation_sweeps
        } else {
            0
        },
    }
}

/// Integer division rounding toward zero, as Rust's `/` does.
pub open spec fn trunc_div(a: int, b: int) -> int {
    if a >= 0 {
        a / b
    } else {
        -((-a) / b)
    }
}

// ── kernel ───────────────────────────────────────────────────────────────────

fn saturating_mul_i64(a: i64, b: i64) -> (r: i64)
    requires
        a >= 0,
        b >= 1,
    ensures
        r == sat_mul(a as int, b as int),
{
    match a.checked_mul(b) {
        Some(v) => v,
        None => {
            assert(a * b > i64::MAX) by (nonlinear_arith)
                requires
                    a >= 0,
                    b >= 1,
                    !(i64::MIN <= a * b <= i64::MAX),
            ;
            i64::MAX
        },
    }
}

impl Phase61StructuralRecoveryState {
    /// No recovery window.
    pub fn new() -> (s: Self)
        ensures
            s@ is None,
    {
        Phase61StructuralRecoveryState { active_until_iteration: None }
    }

    /// The recovery window as the state holds it.
    pub fn active_until_iteration(&self) -> (r: Option<usize>)
        ensures
            r == self@,
    {
        self.active_until_iteration
    }

    /// Builds the policy for iteration `iter`, advancing the recovery window
    /// first.
    pub fn build_runtime_policy(
        &mut self,
        iter: usize,
        base_anchor_min_persistence: usize,
        base_anchor_pull_strength: i64,
        base_ambiguity_margin: i64,
        signal: Phase61SignalSnapshot,
        config: &Phase61StructuralRecoveryConfig,
    ) -> (p: Phase61RuntimePolicy)
        requires
            window_fits(old(self)@, iter, signal, *config),
            covers(next_window(old(self)@, iter, signal, *config), iter) ==> i64::MIN
                <= base_anchor_pull_strength + config.anchor_pull_boost <= i64::MAX,
        ensures
            final(self)@ == next_window(old(self)@, iter, signal, *config),
            p == policy_for(
                covers(final(self)@, iter),
                base_anchor_min_persistence,
                base_anchor_pull_strength,
                base_ambiguity_margin,
                *config,
            ),
    {
        let active_now = self.advance_activation(iter, signal, config);
        let effective_anchor_min_persistence = if active_now {
            let relaxed = base_anchor_min_persistence.saturating_sub(
                config.anchor_min_persistence_relaxation,
            );
            if relaxed >= 1 {
                relaxed
            } else {
                1
            }
        } else {
            if base_anchor_min_persistence >= 1 {
                base_anchor_min_persistence
            } else {
                1
            }
        };
        let effective_anchor_pull_strength = if active_now {
            let boosted = base_anchor_pull_strength + config.anchor_pull_boost;
            if boosted <= 8 {
                boosted
            } else {
                8
            }
        } else {
            base_anchor_pull_strength
        };
        let sweep_ambiguity_margin = if active_now {
            let divisor = if config.ambiguity_margin_divisor >= 1 {
                config.ambiguity_margin_divisor
            } else {
                1
            };
            let q = base_ambiguity_margin / divisor;
            assert(q == trunc_div(base_ambiguity_margin as int, divisor as int));
            if q >= 1 {
                q
            } else {
                1
            }
        } else {
            base_ambiguity_margin
        };
        let extra_disambiguation_sweeps = if active_now {
            config.extra_disambiguation_sweeps
        } else {
            0
        };
        Phase61RuntimePolicy {
            active: active_now,
            effective_anchor_min_persistence,
            effective_anchor_pull_strength,
            sweep_ambiguity_margin,
            extra_disambiguation_sweeps,
        }
    }

    fn advance_activation(
        &mut self,
        iter: usize,
        signal: Phase61SignalSnapshot,
        config: &Phase61StructuralRecoveryConfig,
    ) -> (active: bool)
        requires
            window_fits(old(self)@, iter, signal, *config),
        ensures
            final(self)@ == next_window(old(self)@, iter, signal, *config),
            active == covers(final(self)@, iter),
    {
        if !config.enabled {
            self.active_until_iteration = None;
            return false;
        }
        let currently_active = match self.active_until_iteration {
            Some(until) => iter <= until,
            None => false,
        };
        let known_stable_regime = signal.has_previous_iteration && signal.contradiction_count == 0
            && signal.unresolved_subjects == 0 && signal.anchor_overlap
            >= config.activation_anchor_overlap_floor && signal.anchor_field_coherence
            >= config.activation_anchor_coherence_floor;
        let threshold = if signal.energy_delta_threshold >= 0 {
            signal.energy_delta_threshold
        } else {
            0
        };
        let multiplier = if config.activation_energy_delta_multiplier >= 1 {
            config.activation_energy_delta_multiplier
        } else {
            1
        };
        let drift_trigger = signal.anchor_drift >= config.activation_anchor_drift_floor
            || signal.energy_delta > saturating_mul_i64(threshold, multiplier);
        if !currently_active && known_stable_regime && drift_trigger {
            self.active_until_iteration = Some(
                iter + config.active_window_iterations.saturating_sub(1),
            );
        }
        match self.active_until_iteration {
            Some(until) => iter <= until,
            None => false,
        }
    }
}

// ── laws ─────────────────────────────────────────────────────────────────────

/// A disabled configuration never activates recovery, and clears any window.
pub proof fn lemma_disabled_never_active(
    window: Option<usize>,
    iter: usize,
    s: Phase61SignalSnapshot,
    c: Phase61StructuralRecoveryConfig,
)
    requires
        !c.enabled,
    ensures
        next_window(window, iter, s, c) is None,
        !covers(next_window(window, iter, s, c), iter),
{
}

/// A window opened at `iter` covers exactly the iterations `iter` through
/// `iter + active_window_iterations - 1` (at least `iter` itself).
pub proof fn lemma_window_span(
    window: Option<usize>,
    iter: usize,
    s: Phase61SignalSnapshot,
    c: Phase61StructuralRecoveryConfig,
    j: usize,
)
    requires
        c.enabled,
        !covers(window, iter),
        known_stable(s, c),
        drift_trigger(s, c),
        window_fits(window, iter, s, c),
    ensures
        covers(next_window(window, iter, s, c), iter),
        iter <= j ==> (covers(next_window(window, iter, s, c), j) <==> j - iter < max_int(
            c.active_window_iterations as int,
            1,
        )),
{
}

/// An open window is neither extended nor reopened while it covers the
/// iteration: the snap-back stays bounded.
pub proof fn lemma_open_window_is_kept(
    window: Option<usize>,
    iter: usize,
    s: Phase61SignalSnapshot,
    c: Phase61StructuralRecoveryConfig,
)
    requires
        c.enabled,
        covers(window, iter),
    ensures
        next_window(window, iter, s, c) == window,
{
}

/// Without a drifting stable regime, an enabled recovery keeps its window.
pub proof fn lemma_no_trigger_keeps_window(
    window: Option<usize>,
    iter: usize,
    s: Phase61SignalSnapshot,
    c: Phase61StructuralRecoveryConfig,
)
    requires
        c.enabled,
        !(known_stable(s, c) && drift_trigger(s, c)),
    ensures
        next_window(window, iter, s, c) == window,
{
}

/// An active policy holds anchors for at least one iteration, pulls them no
/// harder than 8 and sweeps with a margin of at least 1; an inactive policy
/// passes the base parameters through and adds no sweeps.
pub proof fn lemma_policy_bounds(
    active: bool,
    base_persistence: usize,
    base_pull: i64,
    base_margin: i64,
    c: Phase61StructuralRecoveryConfig,
)
    requires
        active ==> i64::MIN <= base_pull + c.anchor_pull_boost,
    ensures
        ({
            let p = policy_for(active, base_persistence, base_pull, base_margin, c);
            &&& p.active == active
            &&& p.effective_anchor_min_persistence >= 1
            &&& active ==> p.effective_anchor_pull_strength <= 8
            &&& active ==> p.sweep_ambiguity_margin >= 1
            &&& active ==> p.extra_disambiguation_sweeps == c.extra_disambiguation_sweeps
            &&& !active ==> p.effective_anchor_pull_strength == base_pull
            &&& !active ==> p.sweep_ambiguity_margin == base_margin
            &&& !active ==> p.extra_disambiguation_sweeps == 0
        }),
{
    let divisor = max_int(c.ambiguity_margin_divisor as int, 1);
    lemma_trunc_div_bounds(base_margin as int, divisor);
}

/// When a recovery window opens, in terms of the observed signals: an
/// enabled recovery with no window covering the iteration opens one exactly
/// when a previous iteration exists, there is no contradiction and no open
/// subject, anchors overlap and cohere at least at their floors, and either
/// anchors drift at least at the drift floor or the energy moves by more
/// than its threshold (taken as at least 0) times the multiplier (taken as
/// at least 1). The window then covers the iteration and the following
/// `active_window_iterations - 1` ones (at least the iteration itself).
pub proof fn lemma_window_opening(
    window: Option<usize>,
    iter: usize,
    s: Phase61SignalSnapshot,
    c: Phase61StructuralRecoveryConfig,
)
    requires
        c.enabled,
        !covers(window, iter),
        window_fits(window, iter, s, c),
    ensures
        ({
            let thr: int = if s.energy_delta_threshold > 0 { s.energy_delta_threshold as int } else { 0 };
            let mult: int = if c.activation_energy_delta_multiplier > 1 {
                c.activation_energy_delta_multiplier as int
            } else {
                1
            };
            let opens = s.has_previous_iteration && s.contradiction_count == 0 && s.unresolved_subjects == 0
                && s.anchor_overlap >= c.activation_anchor_overlap_floor && s.anchor_field_coherence
                >= c.activation_anchor_coherence_floor && (s.anchor_drift >= c.activation_anchor_drift_floor
                || s.energy_delta > thr * mult);
            let span: int = if c.active_window_iterations >= 1 { c.active_window_iterations as int } else { 1 };
            &&& opens ==> next_window(window, iter, s, c) == Some((iter + span - 1) as usize)
            &&& !opens ==> next_window(window, iter, s, c) == window
        }),
{
    let thr: int = if s.energy_delta_threshold > 0 { s.energy_delta_threshold as int } else { 0 };
    let mult: int = if c.activation_energy_delta_multiplier > 1 {
        c.activation_energy_delta_multiplier as int
    } else {
        1
    };
    assert(thr * mult >= 0) by (nonlinear_arith)
        requires
            thr >= 0,
            mult >= 1,
    ;
    assert(max_int(s.energy_delta_threshold as int, 0) == thr);
    assert(max_int(c.activation_energy_delta_multiplier as int, 1) == mult);
    assert((s.energy_delta > sat_mul(thr, mult)) == (s.energy_delta > thr * mult));
}

proof fn lemma_trunc_div_bounds(a: int, d: int)
    requires
        d >= 1,
    ensures
        a >= 0 ==> 0 <= trunc_div(a, d) <= a,
        a < 0 ==> a <= trunc_div(a, d) <= 0,
{
    if a >= 0 {
        assert(0 <= a / d <= a) by (nonlinear_arith)
            requires
                a >= 0,
                d >= 1,
        ;
    } else {
        assert(0 <= (-a) / d <= -a) by (nonlinear_arith)
            requires
                a < 0,
                d >= 1,
        ;
    }
}

} // verus!
