use gort::cognition::phase61_structural_recovery::{
    Phase61SignalSnapshot, Phase61StructuralRecoveryConfig, Phase61StructuralRecoveryState,
};

fn stable_drifting() -> Phase61SignalSnapshot {
    Phase61SignalSnapshot {
        has_previous_iteration: true,
        contradiction_count: 0,
        unresolved_subjects: 0,
        anchor_overlap: 800,
        anchor_field_coherence: 800,
        anchor_drift: 1,
        energy_delta: 0,
        energy_delta_threshold: 10,
    }
}

#[test]
fn phase61_window_opens_for_configured_iterations() {
    let config = Phase61StructuralRecoveryConfig::default();
    let mut state = Phase61StructuralRecoveryState::default();
    let p = state.build_runtime_policy(5, 3, 7, 9, stable_drifting(), &config);
    assert!(p.active);
    assert_eq!(p.effective_anchor_min_persistence, 2);
    assert_eq!(p.effective_anchor_pull_strength, 8);
    assert_eq!(p.sweep_ambiguity_margin, 4);
    assert_eq!(p.extra_disambiguation_sweeps, 2);
    assert_eq!(state.active_until_iteration(), Some(7));
    let quiet = Phase61SignalSnapshot::default();
    assert!(state.build_runtime_policy(6, 3, 7, 9, quiet, &config).active);
    assert!(state.build_runtime_policy(7, 3, 7, 9, quiet, &config).active);
    let after = state.build_runtime_policy(8, 3, 7, 9, quiet, &config);
    assert!(!after.active);
    assert_eq!(after.effective_anchor_pull_strength, 7);
    assert_eq!(after.sweep_ambiguity_margin, 9);
    assert_eq!(after.extra_disambiguation_sweeps, 0);
}

#[test]
fn phase61_disabled_config_never_activates() {
    let mut config = Phase61StructuralRecoveryConfig::default();
    config.enabled = false;
    let mut state = Phase61StructuralRecoveryState::default();
    let p = state.build_runtime_policy(1, 0, 1, 0, stable_drifting(), &config);
    assert!(!p.active);
    assert_eq!(p.effective_anchor_min_persistence, 1);
    assert_eq!(state.active_until_iteration(), None);
}

#[test]
fn phase61_energy_spike_triggers_and_unstable_regime_does_not() {
    let config = Phase61StructuralRecoveryConfig::default();
    let mut spike = stable_drifting();
    spike.anchor_drift = 0;
    spike.energy_delta = 21;
    let mut state = Phase61StructuralRecoveryState::new();
    assert!(state.build_runtime_policy(0, 1, 1, 1, spike, &config).active);
    spike.energy_delta = 20;
    let mut state = Phase61StructuralRecoveryState::new();
    assert!(!state.build_runtime_policy(0, 1, 1, 1, spike, &config).active);
    let mut unstable = stable_drifting();
    unstable.contradiction_count = 1;
    let mut state = Phase61StructuralRecoveryState::new();
    assert!(!state.build_runtime_policy(0, 1, 1, 1, unstable, &config).active);
}
