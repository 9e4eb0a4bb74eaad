pub mod phase13_qubit_kernel;
pub mod phase14_operator_algebra;
pub mod phase15_two_qubit_semantic_binding;
pub mod phase16_thought_path_trajectories;
pub mod phase17_semantic_measurement_operators;
pub mod phase18_resonance_inference;
pub mod phase19_arbitration_operators;
pub mod phase20_self_correction_operators;
pub mod cognition_session;
pub mod phase61_structural_recovery;
pub mod constraint;
pub mod node;
pub mod scheduler;
pub mod phase90_geometric_cognitive_seed;
pub mod phase90_continuity_weighted_fields;
pub mod phase90_emergent_cognitive_shapes;
pub mod phase90_cognitive_manifolds;
pub mod phase90_multishape_interaction_dynamics;
pub mod phase90_geometry_driven_adjustment_operators;
pub mod evaluator;
pub mod phase12_emergent_cognitive_programs;
pub mod phase62_subject_selection;
pub mod phase62_structural_experiment;
pub mod phase63_topology_repair;
pub mod multiframe;
pub mod multiframe_topology;
pub mod multiframe_flow;
pub mod multiframe_energy;
pub mod multiframe_intent;
pub mod phase10_runtime_adaptation;
pub mod multiframe_laws;
pub mod multiframe_consolidation;
