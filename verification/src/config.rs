//! Global configuration for a reconstruction workspace.

use vstd::prelude::*;

verus! {

/// Defines the overall aggressiveness of the reconstruction heuristics.
#[derive(Debug, Clone, Copy, PartialEq, Eq, Structural)]
pub enum RecoveryMode {
    /// Strict evidence only; raw representations where ambiguous.
    Conservative,
    /// Classes and inheritance from standard memory layout assumptions.
    StructuralModel,
    /// High-heuristic naming inferred from API calls and string usages.
    Readable,
    /// Maximum verbosity; all alternatives emitted in comments.
    Research,
    /// Immediately compilable output, padding structs where needed.
    Rebuildable,
}

impl Default for RecoveryMode {
    fn default() -> (m: Self)
        ensures
            m == RecoveryMode::Readable,
    {
        RecoveryMode::Readable
    }
}

/// Global settings for a reconstruction workspace.
#[derive(Debug, Clone, Copy, PartialEq, Eq, Structural)]
pub struct WorkspaceConfig {
    pub recovery_mode: RecoveryMode,
    /// Synthesize dynamic MVVM data bindings during XAML/UI recovery.
    pub emit_ui_bindings: bool,
    /// Group functions into subsystems based on call graphs.
    pub cluster_subsystems: bool,
}

impl Default for WorkspaceConfig {
    fn default() -> (c: Self)
        ensures
            c.recovery_mode == RecoveryMode::Readable,
            !c.emit_ui_bindings,
            !c.cluster_subsystems,
    {
        WorkspaceConfig {
            recovery_mode: RecoveryMode::default(),
            emit_ui_bindings: false,
            cluster_subsystems: false,
        }
    }
}

} // verus!
