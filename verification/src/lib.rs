//! Canary: progressive semantic raising for binary analysis.
//!
//! The verified core of the reconstruction engine: pass scheduling, the
//! dominance finger walk, the value-set lattice, function discovery and
//! linear sweep, asset carving, module clustering and subsystem search,
//! name-based API and function classification, semantic diffs, project
//! layout and build-file emission, and the bookkeeping structures that
//! drive whole-program analysis.

pub mod config;
pub mod text;
pub mod seq_facts;
pub mod scheduler;
pub mod program_emit;
pub mod cache;
pub mod diff;
pub mod arch;
pub mod provenance;
pub mod ui_binding;
pub mod engine;
pub mod field_engine;
pub mod image;
pub mod recovered_types;
pub mod winrt_align;
pub mod vtables;
pub mod rtti;
pub mod inheritance;
pub mod methods;
pub mod classes;
pub mod cpp_recovery;
pub mod export;
pub mod class_emit;
pub mod workspace;
pub mod refinement;
pub mod include_graph;
pub mod naming;
pub mod ssa;
pub mod struct_inference;
pub mod project_files;
pub mod whole_program;
pub mod calling_conv;
pub mod api_tracking;
pub mod collections;
pub mod program_db;
pub mod cfg;
pub mod worklist;
pub mod vsa;
pub mod dominators;
pub mod structuring;
pub mod x86_registers;
pub mod stack_vars;
pub mod mlil;
pub mod discovery;
pub mod rebuild;
pub mod lifetime;
pub mod semantic_lower;
pub mod identity;
pub mod linear_sweep;
pub mod assets;
pub mod clustering;
pub mod validator;
pub mod subsystem;
pub mod project_layout;
