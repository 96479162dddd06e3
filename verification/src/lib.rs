//! Verified core of an autonomous-robot "brain": preallocated ring buffers,
//! AIS decoding and collision-regulation decisions, grid worlds and voxel
//! grids (frontiers, inflation), the autopilots' decision rules, behavior-tree
//! rules, gait bookkeeping, retrieval hashing, and the tool-calling agent loop
//! with its model backends' reply rules.
pub mod text;
pub mod error;
pub mod time;
pub mod config;
pub mod ring;
pub mod ais;
pub mod colregs;
pub mod world;
pub mod sensor;
pub mod grid;
pub mod autopilot;
pub mod behavior;
pub mod gait;
pub mod rag;
pub mod types;
pub mod tool;
pub mod model;
pub mod llm;
pub mod agent;
