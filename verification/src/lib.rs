//! Core of a streaming request router: the frame model with its checksum and
//! fragmentation discipline, the per-session admission window, the weighted
//! lane rotation, and the consensus over adapter answers.

pub mod text;
pub mod json;
pub mod digest;
pub mod frame;
pub mod canonical;
pub mod checksum;
pub mod fragment;
pub mod reassembler;
pub mod window;
pub mod scheduler;
pub mod wide;
pub mod embedding;
pub mod consensus;
pub mod messages;
pub mod ingress;
pub mod processor;
pub mod policy;

pub use checksum::validate_fragment_checksums;
pub use consensus::{compute, ConsensusResult, Score};
pub use embedding::normalize;
pub use fragment::{fragment_text_frame, reassemble_text};
pub use frame::{CostEst, Finding, Frame, Meta, Payload, Window, DEFAULT_MAX_FRAGMENT_BYTES};
pub use reassembler::Reassembler;
pub use scheduler::{lane_from_qos, Lane, Rotation};
pub use window::{WindowState, WindowTable};
