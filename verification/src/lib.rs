//! CottDAW's project model and the decisions of its editor and engine:
//! the acyclic audio/MIDI routing graph and its compiled processing plan,
//! tracks, clips and notes, reversible commands with undo and redo, the
//! `.ctgdaw` archive path rules, the plugin catalog, the IPC framing and
//! shared-memory layout, and the transport and MIDI bookkeeping of the
//! audio processor.
use vstd::prelude::*;

pub mod ipc;
pub mod keyed;
pub mod vecs;
pub mod ids;
pub mod text;
pub mod dag;
pub mod graph;
pub mod migrate;
pub mod scale;
pub mod piano;
pub mod clips;
pub mod notes;
pub mod time;
pub mod project;
pub mod commands;
pub mod plan;
pub mod editor;
pub mod archive;
pub mod catalog;
pub mod session;
pub mod routing;
pub mod engine;
pub mod schedule;
pub mod import;
pub mod layout;
pub mod shortcuts;

