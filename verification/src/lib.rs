//! A pattern sequencer with machine-checked contracts.
//!
//! Notes are stored with a start and a duration on a 960-ticks-per-quarter
//! grid and become note-on/note-off events at playback. Patterns, tracks, the
//! arrangement and time signatures live in a [`song::Song`], together with the
//! pooled Note Grid and Mod Grid graphs patterns and tracks use.
use vstd::prelude::*;

pub mod arp;
pub mod automation;
pub mod dag;
pub mod effects;
pub mod events;
pub mod ids;
pub mod input;
pub mod mod_grid;
pub mod note;
pub mod note_graph;
pub mod note_processor;
pub mod ornament;
pub mod pattern;
pub mod pitch;
pub mod song;
pub mod time;
pub mod timing;
pub mod track;
pub mod tracker_pattern;
