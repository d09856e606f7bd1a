//! A modular audio-synthesis engine: modules connected by typed ports,
//! evaluated once per output sample by a memoized pull over the graph.

pub mod data;
pub mod graph;
pub mod gui;
pub mod module;
pub mod modules;
pub mod patch;
pub mod ui_utils;

pub use data::{copy_notes, midi_to_freq, Data, DataModel, DataType, ModuleId, Note, Sample, SILENCE, SINK, UNIT};
pub use graph::{connect_model, App, Connection, EvalError, Event};
pub use gui::{Gui, ModuleWindow, Selection};
pub use module::Module;
pub use modules::{Adsr, Component, Mixer, Oscillator, PolyOscillator, Sequencer, Waveshape};
pub use patch::build_patch;
pub use ui_utils::{Rect, SimpleLayoutBuilder};
