pub mod adsr;
pub mod component;
pub mod mixer;
pub mod oscillator;
pub mod polyoscillator;
pub mod sequencer;

pub use adsr::Adsr;
pub use component::Component;
pub use mixer::Mixer;
pub use oscillator::{Oscillator, Waveshape};
pub use polyoscillator::PolyOscillator;
pub use sequencer::Sequencer;
