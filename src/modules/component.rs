use vstd::prelude::*;
use crate::data::{Data, DataModel, DataType};
use crate::module::Module;
use crate::modules::adsr::Adsr;
use crate::modules::mixer::Mixer;
use crate::modules::oscillator::Oscillator;
use crate::modules::polyoscillator::PolyOscillator;
use crate::modules::sequencer::Sequencer;

verus! {

/// Any of the built-in modules.
pub enum Component {
    Oscillator(Oscillator),
    PolyOscillator(PolyOscillator),
    Adsr(Adsr),
    Mixer(Mixer),
    Sequencer(Sequencer),
}

impl Module for Component {
    open spec fn inv(&self) -> bool {
        match self {
            Component::Oscillator(m) => m.inv(),
            Component::PolyOscillator(m) => m.inv(),
            Component::Adsr(m) => m.inv(),
            Component::Mixer(m) => m.inv(),
            Component::Sequencer(m) => m.inv(),
        }
    }

    open spec fn arity(&self) -> nat {
        match self {
            Component::Oscillator(m) => m.arity(),
            Component::PolyOscillator(m) => m.arity(),
            Component::Adsr(m) => m.arity(),
            Component::Mixer(m) => m.arity(),
            Component::Sequencer(m) => m.arity(),
        }
    }

    open spec fn out_kind(&self) -> DataType {
        match self {
            Component::Oscillator(m) => m.out_kind(),
            Component::PolyOscillator(m) => m.out_kind(),
            Component::Adsr(m) => m.out_kind(),
            Component::Mixer(m) => m.out_kind(),
            Component::Sequencer(m) => m.out_kind(),
        }
    }

    /// Each call does what the module inside does, and keeps its kind.
    open spec fn ticks_to(&self, rate: u32, next: Self, out: Option<DataModel>) -> bool {
        match (*self, next) {
            (Component::Oscillator(a), Component::Oscillator(b)) => a.ticks_to(rate, b, out),
            (Component::PolyOscillator(a), Component::PolyOscillator(b)) => a.ticks_to(rate, b, out),
            (Component::Adsr(a), Component::Adsr(b)) => a.ticks_to(rate, b, out),
            (Component::Mixer(a), Component::Mixer(b)) => a.ticks_to(rate, b, out),
            (Component::Sequencer(a), Component::Sequencer(b)) => a.ticks_to(rate, b, out),
            _ => false,
        }
    }

    open spec fn sends_to(&self, port: usize, value: DataModel, rate: u32, next: Self, accepted: bool) -> bool {
        match (*self, next) {
            (Component::Oscillator(a), Component::Oscillator(b)) => a.sends_to(port, value, rate, b, accepted),
            (Component::PolyOscillator(a), Component::PolyOscillator(b)) => a.sends_to(port, value, rate, b, accepted),
            (Component::Adsr(a), Component::Adsr(b)) => a.sends_to(port, value, rate, b, accepted),
            (Component::Mixer(a), Component::Mixer(b)) => a.sends_to(port, value, rate, b, accepted),
            (Component::Sequencer(a), Component::Sequencer(b)) => a.sends_to(port, value, rate, b, accepted),
            _ => false,
        }
    }

    open spec fn interacts_to(
        &self,
        x: u32,
        y: u32,
        width: u32,
        height: u32,
        left: bool,
        next: Self,
        changed: bool,
    ) -> bool {
        match (*self, next) {
            (Component::Oscillator(a), Component::Oscillator(b)) => a.interacts_to(x, y, width, height, left, b, changed),
            (Component::PolyOscillator(a), Component::PolyOscillator(b)) => a.interacts_to(x, y, width, height, left, b, changed),
            (Component::Adsr(a), Component::Adsr(b)) => a.interacts_to(x, y, width, height, left, b, changed),
            (Component::Mixer(a), Component::Mixer(b)) => a.interacts_to(x, y, width, height, left, b, changed),
            (Component::Sequencer(a), Component::Sequencer(b)) => a.interacts_to(x, y, width, height, left, b, changed),
            _ => false,
        }
    }

    open spec fn executes_to(&self, cmd: Seq<u8>, next: Self, supported: bool) -> bool {
        match (*self, next) {
            (Component::Oscillator(a), Component::Oscillator(b)) => a.executes_to(cmd, b, supported),
            (Component::PolyOscillator(a), Component::PolyOscillator(b)) => a.executes_to(cmd, b, supported),
            (Component::Adsr(a), Component::Adsr(b)) => a.executes_to(cmd, b, supported),
            (Component::Mixer(a), Component::Mixer(b)) => a.executes_to(cmd, b, supported),
            (Component::Sequencer(a), Component::Sequencer(b)) => a.executes_to(cmd, b, supported),
            _ => false,
        }
    }

    fn title(&self) -> &'static str {
        match self {
            Component::Oscillator(m) => m.title(),
            Component::PolyOscillator(m) => m.title(),
            Component::Adsr(m) => m.title(),
            Component::Mixer(m) => m.title(),
            Component::Sequencer(m) => m.title(),
        }
    }

    fn get_output_type(&self) -> DataType {
        match self {
            Component::Oscillator(m) => m.get_output_type(),
            Component::PolyOscillator(m) => m.get_output_type(),
            Component::Adsr(m) => m.get_output_type(),
            Component::Mixer(m) => m.get_output_type(),
            Component::Sequencer(m) => m.get_output_type(),
        }
    }

    fn get_inputs(&self) -> (r: Vec<(DataType, &'static str)>) {
        match self {
            Component::Oscillator(m) => m.get_inputs(),
            Component::PolyOscillator(m) => m.get_inputs(),
            Component::Adsr(m) => m.get_inputs(),
            Component::Mixer(m) => m.get_inputs(),
            Component::Sequencer(m) => m.get_inputs(),
        }
    }

    fn tick(&mut self, sample_rate: u32) -> (r: Option<Data>) {
        match self {
            Component::Oscillator(m) => m.tick(sample_rate),
            Component::PolyOscillator(m) => m.tick(sample_rate),
            Component::Adsr(m) => m.tick(sample_rate),
            Component::Mixer(m) => m.tick(sample_rate),
            Component::Sequencer(m) => m.tick(sample_rate),
        }
    }

    fn send(&mut self, input: usize, data: Data, sample_rate: u32) -> (accepted: bool) {
        match self {
            Component::Oscillator(m) => m.send(input, data, sample_rate),
            Component::PolyOscillator(m) => m.send(input, data, sample_rate),
            Component::Adsr(m) => m.send(input, data, sample_rate),
            Component::Mixer(m) => m.send(input, data, sample_rate),
            Component::Sequencer(m) => m.send(input, data, sample_rate),
        }
    }

    fn interact(&mut self, x: u32, y: u32, width: u32, height: u32, left: bool) -> (changed: bool) {
        match self {
            Component::Oscillator(m) => m.interact(x, y, width, height, left),
            Component::PolyOscillator(m) => m.interact(x, y, width, height, left),
            Component::Adsr(m) => m.interact(x, y, width, height, left),
            Component::Mixer(m) => m.interact(x, y, width, height, left),
            Component::Sequencer(m) => m.interact(x, y, width, height, left),
        }
    }

    fn execute(&mut self, cmd: &str) -> (supported: bool) {
        match self {
            Component::Oscillator(m) => m.execute(cmd),
            Component::PolyOscillator(m) => m.execute(cmd),
            Component::Adsr(m) => m.execute(cmd),
            Component::Mixer(m) => m.execute(cmd),
            Component::Sequencer(m) => m.execute(cmd),
        }
    }
}

} // verus!
