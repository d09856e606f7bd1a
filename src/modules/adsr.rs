use vstd::prelude::*;
use crate::data::{Data, DataModel, DataType, Sample, SILENCE};
use crate::module::Module;

verus! {

/// How long a triggered envelope takes to fall to silence, in milliseconds.
pub const DECAY_MS: u32 = 100;

/// The number of samples over which the envelope falls to silence.
pub open spec fn decay_window(sample_rate: nat) -> nat {
    sample_rate * DECAY_MS as nat / 1000
}

/// `x` scaled by `num / den`, rounded towards zero; silence where `den` is 0.
pub open spec fn scaled(x: int, num: nat, den: nat) -> int {
    if den == 0 {
        0
    } else if x >= 0 {
        x * num as int / den as int
    } else {
        -((-x) * num as int / den as int)
    }
}

/// The level of `x` once `elapsed` ticks have passed since triggering: it falls
/// linearly to silence over `window` ticks.
pub open spec fn envelope(x: int, elapsed: nat, window: nat) -> int {
    let left: nat = if elapsed >= window { 0 } else { (window - elapsed) as nat };
    scaled(x, left, window)
}

/// The envelope never grows in magnitude as time passes, and is silent once
/// the decay window has passed.
pub proof fn lemma_envelope_decays(x: int, e1: nat, e2: nat, window: nat)
    requires
        e1 <= e2,
    ensures
        x >= 0 ==> 0 <= envelope(x, e2, window) <= envelope(x, e1, window),
        x < 0 ==> envelope(x, e1, window) <= envelope(x, e2, window) <= 0,
        e2 >= window ==> envelope(x, e2, window) == 0,
{
    if window > 0 {
        let l1: nat = if e1 >= window { 0 } else { (window - e1) as nat };
        let l2: nat = if e2 >= window { 0 } else { (window - e2) as nat };
        assert(l2 <= l1);
        let m: int = if x >= 0 { x } else { -x };
        assert(m * l2 <= m * l1) by (nonlinear_arith)
            requires m >= 0, l2 <= l1;
        assert(m * l2 >= 0) by (nonlinear_arith)
            requires m >= 0, l2 >= 0;
        vstd::arithmetic::div_mod::lemma_div_is_ordered(m * l2, m * l1, window as int);
        vstd::arithmetic::div_mod::lemma_div_pos_is_pos(m * l2, window as int);
        assert(envelope(x, e1, window) == scaled(x, l1, window));
        assert(envelope(x, e2, window) == scaled(x, l2, window));
        if e2 >= window {
            assert(l2 == 0);
            assert(m * l2 == 0);
        }
    }
}

/// A sample count advanced by one, held at `u32::MAX`.
pub open spec fn next_since(e: nat) -> nat {
    if e >= u32::MAX { u32::MAX as nat } else { e + 1 }
}

/// An envelope: passes its audio input through, scaled by a level that
/// restarts at full on each non-empty gate event and falls to silence.
pub struct Adsr {
    input: Sample,
    elapsed: u32,
}

impl Adsr {
    /// The audio input last delivered.
    pub closed spec fn input_level(&self) -> Sample {
        self.input
    }

    /// Samples since the last gate, saturating.
    pub closed spec fn since_gate(&self) -> nat {
        self.elapsed as nat
    }

    /// An envelope with silent input, already at the start of a fall.
    pub fn new() -> (r: Adsr)
        ensures
            r.input_level() == SILENCE,
            r.since_gate() == 0,
    {
        Adsr { input: SILENCE, elapsed: 0 }
    }

    /// Advances by one sample and gives the scaled input.
    pub fn step(&mut self, sample_rate: u32) -> (r: Sample)
        ensures
            final(self).since_gate() == next_since(old(self).since_gate()),
            final(self).input_level() == old(self).input_level(),
            r as int == envelope(old(self).input_level() as int, final(self).since_gate(), decay_window(sample_rate as nat)),
    {
        if self.elapsed < u32::MAX {
            self.elapsed = self.elapsed + 1;
        }
        proof {
            let si = sample_rate as int;
            assert(si * 100 <= 0xffff_ffff * 100) by (nonlinear_arith)
                requires 0 <= si <= 0xffff_ffff;
        }
        let window: u64 = (sample_rate as u64) * (DECAY_MS as u64) / 1000;
        let left: u64 = if (self.elapsed as u64) >= window { 0 } else { window - self.elapsed as u64 };
        if window == 0 {
            return SILENCE;
        }
        let x = self.input;
        let magnitude: u64 = if x >= 0 { x as u64 } else { (-(x as i64)) as u64 };
        proof {
            let si = sample_rate as int;
            assert(si * 100 / 1000 <= 0xffff_ffff) by (nonlinear_arith)
                requires 0 <= si <= 0xffff_ffff;
            assert(magnitude * left <= 0x8000_0000 * 0xffff_ffff) by (nonlinear_arith)
                requires magnitude <= 0x8000_0000, left <= 0xffff_ffff;
        }
        let q: u64 = magnitude * left / window;
        proof {
            let (mi, li, wi) = (magnitude as int, left as int, window as int);
            assert(mi * li / wi <= mi) by (nonlinear_arith)
                requires mi >= 0, 0 <= li <= wi, wi > 0;
        }
        if x >= 0 {
            q as Sample
        } else {
            -(q as i64) as Sample
        }
    }

    /// Delivers the audio input.
    pub fn set_input(&mut self, x: Sample)
        ensures
            final(self).input_level() == x,
            final(self).since_gate() == old(self).since_gate(),
    {
        self.input = x;
    }

    /// Restarts the fall from full level.
    pub fn trigger(&mut self)
        ensures
            final(self).input_level() == old(self).input_level(),
            final(self).since_gate() == 0,
    {
        self.elapsed = 0;
    }
}

impl Module for Adsr {
    open spec fn inv(&self) -> bool {
        true
    }

    open spec fn arity(&self) -> nat {
        2
    }

    /// A tick moves one sample on and gives the input at the new level.
    open spec fn ticks_to(&self, rate: u32, next: Self, out: Option<DataModel>) -> bool {
        &&& next.since_gate() == next_since(self.since_gate())
        &&& next.input_level() == self.input_level()
        &&& out == Some(
            DataModel::Audio(
                envelope(self.input_level() as int, next.since_gate(), decay_window(rate as nat)) as Sample,
            ),
        )
    }

    /// Port 0 takes audio as the input; port 1 takes gate events, of which a
    /// non-empty one restarts the fall. Anything else is refused.
    open spec fn sends_to(&self, port: usize, value: DataModel, rate: u32, next: Self, accepted: bool) -> bool {
        &&& accepted == ((port == 0 && value is Audio) || (port == 1 && value is Notes))
        &&& match value {
            DataModel::Audio(x) => if port == 0 {
                next.input_level() == x && next.since_gate() == self.since_gate()
            } else {
                next == *self
            },
            DataModel::Notes(ns) => if port == 1 && ns.len() > 0 {
                next.since_gate() == 0 && next.input_level() == self.input_level()
            } else {
                next == *self
            },
        }
    }

    open spec fn interacts_to(
        &self,
        x: u32,
        y: u32,
        width: u32,
        height: u32,
        left: bool,
        next: Self,
        changed: bool,
    ) -> bool {
        !changed && next == *self
    }

    open spec fn executes_to(&self, cmd: Seq<u8>, next: Self, supported: bool) -> bool {
        !supported && next == *self
    }

    fn title(&self) -> &'static str {
        "Adsr"
    }

    fn get_output_type(&self) -> DataType {
        DataType::Audio
    }

    fn get_inputs(&self) -> (r: Vec<(DataType, &'static str)>) {
        let mut r: Vec<(DataType, &'static str)> = Vec::new();
        r.push((DataType::Audio, "audio"));
        r.push((DataType::Notes, "gate"));
        r
    }

    fn tick(&mut self, sample_rate: u32) -> (r: Option<Data>)
        ensures
            final(self).since_gate() == next_since(old(self).since_gate()),
            final(self).input_level() == old(self).input_level(),
            r == Some(
                Data::Audio(
                    envelope(old(self).input_level() as int, final(self).since_gate(), decay_window(sample_rate as nat)) as Sample,
                ),
            ),
    {
        Some(Data::Audio(self.step(sample_rate)))
    }

    /// Port 0 takes audio; port 1 takes gate events, of which a non-empty one
    /// restarts the fall.
    fn send(&mut self, input: usize, data: Data, sample_rate: u32) -> (accepted: bool)
        ensures
            accepted == ((input == 0 && data is Audio) || (input == 1 && data is Notes)),
            match data@ {
                DataModel::Audio(x) => if input == 0 {
                    final(self).input_level() == x && final(self).since_gate() == old(self).since_gate()
                } else {
                    *final(self) == *old(self)
                },
                DataModel::Notes(ns) => if input == 1 && ns.len() > 0 {
                    final(self).since_gate() == 0 && final(self).input_level() == old(self).input_level()
                } else {
                    *final(self) == *old(self)
                },
            },
    {
        match data {
            Data::Audio(x) => {
                if input == 0 {
                    self.set_input(x);
                    true
                } else {
                    false
                }
            },
            Data::Notes(notes) => {
                if input == 1 {
                    if notes.len() > 0 {
                        self.trigger();
                    }
                    true
                } else {
                    false
                }
            },
        }
    }

    fn interact(&mut self, x: u32, y: u32, width: u32, height: u32, left: bool) -> (changed: bool) {
        false
    }

    fn execute(&mut self, cmd: &str) -> (supported: bool) {
        false
    }
}

} // verus!
