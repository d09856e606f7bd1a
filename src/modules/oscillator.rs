use vstd::prelude::*;
use crate::data::{Data, DataModel, DataType, Note, Sample, SILENCE, UNIT, note_freq};
use crate::module::Module;

verus! {

/// The shape of one period of an oscillator's waveform.
#[derive(Clone, Copy, Debug, PartialEq, Eq, Structural)]
pub enum Waveshape {
    /// Full scale for the first half of the period, silence for the second.
    Square,
    /// A ramp from silence up towards full scale.
    Saw,
}

/// The number of samples in one period at `freq` millihertz, counting whole hertz.
pub open spec fn period_len(freq: nat, sample_rate: nat) -> nat {
    if freq / 1000 == 0 { 0 } else { sample_rate / (freq / 1000) }
}

/// Sample `i` of a period of `len` samples of the given shape.
pub open spec fn wave_value(shape: Waveshape, i: nat, len: nat) -> int {
    match shape {
        Waveshape::Square => if 2 * i < len { UNIT as int } else { SILENCE as int },
        Waveshape::Saw => (i * UNIT) as int / len as int,
    }
}

/// One period of `shape` at `freq` millihertz.
pub open spec fn waveform_of(shape: Waveshape, freq: nat, sample_rate: nat) -> Seq<Sample> {
    let len = period_len(freq, sample_rate);
    Seq::new(len, |i: int| wave_value(shape, i as nat, len) as Sample)
}

/// A single voice that plays a precomputed period in a loop.
pub struct Oscillator {
    waveform: Vec<Sample>,
    waveshape: Waveshape,
    index: usize,
}

impl Oscillator {
    pub closed spec fn shape(&self) -> Waveshape {
        self.waveshape
    }

    /// One period of the waveform.
    pub closed spec fn samples(&self) -> Seq<Sample> {
        self.waveform@
    }

    pub closed spec fn position(&self) -> nat {
        self.index as nat
    }

    /// Every sample lies between silence and full scale, and the position
    /// lies in the period.
    pub closed spec fn wf(&self) -> bool {
        &&& self.waveform@.len() == 0 || self.index < self.waveform@.len()
        &&& forall|i: int|
            0 <= i < self.waveform@.len() ==> 0 <= #[trigger] self.waveform@[i] <= UNIT
    }

    /// The sample that the next tick gives.
    pub closed spec fn next_sample(&self) -> Sample {
        if self.waveform@.len() == 0 {
            SILENCE
        } else {
            self.waveform@[((self.position() + 1) % self.waveform@.len()) as int]
        }
    }

    pub proof fn lemma_next_sample_bound(&self)
        requires
            self.wf(),
        ensures
            0 <= self.next_sample() <= UNIT,
    {
    }

    /// A square-wave oscillator with no frequency set: it gives silence.
    pub fn new() -> (r: Oscillator)
        ensures
            r.wf(),
            r.samples().len() == 0,
            r.position() == 0,
            r.shape() == Waveshape::Square,
    {
        Oscillator { waveform: Vec::new(), waveshape: Waveshape::Square, index: 0 }
    }

    /// Switches to another shape; the waveform is recomputed on the next
    /// frequency change.
    pub fn set_waveshape(&mut self, shape: Waveshape)
        requires
            old(self).wf(),
        ensures
            final(self).wf(),
            final(self).shape() == shape,
            final(self).samples() == old(self).samples(),
            final(self).position() == old(self).position(),
    {
        self.waveshape = shape;
    }

    /// Precomputes one period at `freq` millihertz and restarts it.
    pub fn set_waveform(&mut self, freq: u32, sample_rate: u32)
        requires
            old(self).wf(),
        ensures
            final(self).wf(),
            final(self).samples() == waveform_of(old(self).shape(), freq as nat, sample_rate as nat),
            final(self).position() == 0,
            final(self).shape() == old(self).shape(),
    {
        self.waveform = self.get_waveform(freq, sample_rate);
        self.index = 0;
    }

    /// One period of this oscillator's shape at `freq` millihertz.
    fn get_waveform(&self, freq: u32, sample_rate: u32) -> (r: Vec<Sample>)
        ensures
            r@ == waveform_of(self.waveshape, freq as nat, sample_rate as nat),
            forall|i: int| 0 <= i < r@.len() ==> 0 <= #[trigger] r@[i] <= UNIT,
    {
        let hz = freq / 1000;
        let max: u32 = if hz == 0 { 0 } else { sample_rate / hz };
        let mut waveform: Vec<Sample> = Vec::new();
        let mut i: u32 = 0;
        while i < max
            invariant
                i <= max,
                max as nat == period_len(freq as nat, sample_rate as nat),
                waveform@.len() == i,
                forall|j: int|
                    0 <= j < i ==> #[trigger] waveform@[j] == wave_value(self.waveshape, j as nat, max as nat) as Sample,
                forall|j: int| 0 <= j < i ==> 0 <= #[trigger] waveform@[j] <= UNIT,
            decreases max - i,
        {
            let value: Sample = match self.waveshape {
                Waveshape::Square => if 2 * (i as u64) < max as u64 { UNIT } else { SILENCE },
                Waveshape::Saw => {
                    proof {
                        let a = i as int;
                        assert(a * 65536 <= 0xffff_ffff * 65536) by (nonlinear_arith)
                            requires 0 <= a <= 0xffff_ffff;
                    }
                    let v: u64 = (i as u64) * (UNIT as u64) / (max as u64);
                    proof {
                        let a = i as int;
                        let m = max as int;
                        assert(a * 65536 / m <= 65536) by (nonlinear_arith)
                            requires 0 <= a < m;
                    }
                    v as Sample
                },
            };
            waveform.push(value);
            i = i + 1;
        }
        proof {
            assert(waveform@ =~= waveform_of(self.waveshape, freq as nat, sample_rate as nat));
        }
        waveform
    }

    /// Whether a period is set.
    pub fn has_waveform(&self) -> (r: bool)
        ensures
            r == (self.samples().len() > 0),
    {
        self.waveform.len() > 0
    }

    /// Gives the next sample of the period; silence where none is set.
    pub fn next(&mut self) -> (r: Sample)
        requires
            old(self).wf(),
        ensures
            final(self).wf(),
            r == old(self).next_sample(),
            0 <= r <= UNIT,
            final(self).samples() == old(self).samples(),
            final(self).shape() == old(self).shape(),
            old(self).samples().len() > 0 ==> final(self).position() == (old(self).position() + 1)
                % old(self).samples().len(),
            old(self).samples().len() == 0 ==> final(self).position() == old(self).position(),
    {
        if self.waveform.len() > 0 {
            self.index = (self.index + 1) % self.waveform.len();
            self.waveform[self.index]
        } else {
            SILENCE
        }
    }
}

impl Module for Oscillator {
    open spec fn inv(&self) -> bool {
        self.wf()
    }

    open spec fn arity(&self) -> nat {
        1
    }

    /// A tick gives the next sample of the period and moves on by one.
    open spec fn ticks_to(&self, rate: u32, next: Self, out: Option<DataModel>) -> bool {
        &&& out == Some(DataModel::Audio(self.next_sample()))
        &&& next.samples() == self.samples()
        &&& next.shape() == self.shape()
        &&& next.position() == if self.samples().len() > 0 {
            (self.position() + 1) % self.samples().len()
        } else {
            self.position()
        }
    }

    /// The first note of a non-empty event sets the period; anything else
    /// leaves the oscillator as it is, and audio is refused.
    open spec fn sends_to(&self, port: usize, value: DataModel, rate: u32, next: Self, accepted: bool) -> bool {
        &&& accepted == value is Notes
        &&& match value {
            DataModel::Notes(ns) => if ns.len() > 0 {
                &&& next.samples() == waveform_of(self.shape(), note_freq(ns[0]), rate as nat)
                &&& next.position() == 0
                &&& next.shape() == self.shape()
            } else {
                next == *self
            },
            DataModel::Audio(_) => next == *self,
        }
    }

    open spec fn interacts_to(
        &self,
        x: u32,
        y: u32,
        width: u32,
        height: u32,
        left: bool,
        next: Self,
        changed: bool,
    ) -> bool {
        !changed && next == *self
    }

    open spec fn executes_to(&self, cmd: Seq<u8>, next: Self, supported: bool) -> bool {
        !supported && next == *self
    }

    fn title(&self) -> &'static str {
        "Oscillator"
    }

    fn get_output_type(&self) -> DataType {
        DataType::Audio
    }

    fn get_inputs(&self) -> (r: Vec<(DataType, &'static str)>) {
        let mut r: Vec<(DataType, &'static str)> = Vec::new();
        r.push((DataType::Notes, "note"));
        r
    }

    fn tick(&mut self, sample_rate: u32) -> (r: Option<Data>)
        ensures
            r == Some(Data::Audio(old(self).next_sample())),
            final(self).samples() == old(self).samples(),
            final(self).shape() == old(self).shape(),
            old(self).samples().len() > 0 ==> final(self).position() == (old(self).position() + 1)
                % old(self).samples().len(),
            old(self).samples().len() == 0 ==> final(self).position() == old(self).position(),
    {
        Some(Data::Audio(self.next()))
    }

    /// Takes the frequency of the first note; an empty event changes nothing.
    fn send(&mut self, input: usize, data: Data, sample_rate: u32) -> (accepted: bool)
        ensures
            accepted == data is Notes,
            final(self).shape() == old(self).shape(),
            match data@ {
                DataModel::Notes(ns) => if ns.len() > 0 {
                    &&& final(self).samples() == waveform_of(old(self).shape(), note_freq(ns[0]), sample_rate as nat)
                    &&& final(self).position() == 0
                } else {
                    *final(self) == *old(self)
                },
                DataModel::Audio(_) => *final(self) == *old(self),
            },
    {
        match data {
            Data::Notes(notes) => {
                if notes.len() > 0 {
                    let freq = notes[0].freq();
                    self.set_waveform(freq, sample_rate);
                }
                true
            },
            Data::Audio(_) => false,
        }
    }

    fn interact(&mut self, x: u32, y: u32, width: u32, height: u32, left: bool) -> (changed: bool) {
        false
    }

    fn execute(&mut self, cmd: &str) -> (supported: bool) {
        false
    }
}

} // verus!
