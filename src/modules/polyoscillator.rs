use vstd::prelude::*;
use crate::data::{Data, DataModel, DataType, Note, Sample, SILENCE, UNIT, note_freq};
use crate::module::Module;
use crate::modules::oscillator::{Oscillator, Waveshape, waveform_of};

verus! {

/// A voice sounds when it is switched on and has a waveform.
pub open spec fn sounds(v: (Oscillator, bool)) -> bool {
    v.1 && v.0.samples().len() > 0
}

/// The sum of the next samples of the voices that sound.
pub open spec fn voices_sum(s: Seq<(Oscillator, bool)>) -> int
    decreases s.len(),
{
    if s.len() == 0 {
        0
    } else {
        voices_sum(s.drop_last()) + if sounds(s.last()) { s.last().0.next_sample() as int } else { 0 }
    }
}

/// The number of voices that sound.
pub open spec fn voices_count(s: Seq<(Oscillator, bool)>) -> nat
    decreases s.len(),
{
    if s.len() == 0 {
        0
    } else {
        voices_count(s.drop_last()) + if sounds(s.last()) { 1nat } else { 0nat }
    }
}

/// The average next sample of the voices that sound; silence where none does.
pub open spec fn voices_mix(s: Seq<(Oscillator, bool)>) -> int {
    if voices_count(s) == 0 { SILENCE as int } else { voices_sum(s) / voices_count(s) as int }
}

proof fn lemma_voices_bound(s: Seq<(Oscillator, bool)>)
    requires
        forall|i: int| 0 <= i < s.len() ==> (#[trigger] s[i]).0.wf(),
    ensures
        0 <= voices_sum(s) <= voices_count(s) * UNIT,
        voices_count(s) <= s.len(),
    decreases s.len(),
{
    if s.len() > 0 {
        let t = s.drop_last();
        assert forall|i: int| 0 <= i < t.len() implies (#[trigger] t[i]).0.wf() by {
            assert(t[i] == s[i]);
        }
        lemma_voices_bound(t);
        assert(s.last() == s[s.len() - 1]);
        s.last().0.lemma_next_sample_bound();
    }
}

/// The voices `after` are the voices `before` with voice `i` set to
/// frequency `freqs[i]` (in millihertz), restarted and switched on, and the
/// voices beyond the frequencies given switched off.
pub open spec fn voices_set(
    before: Seq<(Oscillator, bool)>,
    after: Seq<(Oscillator, bool)>,
    freqs: Seq<nat>,
    sample_rate: nat,
) -> bool {
    &&& after.len() == before.len()
    &&& forall|i: int|
        0 <= i < before.len() ==> {
            let v = #[trigger] after[i];
            let o = before[i];
            if i < freqs.len() {
                &&& v.1
                &&& v.0.samples() == waveform_of(o.0.shape(), freqs[i], sample_rate)
                &&& v.0.shape() == o.0.shape()
                &&& v.0.position() == 0
            } else {
                !v.1 && v.0 == o.0
            }
        }
}

/// The voices `after` are the voices `before` one sample on: each voice that
/// sounds keeps its period, shape and switch and moves on by one; the others
/// are as they were.
pub open spec fn voices_advanced(before: Seq<(Oscillator, bool)>, after: Seq<(Oscillator, bool)>) -> bool {
    &&& after.len() == before.len()
    &&& forall|i: int|
        0 <= i < before.len() ==> {
            let (v, o) = (#[trigger] after[i], before[i]);
            if sounds(o) {
                &&& v.1 == o.1
                &&& v.0.samples() == o.0.samples()
                &&& v.0.shape() == o.0.shape()
                &&& v.0.position() == (o.0.position() + 1) % o.0.samples().len()
            } else {
                v == o
            }
        }
}

/// Several oscillators played together; their output is averaged.
pub struct PolyOscillator {
    oscillators: Vec<(Oscillator, bool)>,
}

impl PolyOscillator {
    /// The voices, each an oscillator and whether it is switched on.
    pub closed spec fn voices(&self) -> Seq<(Oscillator, bool)> {
        self.oscillators@
    }

    pub closed spec fn wf(&self) -> bool {
        forall|i: int| 0 <= i < self.oscillators@.len() ==> (#[trigger] self.oscillators@[i]).0.wf()
    }

    /// A module with no voices.
    pub fn new() -> (r: PolyOscillator)
        ensures
            r.wf(),
            r.voices().len() == 0,
    {
        PolyOscillator { oscillators: Vec::new() }
    }

    /// Replaces the voices by `amount` silent ones, switched off.
    pub fn set_oscillators(&mut self, amount: usize)
        ensures
            final(self).wf(),
            final(self).voices().len() == amount,
            forall|i: int|
                0 <= i < amount ==> (#[trigger] final(self).voices()[i]).0.samples().len() == 0
                    && !final(self).voices()[i].1 && final(self).voices()[i].0.position() == 0
                    && final(self).voices()[i].0.shape() == Waveshape::Square,
    {
        self.oscillators.clear();
        let mut i: usize = 0;
        while i < amount
            invariant
                i <= amount,
                self.oscillators@.len() == i,
                self.wf(),
                forall|j: int|
                    0 <= j < i ==> (#[trigger] self.oscillators@[j]).0.samples().len() == 0
                        && !self.oscillators@[j].1 && self.oscillators@[j].0.position() == 0
                        && self.oscillators@[j].0.shape() == Waveshape::Square,
            decreases amount - i,
        {
            self.oscillators.push((Oscillator::new(), false));
            i = i + 1;
        }
    }

    /// Gives voice `i` the frequency `freqs[i]` (in millihertz) and switches it
    /// on; switches off the voices beyond the frequencies given.
    pub fn set_freqs(&mut self, freqs: &Vec<u32>, sample_rate: u32)
        requires
            old(self).wf(),
        ensures
            final(self).wf(),
            voices_set(old(self).voices(), final(self).voices(), freqs@.map_values(|f: u32| f as nat), sample_rate as nat),
    {
        let mut i: usize = 0;
        while i < self.oscillators.len()
            invariant
                i <= self.oscillators@.len(),
                self.oscillators@.len() == old(self).oscillators@.len(),
                self.wf(),
                forall|j: int| i <= j < self.oscillators@.len() ==> #[trigger] self.oscillators@[j] == old(self).oscillators@[j],
                forall|j: int|
                    0 <= j < i ==> {
                        let v = #[trigger] self.oscillators@[j];
                        let o = old(self).oscillators@[j];
                        if j < freqs@.len() {
                            &&& v.1
                            &&& v.0.samples() == waveform_of(o.0.shape(), freqs@[j] as nat, sample_rate as nat)
                            &&& v.0.shape() == o.0.shape()
                            &&& v.0.position() == 0
                        } else {
                            !v.1 && v.0 == o.0
                        }
                    },
            decreases self.oscillators@.len() - i,
        {
            if i < freqs.len() {
                self.oscillators[i].0.set_waveform(freqs[i], sample_rate);
                self.oscillators[i].1 = true;
            } else {
                self.oscillators[i].1 = false;
            }
            i = i + 1;
        }
        proof {
            let fs = freqs@.map_values(|f: u32| f as nat);
            assert forall|j: int| 0 <= j < fs.len() implies #[trigger] fs[j] == freqs@[j] as nat by {}
        }
    }

    /// The average of the next samples of the voices that sound; silence
    /// where none does.
    pub fn mix(&mut self) -> (r: Sample)
        requires
            old(self).wf(),
        ensures
            final(self).wf(),
            r as int == voices_mix(old(self).voices()),
            voices_count(old(self).voices()) == 0 ==> r == SILENCE,
            0 <= r <= UNIT,
            voices_advanced(old(self).voices(), final(self).voices()),
    {
        let mut sum: u128 = 0;
        let mut active: u64 = 0;
        let mut i: usize = 0;
        proof {
            lemma_voices_bound(old(self).oscillators@);
        }
        while i < self.oscillators.len()
            invariant
                i <= self.oscillators@.len(),
                self.oscillators@.len() == old(self).oscillators@.len(),
                self.wf(),
                old(self).wf(),
                forall|j: int| i <= j < self.oscillators@.len() ==> #[trigger] self.oscillators@[j] == old(self).oscillators@[j],
                forall|j: int|
                    0 <= j < i ==> {
                        let (v, o) = (#[trigger] self.oscillators@[j], old(self).oscillators@[j]);
                        if sounds(o) {
                            &&& v.1 == o.1
                            &&& v.0.samples() == o.0.samples()
                            &&& v.0.shape() == o.0.shape()
                            &&& v.0.position() == (o.0.position() + 1) % o.0.samples().len()
                        } else {
                            v == o
                        }
                    },
                sum == voices_sum(old(self).oscillators@.take(i as int)),
                active == voices_count(old(self).oscillators@.take(i as int)),
                active <= i,
                sum <= active * UNIT,
            decreases self.oscillators@.len() - i,
        {
            let ghost prefix = old(self).oscillators@.take(i as int + 1);
            proof {
                assert(prefix.drop_last() =~= old(self).oscillators@.take(i as int));
                assert(prefix.last() == old(self).oscillators@[i as int]);
            }
            if self.oscillators[i].1 && self.oscillators[i].0.has_waveform() {
                let v = self.oscillators[i].0.next();
                proof {
                    assert(active * UNIT <= 0xffff_ffff_ffff_ffff * 65536) by (nonlinear_arith)
                        requires active <= 0xffff_ffff_ffff_ffff;
                }
                sum = sum + v as u128;
                active = active + 1;
            }
            i = i + 1;
        }
        proof {
            assert(old(self).oscillators@.take(i as int) =~= old(self).oscillators@);
        }
        if active == 0 {
            SILENCE
        } else {
            proof {
                assert(sum / (active as u128) <= UNIT) by (nonlinear_arith)
                    requires sum <= active * UNIT, active > 0;
            }
            (sum / (active as u128)) as Sample
        }
    }
}

impl Module for PolyOscillator {
    open spec fn inv(&self) -> bool {
        self.wf()
    }

    open spec fn arity(&self) -> nat {
        1
    }

    /// A tick gives the average next sample of the voices that sound, and
    /// moves each of them on by one.
    open spec fn ticks_to(&self, rate: u32, next: Self, out: Option<DataModel>) -> bool {
        &&& out == Some(DataModel::Audio(voices_mix(self.voices()) as Sample))
        &&& voices_advanced(self.voices(), next.voices())
    }

    /// A non-empty event sets one voice per note; anything else changes
    /// nothing, and audio is refused.
    open spec fn sends_to(&self, port: usize, value: DataModel, rate: u32, next: Self, accepted: bool) -> bool {
        &&& accepted == value is Notes
        &&& match value {
            DataModel::Notes(ns) => if ns.len() > 0 {
                voices_set(self.voices(), next.voices(), ns.map_values(|n: Note| note_freq(n)), rate as nat)
            } else {
                next.voices() == self.voices()
            },
            DataModel::Audio(_) => next.voices() == self.voices(),
        }
    }

    open spec fn interacts_to(
        &self,
        x: u32,
        y: u32,
        width: u32,
        height: u32,
        left: bool,
        next: Self,
        changed: bool,
    ) -> bool {
        !changed && next.voices() == self.voices()
    }

    open spec fn executes_to(&self, cmd: Seq<u8>, next: Self, supported: bool) -> bool {
        !supported && next.voices() == self.voices()
    }

    fn title(&self) -> &'static str {
        "PolyOscillator"
    }

    fn get_output_type(&self) -> DataType {
        DataType::Audio
    }

    fn get_inputs(&self) -> (r: Vec<(DataType, &'static str)>) {
        let mut r: Vec<(DataType, &'static str)> = Vec::new();
        r.push((DataType::Notes, "notes"));
        r
    }

    fn tick(&mut self, sample_rate: u32) -> (r: Option<Data>)
        ensures
            r == Some(Data::Audio(voices_mix(old(self).voices()) as Sample)),
            voices_count(old(self).voices()) == 0 ==> r == Some(Data::Audio(SILENCE)),
    {
        Some(Data::Audio(self.mix()))
    }

    /// One voice per note, in order; an empty event changes nothing.
    fn send(&mut self, input: usize, data: Data, sample_rate: u32) -> (accepted: bool)
        ensures
            accepted == data is Notes,
            match data@ {
                DataModel::Notes(ns) => if ns.len() > 0 {
                    voices_set(old(self).voices(), final(self).voices(), ns.map_values(|n: Note| note_freq(n)), sample_rate as nat)
                } else {
                    final(self).voices() == old(self).voices()
                },
                DataModel::Audio(_) => final(self).voices() == old(self).voices(),
            },
    {
        match data {
            Data::Notes(notes) => {
                if notes.len() > 0 {
                    let mut freqs: Vec<u32> = Vec::new();
                    let mut i: usize = 0;
                    while i < notes.len()
                        invariant
                            i <= notes@.len(),
                            freqs@.len() == i,
                            forall|j: int| 0 <= j < i ==> #[trigger] freqs@[j] as nat == note_freq(notes@[j]),
                        decreases notes@.len() - i,
                    {
                        freqs.push(notes[i].freq());
                        i = i + 1;
                    }
                    self.set_freqs(&freqs, sample_rate);
                }
                true
            },
            Data::Audio(_) => false,
        }
    }

    fn interact(&mut self, x: u32, y: u32, width: u32, height: u32, left: bool) -> (changed: bool) {
        false
    }

    fn execute(&mut self, cmd: &str) -> (supported: bool) {
        false
    }
}

} // verus!
