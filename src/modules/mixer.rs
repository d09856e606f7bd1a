use vstd::prelude::*;
use crate::data::{Data, DataModel, DataType, Sample, SILENCE};
use crate::module::Module;

verus! {

/// The sum of a sequence of samples.
pub open spec fn sum_of(s: Seq<Sample>) -> int
    decreases s.len(),
{
    if s.len() == 0 { 0 } else { sum_of(s.drop_last()) + s.last() }
}

/// The mean of a sequence of samples, rounded towards zero; silence where it
/// is empty.
pub open spec fn mean_of(s: Seq<Sample>) -> int {
    if s.len() == 0 {
        SILENCE as int
    } else if sum_of(s) >= 0 {
        sum_of(s) / s.len() as int
    } else {
        -((-sum_of(s)) / s.len() as int)
    }
}

proof fn lemma_sum_bounds(s: Seq<Sample>)
    ensures
        s.len() * (i32::MIN as int) <= sum_of(s) <= s.len() * (i32::MAX as int),
    decreases s.len(),
{
    if s.len() > 0 {
        lemma_sum_bounds(s.drop_last());
        let n = s.len() as int;
        assert((n - 1) * (i32::MIN as int) + (i32::MIN as int) == n * (i32::MIN as int)) by (nonlinear_arith);
        assert((n - 1) * (i32::MAX as int) + (i32::MAX as int) == n * (i32::MAX as int)) by (nonlinear_arith);
    }
}

/// Averages the values delivered to its ports since the last tick.
pub struct Mixer {
    values: Vec<Sample>,
    input_count: usize,
}

impl Mixer {
    /// The values delivered since the last tick, in order.
    pub closed spec fn pending(&self) -> Seq<Sample> {
        self.values@
    }

    pub closed spec fn ports(&self) -> nat {
        self.input_count as nat
    }

    pub closed spec fn wf(&self) -> bool {
        self.values@.len() <= self.input_count
    }

    /// A mixer with `input_count` audio ports.
    pub fn new(input_count: usize) -> (r: Mixer)
        ensures
            r.wf(),
            r.ports() == input_count,
            r.pending() == Seq::<Sample>::empty(),
    {
        Mixer { values: Vec::new(), input_count }
    }

    /// Takes one value; more values than ports in one tick are dropped.
    pub fn add(&mut self, x: Sample)
        requires
            old(self).wf(),
        ensures
            final(self).wf(),
            final(self).ports() == old(self).ports(),
            final(self).pending() == (if old(self).pending().len() < old(self).ports() {
                old(self).pending().push(x)
            } else {
                old(self).pending()
            }),
    {
        if self.values.len() < self.input_count {
            self.values.push(x);
        }
    }

    /// The mean of the values taken since the last mix, which are then forgotten.
    pub fn mix(&mut self) -> (r: Sample)
        requires
            old(self).wf(),
        ensures
            final(self).wf(),
            final(self).ports() == old(self).ports(),
            final(self).pending() == Seq::<Sample>::empty(),
            r as int == mean_of(old(self).pending()),
    {
        let mut sum: i128 = 0;
        let mut i: usize = 0;
        while i < self.values.len()
            invariant
                i <= self.values@.len(),
                sum == sum_of(self.values@.take(i as int)),
                i * (i32::MIN as int) <= sum <= i * (i32::MAX as int),
                self.values@.len() <= usize::MAX,
            decreases self.values@.len() - i,
        {
            proof {
                let t = self.values@.take(i as int + 1);
                assert(t.drop_last() =~= self.values@.take(i as int));
                lemma_sum_bounds(t);
                assert(i as int + 1 <= 0xffff_ffff_ffff_ffff);
                assert((i as int + 1) * (i32::MAX as int) <= 0xffff_ffff_ffff_ffff * 0x8000_0000) by (nonlinear_arith)
                    requires 0 <= i as int + 1 <= 0xffff_ffff_ffff_ffff;
                assert((i as int + 1) * (i32::MIN as int) >= 0xffff_ffff_ffff_ffff * (-0x8000_0000)) by (nonlinear_arith)
                    requires 0 <= i as int + 1 <= 0xffff_ffff_ffff_ffff;
            }
            sum = sum + self.values[i] as i128;
            i = i + 1;
        }
        proof {
            assert(self.values@.take(i as int) =~= self.values@);
        }
        let n = self.values.len();
        let r: Sample = if n == 0 {
            SILENCE
        } else {
            let len = n as i128;
            proof {
                let (si, ni) = (sum as int, n as int);
                assert(ni * (i32::MIN as int) <= si <= ni * (i32::MAX as int));
                if si >= 0 {
                    assert(si / ni <= i32::MAX) by (nonlinear_arith)
                        requires 0 <= si <= ni * (i32::MAX as int), ni > 0;
                } else {
                    assert((-si) / ni <= 0x8000_0000) by (nonlinear_arith)
                        requires 0 < -si <= ni * 0x8000_0000, ni > 0;
                    assert((-si) / ni >= 0) by (nonlinear_arith)
                        requires 0 < -si, ni > 0;
                }
            }
            if sum >= 0 {
                (sum / len) as Sample
            } else {
                (-((-sum) / len)) as Sample
            }
        };
        self.values.clear();
        r
    }
}

impl Module for Mixer {
    open spec fn inv(&self) -> bool {
        self.wf()
    }

    open spec fn arity(&self) -> nat {
        self.ports()
    }

    /// A tick gives the mean of the values taken and forgets them.
    open spec fn ticks_to(&self, rate: u32, next: Self, out: Option<DataModel>) -> bool {
        &&& out == Some(DataModel::Audio(mean_of(self.pending()) as Sample))
        &&& next.pending() == Seq::<Sample>::empty()
        &&& next.ports() == self.ports()
    }

    /// Audio is taken while there are fewer values than ports; notes are
    /// refused.
    open spec fn sends_to(&self, port: usize, value: DataModel, rate: u32, next: Self, accepted: bool) -> bool {
        &&& accepted == value is Audio
        &&& next.ports() == self.ports()
        &&& next.pending() == match value {
            DataModel::Audio(x) => if self.pending().len() < self.ports() {
                self.pending().push(x)
            } else {
                self.pending()
            },
            DataModel::Notes(_) => self.pending(),
        }
    }

    open spec fn interacts_to(
        &self,
        x: u32,
        y: u32,
        width: u32,
        height: u32,
        left: bool,
        next: Self,
        changed: bool,
    ) -> bool {
        !changed && next == *self
    }

    open spec fn executes_to(&self, cmd: Seq<u8>, next: Self, supported: bool) -> bool {
        !supported && next == *self
    }

    fn title(&self) -> &'static str {
        "Mixer"
    }

    fn get_output_type(&self) -> DataType {
        DataType::Audio
    }

    fn get_inputs(&self) -> (r: Vec<(DataType, &'static str)>) {
        let mut r: Vec<(DataType, &'static str)> = Vec::new();
        let mut i: usize = 0;
        while i < self.input_count
            invariant
                i <= self.input_count,
                r@.len() == i,
            decreases self.input_count - i,
        {
            r.push((DataType::Audio, "input"));
            i = i + 1;
        }
        r
    }

    fn tick(&mut self, sample_rate: u32) -> (r: Option<Data>)
        ensures
            r == Some(Data::Audio(mean_of(old(self).pending()) as Sample)),
            final(self).pending() == Seq::<Sample>::empty(),
    {
        Some(Data::Audio(self.mix()))
    }

    fn send(&mut self, input: usize, data: Data, sample_rate: u32) -> (accepted: bool)
        ensures
            accepted == data is Audio,
            match data@ {
                DataModel::Audio(x) => final(self).pending() == (if old(self).pending().len() < old(self).ports() {
                    old(self).pending().push(x)
                } else {
                    old(self).pending()
                }),
                DataModel::Notes(_) => final(self).pending() == old(self).pending(),
            },
    {
        match data {
            Data::Audio(x) => {
                self.add(x);
                true
            },
            Data::Notes(_) => false,
        }
    }

    fn interact(&mut self, x: u32, y: u32, width: u32, height: u32, left: bool) -> (changed: bool) {
        false
    }

    fn execute(&mut self, cmd: &str) -> (supported: bool) {
        false
    }
}

} // verus!
