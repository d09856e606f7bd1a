use vstd::prelude::*;
use crate::data::{Data, DataModel, DataType};
use vstd::string::StringSliceAdditionalSpecFns;

verus! {

/// The value of a tick's result, if any.
pub open spec fn out_view(r: Option<Data>) -> Option<DataModel> {
    match r {
        Some(d) => Some(d@),
        None => None,
    }
}

/// The contract of a node in the signal graph.
///
/// `inv` is the module's own well-formedness and `arity` the number of input
/// ports that the evaluator delivers to; both survive every call. The four
/// relations say what each call does: from this state, the call may leave
/// the module in state `next` with the given answer. A module that does not
/// describe its calls leaves them open.
pub trait Module: Sized {
    open spec fn inv(&self) -> bool {
        true
    }

    open spec fn arity(&self) -> nat {
        0
    }

    /// The kind of value the module produces; modules that produce notes
    /// say so.
    open spec fn out_kind(&self) -> DataType {
        DataType::Audio
    }

    /// `send(port, value)` at `rate` may lead to `next`, answering `accepted`.
    open spec fn sends_to(&self, port: usize, value: DataModel, rate: u32, next: Self, accepted: bool) -> bool {
        true
    }

    /// `tick()` at `rate` may lead to `next`, giving `out`.
    open spec fn ticks_to(&self, rate: u32, next: Self, out: Option<DataModel>) -> bool {
        true
    }

    /// `interact(x, y, width, height, left)` may lead to `next`, answering `changed`.
    open spec fn interacts_to(
        &self,
        x: u32,
        y: u32,
        width: u32,
        height: u32,
        left: bool,
        next: Self,
        changed: bool,
    ) -> bool {
        true
    }

    /// `execute(cmd)` may lead to `next`, answering `supported`.
    open spec fn executes_to(&self, cmd: Seq<u8>, next: Self, supported: bool) -> bool {
        true
    }

    /// Static display name.
    fn title(&self) -> &'static str;

    /// The kind of value this module produces.
    fn get_output_type(&self) -> (r: DataType)
        ensures
            r == self.out_kind(),
    ;

    /// The input ports in order, each with its kind and label.
    fn get_inputs(&self) -> (r: Vec<(DataType, &'static str)>)
        requires
            self.inv(),
        ensures
            r@.len() == self.arity(),
    ;

    /// Advances the module by one sample; `None` means nothing new this tick.
    fn tick(&mut self, sample_rate: u32) -> (r: Option<Data>)
        requires
            old(self).inv(),
        ensures
            final(self).inv(),
            final(self).arity() == old(self).arity(),
            final(self).out_kind() == old(self).out_kind(),
            old(self).ticks_to(sample_rate, *final(self), out_view(r)),
    ;

    /// Delivers an upstream value to input port `input` before `tick`.
    /// Returns false where the value is not of the kind that the port takes.
    fn send(&mut self, input: usize, data: Data, sample_rate: u32) -> (accepted: bool)
        requires
            old(self).inv(),
            input < old(self).arity(),
        ensures
            final(self).inv(),
            final(self).arity() == old(self).arity(),
            final(self).out_kind() == old(self).out_kind(),
            old(self).sends_to(input, data@, sample_rate, *final(self), accepted),
    ;

    /// A click at `(x, y)` on the module's view of `width` by `height`
    /// pixels, with the left button where `left`; returns whether the module
    /// changed.
    fn interact(&mut self, x: u32, y: u32, width: u32, height: u32, left: bool) -> (changed: bool)
        requires
            old(self).inv(),
        ensures
            final(self).inv(),
            final(self).arity() == old(self).arity(),
            final(self).out_kind() == old(self).out_kind(),
            old(self).interacts_to(x, y, width, height, left, *final(self), changed),
    ;

    /// An out-of-band control command; returns false where the module does
    /// not support it.
    fn execute(&mut self, cmd: &str) -> (supported: bool)
        requires
            old(self).inv(),
        ensures
            final(self).inv(),
            final(self).arity() == old(self).arity(),
            final(self).out_kind() == old(self).out_kind(),
            old(self).executes_to(cmd.spec_bytes(), *final(self), supported),
    ;
}

} // verus!
