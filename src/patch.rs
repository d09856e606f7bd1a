use vstd::prelude::*;
use crate::data::{ModuleId, SILENCE, SINK};
use crate::graph::{connect_model, App};
use crate::modules::adsr::Adsr;
use crate::modules::component::Component;
use crate::modules::polyoscillator::PolyOscillator;
use crate::modules::sequencer::{default_steps, Sequencer};
use crate::module::Module;

verus! {

/// The number of voices of the default patch's oscillator.
pub const VOICES: usize = 3;

/// The connection table after the default patch is wired into `m`, with
/// the sequencer `s`, the oscillator `v` and the envelope `e`.
pub open spec fn patch_conns(
    m: Map<(ModuleId, usize), ModuleId>,
    s: ModuleId,
    v: ModuleId,
    e: ModuleId,
) -> Map<(ModuleId, usize), ModuleId> {
    let m1 = connect_model(m, s, v, 0);
    let m2 = connect_model(m1, v, e, 0);
    let m3 = connect_model(m2, s, e, 1);
    connect_model(m3, e, SINK, 0)
}

/// Adds the default patch: a sequencer of power chords into an oscillator
/// of `VOICES` voices, through an envelope that the sequencer gates, into
/// the sink. Gives the ids of the sequencer, the oscillator and the
/// envelope.
pub fn build_patch(app: &mut App<Component>) -> (r: (ModuleId, ModuleId, ModuleId))
    requires
        old(app).wf(),
        old(app).modules().len() + 6 <= usize::MAX,
    ensures
        final(app).wf(),
        ({
            let n = old(app).modules().len();
            &&& r == ((n + 1) as ModuleId, (n + 2) as ModuleId, (n + 3) as ModuleId)
            &&& final(app).modules().len() == n + 3
            &&& forall|k: ModuleId| 1 <= k <= n ==> #[trigger] final(app).module_at(k) == old(app).module_at(k)
        }),
        final(app).conns() == patch_conns(old(app).conns(), r.0, r.1, r.2),
        final(app).selected() == old(app).selected(),
        final(app).rate() == old(app).rate(),
        match final(app).module_at(r.0) {
            Component::Sequencer(s) => s.steps() == default_steps() && s.chords_on() && s.position() == 0
                && s.waiting() == 0,
            _ => false,
        },
        match final(app).module_at(r.1) {
            Component::PolyOscillator(p) => p.voices().len() == VOICES && forall|i: int|
                0 <= i < VOICES ==> !(#[trigger] p.voices()[i]).1 && p.voices()[i].0.samples().len() == 0,
            _ => false,
        },
        match final(app).module_at(r.2) {
            Component::Adsr(a) => a.input_level() == SILENCE && a.since_gate() == 0,
            _ => false,
        },
{
    let ghost m0 = app.modules();
    let mut steps = Sequencer::new();
    steps.set_power_chords(true);
    let sequencer = app.insert_module(Component::Sequencer(steps));
    let mut poly = PolyOscillator::new();
    poly.set_oscillators(VOICES);
    let voices = app.insert_module(Component::PolyOscillator(poly));
    let envelope = app.insert_module(Component::Adsr(Adsr::new()));
    let ghost m3 = app.modules();
    app.connect(sequencer, (voices, 0));
    app.connect(voices, (envelope, 0));
    app.connect(sequencer, (envelope, 1));
    app.connect(envelope, (SINK, 0));
    proof {
        assert(app.modules() == m3);
        assert forall|k: ModuleId| 1 <= k <= m0.len() implies #[trigger] app.module_at(k) == m0[k - 1] by {
            assert(m3[k - 1] == m0[k - 1]);
        }
    }
    (sequencer, voices, envelope)
}

} // verus!
