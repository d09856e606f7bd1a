use vstd::prelude::*;
use vstd::set_lib::*;
use vstd::string::StringSliceAdditionalSpecFns;
use crate::data::{Data, DataModel, DataType, ModuleId, Sample, SINK, SILENCE, default_model};
use crate::module::Module;

verus! {

/// An edge of the graph: `producer`'s output feeds port `port` of `consumer`.
#[derive(Clone, Copy, Debug, PartialEq, Eq, Structural)]
pub struct Connection {
    pub consumer: ModuleId,
    pub port: usize,
    pub producer: ModuleId,
}

/// What the evaluator did to a module, in order, during the current tick:
/// a value delivered to a port (and whether the module took it), or a tick
/// (and what it gave), each with the sample rate handed over and the
/// module's state before and after the call.
pub enum Event<M> {
    Send { module: ModuleId, port: usize, value: DataModel, accepted: bool, rate: u32, before: M, after: M },
    Tick { module: ModuleId, out: Option<DataModel>, rate: u32, before: M, after: M },
}

/// Why a tick could not produce a sample.
#[derive(Clone, Copy, Debug, PartialEq, Eq, Structural)]
pub enum EvalError {
    /// A connection names a module that does not exist.
    UnknownModule(ModuleId),
    /// The module was reached again while its own inputs were being resolved.
    Cycle(ModuleId),
    /// The module refused the value delivered to this port.
    WrongType(ModuleId, usize),
    /// The sink received notes instead of audio.
    SinkNotAudio,
}

/// The connection table after `connect(producer, (consumer, port))`: the entry is
/// removed where it already holds `producer`, and set otherwise.
pub open spec fn connect_model(
    m: Map<(ModuleId, usize), ModuleId>,
    producer: ModuleId,
    consumer: ModuleId,
    port: usize,
) -> Map<(ModuleId, usize), ModuleId> {
    if m.contains_key((consumer, port)) && m[(consumer, port)] == producer {
        m.remove((consumer, port))
    } else {
        m.insert((consumer, port), producer)
    }
}

/// `e` is a tick of module `k`.
pub open spec fn is_tick_of<M>(e: Event<M>, k: ModuleId) -> bool {
    e is Tick && e->Tick_module == k
}

/// `e` is a delivery to port `p` of module `k`.
pub open spec fn is_send_to<M>(e: Event<M>, k: ModuleId, p: usize) -> bool {
    e is Send && e->Send_module == k && e->Send_port == p
}

/// Module `k` was ticked at some point of `t`.
pub open spec fn ticked<M>(t: Seq<Event<M>>, k: ModuleId) -> bool {
    exists|i: int| 0 <= i < t.len() && is_tick_of(#[trigger] t[i], k)
}

/// Port `p` of module `k` was sent a value at some point of `t`.
pub open spec fn sent<M>(t: Seq<Event<M>>, k: ModuleId, p: usize) -> bool {
    exists|i: int| 0 <= i < t.len() && is_send_to(#[trigger] t[i], k, p)
}

/// No module is ticked twice in `t`.
pub open spec fn ticks_unique<M>(t: Seq<Event<M>>) -> bool {
    forall|i: int, j: int|
        #![trigger t[i], t[j]]
        0 <= i < j < t.len() && t[i] is Tick && t[j] is Tick ==> t[i]->Tick_module != t[j]->Tick_module
}

/// Each module's ports receive their values in ascending port order, and all
/// of them before the module is ticked.
pub open spec fn sends_in_order<M>(t: Seq<Event<M>>) -> bool {
    forall|i: int, j: int|
        #![trigger t[i], t[j]]
        0 <= i < j < t.len() && t[j] is Send ==> {
            &&& !is_tick_of(t[i], t[j]->Send_module)
            &&& (t[i] is Send && t[i]->Send_module == t[j]->Send_module) ==> t[i]->Send_port
                < t[j]->Send_port
        }
}

/// Every delivery in `t` was taken.
pub open spec fn sends_taken<M>(t: Seq<Event<M>>) -> bool {
    forall|i: int| 0 <= i < t.len() && (#[trigger] t[i]) is Send ==> t[i]->Send_accepted
}

/// A module ticked during a tick was ticked at exactly one point of it.
pub proof fn lemma_ticked_once<M>(t: Seq<Event<M>>, k: ModuleId)
    requires
        ticks_unique(t),
        ticked(t, k),
    ensures
        exists|i: int|
            0 <= i < t.len() && is_tick_of(t[i], k) && forall|j: int|
                0 <= j < t.len() && is_tick_of(#[trigger] t[j], k) ==> j == i,
{
    let i = choose|i: int| 0 <= i < t.len() && is_tick_of(#[trigger] t[i], k);
    assert forall|j: int| 0 <= j < t.len() && is_tick_of(#[trigger] t[j], k) implies j == i by {
        if j < i {
            assert(t[j] is Tick);
        } else if i < j {
            assert(t[i] is Tick);
        }
    }
}

/// The module that an event concerns.
pub open spec fn event_module<M>(e: Event<M>) -> ModuleId {
    match e {
        Event::Send { module, .. } => module,
        Event::Tick { module, .. } => module,
    }
}

/// The module's state before the call that an event records.
pub open spec fn event_before<M>(e: Event<M>) -> M {
    match e {
        Event::Send { before, .. } => before,
        Event::Tick { before, .. } => before,
    }
}

/// The module's state after the call that an event records.
pub open spec fn event_after<M>(e: Event<M>) -> M {
    match e {
        Event::Send { after, .. } => after,
        Event::Tick { after, .. } => after,
    }
}

/// The call that an event records did what the module's contract says.
pub open spec fn event_holds<M: Module>(e: Event<M>) -> bool {
    match e {
        Event::Send { port, value, accepted, rate, before, after, .. } => before.sends_to(
            port,
            value,
            rate,
            after,
            accepted,
        ),
        Event::Tick { out, rate, before, after, .. } => before.ticks_to(rate, after, out),
    }
}

/// Every call recorded in `t` did what the module's contract says, starting
/// from the state that the module's earlier calls left; every module of
/// `modules` is what its calls left, and a module without calls is as it was
/// in `start`.
#[verifier::opaque]
pub open spec fn calls_chained<M: Module>(t: Seq<Event<M>>, start: Seq<M>, modules: Seq<M>) -> bool {
    &&& start.len() == modules.len()
    &&& forall|i: int|
        0 <= i < t.len() ==> {
            &&& 1 <= event_module(#[trigger] t[i]) <= modules.len()
            &&& event_holds(t[i])
            &&& event_before(t[i]) == state_after(t, start[event_module(t[i]) - 1], event_module(t[i]), i)
        }
    &&& forall|k: int|
        1 <= k <= modules.len() ==> #[trigger] modules[k - 1] == state_after(t, start[k - 1], k as ModuleId, t.len() as int)
}

/// The state of module `k`, which started at `s0`, after the first `i`
/// events of `t`: the state after the last of them that concerns it.
pub open spec fn state_after<M>(t: Seq<Event<M>>, s0: M, k: ModuleId, i: int) -> M
    decreases i,
{
    if i <= 0 || i > t.len() {
        s0
    } else if event_module(t[i - 1]) == k {
        event_after(t[i - 1])
    } else {
        state_after(t, s0, k, i - 1)
    }
}

proof fn lemma_state_after_push<M>(t: Seq<Event<M>>, e: Event<M>, s0: M, k: ModuleId, i: int)
    requires
        0 <= i <= t.len(),
    ensures
        state_after(t.push(e), s0, k, i) == state_after(t, s0, k, i),
    decreases i,
{
    if i > 0 {
        assert(t.push(e)[i - 1] == t[i - 1]);
        lemma_state_after_push(t, e, s0, k, i - 1);
    }
}

proof fn lemma_push_tick<M>(t: Seq<Event<M>>, e: Event<M>)
    requires
        ticks_unique(t),
        sends_in_order(t),
        e is Tick,
        !ticked(t, e->Tick_module),
    ensures
        ticks_unique(t.push(e)),
        sends_in_order(t.push(e)),
{
    let u = t.push(e);
    assert forall|i: int, j: int|
        #![trigger u[i], u[j]]
        0 <= i < j < u.len() && u[i] is Tick && u[j] is Tick implies u[i]->Tick_module != u[j]->Tick_module by {
        assert(t[i] == u[i]);
        if j == t.len() {
            if u[i]->Tick_module == u[j]->Tick_module {
                assert(is_tick_of(t[i], e->Tick_module));
            }
        } else {
            assert(t[j] == u[j]);
        }
    }
    assert forall|i: int, j: int|
        #![trigger u[i], u[j]]
        0 <= i < j < u.len() && u[j] is Send implies {
        &&& !is_tick_of(u[i], u[j]->Send_module)
        &&& (u[i] is Send && u[i]->Send_module == u[j]->Send_module) ==> u[i]->Send_port
            < u[j]->Send_port
    } by {
        assert(t[i] == u[i] && t[j] == u[j]);
    }
}

proof fn lemma_push_send<M>(t: Seq<Event<M>>, e: Event<M>)
    requires
        ticks_unique(t),
        sends_in_order(t),
        e is Send,
        !ticked(t, e->Send_module),
        forall|i: int|
            #![trigger t[i]]
            0 <= i < t.len() && t[i] is Send && t[i]->Send_module == e->Send_module ==> t[i]->Send_port
                < e->Send_port,
    ensures
        ticks_unique(t.push(e)),
        sends_in_order(t.push(e)),
{
    let u = t.push(e);
    assert forall|i: int, j: int|
        #![trigger u[i], u[j]]
        0 <= i < j < u.len() && u[i] is Tick && u[j] is Tick implies u[i]->Tick_module != u[j]->Tick_module by {
        assert(t[i] == u[i]);
        if j < t.len() {
            assert(t[j] == u[j]);
        }
    }
    assert forall|i: int, j: int|
        #![trigger u[i], u[j]]
        0 <= i < j < u.len() && u[j] is Send implies {
        &&& !is_tick_of(u[i], u[j]->Send_module)
        &&& (u[i] is Send && u[i]->Send_module == u[j]->Send_module) ==> u[i]->Send_port
            < u[j]->Send_port
    } by {
        assert(t[i] == u[i]);
        if j < t.len() {
            assert(t[j] == u[j]);
        } else if is_tick_of(u[i], e->Send_module) {
            assert(ticked(t, e->Send_module));
        }
    }
}

proof fn lemma_push_keeps<M>(t: Seq<Event<M>>, e: Event<M>)
    ensures
        forall|k: ModuleId| ticked(t, k) ==> #[trigger] ticked(t.push(e), k),
        forall|k: ModuleId, p: usize| sent(t, k, p) ==> #[trigger] sent(t.push(e), k, p),
        e is Tick ==> ticked(t.push(e), e->Tick_module),
        e is Send ==> sent(t.push(e), e->Send_module, e->Send_port),
        forall|i: int| 0 <= i < t.len() ==> #[trigger] t.push(e)[i] == t[i],
{
    let u = t.push(e);
    assert forall|k: ModuleId| ticked(t, k) implies #[trigger] ticked(u, k) by {
        let i = choose|i: int| 0 <= i < t.len() && is_tick_of(#[trigger] t[i], k);
        assert(u[i] == t[i]);
    }
    assert forall|k: ModuleId, p: usize| sent(t, k, p) implies #[trigger] sent(u, k, p) by {
        let i = choose|i: int| 0 <= i < t.len() && is_send_to(#[trigger] t[i], k, p);
        assert(u[i] == t[i]);
    }
    assert(u[t.len() as int] == e);
}

/// Connecting a producer to a port twice in a row leaves the table as it was,
/// where the port was free or already held that producer.
pub proof fn lemma_connect_twice(
    m: Map<(ModuleId, usize), ModuleId>,
    producer: ModuleId,
    consumer: ModuleId,
    port: usize,
)
    requires
        !m.contains_key((consumer, port)) || m[(consumer, port)] == producer,
    ensures
        connect_model(connect_model(m, producer, consumer, port), producer, consumer, port) == m,
{
    let once = connect_model(m, producer, consumer, port);
    let twice = connect_model(once, producer, consumer, port);
    if m.contains_key((consumer, port)) {
        assert(twice =~= m);
    } else {
        assert(twice =~= m);
    }
}

/// Connecting a second producer to a port that already holds another replaces it.
pub proof fn lemma_connect_overwrites(
    m: Map<(ModuleId, usize), ModuleId>,
    first: ModuleId,
    second: ModuleId,
    consumer: ModuleId,
    port: usize,
)
    requires
        first != second,
    ensures
        connect_model(connect_model(m, first, consumer, port), second, consumer, port)
            == m.insert((consumer, port), second),
{
    let once = connect_model(m, first, consumer, port);
    let twice = connect_model(once, second, consumer, port);
    if m.contains_key((consumer, port)) && m[(consumer, port)] == first {
        assert(!once.contains_key((consumer, port)));
    } else {
        assert(once[(consumer, port)] == first);
    }
    assert(twice =~= m.insert((consumer, port), second));
}

/// The value that a tick result stands for: the result itself, or the
/// default for the module's kind of output where it gave none.
pub open spec fn resolved(out: Option<DataModel>, kind: DataType) -> DataModel {
    match out {
        Some(v) => v,
        None => default_model(kind),
    }
}

/// What the trace of a failed evaluation shows: a refused delivery as its
/// last event where a module refused a value, and otherwise every delivery
/// taken.
pub open spec fn failure_recorded<M>(t: Seq<Event<M>>, e: EvalError) -> bool {
    match e {
        EvalError::WrongType(k, p) => {
            &&& t.len() > 0
            &&& is_send_to(t.last(), k, p)
            &&& !t.last()->Send_accepted
            &&& sends_taken(t.drop_last())
        },
        _ => sends_taken(t),
    }
}

/// Every connection comes from an existing module (or the sink) of lower
/// rank than its consumer.
pub open spec fn ranked(
    conns: Map<(ModuleId, usize), ModuleId>,
    n: nat,
    rank: spec_fn(ModuleId) -> nat,
) -> bool {
    forall|key: (ModuleId, usize)|
        #[trigger] conns.contains_key(key) ==> conns[key] <= n && rank(conns[key]) < rank(key.0)
}

/// The connection table has no cycle and names no missing producer.
pub open spec fn acyclic(conns: Map<(ModuleId, usize), ModuleId>, n: nat) -> bool {
    exists|rank: spec_fn(ModuleId) -> nat| ranked(conns, n, rank)
}

proof fn lemma_state_after_untouched<M>(t: Seq<Event<M>>, s0: M, k: ModuleId, i: int)
    requires
        forall|j: int| 0 <= j < t.len() ==> event_module(#[trigger] t[j]) != k,
    ensures
        state_after(t, s0, k, i) == s0,
    decreases i,
{
    if 0 < i <= t.len() {
        assert(event_module(t[i - 1]) != k);
        lemma_state_after_untouched(t, s0, k, i - 1);
    }
}

/// The session: the modules, the connection table, and the state of the
/// evaluator for the current tick.
pub struct App<M> {
    /// Module `id` is held at index `id - 1`.
    modules: Vec<M>,
    conns: Vec<Connection>,
    conn_map: Ghost<Map<(ModuleId, usize), ModuleId>>,
    /// Per id (the sink included): the value computed during the current tick.
    cache: Vec<Option<Data>>,
    /// Per id: whether its inputs are being resolved right now.
    in_progress: Vec<bool>,
    active: Ghost<Set<int>>,
    trace: Ghost<Seq<Event<M>>>,
    selection: Option<ModuleId>,
    sample_rate: u32,
    /// The last evaluation failed; its values are kept until the next one.
    stale: bool,
    /// The modules as they were when the current tick began.
    start: Ghost<Seq<M>>,
    /// The modules whose values were asked for directly this tick.
    roots: Ghost<Set<ModuleId>>,
}

pub open spec fn conn_key(c: Connection) -> (ModuleId, usize) {
    (c.consumer, c.port)
}

impl<M: Module> App<M> {
    /// The connection table: `(consumer, port)` to producer.
    pub closed spec fn conns(&self) -> Map<(ModuleId, usize), ModuleId> {
        self.conn_map@
    }

    /// The modules in the order of their ids, starting at id 1.
    pub closed spec fn modules(&self) -> Seq<M> {
        self.modules@
    }

    /// What the evaluator did during the current tick.
    pub closed spec fn trace(&self) -> Seq<Event<M>> {
        self.trace@
    }

    /// The value computed for `id` during the current tick, if any.
    pub closed spec fn cached(&self, id: ModuleId) -> Option<DataModel> {
        if id <= self.modules@.len() && self.cache@[id as int] is Some {
            Some(self.cache@[id as int]->Some_0@)
        } else {
            None
        }
    }

    pub closed spec fn selected(&self) -> Option<ModuleId> {
        self.selection
    }

    /// The modules as they were when the current tick began.
    pub closed spec fn tick_start(&self) -> Seq<M> {
        self.start@
    }

    /// The last evaluation failed, and its values are still held.
    pub closed spec fn failed(&self) -> bool {
        self.stale
    }

    pub closed spec fn rate(&self) -> u32 {
        self.sample_rate
    }

    /// The module with id `id`.
    pub open spec fn module_at(&self, id: ModuleId) -> M {
        self.modules()[id - 1]
    }

    /// Whether `id` names the sink or an inserted module.
    pub open spec fn valid_id(&self, id: ModuleId) -> bool {
        id <= self.modules().len()
    }

    closed spec fn conns_wf(&self) -> bool {
        &&& forall|i: int|
            #![trigger self.conns@[i]]
            0 <= i < self.conns@.len() ==> self.conn_map@.contains_key(conn_key(self.conns@[i]))
                && self.conn_map@[conn_key(self.conns@[i])] == self.conns@[i].producer
        &&& forall|k: (ModuleId, usize)|
            #![trigger self.conn_map@.contains_key(k)]
            self.conn_map@.contains_key(k) ==> exists|i: int|
                0 <= i < self.conns@.len() && conn_key(#[trigger] self.conns@[i]) == k
        &&& forall|i: int, j: int|
            #![trigger self.conns@[i], self.conns@[j]]
            0 <= i < j < self.conns@.len() ==> conn_key(self.conns@[i]) != conn_key(
                self.conns@[j],
            )
    }

    /// The parts of well-formedness that hold at every moment of evaluation.
    closed spec fn struct_wf(&self) -> bool {
        &&& self.conns_wf()
        &&& self.modules@.len() + 2 <= usize::MAX
        &&& self.cache@.len() == self.modules@.len() + 1
        &&& self.in_progress@.len() == self.modules@.len() + 1
        &&& forall|i: int| 0 <= i < self.modules@.len() ==> (#[trigger] self.modules@[i]).inv()
        &&& self.active@.subset_of(set_int_range(0, self.modules@.len() as int + 1))
        &&& forall|k: int|
            0 <= k <= self.modules@.len() ==> (self.in_progress@[k] <==> #[trigger] self.active@.contains(k))
        &&& forall|k: int|
            0 <= k <= self.modules@.len() && #[trigger] self.cache@[k] is Some ==> !self.in_progress@[k]
    }

    /// Well-formedness between operations: nothing is in progress.
    pub closed spec fn wf(&self) -> bool {
        &&& self.struct_wf()
        &&& self.consistent()
        &&& !self.stale ==> self.eval_rest()
        &&& self.active@ == Set::<int>::empty()
    }

    /// A session with no modules and no connections.
    pub fn new() -> (r: App<M>)
        ensures
            r.wf(),
            r.modules() == Seq::<M>::empty(),
            r.conns() == Map::<(ModuleId, usize), ModuleId>::empty(),
            r.selected() is None,
            r.rate() == 0,
    {
        let mut cache: Vec<Option<Data>> = Vec::new();
        cache.push(None);
        let mut in_progress: Vec<bool> = Vec::new();
        in_progress.push(false);
        let r = App {
            modules: Vec::new(),
            conns: Vec::new(),
            conn_map: Ghost(Map::empty()),
            cache,
            in_progress,
            active: Ghost(Set::empty()),
            trace: Ghost(Seq::empty()),
            selection: None,
            sample_rate: 0,
            stale: false,
            start: Ghost(Seq::empty()),
            roots: Ghost(Set::empty()),
        };
        proof {
            reveal(calls_chained);
            assert(r.modules@ =~= Seq::<M>::empty());
        }
        r
    }

    /// The id that the next inserted module gets.
    pub fn next_id(&self) -> (r: ModuleId)
        requires
            self.wf(),
        ensures
            r == self.modules().len() + 1,
    {
        self.modules.len() + 1
    }

    /// The number of inserted modules; their ids are 1 to this number.
    pub fn module_count(&self) -> (r: usize)
        ensures
            r == self.modules().len(),
    {
        self.modules.len()
    }

    /// Stores `module` under the next unused id and returns that id.
    pub fn insert_module(&mut self, module: M) -> (r: ModuleId)
        requires
            old(self).wf(),
            module.inv(),
            old(self).modules().len() + 3 <= usize::MAX,
        ensures
            final(self).wf(),
            r == old(self).modules().len() + 1,
            final(self).modules() == old(self).modules().push(module),
            final(self).conns() == old(self).conns(),
            final(self).trace() == Seq::<Event<M>>::empty(),
            final(self).selected() == old(self).selected(),
            final(self).rate() == old(self).rate(),
    {
        let id = self.modules.len() + 1;
        self.modules.push(module);
        self.cache.push(None);
        self.in_progress.push(false);
        proof {
            assert forall|k: int|
                0 <= k <= self.modules@.len() && #[trigger] self.cache@[k] is Some implies !self.in_progress@[k] by {
                if k < self.modules@.len() {
                    assert(old(self).cache@[k] == self.cache@[k]);
                }
            }
            assert forall|k: int|
                0 <= k <= self.modules@.len() implies (self.in_progress@[k] <==> #[trigger] self.active@.contains(k)) by {
                if k < self.modules@.len() {
                    assert(old(self).in_progress@[k] == self.in_progress@[k]);
                }
            }
            assert forall|i: int| 0 <= i < self.modules@.len() implies (#[trigger] self.modules@[i]).inv() by {
                if i < old(self).modules@.len() {
                    assert(old(self).modules@[i] == self.modules@[i]);
                }
            }
            Self::lemma_conns_kept(old(self), self);
            assert(self.active@.subset_of(set_int_range(0, self.modules@.len() as int + 1)));
            assert(self.struct_wf());
        }
        self.reset_tick();
        id
    }

    /// The index in `conns` of the entry for `(consumer, port)`, if any.
    fn find_conn(&self, consumer: ModuleId, port: usize) -> (r: Option<usize>)
        requires
            self.conns_wf(),
        ensures
            match r {
                Some(i) => i < self.conns@.len() && conn_key(self.conns@[i as int]) == (consumer, port),
                None => !self.conn_map@.contains_key((consumer, port)),
            },
    {
        let mut i: usize = 0;
        while i < self.conns.len()
            invariant
                self.conns_wf(),
                i <= self.conns@.len(),
                forall|j: int| 0 <= j < i ==> conn_key(#[trigger] self.conns@[j]) != (consumer, port),
            decreases self.conns@.len() - i,
        {
            if self.conns[i].consumer == consumer && self.conns[i].port == port {
                return Some(i);
            }
            i = i + 1;
        }
        None
    }

    /// The producer connected to port `port` of `consumer`, if any.
    pub fn connection(&self, consumer: ModuleId, port: usize) -> (r: Option<ModuleId>)
        requires
            self.wf(),
        ensures
            r == (if self.conns().contains_key((consumer, port)) {
                Some(self.conns()[(consumer, port)])
            } else {
                None::<ModuleId>
            }),
    {
        match self.find_conn(consumer, port) {
            Some(i) => Some(self.conns[i].producer),
            None => None,
        }
    }

    /// Every entry of the connection table, each once.
    pub fn connections(&self) -> (r: Vec<Connection>)
        requires
            self.wf(),
        ensures
            forall|i: int|
                #![trigger r@[i]]
                0 <= i < r@.len() ==> self.conns().contains_key(conn_key(r@[i])) && self.conns()[conn_key(r@[i])]
                    == r@[i].producer,
            forall|k: (ModuleId, usize)|
                #![trigger self.conns().contains_key(k)]
                self.conns().contains_key(k) ==> exists|i: int|
                    0 <= i < r@.len() && conn_key(#[trigger] r@[i]) == k,
            forall|i: int, j: int|
                #![trigger r@[i], r@[j]]
                0 <= i < j < r@.len() ==> conn_key(r@[i]) != conn_key(r@[j]),
    {
        let mut r: Vec<Connection> = Vec::new();
        let mut i: usize = 0;
        while i < self.conns.len()
            invariant
                i <= self.conns@.len(),
                r@ == self.conns@.subrange(0, i as int),
            decreases self.conns@.len() - i,
        {
            r.push(self.conns[i]);
            i = i + 1;
            assert(r@ =~= self.conns@.subrange(0, i as int));
        }
        assert(r@ =~= self.conns@);
        r
    }

    /// Connects `producer` to port `to.1` of module `to.0`, or disconnects it
    /// where exactly that connection already exists.
    pub fn connect(&mut self, producer: ModuleId, to: (ModuleId, usize))
        requires
            old(self).wf(),
        ensures
            final(self).wf(),
            final(self).conns() == connect_model(old(self).conns(), producer, to.0, to.1),
            final(self).modules() == old(self).modules(),
            final(self).trace() == Seq::<Event<M>>::empty(),
            final(self).selected() == old(self).selected(),
            final(self).rate() == old(self).rate(),
    {
        self.update_table(producer, to);
        self.reset_tick();
    }

    fn update_table(&mut self, producer: ModuleId, to: (ModuleId, usize))
        requires
            old(self).struct_wf(),
        ensures
            final(self).struct_wf(),
            final(self).conn_map@ == connect_model(old(self).conn_map@, producer, to.0, to.1),
            final(self).modules@ == old(self).modules@,
            final(self).cache@ == old(self).cache@,
            final(self).in_progress@ == old(self).in_progress@,
            final(self).active@ == old(self).active@,
            final(self).selection == old(self).selection,
            final(self).sample_rate == old(self).sample_rate,
    {
        let (consumer, port) = to;
        let ghost key = (consumer, port);
        let ghost old_conns = self.conns@;
        match self.find_conn(consumer, port) {
            Some(i) => {
                if self.conns[i].producer == producer {
                    self.conns.remove(i);
                    self.conn_map = Ghost(self.conn_map@.remove(key));
                    proof {
                        assert forall|k: (ModuleId, usize)|
                            #![trigger self.conn_map@.contains_key(k)]
                            self.conn_map@.contains_key(k) implies exists|j: int|
                                0 <= j < self.conns@.len() && conn_key(#[trigger] self.conns@[j]) == k by {
                            let j = choose|j: int| 0 <= j < old_conns.len() && conn_key(#[trigger] old_conns[j]) == k;
                            if j < i {
                                assert(self.conns@[j] == old_conns[j]);
                            } else {
                                assert(j != i);
                                assert(self.conns@[j - 1] == old_conns[j]);
                            }
                        }
                        assert forall|a: int| 0 <= a < self.conns@.len() implies
                            self.conn_map@.contains_key(conn_key(#[trigger] self.conns@[a]))
                            && self.conn_map@[conn_key(self.conns@[a])] == self.conns@[a].producer by {
                            if a < i {
                                assert(self.conns@[a] == old_conns[a]);
                                assert(old_conns[a] != old_conns[i as int] || a == i);
                            } else {
                                assert(self.conns@[a] == old_conns[a + 1]);
                            }
                        }
                        assert forall|a: int, b: int|
                            #![trigger self.conns@[a], self.conns@[b]]
                            0 <= a < b < self.conns@.len() implies conn_key(self.conns@[a]) != conn_key(self.conns@[b]) by {
                            let oa = if a < i { a } else { a + 1 };
                            let ob = if b < i { b } else { b + 1 };
                            assert(self.conns@[a] == old_conns[oa]);
                            assert(self.conns@[b] == old_conns[ob]);
                        }
                    }
                } else {
                    self.conns.set(i, Connection { consumer, port, producer });
                    self.conn_map = Ghost(self.conn_map@.insert(key, producer));
                    proof {
                        assert forall|k: (ModuleId, usize)|
                            #![trigger self.conn_map@.contains_key(k)]
                            self.conn_map@.contains_key(k) implies exists|j: int|
                                0 <= j < self.conns@.len() && conn_key(#[trigger] self.conns@[j]) == k by {
                            if k == key {
                                assert(conn_key(self.conns@[i as int]) == k);
                            } else {
                                let j = choose|j: int| 0 <= j < old_conns.len() && conn_key(#[trigger] old_conns[j]) == k;
                                assert(self.conns@[j] == old_conns[j]);
                            }
                        }
                        assert forall|a: int| 0 <= a < self.conns@.len() implies
                            self.conn_map@.contains_key(conn_key(#[trigger] self.conns@[a]))
                            && self.conn_map@[conn_key(self.conns@[a])] == self.conns@[a].producer by {
                            if a != i {
                                assert(self.conns@[a] == old_conns[a]);
                            }
                        }
                        assert forall|a: int, b: int|
                            #![trigger self.conns@[a], self.conns@[b]]
                            0 <= a < b < self.conns@.len() implies conn_key(self.conns@[a]) != conn_key(self.conns@[b]) by {
                            assert(conn_key(self.conns@[a]) == conn_key(old_conns[a]));
                            assert(conn_key(self.conns@[b]) == conn_key(old_conns[b]));
                        }
                    }
                }
            }
            None => {
                self.conns.push(Connection { consumer, port, producer });
                self.conn_map = Ghost(self.conn_map@.insert(key, producer));
                proof {
                    assert forall|k: (ModuleId, usize)|
                        #![trigger self.conn_map@.contains_key(k)]
                        self.conn_map@.contains_key(k) implies exists|j: int|
                            0 <= j < self.conns@.len() && conn_key(#[trigger] self.conns@[j]) == k by {
                        if k == key {
                            assert(conn_key(self.conns@[old_conns.len() as int]) == k);
                        } else {
                            let j = choose|j: int| 0 <= j < old_conns.len() && conn_key(#[trigger] old_conns[j]) == k;
                            assert(self.conns@[j] == old_conns[j]);
                        }
                    }
                    assert forall|a: int| 0 <= a < self.conns@.len() implies
                        self.conn_map@.contains_key(conn_key(#[trigger] self.conns@[a]))
                        && self.conn_map@[conn_key(self.conns@[a])] == self.conns@[a].producer by {
                        if a < old_conns.len() {
                            assert(self.conns@[a] == old_conns[a]);
                        }
                    }
                    assert forall|a: int, b: int|
                        #![trigger self.conns@[a], self.conns@[b]]
                        0 <= a < b < self.conns@.len() implies conn_key(self.conns@[a]) != conn_key(self.conns@[b]) by {
                        assert(self.conns@[a] == old_conns[a]);
                        if b < old_conns.len() {
                            assert(self.conns@[b] == old_conns[b]);
                        }
                    }
                }
            }
        }
    }

    /// The trace records every call made on the modules this tick, and
    /// agrees with the values computed.
    pub open spec fn consistent(&self) -> bool {
        &&& calls_chained(self.trace(), self.tick_start(), self.modules())
        &&& self.trace_agrees()
    }

    /// Every delivery carried the value computed for the producer of that
    /// port, and every tick's result (or the default for the module's kind of
    /// output) is the value computed for that module. No module is ticked
    /// twice, and ports are delivered in order, before the tick.
    pub open spec fn trace_agrees(&self) -> bool {
        let t = self.trace();
        &&& ticks_unique(t)
        &&& sends_in_order(t)
        &&& forall|i: int|
            0 <= i < t.len() && (#[trigger] t[i]) is Send ==> {
                let (k, p) = (t[i]->Send_module, t[i]->Send_port);
                &&& 1 <= k <= self.modules().len()
                &&& self.conns().contains_key((k, p))
                &&& self.cached(self.conns()[(k, p)]) == Some(t[i]->Send_value)
            }
        &&& forall|i: int|
            0 <= i < t.len() && (#[trigger] t[i]) is Tick ==> {
                let k = t[i]->Tick_module;
                &&& 1 <= k <= self.modules().len()
                &&& self.cached(k) == Some(resolved(t[i]->Tick_out, self.module_at(k).out_kind()))
            }
    }

    /// What holds of the evaluation state whenever no value is half made.
    closed spec fn eval_wf(&self) -> bool {
        &&& self.struct_wf()
        &&& self.consistent()
        &&& self.eval_rest()
    }

    /// Every delivery was taken and belongs to a module in progress or done;
    /// every module done was ticked (the sink aside) with all its inputs.
    closed spec fn eval_rest(&self) -> bool {
        let t = self.trace@;
        let n = self.modules@.len();
        &&& sends_taken(t)
        &&& forall|i: int|
            #![trigger t[i]]
            0 <= i < t.len() && t[i] is Send ==> {
                let k = event_module(t[i]) as int;
                self.in_progress@[k] || self.cache@[k] is Some
            }
        &&& forall|k: ModuleId|
            1 <= k <= n && (#[trigger] self.cache@[k as int]) is Some ==> ticked(t, k)
        &&& forall|k: ModuleId|
            0 <= k <= n && (#[trigger] self.cache@[k as int]) is Some ==> self.inputs_done(k)
        &&& forall|k: ModuleId|
            0 <= k <= n && (#[trigger] self.cache@[k as int]) is Some ==> self.demanded(k)
    }

    /// Port `p` of `c` is one that the evaluator delivers to: the sink's
    /// only port, or a port of a module below its arity.
    closed spec fn live_port(&self, c: ModuleId, p: usize) -> bool {
        &&& c <= self.modules@.len()
        &&& if c == SINK { p == 0 } else { p < self.modules@[c - 1].arity() }
    }

    /// `k` was asked for directly, or feeds a live port of a module that is
    /// being evaluated or has its value.
    closed spec fn demanded(&self, k: ModuleId) -> bool {
        ||| self.roots@.contains(k)
        ||| exists|c: ModuleId, p: usize|
            #![trigger self.conn_map@.contains_key((c, p))]
            self.conn_map@.contains_key((c, p)) && self.conn_map@[(c, p)] == k && self.live_port(c, p)
                && (self.in_progress@[c as int] || self.cache@[c as int] is Some)
    }

    proof fn lemma_demand_kept(a: &Self, b: &Self)
        requires
            b.conn_map@ == a.conn_map@,
            b.modules@.len() == a.modules@.len(),
            a.roots@.subset_of(b.roots@),
            forall|i: int| 0 <= i < a.modules@.len() ==> (#[trigger] b.modules@[i]).arity() == a.modules@[i].arity(),
            forall|c: int|
                0 <= c <= a.modules@.len() && (a.in_progress@[c] || a.cache@[c] is Some) ==> (
                #[trigger] b.in_progress@[c] || b.cache@[c] is Some),
        ensures
            forall|k: ModuleId| #[trigger] a.demanded(k) ==> b.demanded(k),
    {
        assert forall|k: ModuleId| #[trigger] a.demanded(k) implies b.demanded(k) by {
            if !a.roots@.contains(k) {
                let (c, p) = choose|c: ModuleId, p: usize|
                    #![trigger a.conn_map@.contains_key((c, p))]
                    a.conn_map@.contains_key((c, p)) && a.conn_map@[(c, p)] == k && a.live_port(c, p)
                        && (a.in_progress@[c as int] || a.cache@[c as int] is Some);
                if c != SINK {
                    assert(b.modules@[c - 1].arity() == a.modules@[c - 1].arity());
                }
                assert(b.conn_map@.contains_key((c, p)));
            }
        }
    }

    /// Every connected input of `k` was delivered and its producer evaluated.
    closed spec fn inputs_done(&self, k: ModuleId) -> bool {
        if k == SINK {
            self.conn_map@.contains_key((SINK, 0)) ==> self.cached(self.conn_map@[(SINK, 0)]) is Some
        } else {
            forall|p: usize|
                #![trigger self.conn_map@.contains_key((k, p))]
                p < self.modules@[k - 1].arity() && self.conn_map@.contains_key((k, p)) ==> {
                    &&& sent(self.trace@, k, p)
                    &&& self.cached(self.conn_map@[(k, p)]) is Some
                }
        }
    }

    /// The evaluation has only been carried forward from `o` to `self`, with
    /// the same modules in progress.
    closed spec fn evolved(&self, o: &Self) -> bool {
        &&& self.struct_wf()
        &&& self.advanced(o)
        &&& self.in_progress@ == o.in_progress@
        &&& self.active@ == o.active@
    }

    /// The evaluation has only been carried forward from `o` to `self`: the
    /// table and the modules' arities and kinds are the same, the cache and
    /// the trace have only grown, and only for modules that were neither done
    /// nor in progress in `o`.
    closed spec fn advanced(&self, o: &Self) -> bool {
        let n = o.modules@.len();
        &&& self.modules@.len() == n
        &&& self.cache@.len() == n + 1
        &&& self.conns@ == o.conns@
        &&& self.conn_map@ == o.conn_map@
        &&& self.selection == o.selection
        &&& self.sample_rate == o.sample_rate
        &&& self.stale == o.stale
        &&& self.start@ == o.start@
        &&& self.roots@ == o.roots@
        &&& forall|i: int|
            0 <= i < n ==> (#[trigger] self.modules@[i]).arity() == o.modules@[i].arity()
                && self.modules@[i].out_kind() == o.modules@[i].out_kind()
        &&& o.trace@.len() <= self.trace@.len()
        &&& forall|i: int| 0 <= i < o.trace@.len() ==> #[trigger] self.trace@[i] == o.trace@[i]
        &&& forall|i: int|
            #![trigger self.trace@[i]]
            o.trace@.len() <= i < self.trace@.len() ==> {
                let k = event_module(self.trace@[i]) as int;
                &&& k <= n
                &&& !o.in_progress@[k]
                &&& o.cache@[k] is None
            }
        &&& forall|k: int|
            0 <= k <= n && (#[trigger] o.cache@[k]) is Some ==> self.cache@[k] == o.cache@[k]
        &&& forall|k: int|
            0 <= k <= n && (#[trigger] self.cache@[k]) is Some && o.cache@[k] is None ==> !o.in_progress@[k]
        &&& self.consistent()
    }

    proof fn lemma_advanced_trans(a: &Self, b: &Self, c: &Self)
        requires
            b.advanced(a),
            c.advanced(b),
            a.in_progress@.len() == a.modules@.len() + 1,
            b.in_progress@.len() == a.modules@.len() + 1,
            a.cache@.len() == a.modules@.len() + 1,
            forall|k: int| 0 <= k <= a.modules@.len() && a.in_progress@[k] ==> #[trigger] b.in_progress@[k],
        ensures
            c.advanced(a),
    {
        let n = a.modules@.len();
        assert forall|i: int|
            #![trigger c.trace@[i]]
            a.trace@.len() <= i < c.trace@.len() implies {
                let k = event_module(c.trace@[i]) as int;
                &&& k <= n
                &&& !a.in_progress@[k]
                &&& a.cache@[k] is None
            } by {
            if i < b.trace@.len() {
                assert(c.trace@[i] == b.trace@[i]);
            } else {
                let k = event_module(c.trace@[i]) as int;
                if a.cache@[k] is Some {
                    assert(b.cache@[k] is Some);
                }
                if a.in_progress@[k] {
                    assert(b.in_progress@[k]);
                }
            }
        }
        assert forall|k: int|
            0 <= k <= n && (#[trigger] c.cache@[k]) is Some && a.cache@[k] is None implies !a.in_progress@[k] by {
            if b.cache@[k] is None {
                assert(!b.in_progress@[k]);
            }
        }
        assert forall|i: int| 0 <= i < n implies (#[trigger] c.modules@[i]).arity() == a.modules@[i].arity()
            && c.modules@[i].out_kind() == a.modules@[i].out_kind() by {
            assert(b.modules@[i].arity() == a.modules@[i].arity());
        }
    }

    /// `id` is the sink, connected, and not yet evaluated nor in progress.
    closed spec fn sink_pending(&self, id: ModuleId) -> bool {
        &&& id == SINK
        &&& self.cache@[0] is None
        &&& !self.in_progress@[0]
        &&& self.conn_map@.contains_key((SINK, 0))
    }

    /// Clears the mark that `id` is in progress.
    fn unmark(&mut self, id: ModuleId)
        requires
            id <= old(self).modules@.len(),
            old(self).in_progress@.len() == old(self).modules@.len() + 1,
        ensures
            final(self).in_progress@ == old(self).in_progress@.update(id as int, false),
            final(self).active@ == old(self).active@.remove(id as int),
            final(self).modules@ == old(self).modules@,
            final(self).cache@ == old(self).cache@,
            final(self).trace@ == old(self).trace@,
            final(self).conns@ == old(self).conns@,
            final(self).conn_map@ == old(self).conn_map@,
            final(self).selection == old(self).selection,
            final(self).sample_rate == old(self).sample_rate,
            final(self).stale == old(self).stale,
            final(self).start@ == old(self).start@,
            final(self).roots@ == old(self).roots@,
    {
        self.in_progress.set(id, false);
        self.active = Ghost(self.active@.remove(id as int));
    }

    /// The value of module `id` for the current tick, computed at most once.
    #[verifier::spinoff_prover]
    #[verifier::rlimit(100)]
    fn resolve(
        &mut self,
        id: ModuleId,
        rank: Ghost<spec_fn(ModuleId) -> nat>,
        via: Ghost<Option<(ModuleId, usize)>>,
    ) -> (r: Result<Data, EvalError>)
        requires
            old(self).eval_wf(),
            match via@ {
                None => old(self).roots@.contains(id),
                Some((c, p)) => {
                    &&& old(self).conn_map@.contains_key((c, p))
                    &&& old(self).conn_map@[(c, p)] == id
                    &&& old(self).live_port(c, p)
                    &&& old(self).in_progress@[c as int]
                },
            },
            ranked(old(self).conn_map@, old(self).modules@.len(), rank@) ==> forall|k: int|
                0 <= k <= old(self).modules@.len() && #[trigger] old(self).in_progress@[k] ==> rank@(
                    k as ModuleId,
                ) > rank@(id),
        ensures
            final(self).evolved(old(self)),
            r is Ok ==> {
                &&& final(self).eval_wf()
                &&& id <= old(self).modules@.len()
                &&& final(self).cache@[id as int] is Some
                &&& final(self).cache@[id as int]->Some_0@ == r->Ok_0@
            },
            r is Err ==> failure_recorded(final(self).trace@, r->Err_0),
            r is Err ==> !(r->Err_0 is SinkNotAudio),
            r is Err && id <= old(self).modules@.len() ==> final(self).cache@[id as int] == old(self).cache@[id as int],
            ranked(old(self).conn_map@, old(self).modules@.len(), rank@) && id <= old(self).modules@.len()
                ==> !(r is Err && (r->Err_0 is Cycle || r->Err_0 is UnknownModule)),
            id > old(self).modules@.len() ==> r == Err::<Data, EvalError>(EvalError::UnknownModule(id)),
            id <= old(self).modules@.len() && old(self).cache@[id as int] is Some ==> r is Ok
                && final(self).trace@ == old(self).trace@ && final(self).cache@ == old(self).cache@,
            id == SINK && old(self).cache@[0] is None && !old(self).in_progress@[0]
                && !old(self).conn_map@.contains_key((SINK, 0)) ==> r is Ok && r->Ok_0@ == DataModel::Audio(SILENCE)
                && final(self).trace@ == old(self).trace@ && final(self).modules@ == old(self).modules@,
            id <= old(self).modules@.len() && old(self).cache@[id as int] is None
                && old(self).in_progress@[id as int] ==> r == Err::<Data, EvalError>(
                EvalError::Cycle(id),
            ),
            old(self).sink_pending(id) && r is Ok ==> final(self).cached(old(self).conn_map@[(SINK, 0)])
                == Some(r->Ok_0@),
            old(self).sink_pending(id) && old(self).conn_map@[(SINK, 0)] > old(self).modules@.len()
                ==> r == Err::<Data, EvalError>(EvalError::UnknownModule(old(self).conn_map@[(SINK, 0)])),
            old(self).sink_pending(id) && old(self).conn_map@[(SINK, 0)] == SINK ==> r == Err::<
                Data,
                EvalError,
            >(EvalError::Cycle(SINK)),
        decreases old(self).modules@.len() + 1 - old(self).active@.len(),
    {
        let n = self.modules.len();
        if id > n {
            return Err(EvalError::UnknownModule(id));
        }
        match &self.cache[id] {
            Some(d) => {
                return Ok(d.duplicate());
            },
            None => {},
        }
        if self.in_progress[id] {
            return Err(EvalError::Cycle(id));
        }
        self.in_progress.set(id, true);
        self.active = Ghost(self.active@.insert(id as int));
        proof {
            lemma_int_range(0, n as int + 1);
            lemma_len_subset(old(self).active@, set_int_range(0, n as int + 1));
            assert(self.active@.subset_of(set_int_range(0, n as int + 1)));
            lemma_len_subset(self.active@, set_int_range(0, n as int + 1));
            Self::lemma_demand_kept(old(self), self);
            assert(self.advanced(old(self)));
            assert(self.struct_wf());
            assert(self.eval_wf());
        }
        let rate = self.sample_rate;
        let ghost mut pre_tick: Self = *self;
        let ghost mut tick_event: Event<M> = Event::Tick { module: id, out: None, rate, before: arbitrary(), after: arbitrary() };
        let value = if id == SINK {
            match self.find_conn(SINK, 0) {
                Some(i) => {
                    let q = self.conns[i].producer;
                    let ghost before = *self;
                    proof {
                        assert(conn_key(self.conns@[i as int]) == (SINK, 0usize));
                        assert(self.conn_map@.contains_key(conn_key(self.conns@[i as int])));
                        assert(self.conn_map@[conn_key(self.conns@[i as int])] == q);
                        assert(self.conn_map@[(SINK, 0usize)] == q);
                    }
                    let res = self.resolve(q, rank, Ghost(Some((SINK, 0usize))));
                    proof {
                        Self::lemma_advanced_trans(old(self), &before, self);
                    }
                    match res {
                        Ok(v) => {
                            proof {
                                pre_tick = *self;
                            }
                            v
                        },
                        Err(e) => {
                            self.unmark(id);
                            proof {
                                assert(self.active@ =~= old(self).active@);
                                assert(self.in_progress@ =~= old(self).in_progress@);
                            }
                            return Err(e);
                        },
                    }
                },
                None => Data::Audio(SILENCE),
            }
        } else {
            let nports = self.modules[id - 1].get_inputs().len();
            let mut port: usize = 0;
            while port < nports
                invariant
                    self.eval_wf(),
                    self.advanced(old(self)),
                    self.in_progress@ == old(self).in_progress@.update(id as int, true),
                    self.active@ == old(self).active@.insert(id as int),
                    self.active@.len() == old(self).active@.len() + 1,
                    self.active@.len() <= n + 1,
                    1 <= id <= n,
                    n == old(self).modules@.len(),
                    rate == self.sample_rate,
                    old(self).cache@[id as int] is None,
                    self.cache@[id as int] is None,
                    !old(self).in_progress@[id as int],
                    old(self).eval_wf(),
                    ranked(old(self).conn_map@, old(self).modules@.len(), rank@) ==> forall|k: int|
                        0 <= k <= old(self).modules@.len() && #[trigger] old(self).in_progress@[k] ==> rank@(
                            k as ModuleId,
                        ) > rank@(id),
                    port <= nports,
                    nports == self.modules@[id - 1].arity(),
                    forall|i: int|
                        #![trigger self.trace@[i]]
                        0 <= i < self.trace@.len() && self.trace@[i] is Send && self.trace@[i]->Send_module
                            == id ==> self.trace@[i]->Send_port < port,
                    forall|p: usize|
                        #![trigger self.conn_map@.contains_key((id, p))]
                        p < port && self.conn_map@.contains_key((id, p)) ==> {
                            &&& sent(self.trace@, id, p)
                            &&& self.cached(self.conn_map@[(id, p)]) is Some
                        },
                decreases nports - port,
            {
                let ghost loop_start = *self;
                match self.find_conn(id, port) {
                    Some(i) => {
                        let q = self.conns[i].producer;
                        let ghost before = *self;
                        proof {
                            assert(conn_key(self.conns@[i as int]) == (id, port));
                            assert(self.conn_map@.contains_key(conn_key(self.conns@[i as int])));
                            assert(self.conn_map@[(id, port)] == q);
                            assert(self.live_port(id, port));
                        }
                        let res = self.resolve(q, rank, Ghost(Some((id, port))));
                        proof {
                            Self::lemma_advanced_trans(old(self), &before, self);
                        }
                        let v = match res {
                            Ok(v) => v,
                            Err(e) => {
                                self.unmark(id);
                                proof {
                                    assert(self.active@ =~= old(self).active@);
                                    assert(self.in_progress@ =~= old(self).in_progress@);
                                }
                                return Err(e);
                            },
                        };
                        let ghost mid = *self;
                        let ghost value = v@;
                        let accepted = self.modules[id - 1].send(port, v, rate);
                        let ghost e = Event::Send {
                            module: id,
                            port,
                            value,
                            accepted,
                            rate,
                            before: mid.modules@[id - 1],
                            after: self.modules@[id - 1],
                        };
                        self.trace = Ghost(self.trace@.push(e));
                        proof {
                            assert(!ticked(mid.trace@, id)) by {
                                if ticked(mid.trace@, id) {
                                    let i = choose|i: int| 0 <= i < mid.trace@.len() && is_tick_of(#[trigger] mid.trace@[i], id);
                                    assert(event_module(mid.trace@[i]) == id);
                                }
                            }
                            lemma_push_send(mid.trace@, e);
                            lemma_push_keeps(mid.trace@, e);
                            assert(self.conn_map@[(id, port)] == q);
                            assert(self.modules@ == mid.modules@.update(id - 1, self.modules@[id - 1]));
                            Self::lemma_push_event(&mid, self, e);
                            Self::lemma_demand_kept(&mid, self);
                            assert(self.advanced(old(self)));
                        }
                        if !accepted {
                            self.unmark(id);
                            proof {
                                assert(self.active@ =~= old(self).active@);
                                assert(self.in_progress@ =~= old(self).in_progress@);
                                assert(self.trace@.drop_last() =~= mid.trace@);
                            }
                            return Err(EvalError::WrongType(id, port));
                        }
                        proof {
                            assert forall|k: ModuleId|
                                0 <= k <= n && (#[trigger] self.cache@[k as int]) is Some implies self.inputs_done(k) by {
                                assert(mid.inputs_done(k));
                                if k != SINK {
                                    assert(self.modules@[k - 1] == mid.modules@[k - 1]);
                                }
                            }
                            assert forall|j: int| 0 <= j < self.trace@.len() && (#[trigger] self.trace@[j]) is Send implies self.trace@[j]->Send_accepted by {
                                if j < mid.trace@.len() {
                                    assert(self.trace@[j] == mid.trace@[j]);
                                }
                            }
                            assert(self.eval_wf());
                        }
                    },
                    None => {},
                }
                proof {
                    assert(sent(self.trace@, id, port) || !self.conn_map@.contains_key((id, port)));
                    assert forall|p: usize|
                        #![trigger self.conn_map@.contains_key((id, p))]
                        p < port + 1 && self.conn_map@.contains_key((id, p)) implies {
                            &&& sent(self.trace@, id, p)
                            &&& self.cached(self.conn_map@[(id, p)]) is Some
                        } by {
                        if p < port {
                            assert(loop_start.conn_map@.contains_key((id, p)));
                            assert(sent(loop_start.trace@, id, p));
                            let x = self.conn_map@[(id, p)];
                            assert(loop_start.cached(x) is Some);
                            assert(loop_start.cache@[x as int] is Some);
                            assert(self.cache@[x as int] is Some);
                            let w = choose|i: int| 0 <= i < loop_start.trace@.len() && is_send_to(#[trigger] loop_start.trace@[i], id, p);
                            assert(self.trace@[w] == loop_start.trace@[w]);
                        }
                    }
                }
                port = port + 1;
            }
            let ghost mid = *self;
            let out = self.modules[id - 1].tick(rate);
            let ghost outm: Option<DataModel> = match &out {
                Some(d) => Some(d@),
                None => None,
            };
            let ghost e = Event::Tick { module: id, out: outm, rate, before: mid.modules@[id - 1], after: self.modules@[id - 1] };
            proof {
                pre_tick = mid;
                tick_event = e;
            }
            self.trace = Ghost(self.trace@.push(e));
            proof {
                assert(!ticked(mid.trace@, id)) by {
                    if ticked(mid.trace@, id) {
                        let i = choose|i: int| 0 <= i < mid.trace@.len() && is_tick_of(#[trigger] mid.trace@[i], id);
                        assert(event_module(mid.trace@[i]) == id);
                    }
                }
                lemma_push_tick(mid.trace@, e);
                lemma_push_keeps(mid.trace@, e);
                assert forall|p: usize|
                    #![trigger self.conn_map@.contains_key((id, p))]
                    p < self.modules@[id - 1].arity() && self.conn_map@.contains_key((id, p)) implies {
                        &&& sent(self.trace@, id, p)
                        &&& self.cached(self.conn_map@[(id, p)]) is Some
                    } by {
                    assert(sent(mid.trace@, id, p));
                }
                assert forall|k: ModuleId|
                    1 <= k <= n && (#[trigger] self.cache@[k as int]) is Some implies ticked(self.trace@, k) by {
                    assert(ticked(mid.trace@, k));
                }
                assert forall|k: ModuleId|
                    0 <= k <= n && (#[trigger] self.cache@[k as int]) is Some implies self.inputs_done(k) by {
                    assert(mid.inputs_done(k));
                    if k != SINK {
                        assert(self.modules@[k - 1] == mid.modules@[k - 1]);
                    }
                }
            }
            match out {
                Some(d) => d,
                None => Data::default_for(self.modules[id - 1].get_output_type()),
            }
        };
        let ghost pre = *self;
        self.cache.set(id, Some(value.duplicate()));
        self.unmark(id);
        proof {
            assert(self.active@ =~= old(self).active@);
            assert(self.in_progress@ =~= old(self).in_progress@);
            assert(self.struct_wf());
            let t = self.trace@;
            if id == SINK {
                assert forall|i: int| 0 <= i < pre.trace@.len() implies event_module(#[trigger] pre.trace@[i]) != 0 by {
                    let x = pre.trace@[i];
                    if x is Send {
                        assert(1 <= x->Send_module);
                    } else {
                        assert(1 <= x->Tick_module);
                    }
                }
                assert forall|k: int| 0 <= k < pre.cache@.len() && k != 0 implies #[trigger] self.cache@[k] == pre.cache@[k] by {}
                Self::lemma_cache_fresh(&pre, self, id);
            } else {
                assert(self.modules@ == pre_tick.modules@.update(id - 1, event_after(tick_event)));
                assert forall|k: int| 0 <= k < pre_tick.cache@.len() && k != id implies #[trigger] self.cache@[k] == pre_tick.cache@[k] by {
                    assert(pre.cache@[k] == pre_tick.cache@[k]);
                }
                assert(event_before(tick_event) == pre_tick.modules@[id - 1]);
                assert(event_holds(tick_event));
                assert(ticks_unique(self.trace@));
                assert(sends_in_order(self.trace@));
                assert(pre_tick.cache@[id as int] is None);
                assert(self.cached(id) == Some(resolved(tick_event->Tick_out, event_before(tick_event).out_kind())));
                assert(self.trace@ == pre_tick.trace@.push(tick_event));
                Self::lemma_push_event(&pre_tick, self, tick_event);
            }
            assert(self.consistent());
            assert(self.advanced(old(self)));
            assert forall|k: ModuleId|
                1 <= k <= n && (#[trigger] self.cache@[k as int]) is Some implies ticked(t, k) by {
                if k != id {
                    assert(pre.cache@[k as int] == self.cache@[k as int]);
                }
            }
            assert(self.inputs_done(id));
            assert forall|k: ModuleId|
                0 <= k <= n && (#[trigger] self.cache@[k as int]) is Some implies self.inputs_done(k) by {
                if k != id {
                    assert(pre.cache@[k as int] == self.cache@[k as int]);
                    assert(pre.inputs_done(k));
                }
            }
            Self::lemma_demand_kept(&pre_tick, self);
            assert forall|k: ModuleId| 0 <= k <= n && (#[trigger] self.cache@[k as int]) is Some implies self.demanded(k) by {
                if k != id {
                    assert(pre_tick.cache@[k as int] is Some);
                    assert(pre_tick.demanded(k));
                } else {
                    match via@ {
                        None => {},
                        Some((c, p)) => {
                            assert(self.conn_map@.contains_key((c, p)));
                            if c != SINK {
                                assert(self.modules@[c - 1].arity() == old(self).modules@[c - 1].arity());
                            }
                        },
                    }
                }
            }
            assert(self.eval_rest());
            assert(self.evolved(old(self)));
            assert(self.eval_wf());
        }
        Ok(value)
    }

    proof fn lemma_same_eval(a: &Self, b: &Self)
        requires
            a.consistent(),
            a.cache@ == b.cache@,
            a.trace@ == b.trace@,
            a.conn_map@ == b.conn_map@,
            a.modules@ == b.modules@,
            a.start@ == b.start@,
        ensures
            b.consistent(),
    {
        reveal(calls_chained);
        assert forall|k: ModuleId| #[trigger] b.cached(k) == a.cached(k) by {}
        assert forall|k: ModuleId| #[trigger] b.module_at(k) == a.module_at(k) by {}
        let t = b.trace@;
        assert forall|j: int| 0 <= j < t.len() && (#[trigger] t[j]) is Tick implies {
            let k = t[j]->Tick_module;
            &&& 1 <= k <= b.modules().len()
            &&& b.cached(k) == Some(resolved(t[j]->Tick_out, b.module_at(k).out_kind()))
        } by {
            let k = t[j]->Tick_module;
            assert(b.modules@[k - 1].out_kind() == a.modules@[k - 1].out_kind());
        }
    }

    /// Recording one more call keeps the trace consistent, where the call
    /// started from the module's current state, did what its contract says,
    /// and (for a tick) its value was stored for a module that had none.
    proof fn lemma_push_event(a: &Self, b: &Self, e: Event<M>)
        requires
            a.consistent(),
            b.trace@ == a.trace@.push(e),
            b.conn_map@ == a.conn_map@,
            b.start@ == a.start@,
            1 <= event_module(e) <= a.modules@.len(),
            b.modules@ == a.modules@.update(event_module(e) - 1, event_after(e)),
            event_before(e) == a.modules@[event_module(e) - 1],
            event_after(e).out_kind() == event_before(e).out_kind(),
            event_holds(e),
            ticks_unique(b.trace@),
            sends_in_order(b.trace@),
            b.cache@.len() == a.cache@.len(),
            a.cache@.len() == a.modules@.len() + 1,
            a.modules@.len() + 2 <= usize::MAX,
            forall|k: int| 0 <= k < a.cache@.len() && k != event_module(e) ==> #[trigger] b.cache@[k] == a.cache@[k],
            e is Send ==> {
                &&& b.cache@[event_module(e) as int] == a.cache@[event_module(e) as int]
                &&& a.conn_map@.contains_key((e->Send_module, e->Send_port))
                &&& a.cached(a.conn_map@[(e->Send_module, e->Send_port)]) == Some(e->Send_value)
            },
            e is Tick ==> {
                &&& a.cache@[event_module(e) as int] is None
                &&& b.cached(event_module(e)) == Some(resolved(e->Tick_out, event_before(e).out_kind()))
            },
        ensures
            b.consistent(),
    {
        reveal(calls_chained);
        let m = event_module(e);
        let t = a.trace@;
        let u = b.trace@;
        assert forall|k: ModuleId| a.cached(k) is Some implies #[trigger] b.cached(k) == a.cached(k) by {
            if k != m {
                assert(b.cache@[k as int] == a.cache@[k as int]);
            }
        }
        assert(a.modules@[m - 1] == state_after(t, a.start@[m - 1], m, t.len() as int));
        assert forall|i: int| 0 <= i < u.len() implies {
            &&& 1 <= event_module(#[trigger] u[i]) <= b.modules@.len()
            &&& event_holds(u[i])
            &&& event_before(u[i]) == state_after(u, b.start@[event_module(u[i]) - 1], event_module(u[i]), i)
        } by {
            let k = event_module(u[i]);
            if i < t.len() {
                assert(u[i] == t[i]);
                lemma_state_after_push(t, e, a.start@[k - 1], k, i);
            } else {
                assert(u[i] == e);
                lemma_state_after_push(t, e, a.start@[m - 1], m, t.len() as int);
            }
        }
        assert forall|k: int| 1 <= k <= b.modules@.len() implies #[trigger] b.modules@[k - 1] == state_after(
            u,
            b.start@[k - 1],
            k as ModuleId,
            u.len() as int,
        ) by {
            lemma_state_after_push(t, e, a.start@[k - 1], k as ModuleId, t.len() as int);
            assert(u[t.len() as int] == e);
            assert(a.modules@[k - 1] == state_after(t, a.start@[k - 1], k as ModuleId, t.len() as int));
        }
        assert forall|i: int| 0 <= i < u.len() && (#[trigger] u[i]) is Send implies {
            let (k, p) = (u[i]->Send_module, u[i]->Send_port);
            &&& 1 <= k <= b.modules().len()
            &&& b.conns().contains_key((k, p))
            &&& b.cached(b.conns()[(k, p)]) == Some(u[i]->Send_value)
        } by {
            if i < t.len() {
                assert(u[i] == t[i]);
            }
        }
        assert forall|i: int| 0 <= i < u.len() && (#[trigger] u[i]) is Tick implies {
            let k = u[i]->Tick_module;
            &&& 1 <= k <= b.modules().len()
            &&& b.cached(k) == Some(resolved(u[i]->Tick_out, b.module_at(k).out_kind()))
        } by {
            let k = u[i]->Tick_module;
            if i < t.len() {
                assert(u[i] == t[i]);
                assert(a.cached(k) is Some);
            }
        }
    }

    /// Storing a value for a module that had none and no call this tick (the
    /// sink) keeps the trace consistent.
    proof fn lemma_cache_fresh(a: &Self, b: &Self, m: ModuleId)
        requires
            a.consistent(),
            b.trace@ == a.trace@,
            b.conn_map@ == a.conn_map@,
            b.start@ == a.start@,
            b.modules@ == a.modules@,
            m < a.cache@.len(),
            a.cache@.len() == a.modules@.len() + 1,
            a.cache@[m as int] is None,
            b.cache@.len() == a.cache@.len(),
            forall|k: int| 0 <= k < a.cache@.len() && k != m ==> #[trigger] b.cache@[k] == a.cache@[k],
            forall|i: int| 0 <= i < a.trace@.len() ==> event_module(#[trigger] a.trace@[i]) != m,
        ensures
            b.consistent(),
    {
        reveal(calls_chained);
        assert forall|k: ModuleId| a.cached(k) is Some implies #[trigger] b.cached(k) == a.cached(k) by {
            if k != m {
                assert(b.cache@[k as int] == a.cache@[k as int]);
            }
        }
        assert forall|k: ModuleId| #[trigger] b.module_at(k) == a.module_at(k) by {}
        let t = b.trace@;
        assert forall|i: int| 0 <= i < t.len() && (#[trigger] t[i]) is Tick implies {
            let k = t[i]->Tick_module;
            &&& 1 <= k <= b.modules().len()
            &&& b.cached(k) == Some(resolved(t[i]->Tick_out, b.module_at(k).out_kind()))
        } by {
            assert(a.cached(t[i]->Tick_module) is Some);
        }
        assert forall|i: int| 0 <= i < t.len() && (#[trigger] t[i]) is Send implies {
            let (k, p) = (t[i]->Send_module, t[i]->Send_port);
            &&& 1 <= k <= b.modules().len()
            &&& b.conns().contains_key((k, p))
            &&& b.cached(b.conns()[(k, p)]) == Some(t[i]->Send_value)
        } by {
            assert(a.cached(a.conn_map@[(t[i]->Send_module, t[i]->Send_port)]) is Some);
        }
    }

    /// Records that the evaluation failed, keeping its values and trace.
    fn mark_failed(&mut self)
        requires
            old(self).struct_wf(),
            old(self).consistent(),
            old(self).active@ == Set::<int>::empty(),
        ensures
            final(self).wf(),
            final(self).stale,
            final(self).start@ == old(self).start@,
            final(self).modules@ == old(self).modules@,
            final(self).conns@ == old(self).conns@,
            final(self).conn_map@ == old(self).conn_map@,
            final(self).cache@ == old(self).cache@,
            final(self).trace@ == old(self).trace@,
            final(self).selection == old(self).selection,
            final(self).sample_rate == old(self).sample_rate,
    {
        let ghost before = *self;
        self.stale = true;
        proof {
            Self::lemma_conns_kept(&before, self);
            assert(self.struct_wf());
            Self::lemma_same_eval(&before, self);
        }
    }

    /// Forgets the values and the trace of the current tick.
    fn reset_tick(&mut self)
        requires
            old(self).struct_wf(),
            old(self).active@ == Set::<int>::empty(),
        ensures
            final(self).wf(),
            !final(self).stale,
            final(self).modules@ == old(self).modules@,
            final(self).conns@ == old(self).conns@,
            final(self).conn_map@ == old(self).conn_map@,
            final(self).selection == old(self).selection,
            final(self).sample_rate == old(self).sample_rate,
            final(self).trace@ == Seq::<Event<M>>::empty(),
            final(self).start@ == old(self).modules@,
            final(self).roots@ == Set::<ModuleId>::empty(),
            forall|k: int| 0 <= k < final(self).cache@.len() ==> final(self).cache@[k] is None,
    {
        let mut i: usize = 0;
        while i < self.cache.len()
            invariant
                self.struct_wf(),
                self.active@ == Set::<int>::empty(),
                i <= self.cache@.len(),
                self.modules@ == old(self).modules@,
                self.conns@ == old(self).conns@,
                self.conn_map@ == old(self).conn_map@,
                self.selection == old(self).selection,
                self.sample_rate == old(self).sample_rate,
                forall|k: int| 0 <= k < i ==> self.cache@[k] is None,
            decreases self.cache@.len() - i,
        {
            let ghost before = *self;
            self.cache.set(i, None);
            proof {
                Self::lemma_conns_kept(&before, self);
                assert forall|k: int|
                    0 <= k <= self.modules@.len() && #[trigger] self.cache@[k] is Some implies !self.in_progress@[k] by {
                    assert(before.cache@[k] == self.cache@[k]);
                }
            }
            i = i + 1;
        }
        let ghost before = *self;
        self.trace = Ghost(Seq::empty());
        self.stale = false;
        self.start = Ghost(self.modules@);
        self.roots = Ghost(Set::empty());
        proof {
            reveal(calls_chained);
            Self::lemma_conns_kept(&before, self);
            assert(self.struct_wf());
            assert(self.eval_wf());
        }
    }

    /// The value of module `id` for the current tick. Each module is computed
    /// at most once per tick; a value already computed is returned as it is.
    /// After an error the values and the trace are kept for inspection, and
    /// forgotten at the next call.
    pub fn get_output(&mut self, id: ModuleId) -> (r: Result<Data, EvalError>)
        requires
            old(self).wf(),
        ensures
            final(self).wf(),
            final(self).modules().len() == old(self).modules().len(),
            final(self).conns() == old(self).conns(),
            final(self).selected() == old(self).selected(),
            final(self).rate() == old(self).rate(),
            final(self).consistent(),
            old(self).failed() ==> final(self).tick_start() == old(self).modules(),
            !old(self).failed() ==> final(self).tick_start() == old(self).tick_start(),
            r is Ok ==> final(self).cached(id) == Some(r->Ok_0@) && sends_taken(final(self).trace()),
            r is Err ==> failure_recorded(final(self).trace(), r->Err_0),
            !old(self).valid_id(id) ==> r == Err::<Data, EvalError>(EvalError::UnknownModule(id)),
            acyclic(old(self).conns(), old(self).modules().len()) && old(self).valid_id(id) ==> r is Ok
                || r->Err_0 is WrongType,
            !old(self).failed() && old(self).cached(id) is Some ==> r is Ok && final(self).cached(id)
                == old(self).cached(id) && final(self).trace() == old(self).trace(),
            id == SINK && old(self).cached(SINK) is None && !old(self).conns().contains_key((SINK, 0))
                ==> r is Ok && r->Ok_0@ == DataModel::Audio(SILENCE),
    {
        if self.stale {
            self.reset_tick();
        }
        proof {
            assert(!self.active@.contains(0));
            assert(self.in_progress@[0] <==> self.active@.contains(0));
        }
        let ghost rank = choose|rank: spec_fn(ModuleId) -> nat| ranked(self.conn_map@, self.modules@.len(), rank);
        proof {
            assert forall|k: int| 0 <= k <= self.modules@.len() implies !self.in_progress@[k] by {
                assert(!self.active@.contains(k));
            }
        }
        let ghost before = *self;
        self.roots = Ghost(self.roots@.insert(id));
        proof {
            Self::lemma_conns_kept(&before, self);
            Self::lemma_demand_kept(&before, self);
        }
        let res = self.resolve(id, Ghost(rank), Ghost(None));
        if res.is_err() {
            self.mark_failed();
        }
        res
    }

    /// The tick that produced `out` is complete: every module that the sink
    /// depends on was ticked, once, after all its connected ports were sent
    /// their values and took them, and the sink's producer gave `out`. Only
    /// modules with a value were called, and each of them feeds a live port
    /// of another module with a value (or the sink), so nothing the sink does
    /// not pull from was evaluated.
    pub open spec fn evaluated(&self, out: Sample) -> bool {
        let t = self.trace();
        &&& sends_taken(t)
        &&& self.cached(SINK) == Some(DataModel::Audio(out))
        &&& self.conns().contains_key((SINK, 0)) ==> self.cached(self.conns()[(SINK, 0)]) == Some(
            DataModel::Audio(out),
        )
        &&& forall|k: ModuleId| #[trigger] ticked(t, k) ==> self.cached(k) is Some
        &&& forall|i: int| 0 <= i < t.len() ==> self.cached(event_module(#[trigger] t[i])) is Some
        &&& forall|k: ModuleId| 1 <= k && (#[trigger] self.cached(k)) is Some ==> ticked(t, k)
        &&& forall|k: ModuleId|
            1 <= k && (#[trigger] self.cached(k)) is Some ==> exists|c: ModuleId, p: usize|
                #![trigger self.conns().contains_key((c, p))]
                self.conns().contains_key((c, p)) && self.conns()[(c, p)] == k && self.cached(c) is Some
                    && if c == SINK { p == 0 } else { p < self.module_at(c).arity() }
        &&& forall|k: ModuleId, p: usize|
            #![trigger self.cached(k), self.conns().contains_key((k, p))]
            1 <= k && self.cached(k) is Some && p < self.module_at(k).arity()
                && self.conns().contains_key((k, p)) ==> {
                &&& sent(t, k, p)
                &&& self.cached(self.conns()[(k, p)]) is Some
            }
    }

    /// Computes one output sample: forgets the values of the previous tick,
    /// then pulls the sink's value through the graph. After an error the
    /// values and the trace of the tick are kept for inspection.
    pub fn tick(&mut self) -> (r: Result<Sample, EvalError>)
        requires
            old(self).wf(),
        ensures
            final(self).wf(),
            final(self).modules().len() == old(self).modules().len(),
            forall|i: int|
                0 <= i < old(self).modules().len() ==> (#[trigger] final(self).modules()[i]).arity()
                    == old(self).modules()[i].arity() && final(self).modules()[i].out_kind()
                    == old(self).modules()[i].out_kind(),
            final(self).conns() == old(self).conns(),
            final(self).selected() == old(self).selected(),
            final(self).rate() == old(self).rate(),
            final(self).consistent(),
            final(self).tick_start() == old(self).modules(),
            !old(self).conns().contains_key((SINK, 0)) ==> r == Ok::<Sample, EvalError>(SILENCE)
                && final(self).trace() == Seq::<Event<M>>::empty() && final(self).modules() == old(self).modules(),
            old(self).conns().contains_key((SINK, 0)) ==> {
                let q = old(self).conns()[(SINK, 0)];
                &&& !old(self).valid_id(q) ==> r == Err::<Sample, EvalError>(EvalError::UnknownModule(q))
                &&& q == SINK ==> r == Err::<Sample, EvalError>(EvalError::Cycle(SINK))
            },
            r is Ok ==> final(self).evaluated(r->Ok_0),
            r is Err ==> failure_recorded(final(self).trace(), r->Err_0),
            r == Err::<Sample, EvalError>(EvalError::SinkNotAudio) <==> final(self).cached(SINK) is Some
                && final(self).cached(SINK)->Some_0 is Notes,
            acyclic(old(self).conns(), old(self).modules().len()) ==> r is Ok || r->Err_0 is WrongType
                || r->Err_0 is SinkNotAudio,
    {
        self.reset_tick();
        proof {
            assert(!self.active@.contains(0));
            assert(self.in_progress@[0] <==> self.active@.contains(0));
            assert(self.cache@[0] is None);
        }
        let ghost rank = choose|rank: spec_fn(ModuleId) -> nat| ranked(self.conn_map@, self.modules@.len(), rank);
        proof {
            assert forall|k: int| 0 <= k <= self.modules@.len() implies !self.in_progress@[k] by {
                assert(!self.active@.contains(k));
            }
        }
        let ghost before = *self;
        self.roots = Ghost(self.roots@.insert(SINK));
        let ghost roots = self.roots@;
        proof {
            Self::lemma_conns_kept(&before, self);
        }
        let res = self.resolve(SINK, Ghost(rank), Ghost(None));
        match res {
            Ok(Data::Audio(out)) => {
                proof {
                    let t = self.trace@;
                    assert forall|k: ModuleId| #[trigger] ticked(t, k) implies self.cached(k) is Some by {
                        let i = choose|i: int| 0 <= i < t.len() && is_tick_of(#[trigger] t[i], k);
                        assert(event_module(t[i]) == k);
                    }
                    assert forall|k: ModuleId, p: usize|
                        #![trigger self.cached(k), self.conns().contains_key((k, p))]
                        1 <= k && self.cached(k) is Some && p < self.module_at(k).arity()
                            && self.conns().contains_key((k, p)) implies {
                            &&& sent(t, k, p)
                            &&& self.cached(self.conns()[(k, p)]) is Some
                        } by {
                        assert(self.inputs_done(k));
                    }
                    assert(self.cached(SINK) == Some(DataModel::Audio(out)));
                    assert forall|k: ModuleId|
                        1 <= k && (#[trigger] self.cached(k)) is Some implies exists|c: ModuleId, p: usize|
                            #![trigger self.conns().contains_key((c, p))]
                            self.conns().contains_key((c, p)) && self.conns()[(c, p)] == k && self.cached(c) is Some
                                && if c == SINK { p == 0 } else { p < self.module_at(c).arity() } by {
                        assert(self.cache@[k as int] is Some);
                        assert(self.demanded(k));
                        assert(self.roots@ == roots);
                        assert(!self.roots@.contains(k));
                        let (c, p) = choose|c: ModuleId, p: usize|
                            #![trigger self.conn_map@.contains_key((c, p))]
                            self.conn_map@.contains_key((c, p)) && self.conn_map@[(c, p)] == k && self.live_port(c, p)
                                && (self.in_progress@[c as int] || self.cache@[c as int] is Some);
                        assert(!self.active@.contains(c as int));
                        assert(self.conns().contains_key((c, p)));
                    }
                    assert forall|i: int| 0 <= i < t.len() implies self.cached(event_module(#[trigger] t[i])) is Some by {
                        let k = event_module(t[i]) as int;
                        assert(!self.active@.contains(k));
                    }
                    assert forall|k: ModuleId| 1 <= k && (#[trigger] self.cached(k)) is Some implies ticked(t, k) by {
                        assert(self.cache@[k as int] is Some);
                    }
                }
                Ok(out)
            },
            Ok(Data::Notes(_)) => {
                self.mark_failed();
                Err(EvalError::SinkNotAudio)
            },
            Err(e) => {
                self.mark_failed();
                Err(e)
            },
        }
    }

    /// The module with id `id`.
    pub fn module(&self, id: ModuleId) -> (r: &M)
        requires
            1 <= id <= self.modules().len(),
        ensures
            *r == self.module_at(id),
    {
        &self.modules[id - 1]
    }

    /// Records which module the editor has selected; not used by evaluation.
    pub fn set_selection(&mut self, selection: Option<ModuleId>)
        requires
            old(self).wf(),
        ensures
            final(self).wf(),
            final(self).selected() == selection,
            final(self).modules() == old(self).modules(),
            final(self).conns() == old(self).conns(),
            final(self).trace() == old(self).trace(),
            final(self).rate() == old(self).rate(),
    {
        let ghost before = *self;
        self.selection = selection;
        proof {
            Self::lemma_same_eval(&before, self);
            Self::lemma_conns_kept(&before, self);
            if !before.stale {
                assert forall|k: ModuleId| 0 <= k <= self.modules@.len() && (#[trigger] self.cache@[k as int]) is Some implies self.inputs_done(k) by {
                    assert(before.inputs_done(k));
                }
            }
        }
    }

    /// The module that the editor has selected.
    pub fn selection(&self) -> (r: Option<ModuleId>)
        ensures
            r == self.selected(),
    {
        self.selection
    }

    /// Sets the sample rate handed to the modules on every `send` and `tick`.
    pub fn set_sample_rate(&mut self, sample_rate: u32)
        requires
            old(self).wf(),
        ensures
            final(self).wf(),
            final(self).rate() == sample_rate,
            final(self).modules() == old(self).modules(),
            final(self).conns() == old(self).conns(),
            final(self).trace() == old(self).trace(),
            final(self).selected() == old(self).selected(),
    {
        let ghost before = *self;
        self.sample_rate = sample_rate;
        proof {
            Self::lemma_same_eval(&before, self);
            Self::lemma_conns_kept(&before, self);
            if !before.stale {
                assert forall|k: ModuleId| 0 <= k <= self.modules@.len() && (#[trigger] self.cache@[k as int]) is Some implies self.inputs_done(k) by {
                    assert(before.inputs_done(k));
                }
            }
        }
    }

    /// The sample rate handed to the modules.
    pub fn get_sample_rate(&self) -> (r: u32)
        ensures
            r == self.rate(),
    {
        self.sample_rate
    }

    /// Hands an out-of-band command to module `id`; gives whether the module
    /// supports it. The module's change starts a new tick.
    pub fn execute(&mut self, id: ModuleId, cmd: &str) -> (supported: bool)
        requires
            old(self).wf(),
            1 <= id <= old(self).modules().len(),
        ensures
            final(self).wf(),
            final(self).modules().len() == old(self).modules().len(),
            old(self).module_at(id).executes_to(cmd.spec_bytes(), final(self).module_at(id), supported),
            forall|k: ModuleId| 1 <= k <= old(self).modules().len() && k != id ==> #[trigger] final(self).module_at(k)
                == old(self).module_at(k),
            final(self).conns() == old(self).conns(),
            final(self).trace() == Seq::<Event<M>>::empty(),
            final(self).tick_start() == final(self).modules(),
            final(self).selected() == old(self).selected(),
            final(self).rate() == old(self).rate(),
    {
        let ghost before = *self;
        let supported = self.modules[id - 1].execute(cmd);
        proof {
            Self::lemma_module_replaced(&before, self, id);
        }
        self.reset_tick();
        supported
    }

    /// Hands a click at `(x, y)` on module `id`'s view of `width` by `height`
    /// pixels (with the left button where `left`) to the module; gives
    /// whether the module changed. The module's change starts a new tick.
    pub fn interact(&mut self, id: ModuleId, x: u32, y: u32, width: u32, height: u32, left: bool) -> (changed: bool)
        requires
            old(self).wf(),
            1 <= id <= old(self).modules().len(),
        ensures
            final(self).wf(),
            final(self).modules().len() == old(self).modules().len(),
            old(self).module_at(id).interacts_to(x, y, width, height, left, final(self).module_at(id), changed),
            forall|k: ModuleId| 1 <= k <= old(self).modules().len() && k != id ==> #[trigger] final(self).module_at(k)
                == old(self).module_at(k),
            final(self).conns() == old(self).conns(),
            final(self).trace() == Seq::<Event<M>>::empty(),
            final(self).tick_start() == final(self).modules(),
            final(self).selected() == old(self).selected(),
            final(self).rate() == old(self).rate(),
    {
        let ghost before = *self;
        let changed = self.modules[id - 1].interact(x, y, width, height, left);
        proof {
            Self::lemma_module_replaced(&before, self, id);
        }
        self.reset_tick();
        changed
    }

    /// Changing one module in place, keeping its well-formedness, keeps the
    /// session's structure well formed.
    proof fn lemma_module_replaced(a: &Self, b: &Self, id: ModuleId)
        requires
            a.wf(),
            1 <= id <= a.modules@.len(),
            b.modules@.len() == a.modules@.len(),
            b.modules@[id - 1].inv(),
            forall|i: int| 0 <= i < a.modules@.len() && i != id - 1 ==> #[trigger] b.modules@[i] == a.modules@[i],
            b.conns@ == a.conns@,
            b.conn_map@ == a.conn_map@,
            b.cache@ == a.cache@,
            b.in_progress@ == a.in_progress@,
            b.active@ == a.active@,
            b.selection == a.selection,
            b.sample_rate == a.sample_rate,
        ensures
            b.struct_wf(),
            b.active@ == Set::<int>::empty(),
            forall|k: ModuleId| 1 <= k <= a.modules@.len() && k != id ==> #[trigger] b.module_at(k) == a.module_at(k),
    {
        Self::lemma_conns_kept(a, b);
        assert forall|i: int| 0 <= i < b.modules@.len() implies (#[trigger] b.modules@[i]).inv() by {
            if i != id - 1 {
                assert(b.modules@[i] == a.modules@[i]);
            }
        }
        assert forall|k: ModuleId| 1 <= k <= a.modules@.len() && k != id implies #[trigger] b.module_at(k) == a.module_at(k) by {
            assert(b.modules@[k - 1] == a.modules@[k - 1]);
        }
    }

    /// The connection table's well-formedness depends on the table alone.
    proof fn lemma_conns_kept(a: &Self, b: &Self)
        requires
            a.conns_wf(),
            b.conns@ == a.conns@,
            b.conn_map@ == a.conn_map@,
        ensures
            b.conns_wf(),
    {
    }

    /// A module that no call of the current tick concerns is as it was when
    /// the tick began.
    pub proof fn lemma_untouched(&self, k: ModuleId)
        requires
            self.consistent(),
            1 <= k <= self.modules().len(),
            forall|j: int| 0 <= j < self.trace().len() ==> event_module(#[trigger] self.trace()[j]) != k,
        ensures
            self.module_at(k) == self.tick_start()[k - 1],
    {
        reveal(calls_chained);
        let t = self.trace();
        assert(self.modules()[k as int - 1] == state_after(t, self.tick_start()[k - 1], k, t.len() as int));
        lemma_state_after_untouched(t, self.tick_start()[k - 1], k, t.len() as int);
    }

    /// After a tick that produced `out`, the sink's producer `q` was ticked
    /// by a call that did what `q`'s contract says and whose result (or the
    /// default for `q`'s kind of output, where it gave none) is `out`.
    pub proof fn lemma_sink_value(&self, out: Sample)
        requires
            self.consistent(),
            self.evaluated(out),
            self.conns().contains_key((SINK, 0)),
            self.conns()[(SINK, 0)] != SINK,
        ensures
            ({
                let q = self.conns()[(SINK, 0)];
                let t = self.trace();
                exists|i: int|
                    0 <= i < t.len() && is_tick_of(#[trigger] t[i], q)
                        && event_before(t[i]).ticks_to(t[i]->Tick_rate, event_after(t[i]), t[i]->Tick_out)
                        && resolved(t[i]->Tick_out, self.module_at(q).out_kind()) == DataModel::Audio(out)
            }),
    {
        reveal(calls_chained);
        let q = self.conns()[(SINK, 0)];
        let t = self.trace();
        assert(self.cached(q) is Some);
        assert(ticked(t, q));
        let i = choose|i: int| 0 <= i < t.len() && is_tick_of(#[trigger] t[i], q);
        assert(event_holds(t[i]));
        assert(self.cached(q) == Some(resolved(t[i]->Tick_out, self.module_at(q).out_kind())));
    }
}

} // verus!
