use musikjj::{App, Data, DataType, EvalError, Module, ModuleId, Note, Sample, SINK, SILENCE, UNIT};
use std::cell::RefCell;
use std::rc::Rc;

/// A module for instrumenting the evaluator: it records every call in a
/// shared log and outputs a fixed value.
struct Probe {
    name: u32,
    ports: usize,
    kind: DataType,
    output: Option<Data>,
    received: Vec<Data>,
    refuse: bool,
    log: Rc<RefCell<Vec<(u32, &'static str, usize)>>>,
}

impl Probe {
    fn new(name: u32, ports: usize, output: Option<Data>, log: &Rc<RefCell<Vec<(u32, &'static str, usize)>>>) -> Probe {
        let kind = match output {
            Some(Data::Notes(_)) => DataType::Notes,
            _ => DataType::Audio,
        };
        Probe { name, ports, kind, output, received: Vec::new(), refuse: false, log: Rc::clone(log) }
    }
}

impl Module for Probe {
    fn title(&self) -> &'static str {
        "Probe"
    }

    fn get_output_type(&self) -> DataType {
        self.kind
    }

    fn get_inputs(&self) -> Vec<(DataType, &'static str)> {
        vec![(DataType::Audio, "in"); self.ports]
    }

    fn tick(&mut self, _sample_rate: u32) -> Option<Data> {
        self.log.borrow_mut().push((self.name, "tick", 0));
        self.output.clone()
    }

    fn send(&mut self, input: usize, data: Data, _sample_rate: u32) -> bool {
        self.log.borrow_mut().push((self.name, "send", input));
        self.received.push(data);
        !self.refuse
    }

    fn interact(&mut self, _x: u32, _y: u32, _width: u32, _height: u32, _left: bool) -> bool {
        false
    }

    fn execute(&mut self, _cmd: &str) -> bool {
        false
    }
}

fn new_log() -> Rc<RefCell<Vec<(u32, &'static str, usize)>>> {
    Rc::new(RefCell::new(Vec::new()))
}

#[test]
fn empty_graph_ticks_silence() {
    let mut app: App<Probe> = App::new();
    for _ in 0..10 {
        assert_eq!(app.tick(), Ok(SILENCE));
    }
    assert_eq!(app.get_output(SINK), Ok(Data::Audio(0)));
}

#[test]
fn unconnected_modules_are_not_ticked() {
    let log = new_log();
    let mut app: App<Probe> = App::new();
    app.insert_module(Probe::new(1, 0, Some(Data::Audio(5)), &log));
    assert_eq!(app.tick(), Ok(SILENCE));
    assert!(log.borrow().is_empty());
}

#[test]
fn insert_module_assigns_increasing_ids() {
    let log = new_log();
    let mut app: App<Probe> = App::new();
    assert_eq!(app.next_id(), 1);
    let a = app.insert_module(Probe::new(1, 0, None, &log));
    let b = app.insert_module(Probe::new(2, 0, None, &log));
    let c = app.insert_module(Probe::new(3, 0, None, &log));
    assert_eq!((a, b, c), (1, 2, 3));
    assert_eq!(app.module_count(), 3);
    assert_eq!(app.module(2).name, 2);
}

#[test]
fn shared_upstream_is_ticked_once_per_tick() {
    let log = new_log();
    let mut app: App<Probe> = App::new();
    let source = app.insert_module(Probe::new(1, 0, Some(Data::Audio(7)), &log));
    let left = app.insert_module(Probe::new(2, 1, Some(Data::Audio(1)), &log));
    let right = app.insert_module(Probe::new(3, 1, Some(Data::Audio(2)), &log));
    let join = app.insert_module(Probe::new(4, 2, Some(Data::Audio(3)), &log));
    app.connect(source, (left, 0));
    app.connect(source, (right, 0));
    app.connect(left, (join, 0));
    app.connect(right, (join, 1));
    app.connect(join, (SINK, 0));
    for round in 1..=5 {
        assert_eq!(app.tick(), Ok(3));
        let ticks = log.borrow().iter().filter(|e| e.0 == 1 && e.1 == "tick").count();
        assert_eq!(ticks, round);
    }
}

#[test]
fn ports_are_sent_in_order_before_tick() {
    let log = new_log();
    let mut app: App<Probe> = App::new();
    let a = app.insert_module(Probe::new(1, 0, Some(Data::Audio(1)), &log));
    let b = app.insert_module(Probe::new(2, 0, Some(Data::Audio(2)), &log));
    let c = app.insert_module(Probe::new(3, 2, Some(Data::Audio(9)), &log));
    app.connect(b, (c, 1));
    app.connect(a, (c, 0));
    app.connect(c, (SINK, 0));
    assert_eq!(app.tick(), Ok(9));
    let events: Vec<(u32, &'static str, usize)> = log.borrow().iter().filter(|e| e.0 == 3).cloned().collect();
    assert_eq!(events, vec![(3, "send", 0), (3, "send", 1), (3, "tick", 0)]);
    let all = log.borrow().clone();
    assert_eq!(all, vec![(1, "tick", 0), (3, "send", 0), (2, "tick", 0), (3, "send", 1), (3, "tick", 0)]);
}

#[test]
fn connect_twice_restores_table() {
    let log = new_log();
    let mut app: App<Probe> = App::new();
    let p = app.insert_module(Probe::new(1, 0, None, &log));
    let c = app.insert_module(Probe::new(2, 1, None, &log));
    let other = app.insert_module(Probe::new(3, 0, None, &log));
    app.connect(other, (c, 0));
    let before = app.connections();
    app.connect(p, (SINK, 0));
    assert_eq!(app.connection(SINK, 0), Some(p));
    app.connect(p, (SINK, 0));
    assert_eq!(app.connection(SINK, 0), None);
    assert_eq!(app.connections(), before);
}

#[test]
fn connect_overwrites_port_in_use() {
    let log = new_log();
    let mut app: App<Probe> = App::new();
    let x = app.insert_module(Probe::new(1, 0, None, &log));
    let y = app.insert_module(Probe::new(2, 1, None, &log));
    let z = app.insert_module(Probe::new(3, 0, None, &log));
    app.connect(x, (y, 0));
    app.connect(z, (y, 0));
    assert_eq!(app.connection(y, 0), Some(z));
    assert_eq!(app.connections().len(), 1);
}

#[test]
fn missing_output_defaults_by_type() {
    let log = new_log();
    let mut app: App<Probe> = App::new();
    let quiet = app.insert_module(Probe::new(1, 0, None, &log));
    app.connect(quiet, (SINK, 0));
    assert_eq!(app.tick(), Ok(SILENCE));
    let mut events = Probe::new(2, 0, None, &log);
    events.kind = DataType::Notes;
    let n = app.insert_module(events);
    assert_eq!(app.get_output(n), Ok(Data::Notes(vec![])));
    assert_eq!(app.get_output(quiet), Ok(Data::Audio(SILENCE)));
}

#[test]
fn unknown_producer_is_an_error() {
    let mut app: App<Probe> = App::new();
    app.connect(5, (SINK, 0));
    assert_eq!(app.tick(), Err(EvalError::UnknownModule(5)));
    assert_eq!(app.get_output(9).err(), Some(EvalError::UnknownModule(9)));
}

#[test]
fn cycle_is_an_error() {
    let log = new_log();
    let mut app: App<Probe> = App::new();
    let a = app.insert_module(Probe::new(1, 1, Some(Data::Audio(1)), &log));
    let b = app.insert_module(Probe::new(2, 1, Some(Data::Audio(2)), &log));
    app.connect(a, (b, 0));
    app.connect(b, (a, 0));
    app.connect(a, (SINK, 0));
    assert_eq!(app.tick(), Err(EvalError::Cycle(a)));
    app.connect(SINK, (SINK, 0));
    assert_eq!(app.tick(), Err(EvalError::Cycle(SINK)));
}

#[test]
fn notes_at_sink_are_an_error() {
    let log = new_log();
    let mut app: App<Probe> = App::new();
    let n = app.insert_module(Probe::new(1, 0, Some(Data::Notes(vec![Note::Midi(60)])), &log));
    app.connect(n, (SINK, 0));
    assert_eq!(app.tick(), Err(EvalError::SinkNotAudio));
}

#[test]
fn selection_and_sample_rate_are_kept() {
    let mut app: App<Probe> = App::new();
    assert_eq!(app.selection(), None);
    app.set_selection(Some(3));
    assert_eq!(app.selection(), Some(3));
    app.set_sample_rate(48000);
    assert_eq!(app.get_sample_rate(), 48000);
}

#[test]
fn midi_to_freq_matches_equal_temperament() {
    assert_eq!(musikjj::midi_to_freq(69), 440000);
    assert_eq!(musikjj::midi_to_freq(57), 220000);
    assert_eq!(musikjj::midi_to_freq(81), 880000);
    assert_eq!(musikjj::midi_to_freq(60), 261625);
    assert_eq!(musikjj::midi_to_freq(200), musikjj::midi_to_freq(127));
    assert_eq!(Note::Midi(69).freq(), 440000);
    assert_eq!(Note::Freq(1234).freq(), 1234);
}

#[test]
fn data_accessors() {
    assert_eq!(Data::Audio(4).audio(), 4);
    assert_eq!(Data::Notes(vec![Note::Midi(3)]).notes(), vec![Note::Midi(3)]);
    assert_eq!(Data::default_for(DataType::Audio), Data::Audio(SILENCE));
    assert_eq!(Data::default_for(DataType::Notes), Data::Notes(vec![]));
    let d = Data::Notes(vec![Note::Freq(5), Note::Midi(7)]);
    assert_eq!(d.duplicate(), d);
    let _: Sample = UNIT;
    let _: ModuleId = SINK;
}

#[test]
fn shared_value_reaches_both_consumers() {
    let log = new_log();
    let mut app: App<Probe> = App::new();
    let source = app.insert_module(Probe::new(1, 0, Some(Data::Audio(7)), &log));
    let left = app.insert_module(Probe::new(2, 1, Some(Data::Audio(1)), &log));
    let right = app.insert_module(Probe::new(3, 1, Some(Data::Audio(2)), &log));
    let join = app.insert_module(Probe::new(4, 2, Some(Data::Audio(3)), &log));
    app.connect(source, (left, 0));
    app.connect(source, (right, 0));
    app.connect(left, (join, 0));
    app.connect(right, (join, 1));
    app.connect(join, (SINK, 0));
    assert_eq!(app.tick(), Ok(3));
    assert_eq!(app.module(left).received, vec![Data::Audio(7)]);
    assert_eq!(app.module(right).received, vec![Data::Audio(7)]);
    assert_eq!(app.module(join).received, vec![Data::Audio(1), Data::Audio(2)]);
}

#[test]
fn missing_output_is_delivered_as_default() {
    let log = new_log();
    let mut app: App<Probe> = App::new();
    let mut events = Probe::new(1, 0, None, &log);
    events.kind = DataType::Notes;
    let events = app.insert_module(events);
    let quiet = app.insert_module(Probe::new(2, 0, None, &log));
    let sink_side = app.insert_module(Probe::new(3, 2, Some(Data::Audio(4)), &log));
    app.connect(events, (sink_side, 0));
    app.connect(quiet, (sink_side, 1));
    app.connect(sink_side, (SINK, 0));
    assert_eq!(app.tick(), Ok(4));
    assert_eq!(app.module(sink_side).received, vec![Data::Notes(vec![]), Data::Audio(SILENCE)]);
}

#[test]
fn refused_value_is_an_error_and_next_call_starts_afresh() {
    let log = new_log();
    let mut app: App<Probe> = App::new();
    let a = app.insert_module(Probe::new(1, 0, Some(Data::Audio(1)), &log));
    let mut b = Probe::new(2, 1, Some(Data::Audio(2)), &log);
    b.refuse = true;
    let b = app.insert_module(b);
    app.connect(a, (b, 0));
    app.connect(b, (SINK, 0));
    assert_eq!(app.tick(), Err(EvalError::WrongType(b, 0)));
    assert_eq!(app.get_output(a), Ok(Data::Audio(1)));
    assert_eq!(app.tick(), Err(EvalError::WrongType(b, 0)));
    let ticks_of_a = log.borrow().iter().filter(|e| e.0 == 1 && e.1 == "tick").count();
    assert_eq!(ticks_of_a, 3);
}
