use musikjj::{
    Adsr, App, Component, Data, DataType, EvalError, Mixer, Module, Note, Oscillator, PolyOscillator,
    Sequencer, Waveshape, SINK, SILENCE, UNIT,
};

#[test]
fn poly_oscillator_without_voices_is_silent() {
    let mut poly = PolyOscillator::new();
    assert_eq!(poly.tick(44100), Some(Data::Audio(0)));
    poly.set_oscillators(3);
    assert_eq!(poly.tick(44100), Some(Data::Audio(0)));
    assert_eq!(poly.mix(), SILENCE);
}

#[test]
fn poly_oscillator_averages_voices() {
    let mut poly = PolyOscillator::new();
    poly.set_oscillators(2);
    // a one-sample period at full scale
    poly.set_freqs(&vec![1_000_000], 1000);
    assert_eq!(poly.mix(), UNIT);
    assert_eq!(poly.mix(), UNIT);
    let mut poly = PolyOscillator::new();
    poly.set_oscillators(2);
    poly.set_freqs(&vec![250_000, 125_000], 1000);
    // first voice: 4-sample period, second voice: 8-sample period (square)
    assert_eq!(poly.mix(), UNIT);
    assert_eq!(poly.mix(), UNIT / 2);
    assert_eq!(poly.mix(), UNIT / 2);
    poly.set_freqs(&vec![], 1000);
    assert_eq!(poly.mix(), SILENCE);
}

#[test]
fn poly_oscillator_takes_notes() {
    let mut poly = PolyOscillator::new();
    poly.set_oscillators(3);
    assert!(poly.send(0, Data::Notes(vec![Note::Freq(250_000)]), 1000));
    assert_eq!(poly.mix(), UNIT);
    assert!(poly.send(0, Data::Notes(vec![]), 1000));
    assert_eq!(poly.mix(), SILENCE);
    assert!(!poly.send(0, Data::Audio(1), 1000));
}

#[test]
fn oscillator_square_period() {
    let mut osc = Oscillator::new();
    assert_eq!(osc.next(), SILENCE);
    osc.set_waveform(440_000, 44000);
    let out: Vec<i32> = (0..200).map(|_| osc.next()).collect();
    for i in 0..100 {
        assert_eq!(out[i], out[i + 100]);
    }
    let high = out[..100].iter().filter(|v| **v == UNIT).count();
    assert_eq!(high, 50);
}

#[test]
fn oscillator_saw_ramp() {
    let mut osc = Oscillator::new();
    osc.set_waveshape(Waveshape::Saw);
    osc.set_waveform(250_000, 1000);
    assert_eq!(osc.next(), UNIT / 4);
    assert_eq!(osc.next(), UNIT / 2);
    assert_eq!(osc.next(), 3 * UNIT / 4);
    assert_eq!(osc.next(), 0);
}

#[test]
fn oscillator_rejects_audio_and_ignores_empty_notes() {
    let mut osc = Oscillator::new();
    assert!(!osc.send(0, Data::Audio(3), 1000));
    assert!(osc.send(0, Data::Notes(vec![]), 1000));
    assert_eq!(osc.next(), SILENCE);
    assert!(osc.send(0, Data::Notes(vec![Note::Freq(500_000)]), 1000));
    assert_eq!(osc.tick(1000), Some(Data::Audio(0)));
    assert_eq!(osc.tick(1000), Some(Data::Audio(UNIT)));
}

#[test]
fn oscillator_session_is_bounded_and_periodic() {
    let mut osc = Oscillator::new();
    osc.set_waveform(441_000, 44100);
    let mut app: App<Component> = App::new();
    app.set_sample_rate(44100);
    let id = app.insert_module(Component::Oscillator(osc));
    app.connect(id, (SINK, 0));
    let out: Vec<i32> = (0..1000).map(|_| app.tick().unwrap()).collect();
    assert!(out.iter().all(|v| 0 <= *v && *v <= UNIT));
    for i in 0..900 {
        assert_eq!(out[i], out[i + 100]);
    }
    let as_float: Vec<f32> = out.iter().map(|v| *v as f32 / UNIT as f32).collect();
    assert!(as_float.iter().all(|v| v.is_finite()));
}

/// A constant source, a gate that fires once, and an envelope.
enum Part {
    Constant(i32),
    OneShot(bool),
    Envelope(Adsr),
}

impl Module for Part {
    fn title(&self) -> &'static str {
        "Part"
    }

    fn get_output_type(&self) -> DataType {
        match self {
            Part::OneShot(_) => DataType::Notes,
            _ => DataType::Audio,
        }
    }

    fn get_inputs(&self) -> Vec<(DataType, &'static str)> {
        match self {
            Part::Envelope(e) => e.get_inputs(),
            _ => vec![],
        }
    }

    fn tick(&mut self, sample_rate: u32) -> Option<Data> {
        match self {
            Part::Constant(v) => Some(Data::Audio(*v)),
            Part::OneShot(fired) => {
                if *fired {
                    None
                } else {
                    *fired = true;
                    Some(Data::Notes(vec![Note::Midi(60)]))
                }
            }
            Part::Envelope(e) => e.tick(sample_rate),
        }
    }

    fn send(&mut self, input: usize, data: Data, sample_rate: u32) -> bool {
        match self {
            Part::Envelope(e) => e.send(input, data, sample_rate),
            _ => false,
        }
    }

    fn interact(&mut self, _x: u32, _y: u32, _width: u32, _height: u32, _left: bool) -> bool {
        false
    }

    fn execute(&mut self, _cmd: &str) -> bool {
        false
    }
}

#[test]
fn envelope_decays_after_gate() {
    let rate: u32 = 1000;
    let mut app: App<Part> = App::new();
    app.set_sample_rate(rate);
    let src = app.insert_module(Part::Constant(UNIT));
    let gate = app.insert_module(Part::OneShot(false));
    let mut adsr = Adsr::new();
    for _ in 0..200 {
        adsr.step(rate);
    }
    let env = app.insert_module(Part::Envelope(adsr));
    app.connect(src, (env, 0));
    app.connect(gate, (env, 1));
    app.connect(env, (SINK, 0));
    let window = (rate * 100 / 1000) as usize;
    let out: Vec<i32> = (0..window + 5).map(|_| app.tick().unwrap()).collect();
    assert_eq!(out[0], UNIT * 99 / 100);
    for i in 1..out.len() {
        assert!(out[i] <= out[i - 1]);
    }
    assert!(out[window - 2] > 0);
    assert_eq!(out[window - 1], 0);
    assert_eq!(out[window + 4], 0);
}

#[test]
fn adsr_levels() {
    let mut adsr = Adsr::new();
    assert!(adsr.send(0, Data::Audio(1000), 1000));
    assert!(adsr.send(1, Data::Notes(vec![Note::Midi(60)]), 1000));
    assert_eq!(adsr.step(1000), 990);
    assert_eq!(adsr.step(1000), 980);
    adsr.set_input(-1000);
    assert_eq!(adsr.step(1000), -970);
    assert!(adsr.send(1, Data::Notes(vec![]), 1000));
    assert_eq!(adsr.step(1000), -960);
    adsr.trigger();
    assert_eq!(adsr.step(1000), -990);
    assert!(!adsr.send(0, Data::Notes(vec![]), 1000));
    assert!(!adsr.send(1, Data::Audio(1), 1000));
    assert_eq!(adsr.step(5), 0);
}

#[test]
fn mixer_averages_and_forgets() {
    let mut mixer = Mixer::new(3);
    assert_eq!(mixer.get_inputs().len(), 3);
    assert_eq!(mixer.mix(), SILENCE);
    mixer.add(3);
    mixer.add(4);
    assert_eq!(mixer.mix(), 3);
    mixer.add(-3);
    mixer.add(-4);
    assert_eq!(mixer.mix(), -3);
    assert_eq!(mixer.mix(), 0);
    assert!(!mixer.send(0, Data::Notes(vec![]), 1000));
    for v in [1, 2, 3, 100] {
        mixer.add(v);
    }
    assert_eq!(mixer.mix(), 2);
}

#[test]
fn sequencer_steps_through_loop() {
    let mut seq = Sequencer::new();
    assert_eq!(seq.get_steps().len(), 8);
    // 1200 samples per second: a step lasts 100 samples
    assert_eq!(seq.note_tick(1200), Some(vec![Note::Midi(57)]));
    for _ in 0..99 {
        assert_eq!(seq.note_tick(1200), None);
    }
    assert_eq!(seq.note_tick(1200), Some(vec![Note::Midi(61)]));
    assert_eq!(seq.tick(1200), None);
}

#[test]
fn sequencer_toggle_and_click() {
    let mut seq = Sequencer::new();
    seq.toggle_note(0, 4);
    assert_eq!(seq.get_steps()[0], vec![0, 4]);
    seq.toggle_note(0, 0);
    assert_eq!(seq.get_steps()[0], vec![4]);
    // 400 by 240 pixels: columns of 50, rows of 20; the top row is note 11
    assert!(seq.click(60, 5, 400, 240, true));
    assert_eq!(seq.get_steps()[1], vec![4, 11]);
    assert!(seq.interact(60, 230, 400, 240, true));
    assert_eq!(seq.get_steps()[1], vec![4, 11, 0]);
    let before = seq.get_steps().clone();
    assert!(!seq.click(60, 500, 400, 240, true));
    assert!(!seq.click(4000, 5, 400, 240, true));
    assert!(!seq.click(0, 0, 7, 240, true));
    assert!(!seq.click(60, 5, 400, 240, false));
    assert_eq!(seq.get_steps(), &before);
    assert!(seq.click(60, 5, 400, 240, true));
    assert_eq!(seq.get_steps()[1], vec![4, 0]);
}

#[test]
fn sequencer_execute_sets_steps() {
    let mut seq = Sequencer::new();
    assert!(seq.execute("0 4 7 4\n"));
    assert_eq!(seq.get_steps(), &vec![vec![0], vec![4], vec![7], vec![4]]);
    assert!(!seq.execute("1 x 2"));
    assert!(!seq.execute("300"));
    assert!(!seq.execute("   "));
    assert_eq!(seq.get_steps().len(), 4);
    assert_eq!(musikjj::modules::sequencer::parse_offsets(b" 12\t3 "), Some(vec![12, 3]));
}

#[test]
fn session_execute_reaches_module() {
    let mut app: App<Component> = App::new();
    let seq = app.insert_module(Component::Sequencer(Sequencer::new()));
    let osc = app.insert_module(Component::Oscillator(Oscillator::new()));
    assert!(app.execute(seq, "1 2 3"));
    assert!(!app.execute(osc, "1 2 3"));
    assert_eq!(app.module(seq).title(), "Sequencer");
    assert!(app.interact(seq, 0, 0, 300, 120, true));
    assert!(!app.interact(osc, 0, 0, 300, 120, true));
}

#[test]
fn wrong_kind_on_port_is_an_error() {
    let mut app: App<Component> = App::new();
    let seq = app.insert_module(Component::Sequencer(Sequencer::new()));
    let env = app.insert_module(Component::Adsr(Adsr::new()));
    app.connect(seq, (env, 0));
    app.connect(env, (SINK, 0));
    assert_eq!(app.tick(), Err(EvalError::WrongType(env, 0)));
}

#[test]
fn power_chords() {
    assert_eq!(
        musikjj::modules::sequencer::create_power_chord(Note::Freq(3000)),
        [Note::Freq(3000), Note::Freq(4000), Note::Freq(6000)]
    );
    let mut seq = Sequencer::new();
    seq.set_power_chords(true);
    assert_eq!(
        seq.note_tick(1200),
        Some(vec![Note::Freq(220000), Note::Freq(293333), Note::Freq(440000)])
    );
}

#[test]
fn default_patch_plays_chords_through_envelope() {
    let mut app: App<Component> = App::new();
    app.set_sample_rate(1200);
    let (seq, voices, env) = musikjj::build_patch(&mut app);
    assert_eq!((seq, voices, env), (1, 2, 3));
    assert_eq!(app.connection(voices, 0), Some(seq));
    assert_eq!(app.connection(env, 0), Some(voices));
    assert_eq!(app.connection(env, 1), Some(seq));
    assert_eq!(app.connection(SINK, 0), Some(env));
    let first = app.tick().unwrap();
    assert!(first >= 0 && first <= UNIT);
    for _ in 0..200 {
        let v = app.tick().unwrap();
        assert!(v >= 0 && v <= UNIT);
    }
}
