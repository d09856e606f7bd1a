use vstd::prelude::*;

verus! {

/// Identifies a module within a session. Id `SINK` is the implicit audio output.
pub type ModuleId = usize;

/// The reserved id of the sink, the final audio output.
pub const SINK: ModuleId = 0;

/// One audio sample in fixed point: `UNIT` stands for full scale (1.0).
pub type Sample = i32;

/// Full scale of a `Sample`.
pub const UNIT: i32 = 65536;

/// Silence.
pub const SILENCE: Sample = 0;

/// The semantic kind of value carried over a port.
#[derive(Clone, Copy, Debug, PartialEq, Eq, Structural)]
pub enum DataType {
    Audio,
    Notes,
}

/// A note: a MIDI pitch number or a literal frequency in millihertz.
#[derive(Clone, Copy, Debug, PartialEq, Eq, Structural)]
pub enum Note {
    Midi(u8),
    Freq(u32),
}

/// A value moving through the graph.
#[derive(Clone, Debug, PartialEq)]
pub enum Data {
    Audio(Sample),
    Notes(Vec<Note>),
}

/// The mathematical value of a `Data`: notes as a sequence.
pub enum DataModel {
    Audio(Sample),
    Notes(Seq<Note>),
}

impl View for Data {
    type V = DataModel;

    open spec fn view(&self) -> DataModel {
        match self {
            Data::Audio(s) => DataModel::Audio(*s),
            Data::Notes(n) => DataModel::Notes(n@),
        }
    }
}

/// The value that stands for "nothing this tick" on an output of the given kind.
pub open spec fn default_model(t: DataType) -> DataModel {
    match t {
        DataType::Audio => DataModel::Audio(SILENCE),
        DataType::Notes => DataModel::Notes(Seq::empty()),
    }
}

/// Frequencies in millihertz of the twelve notes of the highest MIDI octave
/// (MIDI 120 to 131), by the equal-tempered formula with A at 440 Hz, rounded.
pub open spec fn top_octave(semitone: nat) -> nat {
    if semitone == 0 { 8372018 }
    else if semitone == 1 { 8869844 }
    else if semitone == 2 { 9397273 }
    else if semitone == 3 { 9956063 }
    else if semitone == 4 { 10548082 }
    else if semitone == 5 { 11175303 }
    else if semitone == 6 { 11839822 }
    else if semitone == 7 { 12543854 }
    else if semitone == 8 { 13289750 }
    else if semitone == 9 { 14080000 }
    else if semitone == 10 { 14917240 }
    else { 15804266 }
}

/// `x` halved `k` times, rounding down each time.
pub open spec fn halved(x: nat, k: nat) -> nat
    decreases k,
{
    if k == 0 { x } else { halved(x / 2, (k - 1) as nat) }
}

/// The highest MIDI note number; higher numbers sound as this one.
pub const MIDI_MAX: u8 = 127;

/// The frequency in millihertz of a MIDI note: the note of the top octave
/// with the same pitch class, one octave down for each octave below.
pub open spec fn midi_freq(note: nat) -> nat {
    let n = if note > MIDI_MAX { MIDI_MAX as nat } else { note };
    halved(top_octave(n % 12), (10 - n / 12) as nat)
}

/// The frequency in millihertz of a note.
pub open spec fn note_freq(n: Note) -> nat {
    match n {
        Note::Midi(m) => midi_freq(m as nat),
        Note::Freq(f) => f as nat,
    }
}

/// Converts a MIDI note number to a frequency in millihertz.
pub fn midi_to_freq(note: u8) -> (r: u32)
    ensures
        r as nat == midi_freq(note as nat),
{
    let ghost original = note;
    let note = if note > MIDI_MAX { MIDI_MAX } else { note };
    let semitone = note % 12;
    let top: u32 = if semitone == 0 { 8372018 }
        else if semitone == 1 { 8869844 }
        else if semitone == 2 { 9397273 }
        else if semitone == 3 { 9956063 }
        else if semitone == 4 { 10548082 }
        else if semitone == 5 { 11175303 }
        else if semitone == 6 { 11839822 }
        else if semitone == 7 { 12543854 }
        else if semitone == 8 { 13289750 }
        else if semitone == 9 { 14080000 }
        else if semitone == 10 { 14917240 }
        else { 15804266 };
    let octaves_down: u8 = 10 - note / 12;
    let mut value: u32 = top;
    let mut i: u8 = 0;
    while i < octaves_down
        invariant
            i <= octaves_down,
            octaves_down == 10 - note / 12,
            top as nat == top_octave((note % 12) as nat),
            note <= MIDI_MAX,
            halved(value as nat, (octaves_down - i) as nat) == midi_freq(note as nat),
        decreases octaves_down - i,
    {
        value = value / 2;
        i = i + 1;
    }
    assert(midi_freq(original as nat) == midi_freq(note as nat));
    value
}

impl Note {
    /// The frequency of this note in millihertz.
    pub fn freq(self) -> (r: u32)
        ensures
            r as nat == note_freq(self),
    {
        match self {
            Note::Midi(m) => midi_to_freq(m),
            Note::Freq(f) => f,
        }
    }
}

impl Data {
    /// The sample of an `Audio` value. Taking the sample of notes is a
    /// wiring fault, which the precondition leaves out.
    pub fn audio(&self) -> (r: Sample)
        requires
            self is Audio,
        ensures
            self@ == DataModel::Audio(r),
    {
        match self {
            Data::Audio(s) => *s,
            Data::Notes(_) => {
                proof {
                    assert(false);
                }
                SILENCE
            },
        }
    }

    /// The notes of a `Notes` value, copied. Taking the notes of audio is a
    /// wiring fault, which the precondition leaves out.
    pub fn notes(&self) -> (r: Vec<Note>)
        requires
            self is Notes,
        ensures
            self@ == DataModel::Notes(r@),
    {
        match self {
            Data::Notes(n) => copy_notes(n),
            Data::Audio(_) => {
                proof {
                    assert(false);
                }
                Vec::new()
            },
        }
    }

    /// A copy of this value.
    pub fn duplicate(&self) -> (r: Data)
        ensures
            r@ == self@,
    {
        match self {
            Data::Audio(s) => Data::Audio(*s),
            Data::Notes(n) => Data::Notes(copy_notes(n)),
        }
    }

    /// The value that stands for "nothing this tick" on an output of kind `t`.
    pub fn default_for(t: DataType) -> (r: Data)
        ensures
            r@ == default_model(t),
    {
        match t {
            DataType::Audio => Data::Audio(SILENCE),
            DataType::Notes => Data::Notes(Vec::new()),
        }
    }
}

/// A copy of a sequence of notes.
pub fn copy_notes(n: &Vec<Note>) -> (r: Vec<Note>)
    ensures
        r@ == n@,
{
    let mut r: Vec<Note> = Vec::new();
    let mut i: usize = 0;
    while i < n.len()
        invariant
            i <= n@.len(),
            r@ == n@.subrange(0, i as int),
        decreases n@.len() - i,
    {
        r.push(n[i]);
        i = i + 1;
        assert(r@ =~= n@.subrange(0, i as int));
    }
    assert(r@ =~= n@);
    r
}

} // verus!
