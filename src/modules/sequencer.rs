use vstd::prelude::*;
use crate::data::{Data, DataModel, DataType, Note, MIDI_MAX, halved, midi_freq, note_freq, top_octave};
use crate::module::Module;

verus! {

/// Tempo in beats per minute; the sequencer plays four steps per beat.
pub const BPM: u32 = 180;

/// The MIDI note that a step value of 0 plays.
pub const ROOT: u8 = 57;

/// The number of rows of the step grid, one per semitone.
pub const SCALE_LEN: u8 = 12;

/// The number of samples that one step lasts.
pub open spec fn step_len(sample_rate: nat) -> nat {
    sample_rate * 60 / (BPM as nat * 4)
}

/// The ticks to wait after a step plays.
pub open spec fn next_wait(sample_rate: nat) -> nat {
    if step_len(sample_rate) == 0 { 0 } else { (step_len(sample_rate) - 1) as nat }
}

/// The MIDI note that step value `n` plays, held at the top of the range.
pub open spec fn transpose(n: u8) -> u8 {
    if n as int + ROOT as int <= 255 { (n + ROOT) as u8 } else { 255 }
}

/// The notes of a step.
pub open spec fn step_notes(s: Seq<u8>) -> Seq<Note> {
    s.map_values(|n: u8| Note::Midi(transpose(n)))
}

pub open spec fn is_space(c: u8) -> bool {
    c == 32 || c == 9 || c == 10 || c == 11 || c == 12 || c == 13
}

pub open spec fn is_digit(c: u8) -> bool {
    48 <= c <= 57
}

/// Reads `b` as decimal numbers separated by ASCII white space: the numbers
/// read so far, and the number being read. `None` where another byte occurs.
pub open spec fn scan(b: Seq<u8>) -> Option<(Seq<nat>, Option<nat>)>
    decreases b.len(),
{
    if b.len() == 0 {
        Some((Seq::empty(), None))
    } else {
        match scan(b.drop_last()) {
            None => None,
            Some((done, cur)) => {
                let c = b.last();
                if is_space(c) {
                    match cur {
                        Some(v) => Some((done.push(v), None)),
                        None => Some((done, None)),
                    }
                } else if is_digit(c) {
                    let d = (c - 48) as nat;
                    Some(
                        (
                            done,
                            Some(
                                match cur {
                                    Some(v) => v * 10 + d,
                                    None => d,
                                },
                            ),
                        ),
                    )
                } else {
                    None
                }
            },
        }
    }
}

/// The decimal numbers of a line separated by ASCII white space; `None`
/// where the line holds anything else.
pub open spec fn numbers_of(b: Seq<u8>) -> Option<Seq<nat>> {
    match scan(b) {
        None => None,
        Some((done, cur)) => Some(
            match cur {
                Some(v) => done.push(v),
                None => done,
            },
        ),
    }
}

/// The semitone offsets of a line: at least one number, each at most 255.
pub open spec fn offsets_of(b: Seq<u8>) -> Option<Seq<u8>> {
    match numbers_of(b) {
        Some(ns) => if ns.len() > 0 && forall|i: int| 0 <= i < ns.len() ==> #[trigger] ns[i] <= 255 {
            Some(ns.map_values(|n: nat| n as u8))
        } else {
            None
        },
        None => None,
    }
}

pub open spec fn cap(v: nat) -> nat {
    if v > 256 { 256 } else { v }
}

proof fn lemma_cap_step(v: nat, d: nat)
    requires
        d < 10,
    ensures
        cap(cap(v) * 10 + d) == cap(v * 10 + d),
{
    if v > 256 {
        assert(v * 10 + d > 256) by (nonlinear_arith)
            requires v > 256;
    }
}

/// Reads a line of semitone offsets separated by ASCII white space.
pub fn parse_offsets(line: &[u8]) -> (r: Option<Vec<u8>>)
    ensures
        match offsets_of(line@) {
            Some(o) => r is Some && r->Some_0@ == o,
            None => r is None,
        },
{
    let mut done: Vec<u32> = Vec::new();
    let mut cur: Option<u32> = None;
    let mut i: usize = 0;
    while i < line.len()
        invariant
            i <= line@.len(),
            scan(line@.take(i as int)) is Some,
            ({
                let (sd, sc) = scan(line@.take(i as int))->Some_0;
                &&& done@.len() == sd.len()
                &&& forall|j: int| 0 <= j < sd.len() ==> #[trigger] done@[j] as nat == cap(sd[j])
                &&& match sc {
                    Some(v) => cur == Some(cap(v) as u32),
                    None => cur is None,
                }
            }),
        decreases line@.len() - i,
    {
        let c = line[i];
        proof {
            assert(line@.take(i as int + 1).drop_last() =~= line@.take(i as int));
            assert(line@.take(i as int + 1).last() == c);
        }
        if c == 32 || c == 9 || c == 10 || c == 11 || c == 12 || c == 13 {
            match cur {
                Some(v) => {
                    done.push(v);
                    cur = None;
                },
                None => {},
            }
        } else if 48 <= c && c <= 57 {
            let d = (c - 48) as u32;
            let next = match cur {
                Some(v) => v * 10 + d,
                None => d,
            };
            proof {
                let (sd, sc) = scan(line@.take(i as int))->Some_0;
                match sc {
                    Some(v) => lemma_cap_step(v, d as nat),
                    None => {},
                }
            }
            cur = Some(if next > 256 { 256 } else { next });
        } else {
            proof {
                assert(scan(line@.take(i as int + 1)) is None);
                lemma_scan_none_extends(line@, i as int + 1);
            }
            return None;
        }
        i = i + 1;
    }
    proof {
        assert(line@.take(i as int) =~= line@);
    }
    let ghost sd = scan(line@)->Some_0.0;
    let ghost sc = scan(line@)->Some_0.1;
    let ghost before = done@;
    match cur {
        Some(v) => done.push(v),
        None => {},
    }
    let ghost ns = numbers_of(line@)->Some_0;
    proof {
        assert(ns == match sc {
            Some(v) => sd.push(v),
            None => sd,
        });
        assert(done@.len() == ns.len());
        assert(numbers_of(line@) == Some(ns));
        assert forall|k: int| 0 <= k < ns.len() implies #[trigger] done@[k] as nat == cap(ns[k]) by {
            if k < sd.len() {
                assert(done@[k] == before[k]);
                assert(ns[k] == sd[k]);
            }
        }
    }
    if done.len() == 0 {
        proof {
            assert(numbers_of(line@) == Some(ns));
        }
        return None;
    }
    let mut r: Vec<u8> = Vec::new();
    let mut j: usize = 0;
    while j < done.len()
        invariant
            j <= done@.len(),
            done@.len() == ns.len(),
            numbers_of(line@) == Some(ns),
            forall|k: int| 0 <= k < ns.len() ==> #[trigger] done@[k] as nat == cap(ns[k]),
            r@.len() == j,
            forall|k: int| 0 <= k < j ==> #[trigger] ns[k] <= 255,
            forall|k: int| 0 <= k < j ==> #[trigger] r@[k] == ns[k] as u8,
        decreases done@.len() - j,
    {
        if done[j] > 255 {
            proof {
                assert(ns[j as int] > 255);
                assert(!(forall|i: int| 0 <= i < ns.len() ==> #[trigger] ns[i] <= 255));
                assert(numbers_of(line@) == Some(ns));
                assert(offsets_of(line@) is None);
            }
            return None;
        }
        proof {
            assert(ns[j as int] == done@[j as int] as nat);
        }
        let ghost old_r = r@;
        r.push(done[j] as u8);
        j = j + 1;
        proof {
            assert forall|k: int| 0 <= k < j implies #[trigger] r@[k] == ns[k] as u8 by {
                if k < j - 1 {
                    assert(r@[k] == old_r[k]);
                }
            }
        }
    }
    proof {
        assert(forall|i: int| 0 <= i < ns.len() ==> #[trigger] ns[i] <= 255);
        assert(numbers_of(line@) == Some(ns));
        assert(r@ =~= ns.map_values(|n: nat| n as u8));
    }
    Some(r)
}

proof fn lemma_scan_none_extends(b: Seq<u8>, k: int)
    requires
        0 <= k <= b.len(),
        scan(b.take(k)) is None,
    ensures
        scan(b) is None,
    decreases b.len() - k,
{
    if k < b.len() {
        assert(b.take(k + 1).drop_last() =~= b.take(k));
        lemma_scan_none_extends(b, k + 1);
    } else {
        assert(b.take(k) =~= b);
    }
}

/// The index of the first `note` in `s` at or after `k`; `s.len()` where there is none.
pub open spec fn first_from(s: Seq<u8>, note: u8, k: int) -> int
    decreases s.len() - k,
{
    if k < 0 || k >= s.len() {
        s.len() as int
    } else if s[k] == note {
        k
    } else {
        first_from(s, note, k + 1)
    }
}

proof fn lemma_first_from(s: Seq<u8>, note: u8, k: int)
    requires
        0 <= k <= s.len(),
    ensures
        k <= first_from(s, note, k) <= s.len(),
    decreases s.len() - k,
{
    if k < s.len() && s[k] != note {
        lemma_first_from(s, note, k + 1);
    }
}

/// `s` with its first `note` taken out, or with `note` added at the end
/// where it holds none.
pub open spec fn toggled(s: Seq<u8>, note: u8) -> Seq<u8> {
    let i = first_from(s, note, 0);
    if i < s.len() { s.remove(i) } else { s.push(note) }
}

/// A note with the fourth and the octave above it, as frequencies in
/// millihertz (the fourth rounded down).
pub open spec fn power_chord(f: nat) -> Seq<Note> {
    seq![Note::Freq(f as u32), Note::Freq((f * 4 / 3) as u32), Note::Freq((f * 2) as u32)]
}

/// The power chords of the notes that the step values of `s` play, in order.
pub open spec fn chord_notes(s: Seq<u8>) -> Seq<Note>
    decreases s.len(),
{
    if s.len() == 0 {
        Seq::empty()
    } else {
        chord_notes(s.drop_last()) + power_chord(note_freq(Note::Midi(transpose(s.last()))))
    }
}

/// What a step plays: its notes, or their power chords.
pub open spec fn step_output(s: Seq<u8>, chords: bool) -> Seq<Note> {
    if chords { chord_notes(s) } else { step_notes(s) }
}

/// A power chord on `note`: the note, its fourth and its octave.
pub fn create_power_chord(note: Note) -> (r: [Note; 3])
    requires
        note_freq(note) * 2 <= u32::MAX,
    ensures
        r@ == power_chord(note_freq(note)),
{
    let f = note.freq() as u64;
    let r = [Note::Freq(f as u32), Note::Freq((f * 4 / 3) as u32), Note::Freq((f * 2) as u32)];
    assert(r@ =~= power_chord(note_freq(note)));
    r
}

proof fn lemma_midi_freq_bound(m: nat)
    ensures
        midi_freq(m) <= 15804266,
{
    let n = if m > MIDI_MAX as nat { MIDI_MAX as nat } else { m };
    lemma_halved_le(top_octave(n % 12), (10 - n / 12) as nat);
}

proof fn lemma_halved_le(x: nat, k: nat)
    ensures
        halved(x, k) <= x,
    decreases k,
{
    if k > 0 {
        lemma_halved_le(x / 2, (k - 1) as nat);
    }
}

/// The loop a new sequencer plays: eight single-note steps.
pub open spec fn default_steps() -> Seq<Seq<u8>> {
    seq![seq![0u8], seq![4u8], seq![7u8], seq![9u8], seq![6u8], seq![1u8], seq![8u8], seq![2u8]]
}

/// Plays a loop of steps, each a set of semitone offsets above `ROOT`,
/// one step every `step_len` samples.
pub struct Sequencer {
    sequence: Vec<Vec<u8>>,
    step: usize,
    wait: u64,
    chords: bool,
}

impl Sequencer {
    /// The steps, each as its semitone offsets.
    pub closed spec fn steps(&self) -> Seq<Seq<u8>> {
        self.sequence@.map_values(|s: Vec<u8>| s@)
    }

    /// The step that plays next, before wrapping.
    pub closed spec fn position(&self) -> nat {
        self.step as nat
    }

    /// Ticks left before the next step plays.
    pub closed spec fn waiting(&self) -> nat {
        self.wait as nat
    }

    /// Whether each note plays as a power chord.
    pub closed spec fn chords_on(&self) -> bool {
        self.chords
    }

    /// The step that plays when the current one is out of range.
    pub open spec fn current(&self) -> nat {
        if self.position() >= self.steps().len() { 0 } else { self.position() }
    }

    /// A loop of eight single-note steps, the first of which plays at once.
    pub fn new() -> (r: Sequencer)
        ensures
            r.steps() == default_steps(),
            r.position() == 0,
            r.waiting() == 0,
            !r.chords_on(),
    {
        let offsets: [u8; 8] = [0, 4, 7, 9, 6, 1, 8, 2];
        let mut sequence: Vec<Vec<u8>> = Vec::new();
        let mut i: usize = 0;
        while i < 8
            invariant
                i <= 8,
                sequence@.len() == i,
                forall|j: int| 0 <= j < i ==> (#[trigger] sequence@[j])@ == seq![offsets@[j]],
            decreases 8 - i,
        {
            let mut one: Vec<u8> = Vec::new();
            one.push(offsets[i]);
            sequence.push(one);
            i = i + 1;
        }
        let r = Sequencer { sequence, step: 0, wait: 0, chords: false };
        assert(r.steps() =~= default_steps());
        r
    }

    /// The steps, each as its semitone offsets.
    pub fn get_steps(&self) -> (r: &Vec<Vec<u8>>)
        ensures
            r@.map_values(|s: Vec<u8>| s@) == self.steps(),
    {
        &self.sequence
    }

    /// Plays each note as a power chord, or as a single note.
    pub fn set_power_chords(&mut self, on: bool)
        ensures
            final(self).chords_on() == on,
            final(self).steps() == old(self).steps(),
            final(self).position() == old(self).position(),
            final(self).waiting() == old(self).waiting(),
    {
        self.chords = on;
    }

    /// The notes of step `i`.
    fn notes_of(&self, i: usize) -> (r: Vec<Note>)
        requires
            i < self.sequence@.len(),
        ensures
            r@ == step_output(self.steps()[i as int], self.chords_on()),
    {
        if self.chords {
            return self.chords_of(i);
        }
        let s = &self.sequence[i];
        let mut r: Vec<Note> = Vec::new();
        let mut j: usize = 0;
        while j < s.len()
            invariant
                j <= s@.len(),
                s@ == self.sequence@[i as int]@,
                r@ == step_notes(s@.take(j as int)),
            decreases s@.len() - j,
        {
            let n = s[j];
            let m: u8 = if n <= 255 - ROOT { n + ROOT } else { 255 };
            r.push(Note::Midi(m));
            j = j + 1;
            assert(r@ =~= step_notes(s@.take(j as int)));
        }
        assert(s@.take(j as int) =~= s@);
        r
    }

    /// The power chords of the notes of step `i`.
    fn chords_of(&self, i: usize) -> (r: Vec<Note>)
        requires
            i < self.sequence@.len(),
        ensures
            r@ == chord_notes(self.steps()[i as int]),
    {
        let s = &self.sequence[i];
        let mut r: Vec<Note> = Vec::new();
        let mut j: usize = 0;
        while j < s.len()
            invariant
                j <= s@.len(),
                s@ == self.sequence@[i as int]@,
                r@ == chord_notes(s@.take(j as int)),
            decreases s@.len() - j,
        {
            let n = s[j];
            let m: u8 = if n <= 255 - ROOT { n + ROOT } else { 255 };
            proof {
                lemma_midi_freq_bound(m as nat);
            }
            let chord = create_power_chord(Note::Midi(m));
            r.push(chord[0]);
            r.push(chord[1]);
            r.push(chord[2]);
            j = j + 1;
            proof {
                assert(s@.take(j as int).drop_last() =~= s@.take(j as int - 1));
                assert(r@ =~= chord_notes(s@.take(j as int)));
            }
        }
        assert(s@.take(j as int) =~= s@);
        r
    }

    /// Plays the current step where its time has come, and waits otherwise.
    pub fn note_tick(&mut self, sample_rate: u32) -> (r: Option<Vec<Note>>)
        ensures
            final(self).steps() == old(self).steps(),
            final(self).chords_on() == old(self).chords_on(),
            old(self).waiting() > 0 ==> r is None && final(self).waiting() == old(self).waiting() - 1
                && final(self).position() == old(self).position(),
            old(self).waiting() == 0 && old(self).steps().len() == 0 ==> r is None
                && final(self).waiting() == 0 && final(self).position() == old(self).position(),
            old(self).waiting() == 0 && old(self).steps().len() > 0 ==> {
                &&& r is Some
                &&& r->Some_0@ == step_output(old(self).steps()[old(self).current() as int], old(self).chords_on())
                &&& final(self).position() == (old(self).current() + 1) % old(self).steps().len()
                &&& final(self).waiting() == next_wait(sample_rate as nat)
            },
    {
        if self.wait > 0 {
            self.wait = self.wait - 1;
            return None;
        }
        let length = self.sequence.len();
        if length == 0 {
            return None;
        }
        if self.step >= length {
            self.step = 0;
        }
        let notes = self.notes_of(self.step);
        self.step = (self.step + 1) % length;
        let steps: u64 = (sample_rate as u64) * 60 / ((BPM as u64) * 4);
        self.wait = if steps == 0 { 0 } else { steps - 1 };
        Some(notes)
    }

    /// Adds `note` to step `step`, or takes out its first occurrence where
    /// the step already holds it.
    pub fn toggle_note(&mut self, step: usize, note: u8)
        requires
            step < old(self).steps().len(),
        ensures
            final(self).position() == old(self).position(),
            final(self).waiting() == old(self).waiting(),
            final(self).steps().len() == old(self).steps().len(),
            forall|k: int|
                0 <= k < old(self).steps().len() && k != step ==> #[trigger] final(self).steps()[k]
                    == old(self).steps()[k],
            final(self).steps() == old(self).steps().update(step as int, toggled(old(self).steps()[step as int], note)),
            final(self).chords_on() == old(self).chords_on(),
    {
        let ghost before = self.sequence@[step as int]@;
        let mut i: usize = 0;
        let len = self.sequence[step].len();
        while i < len
            invariant
                i <= len,
                len == before.len(),
                self.sequence@ == old(self).sequence@,
                self.step == old(self).step,
                self.wait == old(self).wait,
                self.chords == old(self).chords,
                before == old(self).sequence@[step as int]@,
                step < self.sequence@.len(),
                first_from(before, note, 0) == first_from(before, note, i as int),
            decreases len - i,
        {
            if self.sequence[step][i] == note {
                self.sequence[step].remove(i);
                proof {
                    assert(self.steps()[step as int] == before.remove(i as int));
                    assert(self.steps() =~= old(self).steps().update(step as int, toggled(before, note)));
                }
                return;
            }
            i = i + 1;
        }
        self.sequence[step].push(note);
        proof {
            assert(self.steps() =~= old(self).steps().update(step as int, toggled(before, note)));
        }
    }

    /// Toggles the note under a click at `(x, y)` on a grid of `width` by
    /// `height` pixels, with one column per step and one row per semitone,
    /// the highest at the top. A click outside the grid changes nothing.
    /// What a click does: with the left button, on a grid of `width` by
    /// `height` pixels with one column per step and one row per semitone (the
    /// highest at the top), it toggles the note under `(x, y)`. Any other
    /// click changes nothing.
    pub open spec fn clicked(&self, x: u32, y: u32, width: u32, height: u32, left: bool, next: Self, changed: bool) -> bool {
        let n = self.steps().len();
        let cw = if n == 0 { 0 } else { width as nat / n };
        let ch = height as nat / SCALE_LEN as nat;
        let inside = left && cw > 0 && ch > 0 && x as nat / cw < n && y as nat / ch < SCALE_LEN;
        &&& changed == inside
        &&& !inside ==> next == *self
        &&& inside ==> {
            let col = x as nat / cw;
            let note = (SCALE_LEN - 1 - y as nat / ch) as u8;
            &&& next.steps() == self.steps().update(col as int, toggled(self.steps()[col as int], note))
            &&& next.steps() != self.steps()
            &&& next.position() == self.position()
            &&& next.waiting() == self.waiting()
            &&& next.chords_on() == self.chords_on()
        }
    }

    /// Toggles the note under a left click at `(x, y)` on the step grid of
    /// `width` by `height` pixels; see `clicked`.
    pub fn click(&mut self, x: u32, y: u32, width: u32, height: u32, left: bool) -> (changed: bool)
        ensures
            old(self).clicked(x, y, width, height, left, *final(self), changed),
    {
        if !left {
            return false;
        }
        let n = self.sequence.len();
        if n == 0 || n > u32::MAX as usize {
            proof {
                assert(self.steps().len() == n);
                if n > 0 {
                    let (w, m) = (width as int, n as int);
                    assert(w / m == 0) by (nonlinear_arith)
                        requires 0 <= w < m;
                }
            }
            return false;
        }
        let cw = width / (n as u32);
        let ch = height / (SCALE_LEN as u32);
        if cw == 0 || ch == 0 {
            return false;
        }
        let col = (x / cw) as usize;
        let row = y / ch;
        if col >= n || row >= SCALE_LEN as u32 {
            return false;
        }
        let note = SCALE_LEN - 1 - row as u8;
        self.toggle_note(col, note);
        proof {
            let s = old(self).steps()[col as int];
            lemma_first_from(s, note, 0);
            if first_from(s, note, 0) < s.len() {
                assert(self.steps()[col as int].len() == s.len() - 1);
            } else {
                assert(self.steps()[col as int].len() == s.len() + 1);
            }
            assert(self.steps()[col as int] != old(self).steps()[col as int]);
            assert(self.steps() != old(self).steps());
            assert(width as nat / n as nat == cw as nat);
            assert(height as nat / SCALE_LEN as nat == ch as nat);
        }
        true
    }

    /// Replaces the steps by one single-note step per offset.
    pub fn set_steps(&mut self, offsets: &Vec<u8>)
        ensures
            final(self).steps() == offsets@.map_values(|o: u8| seq![o]),
            final(self).position() == old(self).position(),
            final(self).waiting() == old(self).waiting(),
            final(self).chords_on() == old(self).chords_on(),
    {
        let mut sequence: Vec<Vec<u8>> = Vec::new();
        let mut i: usize = 0;
        while i < offsets.len()
            invariant
                i <= offsets@.len(),
                sequence@.len() == i,
                forall|j: int| 0 <= j < i ==> (#[trigger] sequence@[j])@ == seq![offsets@[j]],
            decreases offsets@.len() - i,
        {
            let mut one: Vec<u8> = Vec::new();
            one.push(offsets[i]);
            sequence.push(one);
            i = i + 1;
        }
        self.sequence = sequence;
        assert(self.steps() =~= offsets@.map_values(|o: u8| seq![o]));
    }
}

impl Module for Sequencer {
    open spec fn inv(&self) -> bool {
        true
    }

    open spec fn arity(&self) -> nat {
        0
    }

    open spec fn out_kind(&self) -> DataType {
        DataType::Notes
    }

    /// A tick plays the current step where its time has come, and counts
    /// down otherwise.
    open spec fn ticks_to(&self, rate: u32, next: Self, out: Option<DataModel>) -> bool {
        &&& next.steps() == self.steps()
        &&& next.chords_on() == self.chords_on()
        &&& if self.waiting() > 0 {
            out is None && next.waiting() == self.waiting() - 1 && next.position() == self.position()
        } else if self.steps().len() == 0 {
            out is None && next.waiting() == 0 && next.position() == self.position()
        } else {
            &&& out == Some(DataModel::Notes(step_output(self.steps()[self.current() as int], self.chords_on())))
            &&& next.position() == (self.current() + 1) % self.steps().len()
            &&& next.waiting() == next_wait(rate as nat)
        }
    }

    /// The sequencer has no inputs and refuses every value.
    open spec fn sends_to(&self, port: usize, value: DataModel, rate: u32, next: Self, accepted: bool) -> bool {
        !accepted && next == *self
    }

    /// A left click on the step grid toggles the note under it.
    open spec fn interacts_to(
        &self,
        x: u32,
        y: u32,
        width: u32,
        height: u32,
        left: bool,
        next: Self,
        changed: bool,
    ) -> bool {
        self.clicked(x, y, width, height, left, next, changed)
    }

    /// A line of semitone offsets replaces the steps, one note per step;
    /// any other command is refused and changes nothing.
    open spec fn executes_to(&self, cmd: Seq<u8>, next: Self, supported: bool) -> bool {
        match offsets_of(cmd) {
            Some(o) => {
                &&& supported
                &&& next.steps() == o.map_values(|x: u8| seq![x])
                &&& next.position() == self.position()
                &&& next.waiting() == self.waiting()
                &&& next.chords_on() == self.chords_on()
            },
            None => !supported && next == *self,
        }
    }

    fn title(&self) -> &'static str {
        "Sequencer"
    }

    fn get_output_type(&self) -> DataType {
        DataType::Notes
    }

    fn get_inputs(&self) -> (r: Vec<(DataType, &'static str)>) {
        Vec::new()
    }

    fn tick(&mut self, sample_rate: u32) -> (r: Option<Data>)
        ensures
            final(self).steps() == old(self).steps(),
            old(self).waiting() > 0 ==> r is None && final(self).waiting() == old(self).waiting() - 1
                && final(self).position() == old(self).position(),
            old(self).waiting() == 0 && old(self).steps().len() == 0 ==> r is None
                && final(self).waiting() == 0,
            old(self).waiting() == 0 && old(self).steps().len() > 0 ==> {
                &&& r is Some
                &&& r->Some_0@ == DataModel::Notes(step_output(old(self).steps()[old(self).current() as int], old(self).chords_on()))
                &&& final(self).position() == (old(self).current() + 1) % old(self).steps().len()
                &&& final(self).waiting() == next_wait(sample_rate as nat)
            },
    {
        match self.note_tick(sample_rate) {
            Some(notes) => Some(Data::Notes(notes)),
            None => None,
        }
    }

    fn send(&mut self, input: usize, data: Data, sample_rate: u32) -> (accepted: bool)
        ensures
            !accepted,
            *final(self) == *old(self),
    {
        false
    }

    /// A click on the step grid toggles the note under it.
    fn interact(&mut self, x: u32, y: u32, width: u32, height: u32, left: bool) -> (changed: bool) {
        self.click(x, y, width, height, left)
    }

    /// A line of semitone offsets replaces the steps, one note per step.
    fn execute(&mut self, cmd: &str) -> (supported: bool) {
        match parse_offsets(cmd.as_bytes()) {
            Some(offsets) => {
                self.set_steps(&offsets);
                true
            },
            None => false,
        }
    }
}

} // verus!
