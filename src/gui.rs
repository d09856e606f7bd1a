use vstd::prelude::*;
use crate::data::{DataType, ModuleId, SINK};
use crate::ui_utils::{Rect, clamp_position, clamp_size, MAX_INT};

verus! {

/// The size of a new module window.
pub const DEFAULT_WIN_SIZE: u32 = 160;

/// The margin around a module window's contents.
pub const WIN_PADDING: u8 = 20;

/// Extra margin at the top, for the title.
pub const WIN_PADDING_TOP: u8 = 10;

/// Half the side of the square around a connector that a click hits.
pub const SEL: i32 = 20;

/// The smallest size a window can be given.
pub const MIN_WIN_SIZE: u32 = 50;

/// The largest size, and the largest distance from the origin, of a window.
pub const MAX_WIN_EXTENT: i32 = 1048576;

/// The most input connectors a window shows.
pub const MAX_WIN_INPUTS: usize = 4096;

/// Where a module is drawn in the editor, and its input ports.
pub struct ModuleWindow {
    pub x: i32,
    pub y: i32,
    pub width: u32,
    pub height: u32,
    pub title: &'static str,
    pub inputs: Vec<(DataType, &'static str)>,
}

/// The size of a window with its margins.
pub open spec fn padded(width: u32, height: u32) -> (int, int) {
    (width + 2 * WIN_PADDING, height + 2 * WIN_PADDING + WIN_PADDING_TOP)
}

impl ModuleWindow {
    /// Position and size are within the limits that keep all of the
    /// window's geometry in range.
    pub open spec fn wf(&self) -> bool {
        &&& -MAX_WIN_EXTENT <= self.x <= MAX_WIN_EXTENT
        &&& -MAX_WIN_EXTENT <= self.y <= MAX_WIN_EXTENT
        &&& self.width <= MAX_WIN_EXTENT
        &&& self.height <= MAX_WIN_EXTENT
        &&& self.inputs@.len() <= MAX_WIN_INPUTS
    }

    /// The connector of input `i`.
    pub open spec fn input_conn(&self, i: int) -> (i32, i32) {
        (self.x, (self.y + 20 + 20 * i) as i32)
    }

    /// A window of the default size at `(50, 50)` with no inputs.
    pub fn new(title: &'static str) -> (r: ModuleWindow)
        ensures
            r.wf(),
            r.x == 50 && r.y == 50,
            r.width == DEFAULT_WIN_SIZE && r.height == DEFAULT_WIN_SIZE,
            r.title == title,
            r.inputs@.len() == 0,
    {
        ModuleWindow {
            x: 50,
            y: 50,
            width: DEFAULT_WIN_SIZE,
            height: DEFAULT_WIN_SIZE,
            title,
            inputs: Vec::new(),
        }
    }

    /// The size of the window with its margins.
    pub fn padded_size(&self) -> (r: (u32, u32))
        requires
            self.wf(),
        ensures
            (r.0 as int, r.1 as int) == padded(self.width, self.height),
    {
        (
            self.width + WIN_PADDING as u32 * 2,
            self.height + WIN_PADDING as u32 * 2 + WIN_PADDING_TOP as u32,
        )
    }

    /// The contents' rectangle.
    pub fn rect(&self) -> (r: Rect)
        requires
            self.wf(),
        ensures
            r == (Rect {
                x: self.x,
                y: self.y,
                width: clamp_size(self.width),
                height: clamp_size(self.height),
            }),
    {
        Rect::new(self.x, self.y, self.width, self.height)
    }

    /// The rectangle of the window with its margins.
    pub fn padded_rect(&self) -> (r: Rect)
        requires
            self.wf(),
        ensures
            r == (Rect {
                x: self.x,
                y: self.y,
                width: padded(self.width, self.height).0 as u32,
                height: padded(self.width, self.height).1 as u32,
            }),
    {
        let (width, height) = self.padded_size();
        Rect::new(self.x, self.y, width, height)
    }

    /// The output connector, on the right edge.
    pub fn output_conn(&self) -> (r: (i32, i32))
        requires
            self.wf(),
        ensures
            r.0 == self.x + padded(self.width, self.height).0,
            r.1 == self.y + 20,
    {
        (self.x + self.padded_size().0 as i32, self.y + 20)
    }

    /// The input connectors, one per input, down the left edge.
    pub fn input_conns(&self) -> (r: Vec<(i32, i32)>)
        requires
            self.wf(),
        ensures
            r@.len() == self.inputs@.len(),
            forall|i: int| 0 <= i < r@.len() ==> #[trigger] r@[i] == self.input_conn(i),
    {
        let mut r: Vec<(i32, i32)> = Vec::new();
        let mut i: usize = 0;
        while i < self.inputs.len()
            invariant
                self.wf(),
                i <= self.inputs@.len(),
                r@.len() == i,
                forall|j: int| 0 <= j < i ==> #[trigger] r@[j] == self.input_conn(j),
            decreases self.inputs@.len() - i,
        {
            r.push((self.x, self.y + 20 + 20 * i as i32));
            i = i + 1;
        }
        r
    }

    /// Moves the window, held within the limits.
    pub fn move_to(&mut self, x: i32, y: i32)
        requires
            old(self).wf(),
        ensures
            final(self).wf(),
            final(self).x == clamp_extent(x),
            final(self).y == clamp_extent(y),
            final(self).width == old(self).width,
            final(self).height == old(self).height,
            final(self).inputs == old(self).inputs,
            final(self).title == old(self).title,
    {
        self.x = if x > MAX_WIN_EXTENT { MAX_WIN_EXTENT } else if x < -MAX_WIN_EXTENT { -MAX_WIN_EXTENT } else { x };
        self.y = if y > MAX_WIN_EXTENT { MAX_WIN_EXTENT } else if y < -MAX_WIN_EXTENT { -MAX_WIN_EXTENT } else { y };
    }

    /// Resizes the window, held between `MIN_WIN_SIZE` and the limit.
    pub fn resize(&mut self, width: i32, height: i32)
        requires
            old(self).wf(),
        ensures
            final(self).wf(),
            final(self).width == clamp_win_size(width),
            final(self).height == clamp_win_size(height),
            final(self).x == old(self).x,
            final(self).y == old(self).y,
            final(self).inputs == old(self).inputs,
            final(self).title == old(self).title,
    {
        self.width = if width < MIN_WIN_SIZE as i32 { MIN_WIN_SIZE } else if width > MAX_WIN_EXTENT { MAX_WIN_EXTENT as u32 } else { width as u32 };
        self.height = if height < MIN_WIN_SIZE as i32 { MIN_WIN_SIZE } else if height > MAX_WIN_EXTENT { MAX_WIN_EXTENT as u32 } else { height as u32 };
    }

    /// Moves the window (or, with `resize`, resizes it) from where it was
    /// when the drag started, by `(dx, dy)`, held within the limits.
    pub fn drag(&mut self, start: Rect, dx: i32, dy: i32, resize: bool)
        requires
            old(self).wf(),
        ensures
            final(self).wf(),
            !resize ==> final(self).x == clamp_extent_int(start.x + dx) && final(self).y == clamp_extent_int(
                start.y + dy,
            ) && final(self).width == old(self).width && final(self).height == old(self).height,
            resize ==> final(self).width == clamp_size_int(start.width + dx) && final(self).height
                == clamp_size_int(start.height + dy) && final(self).x == old(self).x && final(self).y == old(self).y,
            final(self).inputs == old(self).inputs,
            final(self).title == old(self).title,
    {
        if resize {
            let w = start.width as i64 + dx as i64;
            let h = start.height as i64 + dy as i64;
            self.width = if w < MIN_WIN_SIZE as i64 { MIN_WIN_SIZE } else if w > MAX_WIN_EXTENT as i64 { MAX_WIN_EXTENT as u32 } else { w as u32 };
            self.height = if h < MIN_WIN_SIZE as i64 { MIN_WIN_SIZE } else if h > MAX_WIN_EXTENT as i64 { MAX_WIN_EXTENT as u32 } else { h as u32 };
        } else {
            let x = start.x as i64 + dx as i64;
            let y = start.y as i64 + dy as i64;
            self.x = if x > MAX_WIN_EXTENT as i64 { MAX_WIN_EXTENT } else if x < -(MAX_WIN_EXTENT as i64) { -MAX_WIN_EXTENT } else { x as i32 };
            self.y = if y > MAX_WIN_EXTENT as i64 { MAX_WIN_EXTENT } else if y < -(MAX_WIN_EXTENT as i64) { -MAX_WIN_EXTENT } else { y as i32 };
        }
    }

    /// Replaces the listed inputs; those beyond `MAX_WIN_INPUTS` are not shown.
    pub fn set_inputs(&mut self, inputs: Vec<(DataType, &'static str)>)
        requires
            old(self).wf(),
        ensures
            final(self).wf(),
            inputs@.len() <= MAX_WIN_INPUTS ==> final(self).inputs@ == inputs@,
            inputs@.len() > MAX_WIN_INPUTS ==> final(self).inputs@ == inputs@.take(MAX_WIN_INPUTS as int),
            final(self).x == old(self).x && final(self).y == old(self).y,
            final(self).width == old(self).width && final(self).height == old(self).height,
    {
        let mut inputs = inputs;
        if inputs.len() > MAX_WIN_INPUTS {
            inputs.truncate(MAX_WIN_INPUTS);
        }
        self.inputs = inputs;
    }
}

/// A coordinate held within `MAX_WIN_EXTENT` of the origin.
pub open spec fn clamp_extent(v: i32) -> i32 {
    if v > MAX_WIN_EXTENT { MAX_WIN_EXTENT } else if v < -MAX_WIN_EXTENT { (-MAX_WIN_EXTENT) as i32 } else { v }
}

/// A coordinate held within `MAX_WIN_EXTENT` of the origin.
pub open spec fn clamp_extent_int(v: int) -> i32 {
    if v > MAX_WIN_EXTENT { MAX_WIN_EXTENT } else if v < -MAX_WIN_EXTENT { (-MAX_WIN_EXTENT) as i32 } else { v as i32 }
}

/// A window size held between `MIN_WIN_SIZE` and `MAX_WIN_EXTENT`.
pub open spec fn clamp_size_int(v: int) -> u32 {
    if v < MIN_WIN_SIZE { MIN_WIN_SIZE } else if v > MAX_WIN_EXTENT { MAX_WIN_EXTENT as u32 } else { v as u32 }
}

/// A window size held between `MIN_WIN_SIZE` and `MAX_WIN_EXTENT`.
pub open spec fn clamp_win_size(v: i32) -> u32 {
    if v < MIN_WIN_SIZE as i32 { MIN_WIN_SIZE } else if v > MAX_WIN_EXTENT { MAX_WIN_EXTENT as u32 } else { v as u32 }
}

/// What a click in the editor hit.
#[derive(Clone, Copy, Debug, PartialEq, Eq, Structural)]
pub enum Selection {
    /// A window's body: the window, its contents' rectangle, and the click.
    Window(ModuleId, Rect, i32, i32),
    /// A window's output connector.
    Output(ModuleId),
    /// A window's input connector: the window and the port.
    Input(ModuleId, usize),
}

/// The connection that a press on `pressed` and a release on `released`
/// ask for: from an output connector to an input connector, either way round.
pub open spec fn gesture_model(pressed: Option<Selection>, released: Option<Selection>) -> Option<(ModuleId, (ModuleId, usize))> {
    match (pressed, released) {
        (Some(Selection::Input(i, p)), Some(Selection::Output(o))) => Some((o, (i, p))),
        (Some(Selection::Output(o)), Some(Selection::Input(i, p))) => Some((o, (i, p))),
        _ => None,
    }
}

/// The connection, `(producer, (consumer, port))`, that dragging from one
/// connector to another asks for, if any.
pub fn connection_gesture(pressed: Option<Selection>, released: Option<Selection>) -> (r: Option<(ModuleId, (ModuleId, usize))>)
    ensures
        r == gesture_model(pressed, released),
{
    match (pressed, released) {
        (Some(Selection::Input(i, p)), Some(Selection::Output(o))) => Some((o, (i, p))),
        (Some(Selection::Output(o)), Some(Selection::Input(i, p))) => Some((o, (i, p))),
        _ => None,
    }
}

/// Whether `(x, y)` lies within `SEL` of the connector `c`, edges excluded.
pub open spec fn near(c: (i32, i32), x: i32, y: i32) -> bool {
    c.0 - SEL < x < c.0 + SEL && c.1 - SEL < y < c.1 + SEL
}

/// The first input connector of `w`, from `j` on, that `(x, y)` is near.
pub open spec fn input_hit(w: ModuleWindow, x: i32, y: i32, j: int) -> Option<usize>
    decreases w.inputs@.len() - j,
{
    if j < 0 || j >= w.inputs@.len() {
        None
    } else if near(w.input_conn(j), x, y) {
        Some(j as usize)
    } else {
        input_hit(w, x, y, j + 1)
    }
}

/// What a click at `(x, y)` hits on the window `w` of module `id`: its output
/// connector, else an input connector, else its body.
pub open spec fn window_hit(id: ModuleId, w: ModuleWindow, x: i32, y: i32) -> Option<Selection> {
    let out = ((w.x + padded(w.width, w.height).0) as i32, (w.y + 20) as i32);
    let (pw, ph) = padded(w.width, w.height);
    if near(out, x, y) {
        Some(Selection::Output(id))
    } else if input_hit(w, x, y, 0) is Some {
        Some(Selection::Input(id, input_hit(w, x, y, 0)->Some_0))
    } else if w.x <= x < w.x + pw && w.y <= y < w.y + ph {
        Some(
            Selection::Window(
                id,
                Rect { x: w.x, y: w.y, width: clamp_size(w.width), height: clamp_size(w.height) },
                x,
                y,
            ),
        )
    } else {
        None
    }
}

/// What a click at `(x, y)` hits among the first `k` windows, the frontmost first.
pub open spec fn pick(s: Seq<(ModuleId, ModuleWindow)>, x: i32, y: i32, k: int) -> Option<Selection>
    decreases k,
{
    if k <= 0 || k > s.len() {
        None
    } else if window_hit(s[k - 1].0, s[k - 1].1, x, y) is Some {
        window_hit(s[k - 1].0, s[k - 1].1, x, y)
    } else {
        pick(s, x, y, k - 1)
    }
}

/// The module a selection is about.
pub open spec fn selection_id(s: Selection) -> ModuleId {
    match s {
        Selection::Window(id, _, _, _) => id,
        Selection::Output(id) => id,
        Selection::Input(id, _) => id,
    }
}

/// The index of the last of the first `k` windows that shows module `id`.
pub open spec fn last_window_below(s: Seq<(ModuleId, ModuleWindow)>, id: ModuleId, k: int) -> Option<int>
    decreases k,
{
    if k <= 0 || k > s.len() {
        None
    } else if s[k - 1].0 == id {
        Some(k - 1)
    } else {
        last_window_below(s, id, k - 1)
    }
}

/// The index of the first window at or after `k` that shows module `id`.
pub open spec fn window_index(s: Seq<(ModuleId, ModuleWindow)>, id: ModuleId, k: int) -> int
    decreases s.len() - k,
{
    if k < 0 || k >= s.len() {
        s.len() as int
    } else if s[k].0 == id {
        k
    } else {
        window_index(s, id, k + 1)
    }
}

/// The editor's windows, front to back in reverse order, and the selection.
pub struct Gui {
    modules: Vec<(ModuleId, ModuleWindow)>,
    selected: ModuleId,
}

impl Gui {
    /// The windows, with the module each shows; the last is in front.
    pub closed spec fn windows(&self) -> Seq<(ModuleId, ModuleWindow)> {
        self.modules@
    }

    /// The selected module.
    pub closed spec fn selected_id(&self) -> ModuleId {
        self.selected
    }

    pub closed spec fn wf(&self) -> bool {
        forall|i: int| 0 <= i < self.modules@.len() ==> (#[trigger] self.modules@[i]).1.wf()
    }

    /// An editor with no windows and the sink selected.
    pub fn new() -> (r: Gui)
        ensures
            r.wf(),
            r.windows().len() == 0,
            r.selected_id() == SINK,
    {
        Gui { modules: Vec::new(), selected: SINK }
    }

    /// Adds a window in front for module `id`.
    pub fn add_window(&mut self, id: ModuleId, window: ModuleWindow)
        requires
            old(self).wf(),
            window.wf(),
        ensures
            final(self).wf(),
            final(self).windows() == old(self).windows().push((id, window)),
            final(self).selected_id() == old(self).selected_id(),
    {
        self.modules.push((id, window));
    }

    /// The window of module `id`, the first one where there are several.
    pub fn module(&mut self, id: ModuleId) -> (r: &mut ModuleWindow)
        requires
            exists|i: int| 0 <= i < old(self).windows().len() && (#[trigger] old(self).windows()[i]).0 == id,
        ensures
            ({
                let i = window_index(old(self).windows(), id, 0);
                &&& *r == old(self).windows()[i].1
                &&& final(self).windows() == old(self).windows().update(i, (id, *final(r)))
            }),
            final(self).selected_id() == old(self).selected_id(),
    {
        let mut i: usize = 0;
        while i < self.modules.len()
            invariant
                i <= self.modules@.len(),
                self.modules@ == old(self).modules@,
                self.selected == old(self).selected,
                window_index(self.modules@, id, 0) == window_index(self.modules@, id, i as int),
                exists|k: int| i <= k < self.modules@.len() && (#[trigger] self.modules@[k]).0 == id,
            decreases self.modules@.len() - i,
        {
            if self.modules[i].0 == id {
                return &mut self.modules[i].1;
            }
            i = i + 1;
        }
        &mut self.modules[0].1
    }

    /// What a click at `(x, y)` hits on one window.
    fn hit(id: ModuleId, w: &ModuleWindow, x: i32, y: i32) -> (r: Option<Selection>)
        requires
            w.wf(),
        ensures
            r == window_hit(id, *w, x, y),
    {
        let (cx, cy) = w.output_conn();
        if cx - SEL < x && x < cx + SEL && cy - SEL < y && y < cy + SEL {
            return Some(Selection::Output(id));
        }
        let conns = w.input_conns();
        let mut j: usize = 0;
        while j < conns.len()
            invariant
                w.wf(),
                j <= conns@.len(),
                conns@.len() == w.inputs@.len(),
                forall|i: int| 0 <= i < conns@.len() ==> #[trigger] conns@[i] == w.input_conn(i),
                input_hit(*w, x, y, 0) == input_hit(*w, x, y, j as int),
            decreases conns@.len() - j,
        {
            let (cx, cy) = conns[j];
            if cx - SEL < x && x < cx + SEL && cy - SEL < y && y < cy + SEL {
                return Some(Selection::Input(id, j));
            }
            j = j + 1;
        }
        if w.padded_rect().contains_point((x, y)) {
            return Some(Selection::Window(id, w.rect(), x, y));
        }
        None
    }

    /// Finds what a click at `(x, y)` hits, the frontmost window first, and
    /// selects that window's module.
    pub fn check_selected(&mut self, x: i32, y: i32) -> (r: Option<Selection>)
        requires
            old(self).wf(),
        ensures
            final(self).wf(),
            r == pick(old(self).windows(), x, y, old(self).windows().len() as int),
            final(self).windows() == old(self).windows(),
            final(self).selected_id() == match r {
                Some(s) => selection_id(s),
                None => old(self).selected_id(),
            },
    {
        let mut k: usize = self.modules.len();
        while k > 0
            invariant
                self.wf(),
                k <= self.modules@.len(),
                self.modules@ == old(self).modules@,
                self.selected == old(self).selected,
                pick(self.modules@, x, y, self.modules@.len() as int) == pick(self.modules@, x, y, k as int),
            decreases k,
        {
            let id = self.modules[k - 1].0;
            let hit = Self::hit(id, &self.modules[k - 1].1, x, y);
            match hit {
                Some(s) => {
                    self.selected = id;
                    return Some(s);
                },
                None => {},
            }
            k = k - 1;
        }
        None
    }

    /// The number of windows.
    pub fn window_count(&self) -> (r: usize)
        ensures
            r == self.windows().len(),
    {
        self.modules.len()
    }

    /// Window `i`, counted from the back, with the module it shows.
    pub fn window(&self, i: usize) -> (r: (ModuleId, &ModuleWindow))
        requires
            i < self.windows().len(),
        ensures
            r.0 == self.windows()[i as int].0,
            *r.1 == self.windows()[i as int].1,
    {
        (self.modules[i].0, &self.modules[i].1)
    }

    /// The selected module.
    pub fn selected(&self) -> (r: ModuleId)
        ensures
            r == self.selected_id(),
    {
        self.selected
    }

    /// Brings the window of the selected module to the front. Where several
    /// windows show it, the last of them is moved.
    pub fn raise_selected(&mut self)
        requires
            old(self).wf(),
        ensures
            final(self).wf(),
            final(self).windows().len() == old(self).windows().len(),
            final(self).selected_id() == old(self).selected_id(),
            match last_window_below(old(self).windows(), old(self).selected_id(), old(self).windows().len() as int) {
                Some(k) => final(self).windows() == old(self).windows().remove(k).push(old(self).windows()[k]),
                None => final(self).windows() == old(self).windows(),
            },
    {
        let mut index: Option<usize> = None;
        let mut i: usize = 0;
        while i < self.modules.len()
            invariant
                i <= self.modules@.len(),
                self.modules@ == old(self).modules@,
                self.selected == old(self).selected,
                match index {
                    Some(k) => k < i && last_window_below(self.modules@, self.selected, i as int) == Some(k as int),
                    None => last_window_below(self.modules@, self.selected, i as int) is None,
                },
            decreases self.modules@.len() - i,
        {
            if self.modules[i].0 == self.selected {
                index = Some(i);
            }
            i = i + 1;
        }
        match index {
            Some(k) => {
                let w = self.modules.remove(k);
                self.modules.push(w);
                proof {
                    let o = old(self).modules@;
                    assert forall|j: int| 0 <= j < self.modules@.len() implies (#[trigger] self.modules@[j]).1.wf() by {
                        if j < k {
                            assert(self.modules@[j] == o[j]);
                        } else if j < self.modules@.len() - 1 {
                            assert(self.modules@[j] == o[j + 1]);
                        }
                    }
                }
            },
            None => {},
        }
    }
}

} // verus!
