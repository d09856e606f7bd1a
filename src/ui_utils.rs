use vstd::prelude::*;

verus! {

/// The largest size and position a rectangle may have.
pub const MAX_INT: u32 = 1073741823;

/// The smallest position a rectangle may have.
pub const MIN_INT: i32 = -1073741824;

/// A size held between 1 and `MAX_INT`.
pub open spec fn clamp_size(v: u32) -> u32 {
    if v == 0 { 1 } else if v > MAX_INT { MAX_INT } else { v }
}

/// A position held between `MIN_INT` and `MAX_INT`.
pub open spec fn clamp_position(v: i32) -> i32 {
    if v > MAX_INT as i32 { MAX_INT as i32 } else if v < MIN_INT { MIN_INT } else { v }
}

/// An axis-aligned rectangle on screen, never empty.
#[derive(Clone, Copy, Debug, PartialEq, Eq, Structural)]
pub struct Rect {
    pub x: i32,
    pub y: i32,
    pub width: u32,
    pub height: u32,
}

impl Rect {
    /// Its position and size are within the limits that `new` holds them to.
    pub open spec fn wf(&self) -> bool {
        &&& MIN_INT <= self.x <= MAX_INT as i32
        &&& MIN_INT <= self.y <= MAX_INT as i32
        &&& 1 <= self.width <= MAX_INT
        &&& 1 <= self.height <= MAX_INT
    }

    /// A rectangle at `(x, y)` of the given size, each held within the limits.
    pub fn new(x: i32, y: i32, width: u32, height: u32) -> (r: Rect)
        ensures
            r.wf(),
            r.x == clamp_position(x),
            r.y == clamp_position(y),
            r.width == clamp_size(width),
            r.height == clamp_size(height),
    {
        let cx = if x > MAX_INT as i32 { MAX_INT as i32 } else if x < MIN_INT { MIN_INT } else { x };
        let cy = if y > MAX_INT as i32 { MAX_INT as i32 } else if y < MIN_INT { MIN_INT } else { y };
        let w = if width == 0 { 1 } else if width > MAX_INT { MAX_INT } else { width };
        let h = if height == 0 { 1 } else if height > MAX_INT { MAX_INT } else { height };
        Rect { x: cx, y: cy, width: w, height: h }
    }

    /// Whether `p` lies inside: the left and top edges are inside, the right
    /// and bottom ones outside.
    pub fn contains_point(&self, p: (i32, i32)) -> (r: bool)
        ensures
            r == (self.x <= p.0 < self.x + self.width && self.y <= p.1 < self.y + self.height),
    {
        let (px, py) = p;
        let inside_x = px as i64 >= self.x as i64 && (px as i64) < self.x as i64 + self.width as i64;
        inside_x && py as i64 >= self.y as i64 && (py as i64) < self.y as i64 + self.height as i64
    }
}

/// Lays rectangles out left to right in rows, and tells which one the mouse
/// is over.
pub struct SimpleLayoutBuilder {
    start_x: i32,
    start_y: i32,
    mouse: Option<(u16, u16)>,
    max_height: i32,
    x: i32,
    y: i32,
}

impl SimpleLayoutBuilder {
    /// Where the next rectangle goes.
    pub closed spec fn cursor(&self) -> (int, int) {
        (self.start_x + self.x, self.start_y + self.y)
    }

    /// Where the layout starts.
    pub closed spec fn start(&self) -> (int, int) {
        (self.start_x as int, self.start_y as int)
    }

    /// Where the next rectangle goes is the start moved by the offsets.
    pub proof fn lemma_cursor(&self)
        ensures
            self.cursor() == (self.start().0 + self.offsets().0, self.start().1 + self.offsets().1),
    {
    }

    /// The height of the tallest rectangle of the current row.
    pub closed spec fn row_height(&self) -> int {
        self.max_height as int
    }

    /// The offsets of the cursor from the start.
    pub closed spec fn offsets(&self) -> (int, int) {
        (self.x as int, self.y as int)
    }

    pub closed spec fn mouse_at(&self) -> Option<(u16, u16)> {
        self.mouse
    }

    pub closed spec fn wf(&self) -> bool {
        &&& 0 <= self.x
        &&& 0 <= self.y
        &&& 0 <= self.max_height
    }

    /// A layout that starts at `start`, with the mouse at `mouse` if it is over it.
    pub fn new(start: (i32, i32), mouse: Option<(u16, u16)>) -> (r: SimpleLayoutBuilder)
        ensures
            r.wf(),
            r.cursor() == (start.0 as int, start.1 as int),
            r.start() == (start.0 as int, start.1 as int),
            r.offsets() == (0int, 0int),
            r.row_height() == 0,
            r.mouse_at() == mouse,
    {
        SimpleLayoutBuilder { start_x: start.0, start_y: start.1, mouse, max_height: 0, x: 0, y: 0 }
    }

    /// Places a rectangle of `rect`'s size at the cursor and moves the cursor
    /// right past it. Gives whether the mouse is over the placed rectangle,
    /// and the placed rectangle.
    pub fn add_rect(&mut self, rect: Rect) -> (r: (bool, Rect))
        requires
            old(self).wf(),
            rect.wf(),
            old(self).cursor().0 + rect.width <= i32::MAX,
            old(self).cursor().1 + rect.height <= i32::MAX,
            old(self).offsets().0 + rect.width <= i32::MAX,
        ensures
            final(self).wf(),
            ({
                let (cx, cy) = old(self).cursor();
                &&& r.1 == (Rect {
                    x: clamp_position(cx as i32),
                    y: clamp_position(cy as i32),
                    width: rect.width,
                    height: rect.height,
                })
                &&& r.0 == match old(self).mouse_at() {
                    Some(m) => cx <= m.0 < cx + rect.width && cy <= m.1 < cy + rect.height,
                    None => false,
                }
            }),
            final(self).offsets() == (old(self).offsets().0 + rect.width, old(self).offsets().1),
            final(self).row_height() == if rect.height > old(self).row_height() {
                rect.height as int
            } else {
                old(self).row_height()
            },
            final(self).mouse_at() == old(self).mouse_at(),
            final(self).start() == old(self).start(),
            final(self).cursor() == (old(self).cursor().0 + rect.width, old(self).cursor().1),
    {
        let width = rect.width as i32;
        let height = rect.height as i32;
        let x = self.start_x + self.x;
        let y = self.start_y + self.y;
        let hovered = match self.mouse {
            Some((mx, my)) => {
                let (mx, my) = (mx as i32, my as i32);
                x <= mx && mx < x + width && y <= my && my < y + height
            },
            None => false,
        };
        let result = (hovered, Rect::new(x, y, rect.width, rect.height));
        if height > self.max_height {
            self.max_height = height;
        }
        self.x = self.x + width;
        result
    }

    /// Moves the cursor to the start of the next row, below the tallest
    /// rectangle of the current one.
    pub fn next_row(&mut self)
        requires
            old(self).wf(),
            old(self).offsets().1 + old(self).row_height() <= i32::MAX,
        ensures
            final(self).wf(),
            final(self).offsets() == (0int, old(self).offsets().1 + old(self).row_height()),
            final(self).row_height() == 0,
            final(self).mouse_at() == old(self).mouse_at(),
            final(self).start() == old(self).start(),
            final(self).cursor() == (old(self).start().0, old(self).cursor().1 + old(self).row_height()),
    {
        self.y = self.y + self.max_height;
        self.max_height = 0;
        self.x = 0;
    }
}

} // verus!
