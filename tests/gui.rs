use musikjj::gui::{connection_gesture, Gui, ModuleWindow, Selection};
use musikjj::ui_utils::{Rect, SimpleLayoutBuilder};
use musikjj::DataType;

#[test]
fn rect_clamps_and_contains() {
    let r = Rect::new(0, 0, 0, 0);
    assert_eq!((r.width, r.height), (1, 1));
    let r = Rect::new(i32::MAX, i32::MIN, u32::MAX, 5);
    assert_eq!((r.x, r.y, r.width, r.height), (1073741823, -1073741824, 1073741823, 5));
    let r = Rect::new(1, 2, 3, 4);
    assert!(r.contains_point((1, 2)));
    assert!(!r.contains_point((0, 1)));
    assert!(r.contains_point((3, 5)));
    assert!(!r.contains_point((4, 6)));
}

#[test]
fn layout_rows() {
    let mut layout = SimpleLayoutBuilder::new((10, 20), Some((12, 25)));
    let (hovered, r) = layout.add_rect(Rect::new(0, 0, 5, 10));
    assert!(hovered);
    assert_eq!((r.x, r.y, r.width, r.height), (10, 20, 5, 10));
    let (hovered, r) = layout.add_rect(Rect::new(0, 0, 7, 3));
    assert!(!hovered);
    assert_eq!((r.x, r.y), (15, 20));
    layout.next_row();
    let (_, r) = layout.add_rect(Rect::new(0, 0, 1, 1));
    assert_eq!((r.x, r.y), (10, 30));
    let mut no_mouse = SimpleLayoutBuilder::new((0, 0), None);
    assert!(!no_mouse.add_rect(Rect::new(0, 0, 5, 5)).0);
}

#[test]
fn module_window_geometry() {
    let mut w = ModuleWindow::new("Osc");
    assert_eq!(w.padded_size(), (200, 210));
    assert_eq!(w.output_conn(), (250, 70));
    w.set_inputs(vec![(DataType::Audio, "a"), (DataType::Notes, "b")]);
    assert_eq!(w.input_conns(), vec![(50, 70), (50, 90)]);
    let r = w.padded_rect();
    assert_eq!((r.x, r.y, r.width, r.height), (50, 50, 200, 210));
    w.resize(10, 2_000_000);
    assert_eq!((w.width, w.height), (50, 1048576));
    w.move_to(-5_000_000, 7);
    assert_eq!((w.x, w.y), (-1048576, 7));
}

#[test]
fn gui_hit_testing() {
    let mut gui = Gui::new();
    let mut back = ModuleWindow::new("Back");
    back.set_inputs(vec![(DataType::Audio, "in")]);
    gui.add_window(1, back);
    let mut front = ModuleWindow::new("Front");
    front.move_to(400, 400);
    gui.add_window(2, front);
    assert_eq!(gui.check_selected(252, 69), Some(Selection::Output(1)));
    assert_eq!(gui.check_selected(55, 75), Some(Selection::Input(1, 0)));
    match gui.check_selected(450, 450) {
        Some(Selection::Window(id, rect, x, y)) => {
            assert_eq!((id, rect.x, rect.y, x, y), (2, 400, 400, 450, 450));
        }
        other => panic!("unexpected {:?}", other),
    }
    assert_eq!(gui.check_selected(-500, -500), None);
    gui.module(2).move_to(0, 0);
    assert_eq!(gui.module(2).x, 0);
}

#[test]
fn raise_selected_moves_window_to_front() {
    let mut gui = Gui::new();
    gui.add_window(0, ModuleWindow::new("Output"));
    gui.add_window(1, ModuleWindow::new("A"));
    gui.add_window(2, ModuleWindow::new("B"));
    assert_eq!(gui.selected(), 0);
    gui.raise_selected();
    let order: Vec<usize> = (0..gui.window_count()).map(|i| gui.window(i).0).collect();
    assert_eq!(order, vec![1, 2, 0]);
    gui.raise_selected();
    let order: Vec<usize> = (0..gui.window_count()).map(|i| gui.window(i).0).collect();
    assert_eq!(order, vec![1, 2, 0]);
    assert_eq!(gui.window(0).1.title, "A");
}

#[test]
fn gesture_pairs_output_with_input() {
    let out = Some(Selection::Output(3));
    let inp = Some(Selection::Input(5, 1));
    assert_eq!(connection_gesture(out, inp), Some((3, (5, 1))));
    assert_eq!(connection_gesture(inp, out), Some((3, (5, 1))));
    assert_eq!(connection_gesture(out, out), None);
    assert_eq!(connection_gesture(None, inp), None);
}

#[test]
fn window_drag_moves_and_resizes() {
    let mut w = ModuleWindow::new("W");
    let start = w.rect();
    w.drag(start, 10, -20, false);
    assert_eq!((w.x, w.y, w.width), (60, 30, 160));
    w.drag(start, -200, 5, true);
    assert_eq!((w.x, w.y, w.width, w.height), (60, 30, 50, 165));
    w.drag(start, i32::MAX, 0, false);
    assert_eq!(w.x, 1048576);
}

#[test]
fn layout_keeps_its_start() {
    let mut layout = SimpleLayoutBuilder::new((7, 9), None);
    layout.add_rect(Rect::new(0, 0, 4, 6));
    layout.next_row();
    layout.next_row();
    let (_, r) = layout.add_rect(Rect::new(0, 0, 1, 1));
    assert_eq!((r.x, r.y), (7, 15));
}
