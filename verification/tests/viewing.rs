//! The viewer as its user meets it.

use cce_preview::document::{Document, Kind, PageSize, Scalar};
use cce_preview::frame::{pick_dpi, Frame, ShownPage, DPI_BUCKETS};
use cce_preview::input::{
    meaning, ElementState, Key, KeyAction, KeyEvent, MouseButton, NamedKey, Point,
};
use cce_preview::path::FilePath;
use cce_preview::store::Rendered;
use cce_preview::viewer::{
    current_page, Command, Message, PreviewApp, Reaction, Resized, Wheel, ZoomStep,
};

fn path(s: &str) -> FilePath {
    FilePath { bytes: s.as_bytes().to_vec() }
}

fn files(names: &[&str]) -> Vec<FilePath> {
    names.iter().map(|n| path(n)).collect()
}

fn doc(name: &str, kind: Kind, pages: usize) -> Document {
    let one = Scalar { bits: 1.0f64.to_bits() };
    Document { path: path(name), kind, pages: vec![PageSize { w: one, h: one }; pages] }
}

fn point(x: f64, y: f64) -> Point {
    Point { x: Scalar { bits: x.to_bits() }, y: Scalar { bits: y.to_bits() } }
}

fn viewer(name: &str, kind: Kind, pages: usize) -> PreviewApp {
    let (mut app, _) = PreviewApp::new(files(&[name]));
    let (freed, fit) = app.open(&path(name), Ok(doc(name, kind, pages)), Some(files(&[name])));
    assert_eq!(freed, []);
    assert_eq!(fit, if pages > 0 { Some(0) } else { None });
    app
}

fn browsing(names: &[&str]) -> PreviewApp {
    let (mut app, request) = PreviewApp::new(files(names));
    let request = request.unwrap();
    app.open(&request.path, Ok(doc(names[0], Kind::Image, 1)), None);
    app
}

/// The hits of a document of `n` pages whose page `at` is in the middle.
fn at(n: usize, at: usize) -> Vec<bool> {
    (0..n).map(|i| i >= at).collect()
}

fn event(logical_key: Key) -> KeyEvent {
    KeyEvent { logical_key, state: ElementState::Pressed, ctrl: false, shift: false }
}

fn press(app: &mut PreviewApp, key: Key, hits: &Vec<bool>) -> (Reaction, bool) {
    let mut rebuild = false;
    let reaction = app.handle_key_input(&event(key), hits, &mut rebuild);
    (reaction, rebuild)
}

fn write(app: &mut PreviewApp, text: &str, hits: &Vec<bool>) -> Command {
    let (reaction, rebuild) = press(app, Key::Character(text.to_string()), hits);
    assert_eq!(reaction.message, None);
    assert_eq!(rebuild, !matches!(text, "x" | "rr" | "" | "O" | "Q"));
    reaction.command
}

fn name(app: &mut PreviewApp, key: NamedKey, hits: &Vec<bool>) -> Command {
    let (reaction, rebuild) = press(app, Key::Named(key), hits);
    assert_eq!(reaction.message, None);
    assert!(rebuild);
    assert_eq!(reaction.freed, []);
    reaction.command
}

fn enough(dpi: u32) -> Vec<bool> {
    DPI_BUCKETS.iter().map(|b| dpi <= *b).collect()
}

fn draw(app: &mut PreviewApp, off: &[bool], current: usize) -> (Vec<ShownPage>, Vec<usize>, String) {
    match app.display_list(&off.to_vec(), &enough(72), &at(off.len(), current), "125") {
        Frame::Notice(text) => panic!("{}", text),
        Frame::Pages { pages, jobs, hud } => (pages, jobs.iter().map(|j| j.page).collect(), hud),
    }
}

fn notice(app: &mut PreviewApp) -> String {
    match app.display_list(&Vec::new(), &enough(72), &Vec::new(), "100") {
        Frame::Notice(text) => text,
        Frame::Pages { .. } => panic!("pages"),
    }
}

fn deliver(app: &mut PreviewApp, generation: u64, page: usize, image: u32) -> Vec<u32> {
    let (mut rebuild, mut exit) = (false, false);
    let result = Some(Rendered { image, dpi: 72 });
    let freed = app.update(Message::Page { generation, page, result }, &mut rebuild, &mut exit);
    assert!(rebuild && !exit);
    freed
}

#[test]
fn a_viewer_without_files_waits_for_one() {
    let (mut app, request) = PreviewApp::new(Vec::new());
    assert!(request.is_none());
    assert_eq!(app.files.len(), 0);
    assert!(app.fit);
    assert_eq!(notice(&mut app), "Press 'o' to open a file");
    assert_eq!(app.title(&Vec::new()), "Preview");
}

#[test]
fn a_single_file_is_opened_with_its_neighbours() {
    let (app, request) = PreviewApp::new(files(&["a.png"]));
    let request = request.unwrap();
    assert_eq!(request.path.bytes, b"a.png");
    assert!(request.rebuild_collection);
    assert_eq!(app.files.len(), 0);
}

#[test]
fn several_files_are_browsed() {
    let (app, request) = PreviewApp::new(files(&["b.png", "a.pdf", "c"]));
    let request = request.unwrap();
    assert_eq!(request.path.bytes, b"b.png");
    assert!(!request.rebuild_collection);
    assert_eq!(app.files.len(), 3);
    assert_eq!(app.file_idx, 0);
}

#[test]
fn a_file_that_cannot_be_opened_is_complained_of() {
    let mut app = viewer("a.png", Kind::Image, 1);
    let (_, fit) = app.open(&path("/x/b.txt"), Err("unsupported file type".to_string()), None);
    assert_eq!(fit, None);
    assert!(app.doc.is_none());
    assert_eq!(notice(&mut app), "/x/b.txt: unsupported file type");
    app.open(&path("a.png"), Ok(doc("a.png", Kind::Image, 1)), None);
    assert!(app.error.is_none());
}

#[test]
fn opening_a_file_browses_its_directory() {
    let (mut app, _) = PreviewApp::new(Vec::new());
    app.open(
        &path("d/b.png"),
        Ok(doc("d/b.png", Kind::Image, 1)),
        Some(files(&["d/c.png", "d/x.txt", "d/b.png", "d/a.png"])),
    );
    assert_eq!(app.files.iter().map(|f| f.display()).collect::<Vec<String>>(), ["d/a.png", "d/b.png", "d/c.png"]);
    assert_eq!(app.file_idx, 1);
}

#[test]
fn opening_a_file_frees_what_was_shown() {
    let mut app = viewer("a.pdf", Kind::Pdf, 2);
    draw(&mut app, &[false, false], 0);
    assert_eq!(deliver(&mut app, 1, 1, 7), []);
    app.rotate(1);
    draw(&mut app, &[false, false], 0);
    assert_eq!(deliver(&mut app, 2, 0, 8), []);
    assert_eq!(deliver(&mut app, 1, 0, 9), [9]);
    let (freed, _) = app.open(&path("b.pdf"), Ok(doc("b.pdf", Kind::Pdf, 1)), None);
    assert_eq!(freed, [8]);
    assert_eq!(app.quarter_turns, 0);
}

#[test]
fn the_files_form_a_ring() {
    let mut app = browsing(&["a", "b", "c"]);
    assert_eq!(app.open_sibling(1), Some(1));
    assert_eq!(app.open_sibling(1), Some(2));
    assert_eq!(app.open_sibling(1), Some(0));
    assert_eq!(app.open_sibling(-1), Some(2));
    assert_eq!(app.open_sibling(-7), Some(1));
    assert_eq!(app.open_sibling(i64::MIN), Some((1 + i128::from(i64::MIN)).rem_euclid(3) as usize));
    let mut alone = viewer("a.png", Kind::Image, 1);
    assert_eq!(alone.open_sibling(1), None);
}

#[test]
fn turns_go_round() {
    let mut app = viewer("a.pdf", Kind::Pdf, 1);
    for (turn, expected) in [(1, 1), (1, 2), (1, 3), (1, 0), (-1, 3), (-1, 2), (-128, 2), (125, 3)] {
        app.rotate(turn);
        assert_eq!(app.quarter_turns, expected);
    }
    assert_eq!(app.store.generation(), 9);
    let wide = PageSize { w: Scalar { bits: 2 }, h: Scalar { bits: 1 } };
    assert_eq!(app.rotated(wide), PageSize { w: Scalar { bits: 1 }, h: Scalar { bits: 2 } });
}

#[test]
fn the_middle_of_the_window_tells_the_page() {
    assert_eq!(current_page(&at(5, 0)), 0);
    assert_eq!(current_page(&at(5, 3)), 3);
    assert_eq!(current_page(&vec![false, true, false]), 1);
    assert_eq!(current_page(&vec![false; 4]), 3);
    assert_eq!(current_page(&Vec::new()), 0);
}

#[test]
fn resizing_fits_the_page_until_the_user_zooms() {
    let mut app = viewer("a.pdf", Kind::Pdf, 3);
    assert_eq!(app.handle_resize(&at(3, 2)), Resized::Fit(Some(2)));
    assert_eq!(app.refit(&at(3, 2)), Some(2));
    app.zoom();
    assert_eq!(app.handle_resize(&at(3, 2)), Resized::Clamp);
    assert_eq!(app.refit(&at(3, 2)), None);
    assert_eq!(app.fit_page(3), None);
    assert!(!app.fit);
    assert_eq!(app.fit_page(1), Some(1));
    assert!(app.fit);
    let (empty, _) = PreviewApp::new(Vec::new());
    assert_eq!(empty.handle_resize(&Vec::new()), Resized::Fit(None));
}

#[test]
fn keys_zoom() {
    let mut app = viewer("a.pdf", Kind::Pdf, 3);
    let hits = at(3, 1);
    for (text, step) in
        [("+", ZoomStep::In), ("=", ZoomStep::In), ("-", ZoomStep::Out), ("1", ZoomStep::ActualSize)]
    {
        app.fit = true;
        assert_eq!(write(&mut app, text, &hits), Command::Zoom(step));
        assert!(!app.fit);
    }
    assert_eq!(write(&mut app, "0", &hits), Command::Fit(1));
    assert!(app.fit);
    let (mut empty, _) = PreviewApp::new(Vec::new());
    empty.fit = false;
    assert_eq!(write(&mut empty, "0", &Vec::new()), Command::Nothing);
    assert!(!empty.fit);
}

#[test]
fn keys_turn() {
    let mut app = viewer("a.pdf", Kind::Pdf, 1);
    draw(&mut app, &[false], 0);
    deliver(&mut app, 1, 0, 4);
    let (reaction, _) = press(&mut app, Key::Character("R".to_string()), &at(1, 0));
    assert_eq!(reaction.command, Command::Refit);
    assert_eq!(reaction.freed, [4]);
    assert_eq!(app.quarter_turns, 1);
    assert_eq!(write(&mut app, "r", &at(1, 0)), Command::Refit);
    assert_eq!(app.quarter_turns, 2);
    assert_eq!(write(&mut app, "l", &at(1, 0)), Command::Refit);
    assert_eq!(write(&mut app, "L", &at(1, 0)), Command::Refit);
    assert_eq!(write(&mut app, "L", &at(1, 0)), Command::Refit);
    assert_eq!(app.quarter_turns, 3);
}

#[test]
fn keys_open_and_quit() {
    let mut app = viewer("a.pdf", Kind::Pdf, 1);
    assert_eq!(write(&mut app, "o", &at(1, 0)), Command::OpenDialog);
    let (reaction, rebuild) = press(&mut app, Key::Character("q".to_string()), &at(1, 0));
    assert_eq!(reaction.message, Some(Message::Quit));
    assert_eq!(reaction.command, Command::Nothing);
    assert!(!rebuild);
}

#[test]
fn other_keys_do_nothing() {
    let mut app = viewer("a.pdf", Kind::Pdf, 1);
    for text in ["x", "rr", "", "O", "Q"] {
        assert_eq!(write(&mut app, text, &at(1, 0)), Command::Nothing);
    }
    for key in [Key::Other, Key::Named(NamedKey::Other), Key::Named(NamedKey::Shift)] {
        let (reaction, rebuild) = press(&mut app, key, &at(1, 0));
        assert_eq!(reaction.command, Command::Nothing);
        assert!(!rebuild);
    }
}

#[test]
fn keys_that_go_up_do_nothing() {
    let mut app = viewer("a.pdf", Kind::Pdf, 1);
    let mut rebuild = false;
    let up = KeyEvent {
        logical_key: Key::Character("q".to_string()),
        state: ElementState::Released,
        ctrl: true,
        shift: false,
    };
    let reaction = app.handle_key_input(&up, &at(1, 0), &mut rebuild);
    assert_eq!(reaction.message, None);
    assert!(!rebuild);
    assert!(app.ctrl);
}

#[test]
fn arrows_lead_through_the_pages() {
    let mut app = viewer("a.pdf", Kind::Pdf, 3);
    app.files = files(&["a.pdf", "b.pdf"]);
    assert_eq!(name(&mut app, NamedKey::ArrowRight, &at(3, 0)), Command::ScrollToPage(1));
    assert_eq!(name(&mut app, NamedKey::ArrowRight, &at(3, 2)), Command::ScrollToPage(2));
    assert_eq!(name(&mut app, NamedKey::ArrowLeft, &at(3, 2)), Command::ScrollToPage(1));
    assert_eq!(name(&mut app, NamedKey::ArrowLeft, &at(3, 0)), Command::ScrollToPage(0));
    assert_eq!(name(&mut app, NamedKey::PageDown, &at(3, 1)), Command::ScrollToPage(2));
    assert_eq!(name(&mut app, NamedKey::PageUp, &at(3, 1)), Command::ScrollToPage(0));
    assert_eq!(name(&mut app, NamedKey::Home, &at(3, 1)), Command::ScrollToPage(0));
    assert_eq!(name(&mut app, NamedKey::End, &at(3, 1)), Command::ScrollToPage(2));
    assert_eq!(app.file_idx, 0);
}

#[test]
fn arrows_lead_through_the_files() {
    let mut app = browsing(&["a.png", "b.png", "c.png"]);
    assert_eq!(name(&mut app, NamedKey::ArrowLeft, &at(1, 0)), Command::OpenFile(2));
    assert_eq!(app.file_idx, 2);
    assert_eq!(name(&mut app, NamedKey::ArrowRight, &at(1, 0)), Command::OpenFile(0));
    assert_eq!(name(&mut app, NamedKey::PageDown, &at(1, 0)), Command::OpenFile(1));
    assert_eq!(app.file_idx, 1);
    assert_eq!(name(&mut app, NamedKey::PageUp, &at(1, 0)), Command::OpenFile(0));
    assert_eq!(name(&mut app, NamedKey::PageUp, &at(1, 0)), Command::OpenFile(2));
    assert_eq!(name(&mut app, NamedKey::End, &at(1, 0)), Command::ScrollToPage(0));
    assert_eq!(app.file_idx, 2);
}

#[test]
fn page_keys_stay_with_the_pages_of_a_pdf() {
    let (mut app, _) = PreviewApp::new(files(&["a.pdf", "b.pdf"]));
    app.open(&path("a.pdf"), Ok(doc("a.pdf", Kind::Pdf, 1)), None);
    assert_eq!(name(&mut app, NamedKey::PageDown, &at(1, 0)), Command::ScrollToPage(0));
    assert_eq!(name(&mut app, NamedKey::PageUp, &at(1, 0)), Command::ScrollToPage(0));
    assert_eq!(app.file_idx, 0);
    assert_eq!(name(&mut app, NamedKey::ArrowRight, &at(1, 0)), Command::OpenFile(1));
    app.open(&path("b.pdf"), Err("gone".to_string()), None);
    assert_eq!(name(&mut app, NamedKey::PageUp, &Vec::new()), Command::Nothing);
    assert_eq!(app.file_idx, 1);
    assert_eq!(name(&mut app, NamedKey::ArrowLeft, &Vec::new()), Command::OpenFile(0));
}

#[test]
fn keys_scroll() {
    let mut app = viewer("a.pdf", Kind::Pdf, 3);
    assert_eq!(name(&mut app, NamedKey::ArrowUp, &at(3, 0)), Command::ScrollUp);
    assert_eq!(name(&mut app, NamedKey::ArrowDown, &at(3, 0)), Command::ScrollDown);
    assert_eq!(name(&mut app, NamedKey::Space, &at(3, 0)), Command::ScrollWindow);
    let mut alone = viewer("a.png", Kind::Image, 1);
    assert_eq!(name(&mut alone, NamedKey::PageDown, &at(1, 0)), Command::ScrollToPage(0));
    assert_eq!(name(&mut alone, NamedKey::ArrowLeft, &at(1, 0)), Command::ScrollToPage(0));
    let (mut empty, _) = PreviewApp::new(Vec::new());
    assert_eq!(name(&mut empty, NamedKey::End, &Vec::new()), Command::Nothing);
}

#[test]
fn keys_mean_the_same_everywhere() {
    assert_eq!(meaning(&Key::Named(NamedKey::ArrowLeft), true), KeyAction::PreviousFile);
    assert_eq!(meaning(&Key::Named(NamedKey::ArrowLeft), false), KeyAction::PreviousPage);
    assert_eq!(meaning(&Key::Named(NamedKey::PageUp), true), KeyAction::PreviousFile);
    assert_eq!(meaning(&Key::Named(NamedKey::PageUp), false), KeyAction::PreviousPage);
    assert_eq!(meaning(&Key::Named(NamedKey::PageDown), true), KeyAction::NextFile);
    assert_eq!(meaning(&Key::Named(NamedKey::PageDown), false), KeyAction::NextPage);
    assert_eq!(meaning(&Key::Named(NamedKey::Control), true), KeyAction::Nothing);
}

#[test]
fn modifiers_are_remembered_for_the_wheel() {
    let mut app = viewer("a.pdf", Kind::Pdf, 1);
    let (dx, dy) = (Scalar { bits: 3.0f64.to_bits() }, Scalar { bits: 4.0f64.to_bits() });
    let none = Scalar { bits: 0.0f64.to_bits() };
    let mut rebuild = false;
    assert_eq!(app.handle_mouse_wheel(true, dx, dy, &mut rebuild), Wheel::Scroll { dx, dy });
    press(&mut app, Key::Named(NamedKey::Shift), &at(1, 0));
    assert_eq!(app.handle_mouse_wheel(true, dx, dy, &mut rebuild), Wheel::Scroll { dx: dy, dy: none });
    press(&mut app, Key::Named(NamedKey::Control), &at(1, 0));
    assert!(app.ctrl && app.shift);
    assert_eq!(app.handle_mouse_wheel(false, dx, dy, &mut rebuild), Wheel::Nothing);
    assert!(app.fit && !rebuild);
    assert_eq!(app.handle_mouse_wheel(true, dx, dy, &mut rebuild), Wheel::Zoom);
    assert!(!app.fit && rebuild);
    let up = KeyEvent {
        logical_key: Key::Named(NamedKey::Control),
        state: ElementState::Released,
        ctrl: true,
        shift: false,
    };
    app.handle_key_input(&up, &at(1, 0), &mut rebuild);
    assert!(!app.ctrl && app.shift);
    write(&mut app, "x", &at(1, 0));
    assert!(!app.ctrl && !app.shift);
}

#[test]
fn pinching_zooms() {
    let mut app = viewer("a.pdf", Kind::Pdf, 1);
    let mut rebuild = false;
    assert!(!app.handle_pinch(false, &mut rebuild));
    assert!(app.fit && !rebuild);
    assert!(app.handle_pinch(true, &mut rebuild));
    assert!(!app.fit && rebuild);
}

#[test]
fn the_left_button_drags() {
    let mut app = viewer("a.pdf", Kind::Pdf, 1);
    let mut rebuild = false;
    assert_eq!(app.handle_pointer_move(point(1.0, 1.0), &mut rebuild), None);
    assert_eq!(app.pointer, point(1.0, 1.0));
    app.handle_mouse_input(MouseButton::Other, ElementState::Pressed, point(2.0, 2.0));
    assert_eq!(app.drag, None);
    app.handle_mouse_input(MouseButton::Left, ElementState::Pressed, point(2.0, 2.0));
    assert!(!rebuild);
    assert_eq!(app.handle_pointer_move(point(3.0, 1.0), &mut rebuild), Some(point(2.0, 2.0)));
    assert!(rebuild);
    assert_eq!(app.handle_pointer_move(point(4.0, 0.0), &mut rebuild), Some(point(3.0, 1.0)));
    app.handle_mouse_input(MouseButton::Other, ElementState::Released, point(4.0, 0.0));
    assert_eq!(app.drag, Some(point(4.0, 0.0)));
    app.handle_mouse_input(MouseButton::Left, ElementState::Released, point(4.0, 0.0));
    assert_eq!(app.drag, None);
}

#[test]
fn quitting_exits() {
    let mut app = viewer("a.pdf", Kind::Pdf, 1);
    let (mut rebuild, mut exit) = (false, false);
    assert_eq!(app.update(Message::Quit, &mut rebuild, &mut exit), []);
    assert!(exit && !rebuild);
}

#[test]
fn a_replaced_renderer_gets_every_page_again() {
    let mut app = viewer("a.pdf", Kind::Pdf, 3);
    assert_eq!(draw(&mut app, &[false, false, true], 0).1, [0, 1]);
    assert_eq!(app.renderer_init(), []);
    deliver(&mut app, 1, 0, 31);
    assert_eq!(draw(&mut app, &[false, false, true], 0).1, []);
    assert_eq!(app.renderer_init(), [31]);
    assert_eq!(deliver(&mut app, 1, 1, 32), [32]);
    let (pages, jobs, _) = draw(&mut app, &[false, false, true], 0);
    assert_eq!(jobs, [0, 1]);
    assert!(pages.iter().all(|p| p.image.is_none()));
}

#[test]
fn pages_in_sight_are_drawn() {
    let mut app = viewer("d/a.pdf", Kind::Pdf, 4);
    let (pages, jobs, hud) = draw(&mut app, &[true, false, false, true], 1);
    assert_eq!(
        pages,
        [ShownPage { page: 1, image: None }, ShownPage { page: 2, image: None }]
    );
    assert_eq!(jobs, [1, 2]);
    assert_eq!(hud, "a.pdf   ·   page 2/4   ·   125%");
    deliver(&mut app, 1, 2, 50);
    let (pages, jobs, _) = draw(&mut app, &[true, false, false, true], 1);
    assert_eq!(
        pages,
        [ShownPage { page: 1, image: None }, ShownPage { page: 2, image: Some(50) }]
    );
    assert_eq!(jobs, []);
}

#[test]
fn the_line_over_an_image_counts_files() {
    let mut app = browsing(&["d/a.png", "b.png"]);
    assert_eq!(draw(&mut app, &[false], 0).2, "a.png   ·   1/2   ·   125%");
    let mut alone = viewer("a.png", Kind::Image, 1);
    assert_eq!(draw(&mut alone, &[false], 0).2, "a.png   ·   125%");
}

#[test]
fn titles_tell_name_and_page() {
    let app = viewer("d/a.pdf", Kind::Pdf, 12);
    assert_eq!(app.title(&at(12, 9)), "a.pdf (page 10/12) — Preview");
    assert_eq!(viewer("d/é.png", Kind::Image, 1).title(&at(1, 0)), "é.png — Preview");
}

#[test]
fn names_that_are_no_text_are_not_shown() {
    let mut app = viewer("..", Kind::Image, 1);
    assert_eq!(app.title(&at(1, 0)), "? — Preview");
    app.doc = Some(Document {
        path: FilePath { bytes: vec![b'a', 0xff, b'.', b'p', b'n', b'g'] },
        kind: Kind::Image,
        pages: Vec::new(),
    });
    assert_eq!(app.title(&Vec::new()), "? — Preview");
}

#[test]
fn resolutions_come_in_steps() {
    assert_eq!(pick_dpi(&enough(1)), 36);
    assert_eq!(pick_dpi(&enough(36)), 36);
    assert_eq!(pick_dpi(&enough(37)), 48);
    assert_eq!(pick_dpi(&enough(145)), 192);
    assert_eq!(pick_dpi(&enough(576)), 576);
    assert_eq!(pick_dpi(&enough(9999)), 576);
}
