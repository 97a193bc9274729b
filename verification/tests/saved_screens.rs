use fiction_session::canvas::Canvas;
use fiction_session::layers::{CanvasAnchor, EraseFill, Layers, WindowFill};
use fiction_session::machine::{
    CharGrid, Machine, StatusLine, StatusRight, V6Windows, ZWindow,
};
use fiction_session::oplist::{covers_canvas, prune, V6Op, V6_OPS_CAP};
use fiction_session::order::order_windows;
use fiction_session::pacing::{events_that_repaint_covered_ground, picture_hold};
use fiction_session::pict::{PictEntry, PictSource};
use fiction_session::raster::{Raster, Rgba};
use fiction_session::session::{BootPlan, BootScreen, GameSession, TurnOutput};
use fiction_session::transcript::CaptureSink;
use fiction_session::turn::{InputKind, PictureEvent};
use fiction_session::windows::WindowMap;

const RED: Rgba = Rgba { r: 255, g: 0, b: 0, a: 255 };
const NONE: Rgba = Rgba { r: 0, g: 0, b: 0, a: 0 };

fn grid() -> CharGrid {
    CharGrid { cols: 0, rows: 0, cells: vec![] }
}

fn window(x: u16, y: u16, w: u16, h: u16) -> ZWindow {
    ZWindow {
        x_coord: x,
        y_coord: y,
        x_size: w,
        y_size: h,
        x_cursor: 1,
        y_cursor: 1,
        left_margin: 0,
        right_margin: 0,
        attributes: 0,
        font_number: 1,
        font_size: 0,
        fg: 0,
        bg: 0,
        grid: grid(),
        texts: vec![],
        retired: vec![],
        streamed: vec![],
        prose: vec![],
        diverts_prose: false,
        pen: (1, 1),
        stream_origin: None,
    }
}

fn machine() -> Machine {
    let mut windows: Vec<ZWindow> = (0..8).map(|_| window(1, 1, 0, 0)).collect();
    windows[0] = window(1, 1, 640, 400);
    windows[7] = window(1, 1, 64, 48);
    Machine {
        version: 6,
        flags2: 0,
        screen_rows: 25,
        screen_cols: 80,
        screen_w_px: 640,
        screen_h_px: 400,
        win0_out_chars: 0,
        input_window: 0,
        cell: (8, 16),
        v6: Some(V6Windows { windows, current: 7 }),
        v6_generation: 0,
        page_pair: None,
        upper: grid(),
        upper_window_rows: 0,
        cursor_row: 1,
        cursor_col: 1,
        current_window: 0,
        current_fg: 0,
        current_bg: 0,
        current_fg_name: "Default".into(),
        current_bg_name: "Default".into(),
        buffer_mode: true,
        status_line: StatusLine {
            location: "".into(),
            right: StatusRight::Time { hours: 1, minutes: 2 },
        },
        terminators: vec![],
    }
}

fn session() -> GameSession {
    let plan = BootPlan {
        art_scale: (2, 2),
        picture_dims: vec![],
        screen: BootScreen::Unseeded,
        boot_screen_cols: 80,
    };
    GameSession::new_for_machine(machine(), CaptureSink::new(), InputKind::Line, false, &plan)
}

fn red(w: u32, h: u32) -> Raster {
    let mut r = Raster::new(w, h);
    r.fill_rect(0, 0, w as i64, h as i64, RED);
    r
}

fn source() -> PictSource {
    PictSource {
        pictures: vec![PictEntry { number: 1, width: 2, height: 2, image: Some(red(2, 2)) }],
        palette: Some(vec![1, 2, 3]),
        palette_gen: 4,
    }
}

fn event(number: u16, x: u16, y: u16) -> PictureEvent {
    PictureEvent {
        number,
        window: 7,
        x,
        y,
        erase: false,
        out_chars: 0,
        margin_after: None,
        at_cursor: false,
        win_box: (1, 1, 64, 48),
    }
}

fn quiet() -> TurnOutput {
    TurnOutput {
        restarted: false,
        erase_lower: false,
        location: None,
        location_method: None,
        diagnostics: vec![],
        fault: None,
        sounds: vec![],
        prose_retired: None,
        prose_retired_whole: false,
        screen_cleared: None,
        pictures: vec![],
        art: vec![],
        fills: vec![],
        palette_changed: false,
    }
}

fn drawn() -> GameSession {
    let mut s = session();
    s.set_pict_source(Some(source()));
    s.layers.apply_picture_event(&s.machine, &event(1, 1, 1), Some((2, 2)), &Some(red(2, 2)));
    s
}

fn canvas_of(s: &GameSession) -> &Canvas {
    s.layers.pictures_canvas.get(7).expect("a canvas")
}

#[test]
fn pictures_survive_being_written_and_read() {
    let s = drawn();
    let blobs = s.pictures_png();
    assert_eq!(blobs.len(), 1);
    assert_eq!(blobs[0].0, 7);
    assert_eq!(&blobs[0].1[..4], &[0x89, b'P', b'N', b'G']);
    let mut t = session();
    t.load_pictures_png(&blobs);
    assert!(canvas_of(&t).img.same_as(&canvas_of(&s).img));
    assert_eq!(s.pictures_png_for(&vec![7]), blobs);
    assert!(s.pictures_png_for(&vec![3]).is_empty());
}

#[test]
fn bytes_that_are_no_picture_load_nothing() {
    let mut s = drawn();
    s.load_pictures_png(&vec![(7, vec![1, 2, 3])]);
    assert!(!s.layers.pictures_canvas.contains(7));
}

#[test]
fn the_ground_survives_being_written_and_read() {
    let mut s = session();
    assert_eq!(s.paint_ground_png(), None);
    s.layers.apply_erase_fill(
        &s.machine,
        &EraseFill { window: 7, x: 1, y: 1, w: 64, h: 48, rgba: Some(RED), pics_before: 0 },
    );
    let png = s.paint_ground_png().expect("a ground");
    let mut t = session();
    t.load_paint_ground(Some(&png));
    let p = t.layers.paint.as_ref().expect("a ground");
    assert_eq!((p.width, p.height), (640, 400));
    assert_eq!(p.get(0, 0), RED);
    assert_eq!(p.get(64, 0), NONE);
    t.load_paint_ground(None);
    assert!(t.layers.paint.is_none());
}

#[test]
fn a_display_list_draws_the_screen_again() {
    let s = drawn();
    let (dto, wins, why) = s.display_list();
    assert_eq!(dto.windows.len(), 1);
    assert_eq!((dto.windows[0].win, dto.windows[0].w, dto.windows[0].h), (7, 64, 48));
    assert_eq!(dto.windows[0].ops, vec![V6Op::Draw { number: 1, dx: 0, dy: 0 }]);
    assert_eq!(dto.palette, Some(vec![1, 2, 3]));
    assert!(wins.is_empty() && why.is_empty());
    let mut t = session();
    t.load_display_list(&dto, &vec![], Some(source()));
    assert!(canvas_of(&t).img.same_as(&canvas_of(&s).img));
    assert_eq!(t.display_ops_extent(), (1, 0));
}

#[test]
fn a_window_that_cannot_be_drawn_again_is_kept_as_a_picture() {
    let mut s = drawn();
    s.layers.unreplayable.insert(7, ());
    let (dto, wins, why) = s.display_list();
    assert!(dto.windows.is_empty());
    assert_eq!(wins, vec![7]);
    assert_eq!(why.len(), 1);
}

#[test]
fn a_window_kept_as_its_list_comes_to_the_front() {
    let mut s = drawn();
    let front = PictureEvent { window: 2, ..event(1, 1, 1) };
    s.layers.apply_picture_event(&s.machine, &front, Some((2, 2)), &Some(red(2, 2)));
    s.layers.unreplayable.insert(2, ());
    let z = |s: &GameSession, w: u8| s.layers.pictures_canvas.get(w).expect("a canvas").z_seq;
    assert!(z(&s, 7) < z(&s, 2));
    let (dto, wins, _) = s.display_list();
    assert_eq!(wins, vec![2]);
    let mut t = session();
    t.load_display_list(&dto, &s.pictures_png_for(&wins), Some(source()));
    assert!(z(&t, 2) < z(&t, 7));
    assert!(canvas_of(&t).img.same_as(&canvas_of(&s).img));
}

#[test]
fn fills_and_anchors_survive_being_written_and_read() {
    let mut s = session();
    s.layers.window_fills.insert(
        3,
        WindowFill { x: 0, y: 0, w: 10, h: 10, bg: 5, seq: 1, out_chars: 0 },
    );
    s.layers.canvas_anchor.insert(
        7,
        CanvasAnchor { origin_x: 1, origin_y: 2, x: 3, y: 4, w: 5, h: 6 },
    );
    let dto = s.v6_screen_layers();
    assert_eq!((dto.fills.len(), dto.anchors.len()), (1, 1));
    let mut t = session();
    t.load_v6_screen_layers(Some(&dto));
    let f = t.layers.window_fills.get(3).expect("the fill");
    assert_eq!((f.x, f.y, f.w, f.h, f.bg), (0, 0, 10, 10, 5));
    let a = t.layers.canvas_anchor.get(7).expect("the anchor");
    assert_eq!((a.origin_x, a.origin_y, a.x, a.y, a.w, a.h), (1, 2, 3, 4, 5, 6));
    t.load_v6_screen_layers(None);
    assert!(!t.layers.window_fills.contains(3) && !t.layers.canvas_anchor.contains(7));
}

#[test]
fn saving_what_was_read_back_gives_the_same_save() {
    let mut s = session();
    let fill = |seq: u64, bg: u32, out_chars: u64| WindowFill {
        x: 0, y: 0, w: 10, h: 10, bg, seq, out_chars,
    };
    s.layers.window_fills.insert(2, fill(9, 1, 0));
    s.layers.window_fills.insert(5, fill(3, 2, 0));
    s.layers.window_fills.insert(6, fill(1, 3, 7));
    s.layers.canvas_anchor.insert(
        7,
        CanvasAnchor { origin_x: 1, origin_y: 2, x: 3, y: 4, w: 5, h: 6 },
    );
    let d = s.v6_screen_layers();
    assert_eq!(d.fills.iter().map(|f| f.win).collect::<Vec<u8>>(), vec![5, 2]);
    let mut t = session();
    t.layers.window_fills.insert(1, fill(4, 9, 0));
    t.load_v6_screen_layers(Some(&d));
    let again = t.v6_screen_layers();
    assert_eq!(format!("{again:?}"), format!("{d:?}"));
    t.load_v6_screen_layers(None);
    let none = t.v6_screen_layers();
    assert!(none.fills.is_empty() && none.anchors.is_empty());
}

#[test]
fn an_erasure_drops_those_inside_it() {
    let ops = vec![
        V6Op::Erase { dx: 2, dy: 2, w: 3, h: 3 },
        V6Op::Draw { number: 1, dx: 2, dy: 2 },
        V6Op::Erase { dx: 0, dy: 0, w: 20, h: 3 },
    ];
    assert_eq!(
        prune(&ops, V6Op::Erase { dx: 0, dy: 0, w: 10, h: 10 }),
        vec![
            V6Op::Draw { number: 1, dx: 2, dy: 2 },
            V6Op::Erase { dx: 0, dy: 0, w: 20, h: 3 }
        ]
    );
    assert_eq!(prune(&ops, V6Op::Draw { number: 9, dx: 0, dy: 0 }), ops);
}

#[test]
fn only_an_erasure_of_all_covers_a_canvas() {
    assert!(covers_canvas(V6Op::Erase { dx: 0, dy: 0, w: 64, h: 48 }, 64, 48));
    assert!(covers_canvas(V6Op::Erase { dx: -1, dy: 0, w: 65, h: 48 }, 64, 48));
    assert!(!covers_canvas(V6Op::Erase { dx: -1, dy: 0, w: 64, h: 48 }, 64, 48));
    assert!(!covers_canvas(V6Op::Erase { dx: 1, dy: 0, w: 64, h: 48 }, 64, 48));
    assert!(!covers_canvas(V6Op::Draw { number: 1, dx: 0, dy: 0 }, 1, 1));
}

#[test]
fn a_list_that_grows_too_long_is_given_up() {
    let mut l = Layers::new((1, 1));
    l.pictures_canvas.insert(2, Canvas::new(8, 8));
    for _ in 0..V6_OPS_CAP {
        l.record_op(2, V6Op::Draw { number: 1, dx: 0, dy: 0 });
    }
    assert!(!l.unreplayable.contains(2));
    l.record_op(2, V6Op::Draw { number: 1, dx: 0, dy: 0 });
    assert!(l.unreplayable.contains(2));
    l.record_op(2, V6Op::Erase { dx: 0, dy: 0, w: 8, h: 8 });
    assert!(!l.unreplayable.contains(2));
    assert_eq!(l.display_ops.get(2).map(Vec::len), Some(1));
}

#[test]
fn windows_are_listed_by_their_stamps() {
    let mut m: WindowMap<u64> = WindowMap::new();
    m.insert(5, 30);
    m.insert(200, 10);
    m.insert(1, 20);
    m.insert(9, 10);
    assert_eq!(order_windows(&m), vec![9, 200, 1, 5]);
}

#[test]
fn a_hold_grows_with_the_area_between_its_bounds() {
    let m = machine();
    let ev = event(1, 1, 1);
    assert_eq!(picture_hold(&m, Some((2, 2)), (2, 2), &ev), Some(40));
    assert_eq!(picture_hold(&m, Some((320, 200)), (1, 1), &ev), Some(80));
    assert_eq!(picture_hold(&m, Some((320, 200)), (2, 2), &ev), Some(320));
    assert_eq!(picture_hold(&m, Some((640, 400)), (2, 2), &ev), Some(350));
    assert_eq!(picture_hold(&m, None, (2, 2), &ev), None);
    assert_eq!(
        picture_hold(&m, Some((2, 2)), (2, 2), &PictureEvent { erase: true, ..ev }),
        None
    );
}

#[test]
fn a_picture_over_another_is_paced() {
    let m = machine();
    let src = Some(source());
    let over = events_that_repaint_covered_ground(
        &m,
        &src,
        (2, 2),
        &vec![event(1, 1, 1), event(1, 3, 3), event(1, 40, 40)],
    );
    assert_eq!(over, vec![false, true, false]);

    let mut s = session();
    s.set_pict_source(Some(source()));
    let out = TurnOutput {
        pictures: vec![event(1, 1, 1), event(1, 3, 3)],
        art: vec![Some(red(2, 2)), Some(red(2, 2))],
        ..quiet()
    };
    let _ = s.drain_turn(out, false, None, false);
    assert_eq!(s.paced_picture_hold(), Some(40));
    assert!(s.visible_canvas().contains(7));
    let mut steps = 0;
    while s.advance_paced_pictures() {
        steps += 1;
    }
    assert!(steps <= 8);
    assert_eq!(s.paced_picture_hold(), None);
    assert!(!s.settle_paced_pictures());
    assert_eq!(canvas_of(&s).img.get(5, 5), RED);
}

#[test]
fn pictures_of_the_boot_are_on_the_screen_at_once() {
    let mut s = session();
    s.set_pict_source(Some(source()));
    let out = TurnOutput {
        pictures: vec![event(1, 1, 1)],
        art: vec![Some(red(2, 2))],
        ..quiet()
    };
    s.flush_boot_pictures(&out);
    assert_eq!(canvas_of(&s).img.get(3, 3), RED);
    assert_eq!(canvas_of(&s).img.get(4, 4), NONE);
}

#[test]
fn a_window_that_leaves_the_screen_is_cut_to_it() {
    let m = machine();
    assert_eq!(m.v6_clip_box(600, 0, 100, 50), (40, 50));
    assert_eq!(m.window_screen_rect(7), Some((0, 0, 64, 48)));
    assert_eq!(m.window_screen_rect(8), None);
    assert_eq!(m.v6_native_extent(), (640, 400));
}

#[test]
fn the_dumps_name_the_windows() {
    let s = drawn();
    let dump = s.window_dump();
    assert!(!dump.is_empty());
    assert!(dump.iter().any(|l| l.contains("win7") || l.contains("window 7")), "{dump:?}");
}
