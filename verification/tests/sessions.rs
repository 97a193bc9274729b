use fiction_session::art::{ImageAlign, V6_ART_SCALE};
use fiction_session::canvas::Canvas;
use fiction_session::disasm::ListingSteps;
use fiction_session::input::KeyInput;
use fiction_session::layers::EraseFill;
use fiction_session::machine::{
    CharCell, CharGrid, Machine, PaintRun, StatusLine, StatusRight, V6Windows, ZWindow,
};
use fiction_session::model::{
    GraphicsWindow, Layout, ScreenModel, StatusModel, WinNode,
};
use fiction_session::objwords::WordSetStep;
use fiction_session::orders::{AfterInterrupt, Order};
use fiction_session::pict::{PictEntry, PictSource};
use fiction_session::raster::{Raster, Rgba};
use fiction_session::restore::{
    restore_screen, EngineError, EngineSave, ScreenState, ZMACHINE_ENGINE,
};
use fiction_session::session::{boot_plan, BootPlan, BootScreen, GameSession, TurnOutput};
use fiction_session::transcript::CaptureSink;
use fiction_session::turn::{
    end_of_turn, run_settled, run_until_input, InputKind, ObjectSnapshot, PendingIo,
    PictureEvent, RunStop, SettleAction, StepAction, StepResult, TurnResult,
};
use std::sync::Arc;

const RED: Rgba = Rgba { r: 255, g: 0, b: 0, a: 255 };
const NONE: Rgba = Rgba { r: 0, g: 0, b: 0, a: 0 };

fn grid(rows: u16, cols: u16) -> CharGrid {
    let cell = CharCell { ch: ' ', style: 0, fg: 0, bg: 0 };
    CharGrid { cols, rows, cells: vec![cell; rows as usize * cols as usize] }
}

fn window() -> ZWindow {
    ZWindow {
        x_coord: 1,
        y_coord: 1,
        x_size: 0,
        y_size: 0,
        x_cursor: 1,
        y_cursor: 1,
        left_margin: 0,
        right_margin: 0,
        attributes: 0,
        font_number: 1,
        font_size: 0,
        fg: 0,
        bg: 0,
        grid: grid(0, 0),
        texts: vec![],
        retired: vec![],
        streamed: vec![],
        prose: vec![],
        diverts_prose: false,
        pen: (1, 1),
        stream_origin: None,
    }
}

fn windows() -> Vec<ZWindow> {
    (0..8).map(|_| window()).collect()
}

fn machine(version: u8, v6: Option<V6Windows>) -> Machine {
    Machine {
        version,
        flags2: 0,
        screen_rows: 25,
        screen_cols: 80,
        screen_w_px: 0,
        screen_h_px: 0,
        win0_out_chars: 0,
        input_window: 0,
        cell: (8, 16),
        v6,
        v6_generation: 0,
        page_pair: None,
        upper: grid(0, 80),
        upper_window_rows: 0,
        cursor_row: 1,
        cursor_col: 1,
        current_window: 0,
        current_fg: 0,
        current_bg: 0,
        current_fg_name: "Default".into(),
        current_bg_name: "Default".into(),
        buffer_mode: true,
        status_line: StatusLine {
            location: "Hall".into(),
            right: StatusRight::ScoreTurns { score: 0, turns: 0 },
        },
        terminators: vec![],
    }
}

fn plan(art_scale: (u32, u32)) -> BootPlan {
    BootPlan {
        art_scale,
        picture_dims: vec![],
        screen: BootScreen::Unseeded,
        boot_screen_cols: 80,
    }
}

fn session_on(m: Machine) -> GameSession {
    GameSession::new_for_machine(
        m,
        CaptureSink::new(),
        InputKind::Line,
        false,
        &plan((V6_ART_SCALE, V6_ART_SCALE)),
    )
}

fn char_session(version: u8) -> GameSession {
    GameSession::new(machine(version, None), CaptureSink::new(), InputKind::Char, false)
}

fn v6_session(set: impl Fn(&mut Vec<ZWindow>), current: u8) -> GameSession {
    let mut ws = windows();
    set(&mut ws);
    session_on(machine(6, Some(V6Windows { windows: ws, current })))
}

fn red_picture(w: u32, h: u32) -> Raster {
    let mut r = Raster::new(w, h);
    r.fill_rect(0, 0, w as i64, h as i64, RED);
    r
}

fn source(number: u16, w: u32, h: u32) -> PictSource {
    PictSource {
        pictures: vec![PictEntry { number, width: w, height: h, image: Some(red_picture(w, h)) }],
        palette: None,
        palette_gen: 0,
    }
}

fn event(number: u16, window: u8, x: u16, y: u16, win_box: (u16, u16, u16, u16)) -> PictureEvent {
    PictureEvent {
        number,
        window,
        x,
        y,
        erase: false,
        out_chars: 0,
        margin_after: None,
        at_cursor: false,
        win_box,
    }
}

fn quiet() -> TurnOutput {
    TurnOutput {
        restarted: false,
        erase_lower: false,
        location: None,
        location_method: None,
        diagnostics: vec![],
        fault: None,
        sounds: vec![],
        prose_retired: None,
        prose_retired_whole: false,
        screen_cleared: None,
        pictures: vec![],
        art: vec![],
        fills: vec![],
        palette_changed: false,
    }
}

fn with_pictures(pictures: Vec<PictureEvent>, art: Vec<Option<Raster>>) -> TurnOutput {
    TurnOutput { pictures, art, ..quiet() }
}

fn draw(s: &mut GameSession, ev: &PictureEvent) {
    let dims = s.pict_source.as_ref().and_then(|p| p.dims(ev.number));
    let art = s.pict_source.as_ref().and_then(|p| {
        p.pictures
            .iter()
            .find(|e| e.number == ev.number)
            .and_then(|e| e.image.as_ref().map(|i| i.copy()))
    });
    s.layers.apply_picture_event(&s.machine, ev, dims, &art);
}

#[test]
fn v6_session_injects_picture_dims_before_boot() {
    let dims = vec![(5u16, 100u16, 60u16), (9u16, 20u16, 30u16)];
    let p = boot_plan(6, &dims, Some((320, 200)), None, None);
    assert_eq!(p.picture_dims, vec![(5, 200, 120), (9, 40, 60)]);
    assert_eq!(p.screen, BootScreen::Pixels { w: 640, h: 400 });
    let p = boot_plan(6, &dims, None, None, None);
    assert_eq!(p.picture_dims, dims);
}

#[test]
fn set_screen_dims_publishes_the_host_pane_size_and_tracks_resizes() {
    let mut s = char_session(5);
    s.set_screen_dims(40, 132);
    assert_eq!(s.machine.screen_rows, 40, "height in lines");
    assert_eq!(s.machine.screen_cols, 132, "width in characters");
    assert_eq!(s.machine.screen_w_px, 132, "width in units");
    assert_eq!(s.machine.screen_h_px, 40, "height in units");

    s.set_screen_dims(24, 60);
    assert_eq!(
        (s.machine.screen_rows, s.machine.screen_cols),
        (24, 60),
        "a resize states both again"
    );
    assert_eq!((s.machine.screen_w_px, s.machine.screen_h_px), (60, 24));

    s.set_screen_dims(0, 0);
    assert_eq!((s.machine.screen_rows, s.machine.screen_cols), (1, 1));
}

#[test]
fn set_screen_dims_leaves_the_v6_pixel_screen_alone() {
    let mut s = v6_session(|_| {}, 0);
    let m = &s.machine;
    let before = (m.screen_rows, m.screen_cols, m.screen_w_px, m.screen_h_px);
    s.set_screen_dims(45, 200);
    let m = &s.machine;
    let after = (m.screen_rows, m.screen_cols, m.screen_w_px, m.screen_h_px);
    assert_eq!(before, after, "a v6 story keeps its native screen dimensions");
}

fn screen_of(m: &Machine) -> ScreenState {
    ScreenState {
        upper: grid(m.upper.rows, m.upper.cols),
        upper_window_rows: m.upper_window_rows,
        cursor_row: m.cursor_row,
        cursor_col: m.cursor_col,
        current_window: m.current_window,
        v6: None,
        v6_generation: m.v6_generation,
        input_window: m.input_window,
        buffer_mode: m.buffer_mode,
        current_fg: m.current_fg,
        current_bg: m.current_bg,
    }
}

#[test]
fn a_restore_refits_the_upper_window_to_the_host_pane_not_the_saved_one() {
    for (host_cols, want_cols, label) in [
        (120u8, 120u16, "wider host: the grid follows the pane"),
        (60u8, 80u16, "narrower host: the grid holds the restored game's width"),
    ] {
        let mut s =
            GameSession::new(machine(5, None), CaptureSink::new(), InputKind::Line, false);
        s.machine.set_screen_dims(40, host_cols);

        let mut saved = screen_of(&s.machine);
        saved.upper_window_rows = 1;
        saved.upper = grid(1, 80);
        for (i, ch) in "West of House".chars().enumerate() {
            saved.upper.cells[i].ch = ch;
        }

        restore_screen(&mut s, saved);

        assert_eq!(s.machine.upper.cols, want_cols, "{label}");
        assert_eq!(s.machine.screen_cols as u16, want_cols, "{label}: the header agrees");
        assert_eq!(s.machine.upper_window_rows, 1, "{label}: the split height is untouched");
        let row: String =
            s.machine.upper.cells.iter().take(want_cols as usize).map(|c| c.ch).collect();
        assert_eq!(row.chars().count(), want_cols as usize, "{label}: the row spans it");
        assert!(row.starts_with("West of House"), "{label}: content preserved: {row:?}");
    }
}

#[test]
fn a_v6_restore_keeps_the_archived_window_geometry() {
    let mut s = v6_session(|_| {}, 0);
    let mut saved = screen_of(&s.machine);
    let mut ws = windows();
    ws[0].x_size = 640;
    ws[0].y_size = 400;
    ws[2].x_coord = 41;
    ws[2].y_size = 96;
    saved.v6 = Some(V6Windows { windows: ws, current: 0 });

    restore_screen(&mut s, saved);

    let v6 = s.machine.v6.as_ref().expect("v6 window table");
    assert_eq!((v6.windows[0].x_size, v6.windows[0].y_size), (640, 400));
    assert_eq!((v6.windows[2].x_coord, v6.windows[2].y_size), (41, 96));
}

#[test]
fn pending_input_is_line_after_new_on_quitting_story() {
    let SettleAction::Settled(pending, quit) = run_settled(RunStop::Quit) else {
        panic!("a story that quits has settled")
    };
    let s = GameSession::new(machine(5, None), CaptureSink::new(), pending, quit);
    assert_eq!(s.pending_input(), InputKind::Line);
    assert!(s.has_quit());
    let (quit, pending, io) = end_of_turn(RunStop::Quit, InputKind::Char);
    assert_eq!((quit, pending, io), (true, InputKind::Line, None));
}

#[test]
fn pending_input_is_char_after_new_on_read_char_story() {
    assert_eq!(
        run_until_input(StepResult::NeedChar),
        StepAction::Stop(RunStop::Input(InputKind::Char))
    );
    assert_eq!(
        run_settled(RunStop::Input(InputKind::Char)),
        SettleAction::Settled(InputKind::Char, false)
    );
    assert_eq!(char_session(5).pending_input(), InputKind::Char);
}

#[test]
fn session_surfaces_timeout_and_aborts_via_run_timed_interrupt() {
    let mut s = char_session(5);
    assert_eq!(GameSession::run_timed_interrupt(true), AfterInterrupt::Abort);
    assert!(
        matches!(GameSession::abort_timed_input(""), Order::AbortInput { typed } if typed.is_empty())
    );
    let tr = s.advance_after_input(RunStop::Quit, quiet(), true);
    assert!(tr.timed_out, "the read was aborted");
    assert!(tr.quit, "story quits right after the aborted read");
}

#[test]
fn session_run_timed_interrupt_continues_when_routine_returns_false() {
    let mut s = char_session(5);
    assert_eq!(GameSession::run_timed_interrupt(false), AfterInterrupt::Collect);
    let tr = s.collect_turn(quiet());
    assert!(!tr.timed_out, "read still pending");
    assert!(!tr.quit, "read_char has not been completed yet");
    assert_eq!(s.pending_input(), InputKind::Char, "read_char is still the pending input");
}

#[test]
fn abort_timed_input_marks_timed_out_and_advances() {
    let mut s = char_session(5);
    assert_eq!(s.pending_input(), InputKind::Char);
    let order = GameSession::abort_timed_input("");
    assert!(matches!(&order, Order::AbortInput { typed } if typed.is_empty()), "{order:?}");
    let tr = s.advance_after_input(RunStop::Quit, quiet(), true);
    assert!(tr.timed_out, "an abort always marks timed_out");
    assert!(tr.quit, "story quits right after the aborted read_char");
}

#[test]
fn run_sound_finish_returns_turn_result() {
    let mut s = char_session(5);
    let r = s.collect_turn(quiet());
    assert!(r.sounds.is_empty(), "no new sounds from a finish callback");
    assert!(!r.quit, "a no-op finish routine does not quit");
}

#[test]
fn turn_result_carries_fault_trace_when_vm_faults() {
    let mut s = char_session(5);
    let lines = vec!["*** VM FAULT ***".to_string(), "memory fault: read16 @".to_string()];
    assert_eq!(run_until_input(StepResult::Fault), StepAction::Stop(RunStop::Quit));
    let out = TurnOutput { fault: Some(lines.clone()), ..quiet() };
    let r = s.advance_after_input(RunStop::Quit, out, false);
    assert!(r.quit, "a faulted interpreter halts");
    assert_eq!(r.fault, Some(lines));
}

#[test]
fn submit_char_returns_turn_result_and_advances() {
    let mut s = char_session(5);
    assert_eq!(s.pending_input(), InputKind::Char);
    assert!(matches!(s.submit_char(b'x'), Order::SupplyChar(b'x')));
    let result = s.advance_after_input(RunStop::Quit, quiet(), false);
    assert!(result.quit, "a read_char story that then quits returns quit=true");
    assert_eq!(s.pending_input(), InputKind::Line, "after quit, pending is Line again");
}

#[test]
fn key_input_to_zscii_matches_legacy_mapping() {
    assert_eq!(GameSession::key_input_to_zscii(KeyInput::Enter), Some(13));
    assert_eq!(GameSession::key_input_to_zscii(KeyInput::Backspace), Some(8));
    assert_eq!(GameSession::key_input_to_zscii(KeyInput::Escape), Some(27));
    assert_eq!(GameSession::key_input_to_zscii(KeyInput::Char('y')), Some(b'y'));
    assert_eq!(GameSession::key_input_to_zscii(KeyInput::Char('x')), Some(120));
    assert_eq!(GameSession::key_input_to_zscii(KeyInput::Char('\u{00E9}')), None);
    assert_eq!(GameSession::key_input_to_zscii(KeyInput::Up), Some(129));
    assert_eq!(GameSession::key_input_to_zscii(KeyInput::Func(1)), Some(133));
}

#[test]
fn engine_submit_key_drives_turn_for_mapped_key() {
    let mut s = char_session(5);
    assert_eq!(s.pending_input(), InputKind::Char);
    assert!(matches!(s.submit_key(KeyInput::Char('x')), Some(Order::SupplyChar(120))));
    assert!(s.advance_after_input(RunStop::Quit, quiet(), false).quit);
}

#[test]
fn engine_submit_key_is_noop_for_unmapped_key() {
    let mut s = char_session(5);
    assert!(s.submit_key(KeyInput::Home).is_none());
    assert_eq!(s.pending_input(), InputKind::Char, "untouched by an unmapped key");
}

#[test]
fn a_turn_reopens_the_confirmation_gate_at_the_same_prompt() {
    let mut s = char_session(5);
    let pc = 0x4f05;
    assert_eq!(s.with_disasm_cache(pc), ListingSteps { build: true, confirm: true });
    assert_eq!(s.listing.last_confirmed_pc, Some(pc), "confirmed once for the parked place");
    assert_eq!(s.with_disasm_cache(pc), ListingSteps { build: false, confirm: false });

    let order = s.submit_command("look");
    assert!(matches!(order, Order::SupplyLine { line, terminator: 13 } if line == "look"));
    let _ = s.advance_after_input(RunStop::Input(InputKind::Line), quiet(), false);
    assert_eq!(s.listing.last_confirmed_pc, None, "a turn must ask for confirmation again");
    assert_eq!(s.with_disasm_cache(pc), ListingSteps { build: false, confirm: true });

    let _ = s.submit_key(KeyInput::Char('x'));
    let _ = s.advance_after_input(RunStop::Input(InputKind::Char), quiet(), false);
    assert!(s.with_disasm_cache(pc).confirm, "so does a key");
    assert!(s.submit_key(KeyInput::Home).is_none());
    assert!(s.with_disasm_cache(pc).confirm, "and one that has no code");
    assert!(s.confirm_disasm(pc));
}

#[test]
fn a_key_forgets_where_the_text_of_its_window_began() {
    let mut s = v6_session(|ws| ws.iter_mut().for_each(|w| w.stream_origin = Some((4, 5))), 2);
    s.machine.input_window = 3;
    assert!(s.submit_key(KeyInput::Char('x')).is_some());
    let v6 = s.machine.v6.as_ref().expect("the windows stay");
    assert_eq!((v6.current, v6.windows.len()), (2, 8));
    for (i, w) in v6.windows.iter().enumerate() {
        assert_eq!(w.stream_origin, if i == 3 { None } else { Some((4, 5)) });
    }
}

fn asked(s: &mut GameSession, walk: &[&str]) -> Arc<Vec<String>> {
    match s.object_word_set(true) {
        WordSetStep::Answer(words) => words,
        WordSetStep::Walk => {
            s.hold_object_words(walk.iter().map(|w| w.to_string()).collect())
        }
        WordSetStep::Absent => panic!("the story keeps words"),
    }
}

#[test]
fn the_object_word_set_is_cached_for_a_turn_and_dropped_when_the_vm_runs() {
    let mut s = char_session(3);
    let has = |set: &Arc<Vec<String>>, w: &str| set.iter().any(|e| e == w);
    assert!(matches!(s.object_word_set(false), WordSetStep::Absent));
    let first = asked(&mut s, &["lantern", "mailbox"]);
    assert!(has(&first, "lantern") && has(&first, "mailbox") && !has(&first, "verbose"));
    let again = asked(&mut s, &["lantern", "mailbox"]);
    assert!(Arc::ptr_eq(&first, &again), "within a turn, one build serves every caller");

    let rewritten = ["lantern", "mailbox", "verbose"];
    let stale = asked(&mut s, &rewritten);
    assert!(
        Arc::ptr_eq(&first, &stale) && !has(&stale, "verbose"),
        "within a turn the cached build stands"
    );

    let _ = s.submit_command("look");
    let _ = s.advance_after_input(RunStop::Input(InputKind::Line), quiet(), false);
    let fresh = asked(&mut s, &rewritten);
    assert!(has(&fresh, "verbose"), "after a turn the set sees the rewritten parse word");
    assert!(!Arc::ptr_eq(&first, &fresh), "and it is a fresh build, not the stale one");

    assert!(s.restore_state(&GameSession::save_state(vec![1]), Err("short".into())).is_err());
    assert!(matches!(s.object_word_set(true), WordSetStep::Answer(_)), "nothing was restored");
    assert!(s.restore_state(&GameSession::save_state(vec![1]), Ok(())).is_ok());
    assert!(matches!(s.object_word_set(true), WordSetStep::Walk));
    let _ = asked(&mut s, &rewritten);
    assert!(s.restore_game_save(Ok((InputKind::Line, false))).is_ok());
    assert!(matches!(s.object_word_set(true), WordSetStep::Walk));
}

#[test]
fn zmachine_take_transcript_elems_is_empty() {
    let mut s = char_session(5);
    s.sink.print("A banner.");
    assert!(s.take_transcript_elems().is_empty(), "no pictures, no elements");
    let mut fresh = char_session(5);
    fresh.sink.print("A banner.");
    assert_eq!(s.take_transcript(), fresh.take_transcript(), "the banner was not consumed");
}

#[test]
fn take_transcript_respects_strip_prompt_flag() {
    let mut s = char_session(5);
    let _ = s.take_transcript();
    s.set_strip_prompt(false);
    s.sink.print("You are in a room.\n>");
    assert_eq!(s.take_transcript(), "You are in a room.\n>");
    s.set_strip_prompt(true);
    s.sink.print("You are in a room.\n>");
    assert_eq!(s.take_transcript(), "You are in a room.");
}

#[test]
fn engine_screen_v3_is_classic_status() {
    let s = char_session(3);
    let model = s.screen();
    match &model.status {
        StatusModel::Classic { right, .. } => {
            assert!(matches!(right, StatusRight::ScoreTurns { .. }));
        }
        other => panic!("v3 must yield a Classic status, got {other:?}"),
    }
    let Layout::Stacked(bands, _) = &model.root else { panic!("a grid over a buffer") };
    assert!(matches!(&bands[0].node, WinNode::Grid(_)), "the screen has a grid");
}

#[test]
fn engine_screen_v5_is_host_managed_and_mirrors_upper_grid() {
    let mut s = char_session(5);
    s.machine.upper = grid(2, 5);
    s.machine.upper.cells[0] = CharCell { ch: 'H', style: 2, fg: 0, bg: 0 };
    s.machine.upper.cells[1] = CharCell { ch: 'I', style: 0, fg: 0, bg: 0 };
    s.machine.upper_window_rows = 2;
    s.machine.cursor_row = 1;
    s.machine.cursor_col = 3;
    s.machine.current_window = 1;

    let model = s.screen();
    assert!(matches!(model.status, StatusModel::HostManaged));
    let Layout::Stacked(bands, _) = &model.root else { panic!("a grid over a buffer") };
    let WinNode::Grid(g) = &bands[0].node else { panic!("grid node") };
    assert_eq!((g.cols, g.rows), (5, 2));
    assert_eq!(g.active_rows, 2);
    assert_eq!((g.cells[0].ch, g.cells[0].style), ('H', 2));
    assert_eq!(g.cells[1].ch, 'I');
    assert_eq!(g.cursor, (1, 3));
    assert!(g.cursor_active, "the upper window is the current one");
}

#[test]
fn engine_save_state_round_trips_and_is_tagged() {
    let mut s = char_session(5);
    let save = GameSession::save_state(vec![1, 2, 3]);
    assert_eq!(save.engine, ZMACHINE_ENGINE);
    assert!(!save.bytes.is_empty());
    let _ = s.submit_key(KeyInput::Char('x'));
    assert!(s.restore_state(&save, Ok(())).is_ok());
    s.settle_restored(machine(5, None), (InputKind::Char, false));
    assert_eq!(s.pending_input(), InputKind::Char);

    let foreign = EngineSave::new("glulx", 1, save.bytes.clone());
    match s.restore_state(&foreign, Ok(())) {
        Err(EngineError::EngineMismatch { expected, found }) => {
            assert_eq!(expected, ZMACHINE_ENGINE);
            assert_eq!(found, "glulx");
        }
        other => panic!("foreign-engine restore must be refused, got {other:?}"),
    }
    match s.restore_state(&save, Err("truncated".to_string())) {
        Err(EngineError::BadSave(why)) => assert_eq!(why, "truncated"),
        other => panic!("a save that cannot be read is refused, got {other:?}"),
    }
}

#[test]
fn ingame_save_yields_pending_io_and_resume_continues() {
    let mut s = char_session(4);
    let _ = s.submit_char(b'x');
    assert_eq!(
        run_until_input(StepResult::SaveRequest),
        StepAction::Stop(RunStop::SavePending)
    );
    let r = s.advance_after_input(RunStop::SavePending, quiet(), false);
    assert_eq!(r.pending_io, Some(PendingIo::Save));
    assert!(!r.quit, "a save-pending turn is not a quit");
    assert!(r.info.is_none());
    assert!(matches!(GameSession::resume_save(true), Order::CompleteSave(true)));
    let r2 = s.finish_turn(RunStop::Quit, quiet());
    assert!(r2.quit, "the answered save runs on to the quit");
}

#[test]
fn ingame_restore_yields_pending_io_and_cancel_fails_cleanly() {
    let mut s = char_session(4);
    let _ = s.submit_char(b'x');
    let r = s.advance_after_input(RunStop::RestorePending, quiet(), false);
    assert_eq!(r.pending_io, Some(PendingIo::Restore));
    assert!(!r.quit);
    assert!(matches!(GameSession::resume_restore(None), Order::FailRestore));
    assert!(
        matches!(GameSession::resume_restore(Some(vec![7])), Order::CompleteRestore(b) if b == vec![7])
    );
    assert!(s.finish_turn(RunStop::Quit, quiet()).quit);
}

#[test]
fn v3_ingame_save_and_restore_bubble_pending_io() {
    for (step, stop, io) in [
        (StepResult::SaveRequest, RunStop::SavePending, PendingIo::Save),
        (StepResult::RestoreRequest, RunStop::RestorePending, PendingIo::Restore),
    ] {
        let mut s = char_session(3);
        assert_eq!(run_until_input(step), StepAction::Stop(stop));
        let r = s.advance_after_input(stop, quiet(), false);
        assert_eq!(r.pending_io, Some(io));
        assert!(r.info.is_none());
        assert!(s.finish_turn(RunStop::Quit, quiet()).quit);
    }
}

#[test]
fn a_host_restore_blanks_the_upper_window_it_brings_no_screen_for() {
    let mut s = char_session(4);
    let snapshot = GameSession::save_state(vec![1]);
    s.machine.upper = grid(1, 20);
    for (i, ch) in "North of House".chars().enumerate() {
        s.machine.upper.cells[i].ch = ch;
    }
    assert!(s.restore_state(&snapshot, Ok(())).is_ok());
    assert_eq!(s.machine.upper.rows, 1, "the split is still there");
    assert!(s.machine.upper.cells.iter().all(|c| c.ch == ' '), "no character survives");
}

#[test]
fn what_a_restored_game_paints_on_its_way_stays() {
    let mut s = char_session(4);
    s.machine.upper = grid(1, 20);
    s.machine.upper.cells[0].ch = 'X';
    assert!(s.restore_state(&GameSession::save_state(vec![1]), Ok(())).is_ok());
    assert_eq!(s.pending_input(), InputKind::Char, "the game has not run on yet");
    let mut ran = machine(4, None);
    ran.upper = grid(1, 20);
    ran.upper.cells[0].ch = s.machine.upper.cells[0].ch;
    ran.upper.cells[1].ch = 'F';
    s.settle_restored(ran, (InputKind::Line, false));
    let row: String = s.machine.upper.cells.iter().map(|c| c.ch).collect();
    assert_eq!(row.trim_end(), " F");
    assert_eq!(s.pending_input(), InputKind::Line);
    assert!(!s.has_quit());
}

#[test]
fn erasing_a_picture_of_unknown_extent_erases_the_window() {
    let mut s = v6_session(|ws| { ws[3].x_size = 64; ws[3].y_size = 48; }, 3);
    s.set_pict_source(Some(source(5, 4, 4)));
    draw(&mut s, &event(5, 3, 1, 1, (1, 1, 64, 48)));
    assert_eq!(s.layers.pictures_canvas.get(3).expect("a canvas").img.get(0, 0), RED);
    draw(&mut s, &PictureEvent { erase: true, ..event(9, 3, 30, 20, (1, 1, 64, 48)) });
    let c = s.layers.pictures_canvas.get(3).expect("the canvas");
    assert_eq!(c.img.get(0, 0), NONE, "the whole window, not only from the place on");
    assert_eq!(s.display_ops_extent(), (1, 0), "nothing before it matters any more");
}

#[test]
fn drawing_a_picture_that_does_not_resolve_does_nothing() {
    let mut s = v6_session(|ws| { ws[3].x_size = 64; ws[3].y_size = 48; }, 3);
    s.set_pict_source(Some(source(5, 4, 4)));
    let seq = s.layers.next_seq;
    draw(&mut s, &event(9, 3, 1, 1, (1, 1, 64, 48)));
    assert!(no_windows(&s.layers.pictures_canvas), "no canvas appears");
    assert!(no_windows(&s.layers.canvas_anchor) && no_windows(&s.layers.window_fills));
    assert_eq!(s.layers.next_seq, seq);

    draw(&mut s, &event(5, 3, 1, 1, (1, 1, 64, 48)));
    let before = s.layers.pictures_canvas.get(3).expect("a canvas").img.copy();
    draw(&mut s, &event(9, 3, 1, 1, (1, 1, 128, 96)));
    let c = s.layers.pictures_canvas.get(3).expect("the canvas");
    assert_eq!((c.img.width, c.img.height), (before.width, before.height), "it did not grow");
}

#[test]
fn turn_result_has_empty_sound_fields_by_default() {
    let mut s = char_session(5);
    let _ = s.submit_char(b'x');
    let r = s.advance_after_input(RunStop::Quit, quiet(), false);
    assert!(r.sounds.is_empty(), "no sounds when the game emits no sound");
    assert!(r.diagnostics.is_empty(), "no diagnostics on a clean turn");
}

#[test]
fn turn_result_carries_location_method_field() {
    let mut s = char_session(5);
    let _ = s.submit_char(b'x');
    let r = s.advance_after_input(RunStop::Quit, quiet(), false);
    assert!(r.location_method.is_none());
}

#[test]
fn run_settled_answers_a_game_save_instead_of_parking_on_it() {
    assert_eq!(run_settled(RunStop::SavePending), SettleAction::FailSave);
    assert_eq!(run_settled(RunStop::RestorePending), SettleAction::FailRestore);
    assert_eq!(run_settled(RunStop::Quit), SettleAction::Settled(InputKind::Line, true));
}

#[test]
fn drain_turn_applies_pending_draw_picture_to_the_window_canvas() {
    let mut s = v6_session(
        |w| {
            w[7].x_size = 64;
            w[7].y_size = 48;
        },
        7,
    );
    s.set_pict_source(Some(source(1, 2, 2)));
    assert!(!s.layers.pictures_canvas.contains(7), "no canvas before the turn is drained");
    let ev = event(1, 7, 2, 3, (1, 1, 64, 48));
    let result =
        s.drain_turn(with_pictures(vec![ev], vec![Some(red_picture(2, 2))]), false, None, false);
    assert_eq!(result.pictures, vec![ev], "the drained event is carried on the result");
    let canvas = s.layers.pictures_canvas.get(7).expect("a canvas was created for window 7");
    assert_eq!((canvas.img.width, canvas.img.height), (64, 48));
    assert_eq!(canvas.img.get(2, 3), RED, "the drawn pixel is the picture's red");
    assert_eq!(canvas.img.get(0, 0), NONE, "untouched region stays transparent");
}

#[test]
fn a_graphics_window_content_splash_anchors_no_inline_band() {
    let mut s = v6_session(
        |w| {
            w[7].x_size = 320;
            w[7].y_size = 200;
        },
        7,
    );
    s.set_pict_source(Some(source(1, 320, 200)));
    let ev = event(1, 7, 1, 1, (1, 1, 320, 200));
    draw(&mut s, &ev);
    assert!(s.layers.story_pics.is_empty(), "no band in the transcript");
    let canvas = s.layers.pictures_canvas.get(7).expect("the splash is on window 7's canvas");
    assert_ne!(canvas.img.get(0, 0), NONE, "the splash was actually drawn");
    draw(&mut s, &ev);
    assert!(s.layers.story_pics.is_empty(), "a repeat draw anchors nothing either");
    draw(&mut s, &PictureEvent { number: 0, erase: true, ..ev });
    draw(&mut s, &ev);
    assert!(s.layers.story_pics.is_empty(), "a draw after a clear anchors nothing");
}

#[test]
fn a_margin_declared_after_a_win0_draw_makes_it_an_inline_float() {
    let mut s = v6_session(
        |w| {
            w[0].x_size = 464;
            w[0].y_size = 320;
        },
        0,
    );
    s.set_pict_source(Some(source(1, 2, 2)));
    draw(
        &mut s,
        &PictureEvent { margin_after: Some(96), ..event(1, 0, 5, 19, (89, 81, 464, 320)) },
    );
    assert_eq!(s.layers.story_pics.len(), 1, "the declared margin makes it flow with the text");
    assert_eq!(s.layers.story_pics[0].1.align, ImageAlign::MarginLeft);
    assert_eq!(s.layers.story_pics[0].1.margin_px, Some(96), "the left margin rides along");
    assert!(!s.layers.pictures_canvas.contains(0), "a float never takes a window canvas");

    draw(&mut s, &event(1, 0, 29, 5, (1, 1, 464, 320)));
    assert_eq!(s.layers.story_pics.len(), 1, "placed art anchors no new float");
    assert!(s.layers.pictures_canvas.contains(0), "placed art gets the window canvas");
}

fn no_windows<V>(m: &fiction_session::windows::WindowMap<V>) -> bool {
    (0..=255u8).all(|k| !m.contains(k))
}

#[test]
fn restart_drops_the_pre_restart_v6_display_list() {
    let mut s = v6_session(
        |w| {
            w[7].x_size = 64;
            w[7].y_size = 48;
        },
        7,
    );
    s.set_pict_source(Some(source(1, 2, 2)));
    draw(&mut s, &event(1, 7, 1, 1, (1, 1, 64, 48)));
    assert_eq!(s.layers.display_ops.get(7).map_or(0, Vec::len), 1, "recorded for replay");
    s.layers.unreplayable.insert(7, ());

    let _ = s.drain_turn(TurnOutput { restarted: true, ..quiet() }, false, None, false);
    assert!(no_windows(&s.layers.pictures_canvas), "the canvas is dropped");
    assert!(no_windows(&s.layers.display_ops), "and so is the list that rebuilds it");
    assert!(no_windows(&s.layers.unreplayable), "and the veto on replaying it");
    assert!(no_windows(&s.layers.window_fills), "and the fills of the old screen");

    draw(&mut s, &event(1, 7, 33, 1, (1, 1, 64, 48)));
    let src = Some(source(1, 2, 2));
    s.layers.replay_under_current_palette(&src);
    let canvas = s.layers.pictures_canvas.get(7).expect("the reboot's draw made a canvas");
    assert_eq!(canvas.img.get(32, 0), RED, "the rebooted game's own draw replays");
    assert_eq!(canvas.img.get(0, 0), NONE, "the earlier draw must not replay");
}

#[test]
fn restart_drops_the_pre_restart_ground_and_canvas_anchors() {
    let mut s = v6_session(
        |w| {
            w[0].x_size = 640;
            w[0].y_size = 400;
            w[7].x_size = 64;
            w[7].y_size = 48;
        },
        7,
    );
    s.set_pict_source(Some(source(1, 2, 2)));
    let green = Rgba { r: 0, g: 255, b: 0, a: 255 };
    s.layers.apply_erase_fill(
        &s.machine,
        &EraseFill { window: 7, x: 1, y: 1, w: 64, h: 48, rgba: Some(green), pics_before: 0 },
    );
    draw(&mut s, &event(1, 7, 1, 1, (1, 1, 64, 48)));
    assert!(s.layers.paint.is_some(), "the screen has a painted ground");
    assert!(s.layers.canvas_anchor.contains(7), "and window 7's canvas is anchored");

    let _ = s.drain_turn(TurnOutput { restarted: true, ..quiet() }, false, None, false);
    assert!(s.layers.paint.is_none(), "a rebooted game inherits no ground");
    assert!(no_windows(&s.layers.canvas_anchor), "nor any anchor");
}

#[test]
fn frame_art_draw_never_anchors_an_inline_band() {
    let mut s = v6_session(
        |w| {
            w[7].x_size = 320;
            w[7].y_size = 200;
        },
        7,
    );
    s.set_pict_source(Some(source(3, 23, 200)));
    draw(&mut s, &event(3, 7, 1, 1, (1, 1, 320, 200)));
    assert!(s.layers.story_pics.is_empty(), "frame art stays on the canvas");
    assert!(s.layers.pictures_canvas.contains(7), "but it IS drawn there");
}

#[test]
fn drain_turn_applies_pending_erase_picture_to_the_window_canvas() {
    let mut s = v6_session(
        |w| {
            w[7].x_size = 64;
            w[7].y_size = 48;
        },
        7,
    );
    s.set_pict_source(Some(source(1, 2, 2)));
    let ev = event(1, 7, 2, 3, (1, 1, 64, 48));
    let erase = PictureEvent { erase: true, ..ev };
    let art = vec![Some(red_picture(2, 2)), Some(red_picture(2, 2))];
    let result = s.drain_turn(with_pictures(vec![ev, erase], art), false, None, false);
    assert_eq!(result.pictures.len(), 2);
    let canvas = s.layers.pictures_canvas.get(7).expect("a canvas was created for window 7");
    assert_eq!(canvas.img.get(2, 3), NONE, "erased back to transparent");
}

#[test]
fn v6_screen_returns_layered_model_graphics_first_then_text_by_window_number() {
    let mut s = v6_session(
        |w| {
            w[0].y_coord = 17;
            w[0].x_size = 640;
            w[0].y_size = 320;
            w[0].attributes = 15;
            w[0].grid = grid(20, 80);
            w[1].x_size = 640;
            w[1].y_size = 16;
            w[1].grid = grid(1, 80);
            w[7].x_coord = 17;
            w[7].y_coord = 17;
            w[7].x_size = 64;
            w[7].y_size = 96;
            w[7].grid = grid(6, 8);
        },
        1,
    );
    s.layers.pictures_canvas.insert(7, Canvas::new(64, 48));

    let model = s.screen();
    assert_eq!(model.content_size, (80, 21), "max right and bottom extent of the windows");
    let Layout::Layered(items) = &model.root else { panic!("expected layers") };
    assert_eq!(items.len(), 4, "graphics(7) + buffer(0) + grid(1) + grid(7)");

    let g7 = &items[0];
    assert_eq!((g7.x, g7.y, g7.w, g7.h), (2, 1, 8, 6));
    assert!(matches!(&g7.node, WinNode::Graphics(GraphicsWindow { win: 7, .. })));
    let w0 = &items[1];
    assert_eq!((w0.x, w0.y, w0.w, w0.h), (0, 1, 80, 20));
    assert!(matches!(&w0.node, WinNode::Buffer(b) if b.primary));
    let w1 = &items[2];
    assert_eq!((w1.x, w1.y, w1.w, w1.h), (0, 0, 80, 1));
    assert!(matches!(&w1.node, WinNode::Grid(g) if (g.cols, g.rows) == (80, 1)));
    let w7 = &items[3];
    assert_eq!((w7.x, w7.y, w7.w, w7.h), (2, 1, 8, 6));
    assert!(matches!(&w7.node, WinNode::Grid(g) if (g.cols, g.rows) == (8, 6)));
}

fn paint(y: u16, x: u16, text: &str) -> PaintRun {
    PaintRun {
        y,
        x,
        text: text.into(),
        style: 0,
        fg: 0,
        bg: 0,
        grow: 1,
        gcol: 1,
        width_px: 8 * text.len() as u32,
    }
}

#[test]
fn v6_snapshot_is_none_for_non_v6_stories() {
    assert!(char_session(5).v6_snapshot().is_none(), "no window table, no snapshot");
}

#[test]
fn v6_snapshot_reports_nontrivial_windows_runs_and_canvases_and_skips_blank_windows() {
    let mut s = v6_session(
        |w| {
            w[1].x_size = 640;
            w[1].y_size = 8;
            w[1].y_cursor = 1;
            w[1].x_cursor = 9;
            w[1].left_margin = 2;
            w[1].right_margin = 3;
            w[1].font_number = 1;
            w[1].font_size = 0x0808;
            w[1].attributes = 3;
            w[1].texts.push(paint(1, 1, "Score: 10"));
        },
        1,
    );
    let mut canvas = Canvas::new(64, 48);
    canvas.z_seq = 42;
    s.layers.pictures_canvas.insert(1, canvas);

    let lines = s.v6_snapshot().expect("a v6 story has a snapshot");
    assert_eq!(lines[0], "turn snapshot (current=1)");
    let win_line = lines.iter().find(|l| l.starts_with("win1:")).expect("a line for window 1");
    for part in [
        "pos=(1,1)",
        "size=640x8",
        "cursor=(1,9)",
        "margins=(2,3)",
        "font=(1,2056)",
        "runs=1",
    ] {
        assert!(win_line.contains(part), "{win_line}");
    }
    assert!(lines.iter().any(|l| l.contains("y=1 x=1") && l.contains("\"Score: 10\"")));
    assert!(lines.iter().any(|l| l == "canvas win1: 64x48 z=42"), "{lines:?}");
    assert!(!lines.iter().any(|l| l.starts_with("win3:")), "{lines:?}");
}

#[test]
fn v6_picture_canvas_clamps_hostile_window_size() {
    let mut s = v6_session(
        |w| {
            w[7].x_size = 0xFFFF;
            w[7].y_size = 0xFFFF;
        },
        7,
    );
    draw(&mut s, &PictureEvent { erase: true, ..event(5, 7, 0, 0, (1, 1, 0xFFFF, 0xFFFF)) });
    let c = s.layers.pictures_canvas.get(7).expect("erase allocated a canvas");
    assert!(c.img.width <= 4096 && c.img.height <= 4096);
}

fn v6_session_with_run(text: &str) -> GameSession {
    v6_session(
        |w| {
            w[7].x_size = 64;
            w[7].y_size = 48;
            w[7].texts.push(paint(1, 1, text));
        },
        7,
    )
}

fn model_run_texts(model: &ScreenModel) -> Vec<String> {
    let mut out = Vec::new();
    if let Layout::Layered(entries) = &model.root {
        for pw in entries {
            if let WinNode::Grid(g) = &pw.node {
                out.extend(g.px_texts.iter().map(|t| t.text.clone()));
            }
        }
    }
    out
}

#[test]
fn screen_now_memoizes_the_v6_model_until_the_screen_changes() {
    let mut s = v6_session_with_run("steady");
    let first = s.screen_now();
    let again = s.screen_now();
    assert!(std::sync::Arc::ptr_eq(&first, &again), "the same model is handed back");
    assert!(model_run_texts(&first).contains(&"steady".to_string()));

    if let Some(v6) = s.machine.v6.as_mut() {
        v6.windows[7].texts.push(paint(17, 1, "painted"));
    }
    s.machine.v6_generation += 1;
    let after = s.screen_now();
    assert!(!std::sync::Arc::ptr_eq(&again, &after), "a paint makes a fresh model");
    assert!(model_run_texts(&after).contains(&"painted".to_string()));
}

#[test]
fn restore_screen_drops_the_memoized_model() {
    let mut s = v6_session_with_run("before");
    let held = s.screen_now();
    assert!(model_run_texts(&held).contains(&"before".to_string()));

    let mut saved = screen_of(&s.machine);
    let mut ws = windows();
    ws[7].x_size = 64;
    ws[7].y_size = 48;
    ws[7].texts.push(paint(1, 1, "after"));
    saved.v6 = Some(V6Windows { windows: ws, current: 7 });
    saved.v6_generation = s.machine.v6_generation;

    restore_screen(&mut s, saved);
    let fresh = s.screen_now();
    assert!(!std::sync::Arc::ptr_eq(&held, &fresh), "the model must not survive the restore");
    let texts = model_run_texts(&fresh);
    assert!(texts.contains(&"after".to_string()) && !texts.contains(&"before".to_string()));
}

#[test]
fn key_input_to_zscii_arrows_map_to_zscii_codes() {
    assert_eq!(GameSession::key_input_to_zscii(KeyInput::Up), Some(129));
    assert_eq!(GameSession::key_input_to_zscii(KeyInput::Down), Some(130));
    assert_eq!(GameSession::key_input_to_zscii(KeyInput::Left), Some(131));
    assert_eq!(GameSession::key_input_to_zscii(KeyInput::Right), Some(132));
    assert_eq!(GameSession::key_input_to_zscii(KeyInput::Func(1)), Some(133));
    assert_eq!(GameSession::key_input_to_zscii(KeyInput::Func(4)), Some(136));
}

#[test]
fn key_input_to_zscii_existing_keys_unchanged() {
    assert_eq!(GameSession::key_input_to_zscii(KeyInput::Enter), Some(13));
    assert_eq!(GameSession::key_input_to_zscii(KeyInput::Backspace), Some(8));
    assert_eq!(GameSession::key_input_to_zscii(KeyInput::Escape), Some(27));
    assert_eq!(GameSession::key_input_to_zscii(KeyInput::Char('A')), Some(65));
    assert_eq!(GameSession::key_input_to_zscii(KeyInput::Char('\u{00E9}')), None);
    assert_eq!(GameSession::key_input_to_zscii(KeyInput::Tab), None);
}

fn session_with_up_terminator() -> GameSession {
    let mut s = char_session(5);
    s.machine.terminators = vec![129];
    s
}

#[test]
fn line_key_terminator_maps_listed_key() {
    let s = session_with_up_terminator();
    assert_eq!(s.line_key_terminator(&KeyInput::Up), Some(129));
    assert_eq!(s.line_key_terminator(&KeyInput::Down), None);
}

#[test]
fn line_key_terminator_none_without_table() {
    let s = char_session(5);
    assert_eq!(s.line_key_terminator(&KeyInput::Up), None);
    assert_eq!(s.line_key_terminator(&KeyInput::Func(1)), None);
}

#[test]
fn line_key_terminator_rejects_non_candidate_keys() {
    let s = session_with_up_terminator();
    assert_eq!(s.line_key_terminator(&KeyInput::Char('x')), None);
    assert_eq!(s.line_key_terminator(&KeyInput::Enter), None);
    assert_eq!(s.line_key_terminator(&KeyInput::Backspace), None);
}

#[test]
fn a_click_ends_a_line_only_where_the_game_lists_it() {
    let mut s = char_session(5);
    assert_eq!(s.mouse_click_terminator(), None);
    s.machine.terminators = vec![254];
    assert_eq!(s.mouse_click_terminator(), None, "the story does not ask for the mouse");
    s.machine.flags2 = 0x20;
    assert!(s.wants_mouse());
    assert_eq!(s.mouse_click_terminator(), Some(254));
    assert!(s.is_terminator(254));
}

#[test]
fn a_line_is_ended_by_enter_unless_another_key_is_named() {
    assert!(matches!(
        GameSession::submit("look"),
        Order::SupplyLine { line, terminator: 13 } if line == "look"
    ));
    assert!(matches!(
        GameSession::submit_line_with_terminator("loo", 129),
        Order::SupplyLine { line, terminator: 129 } if line == "loo"
    ));
}

#[test]
fn a_key_that_prints_on_continues_the_line() {
    let mut s = v6_session(
        |w| {
            w[0].x_size = 640;
            w[0].y_size = 400;
            w[0].pen = (3, 9);
        },
        0,
    );
    let _ = s.submit_char(b'x');
    if let Some(v6) = s.machine.v6.as_mut() {
        v6.windows[0].stream_origin = Some((3, 9));
    }
    let _ = s.advance_after_input(RunStop::Input(InputKind::Char), quiet(), false);
    assert!(s.output_continued_line());
    let _ = s.advance_after_input(RunStop::Input(InputKind::Char), quiet(), false);
    assert!(!s.output_continued_line(), "without a key nothing is continued");
}

#[test]
fn the_palette_number_is_that_of_the_pictures() {
    let mut s = char_session(6);
    assert_eq!(s.palette_gen(), 0);
    let mut src = source(1, 2, 2);
    src.palette_gen = 9;
    s.set_pict_source(Some(src));
    assert_eq!(s.palette_gen(), 9);
}

#[test]
fn a_screen_without_windows_to_show_still_has_a_layer() {
    let s = v6_session(|_| {}, 0);
    let model = s.screen();
    let Layout::Layered(items) = &model.root else { panic!("expected layers") };
    assert!(!items.is_empty());
}

#[test]
fn one_window_at_most_is_the_story() {
    let s = v6_session(
        |w| {
            for k in 0..3 {
                w[k].x_size = 640;
                w[k].y_size = 100;
                w[k].attributes = 15;
                w[k].grid = grid(6, 80);
            }
        },
        2,
    );
    let model = s.screen();
    let Layout::Layered(items) = &model.root else { panic!("expected layers") };
    let stories = items.iter().filter(|i| matches!(&i.node, WinNode::Buffer(b) if b.primary));
    assert_eq!(stories.count(), 1);
}

#[test]
fn a_restored_width_only_grows() {
    let mut s = char_session(5);
    s.note_restored_screen_cols(60);
    assert_eq!(s.boot_screen_cols, 80);
    s.note_restored_screen_cols(132);
    assert_eq!(s.boot_screen_cols, 132);
    let mut old = char_session(3);
    old.note_restored_screen_cols(132);
    assert_eq!(old.boot_screen_cols, 80);
}

#[test]
fn the_pictures_can_be_changed_in_place() {
    let mut s = char_session(6);
    assert!(s.pict_source_mut().is_none());
    s.set_pict_source(Some(source(1, 2, 2)));
    if let Some(p) = s.pict_source_mut() {
        p.palette_gen = 3;
    }
    assert_eq!(s.palette_gen(), 3);
}

#[test]
fn the_ground_is_shown_where_the_game_painted_one() {
    let mut s = v6_session(
        |w| {
            w[0].x_size = 640;
            w[0].y_size = 400;
        },
        0,
    );
    assert!(s.paint_surface().is_none());
    let fill =
        EraseFill { window: 0, x: 9, y: 17, w: 8, h: 16, rgba: Some(RED), pics_before: 0 };
    s.layers.apply_erase_fill(&s.machine, &fill);
    let ground = s.paint_surface().expect("a ground");
    assert_eq!(ground.get(8, 16), RED);
    assert_eq!(ground.get(7, 16), NONE);
}

#[test]
fn a_picture_as_wide_as_the_window_does_not_flow() {
    let mut s = v6_session(
        |w| {
            w[0].x_size = 464;
            w[0].y_size = 320;
        },
        0,
    );
    s.set_pict_source(Some(source(1, 232, 10)));
    let ev = PictureEvent {
        margin_after: Some(96),
        at_cursor: true,
        ..event(1, 0, 1, 1, (1, 1, 464, 320))
    };
    draw(&mut s, &ev);
    assert!(s.layers.story_pics.is_empty());
    assert!(s.layers.pictures_canvas.contains(0));
}

#[test]
fn an_observation_says_only_where_the_player_is() {
    let r = TurnResult::observation(ObjectSnapshot { number: 4, parent: 1, name: "Den".into() });
    assert_eq!(r.location.map(|l| l.number), Some(4));
    assert!(r.transcript.is_empty() && !r.quit && r.pending_io.is_none() && r.info.is_none());
}
