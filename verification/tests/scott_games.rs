use fiction_session::model::{Layout, ScreenModel, WinNode};
use fiction_session::raster::{Raster, Rgba};
use fiction_session::restore::{EngineError, EngineSave};
use fiction_session::scott::{
    band_height, picture_source, resolve_options, room_panel, save_format, zx_mysterious_route,
    ArtFacts, ArtSource, ObjectRecord, PictureShow, PictureUsage, Release, SagaPlatform,
    SaveFormat, ScottPicts, ScottSession, ScottTurn, ScottVm, ZxRoute, PICTURE_SHOW_HINT,
    SCOTT_ENGINE,
};
use fiction_session::turn::{InputKind, PendingIo};
use fiction_session::vocab::{story_vocabulary, vocabulary_of, ScottVerb, SyntaxLine};

fn vm(room: u16, block: &str, picture: Option<u16>) -> ScottVm {
    ScottVm {
        quit: false,
        dark: false,
        room,
        room_name: "Room".into(),
        room_block: block.into(),
        current_picture: picture,
        saga_database: false,
        release: None,
        dos_pictures: false,
        dos_room_picture: 0,
        pictures_here: vec![],
        room_overlay: None,
        carried: vec![],
    }
}

fn no_picts() -> ScottPicts {
    ScottPicts {
        drawable: vec![],
        records: vec![],
        native_scale: None,
        native_platform: None,
        saga_platform: None,
        saga_count: None,
        dos_count: None,
    }
}

fn record(usage: PictureUsage, index: u16, name: &str) -> ObjectRecord {
    ObjectRecord { usage, index, name: name.into() }
}

fn hulk_picts() -> ScottPicts {
    ScottPicts {
        drawable: vec![1, 2, 83, 84, 86, 98],
        records: vec![
            record(PictureUsage::ObjectInRoom, 53, "B01053R"),
            record(PictureUsage::ObjectInRoom, 33, "B01033R"),
            record(PictureUsage::ObjectInInventory, 23, "B01023I"),
        ],
        saga_platform: Some(SagaPlatform::Other("Commodore 64".into())),
        saga_count: Some(6),
        ..no_picts()
    }
}

fn hulk_vm(room: u16) -> ScottVm {
    ScottVm {
        saga_database: true,
        release: Some(Release::Saga),
        ..vm(room, "I am in the dome", Some(room))
    }
}

fn clearing() -> ScottVm {
    vm(
        1,
        "I am in a sunlit forest clearing\nObvious exits: Down.\nVisible items: brass lamp",
        Some(1),
    )
}

fn cave() -> ScottVm {
    vm(2, "I am in a damp, dark cave", Some(2))
}

fn turn(vm: ScottVm, transcript: &str) -> ScottTurn {
    ScottTurn { vm, transcript: transcript.into(), shows: vec![], save_requested: false }
}

fn started(vm: ScottVm, opening: String, picts: ScottPicts) -> ScottSession {
    ScottSession::new(Ok((vm, opening)), picts).expect("a game that opens")
}

fn tiny() -> ScottSession {
    started(clearing(), String::new(), no_picts())
}

fn panel_text(model: &ScreenModel) -> String {
    let Layout::Stacked(bands, _) = &model.root else { return String::new() };
    for b in bands {
        if let WinNode::Buffer(b) = &b.node {
            return b.lines.join("\n");
        }
    }
    String::new()
}

fn has_band(model: &ScreenModel) -> bool {
    let Layout::Stacked(bands, _) = &model.root else { return false };
    matches!(bands.first(), Some(b) if matches!(b.node, WinNode::Graphics(_)))
}

#[test]
fn loading_archived_aux_data_does_not_mark_it_dirty() {
    let mut s = tiny();
    assert!(!s.aux_dirty(), "a fresh session has nothing to persist");
    let data = vec![("pcset".to_string(), vec![1u8, 2, 3])];
    s.set_aux_data(data.clone());
    assert_eq!(s.aux_data(), &data, "the data really is installed");
    assert!(!s.aux_dirty(), "restoring is not writing");
    s.aux_dirty = true;
    s.clear_aux_dirty();
    assert!(!s.aux_dirty());
}

#[test]
fn boots_and_shows_room_panel() {
    let mut s = tiny();
    assert_eq!(s.snapshot_location().expect("loc").number, 1);
    let intro = s.take_transcript();
    assert!(intro.contains("Tell me what to do ?"), "the intro carries the prompt");
    assert!(!intro.contains('>'), "never the '>' prompt");
    assert!(s.take_transcript().is_empty(), "the intro drains only once");

    let panel = panel_text(&s.screen());
    assert!(panel.contains("sunlit forest clearing"), "{panel:?}");
    assert!(panel.contains("Obvious exits:"), "{panel:?}");
    assert!(panel.contains("brass lamp"), "{panel:?}");

    let _ = s.submit(turn(clearing(), "O.K."));
    let r = s.submit(turn(cave(), "O.K."));
    assert_eq!(r.location.expect("loc").number, 2);
    assert!(!r.quit);
    assert!(r.transcript.contains("Tell me what to do ?"), "each turn ends with the prompt");
    assert!(panel_text(&s.screen()).contains("damp, dark cave"), "the panel follows");
}

#[test]
fn save_restore_roundtrip() {
    let mut s = tiny();
    let start = s.snapshot_location().unwrap().number;
    let save = ScottSession::save_state(vec![9, 9]);
    let _ = s.submit(turn(cave(), ""));
    assert_ne!(s.snapshot_location().unwrap().number, start);
    s.restore_state(&save, clearing(), Ok(())).unwrap();
    assert_eq!(s.snapshot_location().unwrap().number, start);
}

#[test]
fn a_normal_turn_raises_no_save_request_and_resume_returns_to_prompt() {
    let mut s = tiny();
    let r = s.submit(turn(cave(), "O.K."));
    assert_eq!(r.pending_io, None, "a plain move does not request a save");
    let resumed = s.resume_save();
    assert!(resumed.transcript.contains("Tell me what to do ?"));
    assert_eq!(resumed.pending_io, None);
}

#[test]
fn blb_game_shows_a_room_picture_band() {
    let picts = ScottPicts { drawable: vec![1], ..no_picts() };
    let mut s = started(clearing(), String::new(), picts);
    assert_eq!(s.current_pic_num, Some(1));
    s.put_canvas(Some(Raster::new(2, 2)));
    assert!(has_band(&s.screen()), "picture band on top");
}

#[test]
fn plain_dat_has_no_picture_band() {
    assert!(!has_band(&tiny().screen()), "no graphics band");
}

#[test]
fn in_game_save_bytes_round_trip_via_restore_game_save() {
    let mut s = tiny();
    let start = s.snapshot_location().unwrap().number;
    let bytes = ScottSession::save_state(vec![1, 2, 3]).bytes;
    assert!(!bytes.is_empty());
    let _ = s.submit(turn(cave(), ""));
    assert_ne!(s.snapshot_location().unwrap().number, start);
    s.restore_game_save(save_format(&bytes, &vec![1, 2], false), clearing(), Ok(()))
        .expect("restore accepts the snapshot");
    assert_eq!(s.snapshot_location().unwrap().number, start);
}

#[test]
fn restore_state_rejects_foreign_engine() {
    let mut s = tiny();
    let foreign = EngineSave::new("zmachine", 1, vec![1, 2, 3]);
    let err = s.restore_state(&foreign, cave(), Ok(())).unwrap_err();
    assert!(matches!(err, EngineError::EngineMismatch { .. }));
    assert_eq!(s.snapshot_location().unwrap().number, 1, "nothing changed");

    let save = EngineSave::new(SCOTT_ENGINE, 1, vec![1]);
    let err = s.restore_state(&save, cave(), Err("short".into())).unwrap_err();
    assert!(matches!(err, EngineError::BadSave(_)));
}

fn bite_lip() -> ScottTurn {
    ScottTurn {
        shows: vec![
            PictureShow { picture: 84, output_len: 4 },
            PictureShow { picture: 83, output_len: 8 },
            PictureShow { picture: 86, output_len: 8 },
        ],
        ..turn(hulk_vm(2), "Ow! Gas!")
    }
}

#[test]
fn bite_lip_shows_every_picture_in_sequence_each_key_gated() {
    let mut s = started(hulk_vm(1), String::new(), hulk_picts());
    assert_eq!(s.current_pic_num, Some(1));
    let first = s.submit(bite_lip());
    assert_eq!(s.pending_input(), InputKind::Char, "the first picture waits for a key");
    assert_eq!(s.current_pic_num, Some(84), "the band shows the first picture");
    assert_eq!(first.transcript, "Ow! ");
    assert_eq!(first.info.as_deref(), Some(PICTURE_SHOW_HINT));

    let mut told = first.transcript;
    for want_picture in [83u16, 86] {
        let r = s.submit_key().expect("still showing: a key advances it");
        assert_eq!(s.pending_input(), InputKind::Char);
        assert_eq!(s.current_pic_num, Some(want_picture));
        assert!(!r.transcript.contains("Tell me what to do"), "no prompt yet");
        told.push_str(&r.transcript);
    }
    let last = s.submit_key().expect("the last key still routes here");
    assert_eq!(s.pending_input(), InputKind::Line, "the sequence is over");
    assert_eq!(s.current_pic_num, Some(2), "room 2's own picture");
    assert!(last.transcript.trim_end().ends_with("Tell me what to do ?"));
    told.push_str(&last.transcript);
    assert!(told.starts_with("Ow! Gas!"), "the keys tell the whole turn");
    assert!(s.submit_key().is_none(), "no sequence left to advance");
}

#[test]
fn a_turn_with_no_picture_show_is_unaffected() {
    let mut s = started(hulk_vm(1), String::new(), hulk_picts());
    let r = s.submit(turn(hulk_vm(1), "Nothing special."));
    assert_eq!(s.pending_input(), InputKind::Line);
    assert!(r.transcript.trim_end().ends_with("Tell me what to do ?"));
    assert!(r.info.is_none());
}

fn dome() -> ScottVm {
    ScottVm { pictures_here: vec![33, 53, 7], ..hulk_vm(2) }
}

#[test]
fn the_domes_band_draws_the_sign_and_the_ring_over_its_room_picture() {
    let s = started(dome(), String::new(), hulk_picts());
    assert_eq!(s.current_pic_num, Some(2));
    assert_eq!(s.current_overlays, vec!["B01053R".to_string(), "B01033R".to_string()]);
}

#[test]
fn taking_and_dropping_an_item_moves_its_record_on_and_off_the_band() {
    let mut picts = hulk_picts();
    picts.records.push(record(PictureUsage::ObjectInRoom, 23, "B01023R"));
    let with_fan = || ScottVm { pictures_here: vec![33, 53, 23], ..hulk_vm(2) };
    let mut s = started(with_fan(), String::new(), picts);
    let carried = vec!["B01053R".to_string(), "B01033R".to_string(), "B01023R".to_string()];
    assert_eq!(s.current_overlays, carried, "gathered last, so drawn last");
    let version = s.pic_version;
    let _ = s.submit(turn(dome(), "O.K."));
    assert_eq!(s.current_overlays, vec!["B01053R".to_string(), "B01033R".to_string()]);
    assert_ne!(s.pic_version, version, "the band is another one");
    let _ = s.submit(turn(with_fan(), "O.K."));
    assert_eq!(s.current_overlays, carried);
}

#[test]
fn the_inventory_command_shows_picture_98_with_the_carried_item_over_it() {
    let with_fan = || ScottVm { carried: vec![23], ..dome() };
    let mut s = started(with_fan(), String::new(), hulk_picts());
    let room_overlays = s.current_overlays.clone();
    let text = "I'm carrying: Metal Hand Fan. ";
    let r = s.submit(ScottTurn {
        shows: vec![PictureShow { picture: 98, output_len: text.len() }],
        ..turn(with_fan(), text)
    });
    assert!(r.transcript.contains("Metal Hand Fan"), "the listing first");
    assert!(!r.transcript.contains("Tell me what to do"), "the prompt is withheld");
    assert_eq!(r.info.as_deref(), Some(PICTURE_SHOW_HINT));
    assert_eq!(s.pending_input(), InputKind::Char);
    assert_eq!(s.current_pic_num, Some(98));
    assert_eq!(s.current_overlays, vec!["B01023I".to_string()]);

    let last = s.submit_key().expect("a key ends the screen");
    assert_eq!(s.pending_input(), InputKind::Line);
    assert_eq!(s.current_pic_num, Some(2), "the room view returns");
    assert_eq!(s.current_overlays, room_overlays);
    assert!(last.transcript.trim_end().ends_with("Tell me what to do ?"));
}

#[test]
fn the_inventory_screen_with_an_empty_pack_is_the_bare_backdrop() {
    let mut s = started(dome(), String::new(), hulk_picts());
    let text = "I'm carrying: Nothing. ";
    let r = s.submit(ScottTurn {
        shows: vec![PictureShow { picture: 98, output_len: text.len() }],
        ..turn(dome(), text)
    });
    assert!(r.transcript.contains("Nothing"));
    assert_eq!(s.current_pic_num, Some(98));
    assert!(s.current_overlays.is_empty(), "nothing carried, nothing drawn over it");
    let _ = s.submit_key();
    assert_eq!(s.current_pic_num, Some(2));
}

fn picture_line(s: &ScottSession) -> String {
    s.window_dump().into_iter().find(|l| l.contains("picture:")).expect("a picture line")
}

#[test]
fn the_dump_names_the_overlays_the_band_was_built_from() {
    let mut s = started(hulk_vm(1), String::new(), hulk_picts());
    s.put_canvas(Some(Raster::new(4, 4)));
    assert!(picture_line(&s).contains("overlays=none"), "{:?}", picture_line(&s));
    let _ = s.submit(turn(dome(), ""));
    s.put_canvas(Some(Raster::new(4, 4)));
    assert!(picture_line(&s).contains("overlays=B01053R,B01033R"), "{:?}", picture_line(&s));
}

#[test]
fn an_undrawable_picture_show_never_stops_the_game() {
    let mut s = started(hulk_vm(1), String::new(), no_picts());
    let text = "I'm carrying: Nothing. ";
    let r = s.submit(ScottTurn {
        shows: vec![PictureShow { picture: 98, output_len: text.len() }],
        ..turn(hulk_vm(1), text)
    });
    assert_eq!(s.pending_input(), InputKind::Line, "no picture, no pause");
    assert!(r.transcript.trim_end().ends_with("Tell me what to do ?"));
    assert!(r.info.is_none());
    let r = s.submit(bite_lip());
    assert_eq!(s.pending_input(), InputKind::Line);
    assert!(r.transcript.trim_end().ends_with("Tell me what to do ?"));
}

#[test]
fn mysterious_c64_dark_room_hides_the_picture_band() {
    let picts = ScottPicts { drawable: vec![19, 20], ..no_picts() };
    let mut s = started(vm(19, "cabin", Some(19)), String::new(), picts);
    s.put_canvas(Some(Raster::new(2, 2)));
    assert!(has_band(&s.screen()));
    let _ = s.submit(turn(ScottVm { dark: true, ..vm(20, "dark", None) }, ""));
    assert_eq!(s.snapshot_location().expect("loc").number, 20);
    assert!(!has_band(&s.screen()), "a dark room shows no picture band");
}

#[test]
fn mysterious_c64_picture_band_reappears_leaving_the_dark_room() {
    let picts = ScottPicts { drawable: vec![19, 20], ..no_picts() };
    let mut s = started(vm(19, "cabin", Some(19)), String::new(), picts);
    let _ = s.submit(turn(ScottVm { dark: true, ..vm(20, "dark", None) }, ""));
    assert!(!has_band(&s.screen()), "dark: band hidden");
    let _ = s.submit(turn(vm(19, "cabin", Some(19)), ""));
    assert_eq!(s.current_pic_num, Some(19));
    s.put_canvas(Some(Raster::new(2, 2)));
    assert!(has_band(&s.screen()), "lit again: band reappears");
}

#[test]
fn a_save_that_the_game_asks_for_comes_without_the_prompt() {
    let mut s = tiny();
    let r = s.submit(ScottTurn { save_requested: true, ..turn(clearing(), "Saving. ") });
    assert_eq!(r.pending_io, Some(PendingIo::Save));
    assert_eq!(r.transcript, "Saving. ");
}

#[test]
fn a_finished_game_gets_no_prompt() {
    let mut s = tiny();
    let r = s.submit(turn(ScottVm { quit: true, ..clearing() }, "The game is over."));
    assert!(r.quit && s.has_quit());
    assert_eq!(r.transcript, "The game is over.");
}

#[test]
fn the_dump_counts_the_pixels_and_quotes_the_panel() {
    let mut s = started(
        vm(1, "I'm in a \"cave\"  \n\nDeep", Some(1)),
        String::new(),
        ScottPicts { native_scale: Some(3), native_platform: Some("C64".into()), ..no_picts() },
    );
    let mut c = Raster::new(4, 2);
    c.fill_rect(0, 0, 3, 1, Rgba { r: 1, g: 2, b: 3, a: 255 });
    s.put_canvas(Some(c));
    let dump = s.window_dump();
    assert_eq!(dump[0], "Scott Adams layout — picture over room panel over transcript");
    assert_eq!(
        dump[1],
        "  picture: 16 row(s) reserved  ·  canvas=4x2 v1 opaque=3 source=native C64 x3"
    );
    assert_eq!(dump[2], "  room panel: 3 line(s)");
    assert_eq!(dump[3], "  line  1: \"I'm in a \\\"cave\\\"\"");
    assert_eq!(dump[4], "  line  3: \"Deep\"");
    assert_eq!(dump.last().unwrap(), "  transcript: primary buffer (host-managed scrollback)");
}

#[test]
fn the_panel_has_a_line_for_each_line() {
    let p = room_panel("a\n\nb\n");
    assert_eq!(p.lines, vec!["a", "", "b", ""]);
    assert!(p.panel && !p.primary);
}

#[test]
fn pictures_come_from_the_first_source_that_is_there() {
    let none = ArtFacts {
        has_container: false,
        has_picture_files: false,
        saga_release: false,
        dos_release: false,
        zx_lists: false,
        c64_lists: false,
    };
    assert_eq!(picture_source(none), ArtSource::Nowhere);
    assert_eq!(picture_source(ArtFacts { c64_lists: true, ..none }), ArtSource::C64);
    assert_eq!(
        picture_source(ArtFacts { zx_lists: true, c64_lists: true, ..none }),
        ArtSource::Zx
    );
    assert_eq!(
        picture_source(ArtFacts { has_picture_files: true, dos_release: true, ..none }),
        ArtSource::SagaDos
    );
    assert_eq!(
        picture_source(ArtFacts { has_picture_files: true, saga_release: true, ..none }),
        ArtSource::Saga
    );
    assert_eq!(
        picture_source(ArtFacts { has_container: true, zx_lists: true, ..none }),
        ArtSource::Container
    );
    assert_eq!(band_height(16), 256);
    assert_eq!(zx_mysterious_route(true, 5, 9, false), ZxRoute::Snapshot);
    assert_eq!(zx_mysterious_route(false, 9, 9, true), ZxRoute::Image);
    assert_eq!(zx_mysterious_route(false, 8, 9, true), ZxRoute::Neither);
}

#[test]
fn saves_are_told_apart_by_how_they_start() {
    let magic = vec![1u8, 2];
    assert_eq!(save_format(&vec![1, 2, 3], &magic, true), SaveFormat::Snapshot);
    assert_eq!(save_format(&b"12 3".to_vec(), &magic, true), SaveFormat::Text);
    assert_eq!(save_format(&b"junk".to_vec(), &magic, false), SaveFormat::Snapshot);
}

#[test]
fn options_left_open_take_their_defaults() {
    let d = resolve_options(None, None, None, None);
    let all = resolve_options(Some(true), Some(true), Some(true), Some(true));
    assert!(all.you_are && all.scott_light && all.trs80_style && all.prehistoric_lamp);
    assert_eq!(
        resolve_options(Some(d.you_are), None, Some(d.trs80_style), None),
        d,
        "naming a default changes nothing"
    );
}

#[test]
fn a_star_makes_a_synonym_and_words_are_lowered() {
    let verbs = vec!["AUT".to_string(), "GO".into(), "*ENT".into(), ".".into(), "GET".into()];
    let nouns = vec!["ANY".to_string(), "NOR".into(), "*GET".into(), "É".into(), "-".into()];
    let v = story_vocabulary(&verbs, &nouns, 3);
    assert_eq!(v.key_len, 3);
    let go = v.verbs.iter().find(|e| e.words.contains(&"go".to_string())).expect("a verb");
    assert!(go.words.contains(&"ent".to_string()), "{:?}", go.words);
    let get = v.words.iter().find(|w| w.word == "get").expect("a word");
    assert!(get.verb && get.noun);
    assert!(v.words.iter().any(|w| w.word == "é"), "a letter of another script is a letter");
    assert!(!v.words.iter().any(|w| w.word == "." || w.word == "-"));
    assert!(v.verbs.iter().all(|e| !e.words.is_empty()));

    let lowered: Vec<String> = verbs.iter().map(|w| w.trim_start_matches('*').to_lowercase()).collect();
    let nouns_low: Vec<String> = nouns.iter().map(|w| w.trim_start_matches('*').to_lowercase()).collect();
    let same = vocabulary_of(&verbs, &lowered, &nouns_low, 3);
    assert_eq!(same.words.len(), v.words.len());
}

#[test]
fn nothing_is_drawn_over_the_darkness() {
    let dark = ScottVm { dark: true, current_picture: None, ..dome() };
    let s = started(dark, String::new(), hulk_picts());
    assert!(s.current_overlays.is_empty());
}

fn dump_with(picts: ScottPicts) -> String {
    let mut s = started(hulk_vm(1), String::new(), picts);
    s.put_canvas(Some(Raster::new(4, 4)));
    s.window_dump().join("\n")
}

#[test]
fn hulk_window_dump_names_the_family_c_source() {
    let dump = dump_with(ScottPicts { saga_count: Some(70), ..hulk_picts() });
    assert!(dump.contains("source=S.A.G.A. family C (Commodore 64, 70 record(s))"), "{dump}");
}

#[test]
fn ms_dos_window_dump_names_the_family_e_source() {
    let dump = dump_with(ScottPicts { dos_count: Some(68), ..no_picts() });
    assert!(dump.contains("source=S.A.G.A. family E (MS-DOS, 68 picture(s))"), "{dump}");
}

#[test]
fn adventureland_apple_window_dump_names_the_family_d_source() {
    let dump = dump_with(ScottPicts {
        saga_platform: Some(SagaPlatform::AppleII),
        saga_count: Some(93),
        ..no_picts()
    });
    assert!(dump.contains("source=S.A.G.A. family D (Apple II, 93 picture(s))"), "{dump}");
}

#[test]
fn zx_mysterious_window_dump_names_the_native_zx_source() {
    let dump = dump_with(ScottPicts {
        native_scale: Some(3),
        native_platform: Some("ZX Spectrum".into()),
        ..no_picts()
    });
    assert!(dump.contains("source=native ZX Spectrum x3"), "{dump}");
}

#[test]
fn an_extracted_saga_database_has_no_pictures_and_says_so() {
    let s = started(hulk_vm(1), String::new(), no_picts());
    assert!(!has_band(&s.screen()), "no band without the release disk");
    let dump = s.window_dump().join("\n");
    assert!(dump.contains("a S.A.G.A. release with no picture files on this file"), "{dump}");
}

#[test]
fn the_band_changes_when_the_room_does() {
    let mut s = started(hulk_vm(1), String::new(), hulk_picts());
    s.put_canvas(Some(Raster::new(2, 2)));
    let version = s.pic_version;
    let _ = s.submit(turn(hulk_vm(2), ""));
    assert_eq!(s.current_pic_num, Some(2));
    assert!(s.current_canvas.is_none(), "the first room's picture is gone");
    assert_ne!(s.pic_version, version);
}

#[test]
fn the_band_shows_exactly_the_picture_the_vm_chose() {
    let mut s = started(hulk_vm(1), String::new(), hulk_picts());
    assert_eq!(s.current_pic_num, s.vm.current_picture, "at boot");
    assert_eq!(s.current_pic_num, Some(1));
    for text in ["You look.", "Time passes."] {
        let _ = s.submit(turn(hulk_vm(1), text));
        assert_eq!(s.current_pic_num, s.vm.current_picture);
    }
}

fn dos_picts() -> ScottPicts {
    ScottPicts {
        drawable: vec![1, 2, 98],
        records: vec![
            record(PictureUsage::ObjectInRoom, 33, "B01033R.PAK"),
            record(PictureUsage::ObjectInRoom, 53, "B01053R.PAK"),
            record(PictureUsage::ObjectInInventory, 23, "B01023I.PAK"),
        ],
        dos_count: Some(68),
        ..no_picts()
    }
}

fn dos_dome() -> ScottVm {
    ScottVm {
        release: Some(Release::Dos),
        dos_pictures: true,
        dos_room_picture: 2,
        pictures_here: vec![53, 33],
        carried: vec![23],
        ..vm(2, "I am in the dome", Some(2))
    }
}

#[test]
fn the_dos_domes_band_draws_the_same_two_records_in_the_zips_order() {
    let s = started(dos_dome(), String::new(), dos_picts());
    assert_eq!(s.current_pic_num, Some(2));
    assert_eq!(
        s.current_overlays,
        vec!["B01033R.PAK".to_string(), "B01053R.PAK".to_string()]
    );
}

#[test]
fn the_dos_inventory_command_shows_its_own_picture_98() {
    let mut s = started(dos_dome(), String::new(), dos_picts());
    let text = "I'm carrying: Metal Hand Fan. ";
    let r = s.submit(ScottTurn {
        shows: vec![PictureShow { picture: 98, output_len: text.len() }],
        ..turn(dos_dome(), text)
    });
    assert!(r.transcript.contains("Metal Hand Fan"));
    assert_eq!(s.pending_input(), InputKind::Char);
    assert_eq!(s.current_pic_num, Some(98));
    assert_eq!(s.current_overlays, vec!["B01023I.PAK".to_string()]);
    let _ = s.submit_key();
    assert_eq!(s.pending_input(), InputKind::Line);
    assert_eq!(s.current_pic_num, Some(2));
}

#[test]
fn the_dos_release_draws_its_own_darkness() {
    let dark = ScottVm { dark: true, current_picture: None, ..dos_dome() };
    let s = started(dark, String::new(), dos_picts());
    assert_eq!(s.current_pic_num, Some(0));
    assert!(s.current_overlays.is_empty());
}

#[test]
fn a_database_that_does_not_open_starts_no_session() {
    let e = ScottSession::new(Err("BadHeader".into()), no_picts()).unwrap_err();
    assert_eq!(e, "invalid Scott .dat: BadHeader");
    let s = ScottSession::new(Ok((clearing(), "Welcome. ".into())), no_picts()).unwrap();
    assert_eq!(s.intro, "Welcome. \nTell me what to do ? ");
    let over = ScottVm { quit: true, ..clearing() };
    assert_eq!(started(over, "Bye.".into(), no_picts()).intro, "Bye.");
}

#[test]
fn a_turn_and_its_keys_tell_its_text_and_then_the_prompt() {
    for save in [false, true] {
        let mut s = started(hulk_vm(1), String::new(), hulk_picts());
        let out = ScottTurn { save_requested: save, ..bite_lip() };
        let text = out.transcript.clone();
        let mut results = vec![s.submit(out)];
        for _ in 0..3 {
            assert_eq!(s.pending_input(), InputKind::Char);
            results.push(s.submit_key().expect("a step of the sequence"));
        }
        let told: String = results.iter().map(|r| r.transcript.as_str()).collect();
        let end = if save { "" } else { "\nTell me what to do ? " };
        assert_eq!(told, format!("{text}{end}"));
        assert!(results[..3].iter().all(|r| r.info.is_some() && r.pending_io.is_none()));
        assert!(results[3].info.is_none());
        assert_eq!(results[3].pending_io, if save { Some(PendingIo::Save) } else { None });
        assert_eq!(s.pending_input(), InputKind::Line);
        assert!(s.submit_key().is_none());
    }
}

#[test]
fn a_verb_is_typed_alone_or_with_a_noun() {
    let verbs = vec!["AUT".to_string(), "GO".into(), "*ENT".into()];
    let v = story_vocabulary(&verbs, &vec![], 3);
    let go = &v.verbs[1];
    let line = |nouns: u8| SyntaxLine { action: 1, reversed: false, nouns };
    assert_eq!(go.lines(), vec![line(0), line(1)]);
    let far = ScottVerb { number: 65_538, words: vec![] };
    assert!(far.lines().iter().all(|l| l.action == 2), "an action is a 16-bit number");
}

#[test]
fn a_word_is_listed_once_however_often_it_is_entered() {
    let verbs = vec!["GET".to_string(), "GET".into(), "*GET".into(), "GO".into()];
    let nouns = vec!["GO".to_string(), "LAMP".into(), "lamp".into()];
    let v = story_vocabulary(&verbs, &nouns, 3);
    let words: Vec<&str> = v.words.iter().map(|w| w.word.as_str()).collect();
    assert_eq!(words, vec!["get", "go", "lamp"]);
}
