use fiction_session::debug::{
    memory_hex, memory_zstrings, zstring_spans, CallFrame, CallState, DecodedSpan, DictShape,
};
use fiction_session::disasm::{fold_confirmations, DisasmGate, ListingSteps};
use fiction_session::dump::{v6_face_lines, FaceFit, FaceOrigin, FaceSize, Pen, TextFace};
use fiction_session::refs::{
    annotate_refs, dict_addr_map, dictionary_lines, disassemble, kept_characters,
    object_detail, parser_chunks, split_like_parser, words_in_chunk, ObjectDetail, PropEntry,
};
use fiction_session::tree::line_address;

fn dict() -> Vec<(u32, String)> {
    vec![(0x1200, "lamp".to_string()), (0x1207, "north".to_string())]
}

#[test]
fn dict_addr_map_maps_an_entry_to_its_word() {
    let d = DictShape { base: 0x1200, count: 3, entry_length: 7, key_len: 4 };
    let texts = vec!["lamp ".to_string(), "  ".to_string(), "north".to_string()];
    let map = dict_addr_map(d, &texts);
    assert_eq!(map, vec![(0x1200, "lamp".to_string()), (0x120e, "north".to_string())]);
    assert!(map.iter().all(|e| !e.1.is_empty()));
}

#[test]
fn annotate_refs_appends_obj_tag_for_object_entry_address() {
    let out = annotate_refs("004a2f  loadw @0x0002b0, #00", &vec![(0x2b0, 1)], &dict());
    assert!(out.contains("@0x0002b0 [obj#1]"), "got: {out}");
}

#[test]
fn annotate_refs_appends_word_tag_for_dictionary_entry_address() {
    let out = annotate_refs("004a2f  storeb @0x001207, #01", &vec![(0x2b0, 1)], &dict());
    assert!(out.contains("@0x001207 [north]"), "got: {out}");
}

#[test]
fn annotate_refs_leaves_non_matching_reference_unchanged() {
    let line = "004a2f  loadw @0xffffff, #00";
    assert_eq!(annotate_refs(line, &vec![(0x2b0, 1)], &dict()), line);
}

#[test]
fn a_listing_is_made_once_and_confirmed_for_each_place() {
    let mut g = DisasmGate::new();
    let first = g.with_disasm_cache(0x4f05);
    assert_eq!(first, ListingSteps { build: true, confirm: true });
    assert_eq!(g.last_confirmed_pc, Some(0x4f05));
    assert_eq!(g.with_disasm_cache(0x4f05), ListingSteps { build: false, confirm: false });
    g.reopen();
    assert_eq!(g.last_confirmed_pc, None);
    assert_eq!(g.with_disasm_cache(0x4f05), ListingSteps { build: false, confirm: true });
}

#[test]
fn asking_too_early_keeps_nothing_from_being_confirmed() {
    let mut g = DisasmGate::new();
    assert!(!g.confirm_disasm(7));
    assert_eq!(g.last_confirmed_pc, None);
    assert!(g.with_disasm_cache(7).confirm);
    assert!(g.confirm_disasm(8));
    assert_eq!(g.last_confirmed_pc, Some(8));
}

fn frame(func_addr: u32, eval_base: usize, locals: Vec<u16>) -> CallFrame {
    CallFrame { func_addr, return_pc: 0x1234, arg_count: 2, eval_base, locals }
}

#[test]
fn what_was_run_confirms_the_listing() {
    let frames = vec![frame(0x100, 0, vec![]), frame(0x200, 1, vec![])];
    let c = fold_confirmations(&frames, 0x210, Some(0x20c), &vec![0x201, 0x204]);
    assert_eq!(c.routines, vec![0x100, 0x200]);
    assert_eq!(c.places, vec![0x210, 0x20c, 0x201, 0x204]);
    assert_eq!(fold_confirmations(&frames, 5, None, &vec![]).places, vec![5]);
}

fn extra() -> Vec<char> {
    vec!['?'; 69]
}

#[test]
fn memory_is_dumped_in_rows_of_sixteen() {
    let mut bytes: Vec<u8> = (0..20u8).collect();
    bytes[1] = b'A';
    let rows = memory_hex(&bytes, 0, 4, &extra());
    assert_eq!(rows.len(), 2);
    assert_eq!(
        rows[0],
        "000000  00 41 02 03 04 05 06 07 08 09 0a 0b 0c 0d 0e 0f .A.............."
    );
    assert!(rows[1].starts_with("000010  10 11 12 13 "));
    assert!(rows[1].ends_with("...."));
    assert!(memory_hex(&bytes, 99, 4, &extra()).is_empty());
}

#[test]
fn the_z_text_column_indexes_row_for_row_with_the_hex_dump() {
    let bytes = vec![0u8; 1000];
    for (addr, rows) in [(0u32, 4usize), (0x100, 40), (992, 4)] {
        assert_eq!(
            memory_hex(&bytes, addr, rows, &extra()).len(),
            memory_zstrings(1000, addr, rows, &vec![]).len()
        );
    }
}

#[test]
fn rows_no_table_accounts_for_decode_to_nothing_at_all() {
    assert!(memory_zstrings(1000, 0, 4, &vec![]).iter().all(|z| z.is_none()));
}

#[test]
fn a_name_is_credited_to_the_rows_that_hold_its_words() {
    let span = DecodedSpan {
        start: 12,
        end: 20,
        pieces: vec!["ab".into(), "cd".into(), "ef".into(), "".into()],
    };
    let rows = memory_zstrings(64, 0, 3, &vec![span]);
    assert_eq!(rows, vec![Some("abcd".to_string()), Some("ef".to_string()), None]);
}

#[test]
fn only_the_texts_in_the_window_are_read() {
    let d = DictShape { base: 100, count: 10, entry_length: 7, key_len: 4 };
    let spans = zstring_spans(1000, 96, 1, d, &vec![(90, 98), (500, 510)]);
    assert_eq!(spans, vec![(100, 104), (107, 111), (90, 98)]);
}

fn state() -> CallState {
    let mut globals = vec![0u16; 240];
    globals[3] = 0xbeef;
    CallState {
        frames: vec![frame(0x100, 0, vec![]), frame(0x2a0, 1, vec![0xffff, 2])],
        eval_stack: vec![5, 0xfffe],
        globals,
    }
}

#[test]
fn the_call_stack_is_listed() {
    let s = state();
    assert_eq!(
        s.stack_lines(),
        vec![
            "#0  fn@000100  ret=001234  args=2".to_string(),
            "#1  fn@0002a0  ret=001234  args=2".to_string(),
        ]
    );
    assert_eq!(
        s.eval_stack_lines(),
        vec![
            "[  1] fffe  (-2)  <- frame base".to_string(),
            "[  0] 0005  (5)  <- frame base".to_string(),
        ]
    );
    assert_eq!(
        s.locals_lines(),
        vec!["local0 = ffff  (65535)".to_string(), "local1 = 0002  (2)".to_string()]
    );
    assert_eq!(s.frame_locals(1)[0], "local0 = 0xffff  (-1)");
    assert_eq!(s.frame_locals(0), vec!["(no locals)".to_string()]);
    assert_eq!(s.frame_locals(9), vec!["(no frame)".to_string()]);
    assert_eq!(s.globals_lines().len(), 240);
    assert_eq!(s.globals_lines()[3], "g03 = beef");
}

#[test]
fn an_empty_machine_lists_nothing() {
    let s = CallState { frames: vec![], eval_stack: vec![], globals: vec![0; 240] };
    assert_eq!(s.stack_lines(), vec!["(no frames)".to_string()]);
    assert_eq!(s.eval_stack_lines(), vec!["(empty)".to_string()]);
    assert_eq!(s.locals_lines(), vec!["(no frame)".to_string()]);
}

#[test]
fn variables_are_read_by_their_number() {
    let s = state();
    assert_eq!(s.var_value(0), Some(0xfffe));
    assert_eq!(s.var_value(1), Some(0xffff));
    assert_eq!(s.var_value(3), None);
    assert_eq!(s.var_value(16 + 3), Some(0xbeef));
}

#[test]
fn an_expanded_object_publishes_its_entry_address_as_its_own_link() {
    let mut attributes = vec![false; 48];
    attributes[3] = true;
    attributes[40] = true;
    let d = ObjectDetail {
        entry_addr: 0x2b0,
        attributes,
        first_prop: 18,
        props: vec![
            PropEntry { number: 18, next: 5, bytes: vec![0x4e, 0x02] },
            PropEntry { number: 5, next: 9, bytes: vec![1] },
            PropEntry { number: 9, next: 0, bytes: vec![2] },
        ],
    };
    assert_eq!(
        object_detail(&d, 5),
        vec![
            "entry @0x0002b0".to_string(),
            "attrs: 3, 40".to_string(),
            "  prop 18: 4e 02".to_string(),
            "  prop 5: 01".to_string(),
        ],
        "a list that does not descend ends there"
    );
    assert_eq!(object_detail(&d, 3)[1], "attrs: 3", "an old story has fewer attributes");
}

#[test]
fn every_word_of_the_dictionary_is_listed_behind_its_address() {
    assert_eq!(
        dictionary_lines(&dict()),
        vec!["@0x001200 lamp".to_string(), "@0x001207 north".to_string()]
    );
    assert_eq!(kept_characters(4), 6);
    assert_eq!(kept_characters(6), 9);
}

#[test]
fn long_commands_are_cut_at_spaces() {
    let text = "word ".repeat(100);
    let chunks = parser_chunks(text.trim_end());
    assert!(chunks.len() > 1);
    assert!(chunks.iter().all(|c| c.len() <= 255));
    let all: Vec<String> = chunks.iter().map(|c| c.iter().collect()).collect();
    assert_eq!(all.join(" ").split_whitespace().count(), 100);
    assert_eq!(parser_chunks("take lamp").len(), 1);
}

fn words_of(chunks: &[Vec<char>]) -> Vec<String> {
    let texts: Vec<String> = chunks.iter().map(|c| c.iter().collect()).collect();
    texts.iter().flat_map(|t| t.split_whitespace()).map(str::to_string).collect()
}

#[test]
fn a_word_at_the_limit_of_a_piece_stays_whole() {
    let text = format!("{}{}", "ab ".repeat(66), "x".repeat(60));
    let chunks = parser_chunks(&text);
    assert_eq!(chunks.len(), 2);
    assert_eq!(chunks[0].len(), 197, "the piece ends at its last space");
    let words = words_of(&chunks);
    assert_eq!(words.len(), 67);
    assert_eq!(words[66], "x".repeat(60));
}

#[test]
fn only_a_word_longer_than_a_piece_is_cut() {
    let chunks = parser_chunks(&"y".repeat(300));
    assert_eq!(chunks.iter().map(Vec::len).collect::<Vec<_>>(), vec![255, 45]);
    let text = format!("go {} now", "z".repeat(255));
    assert_eq!(words_of(&parser_chunks(&text)), vec!["go".into(), "z".repeat(255), "now".into()]);
    let gaps = "a\tb\nc";
    assert_eq!(parser_chunks(gaps), vec!["a b c".chars().collect::<Vec<char>>()]);
}

#[test]
fn words_are_taken_from_their_places_in_lower_case() {
    let chunk: Vec<char> = "Take LAMP".chars().collect();
    assert_eq!(
        words_in_chunk(&chunk, &vec![(0, 4), (5, 4)]),
        vec!["take".to_string(), "lamp".to_string()]
    );
}

#[test]
fn the_face_of_the_text_is_described() {
    assert_eq!(
        v6_face_lines(None),
        vec!["  face: not supplied — engine-only view".to_string()]
    );
    let mut advances = vec![6u32; 95];
    advances[0] = 3;
    advances[10] = 11;
    let face = TextFace {
        body: Some(FaceSize {
            width: 8,
            height: 12,
            origin: Some(FaceOrigin::SystemDisk { disk: "Disk 1".into(), name: "Geneva".into() }),
        }),
        fit: Some(FaceFit::Metric),
        fixed: None,
        cell: (8, 16),
        scale: (2, 1),
        pen: Pen::Proportional { advances, smear: 1 },
    };
    assert_eq!(
        v6_face_lines(Some(&face)),
        vec![
            "  face: one launch fact — every window below is set in it".to_string(),
            "    body: 8x12px from Disk 1 · Geneva · fit Metric".to_string(),
            "    fixed: none — a fixed-pitch run takes the body face".to_string(),
            "    declared cell 8x16px · text scale 2x1 native px per face px".to_string(),
            "    pen: proportional 3–11px over printable ASCII · bold +2px (smear 1)".to_string(),
        ]
    );
    let plain = TextFace {
        body: None,
        fit: None,
        fixed: Some(FaceSize { width: 7, height: 9, origin: Some(FaceOrigin::Release) }),
        cell: (7, 9),
        scale: (1, 1),
        pen: Pen::Fixed,
    };
    assert_eq!(
        v6_face_lines(Some(&plain))[1..],
        [
            "    body: none — the built-in render::vga16".to_string(),
            "    fixed: 7x9px from the release's own medium".to_string(),
            "    declared cell 7x9px · text scale 1x1 native px per face px".to_string(),
            "    pen: steps the cell — 7px for every character".to_string(),
        ]
    );
}

#[test]
fn every_line_of_a_listing_is_annotated() {
    let listing = vec!["000100  add #01".to_string(), "000103  loadw @0x0002b0".to_string()];
    assert_eq!(
        disassemble(&listing, &vec![(0x2b0, 1)], &dict()),
        vec!["000100  add #01".to_string(), "000103  loadw @0x0002b0 [obj#1]".to_string()]
    );
}

#[test]
fn the_words_of_all_pieces_are_listed() {
    let chunks: Vec<Vec<char>> =
        vec!["Take the".chars().collect(), "LAMP, now".chars().collect()];
    let tokens = vec![vec![(0, 4), (5, 3)], vec![(0, 4), (4, 1), (6, 3)]];
    assert_eq!(split_like_parser(&chunks, &tokens), vec!["take", "the", "lamp", ",", "now"]);
}

#[test]
fn an_object_rows_address_lands_on_its_name_not_its_entry() {
    assert_eq!(line_address(Some(0x500), 0x2b0), 0x500);
    assert_eq!(line_address(None, 0x2b0), 0x2b0);
}

#[test]
fn confirmation_is_idempotent_and_stable() {
    let mut g = DisasmGate::new();
    let _ = g.with_disasm_cache(0x4f05);
    assert!(g.confirm_disasm(0x4f05));
    let first = g;
    assert!(g.confirm_disasm(0x4f05));
    assert_eq!(g, first);
    assert_eq!(g.with_disasm_cache(0x4f05), ListingSteps { build: false, confirm: false });
}
