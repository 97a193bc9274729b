use fiction_session::art::{
    is_content_art, v6_scaled_art, win0_pic_align, ImageAlign, InlineImage, V6_ART_SCALE,
};
use fiction_session::elements::{interleave_story_elems, trim_elems_to_len, TranscriptElem};
use fiction_session::prompt::strip_read_prompt;
use fiction_session::raster::{Raster, Rgba};
use fiction_session::transcript::{
    clamp_runs, skip_runs, CaptureRun, CaptureSink, ParaFmt, ZColour,
};
use fiction_session::tree::{build_object_tree, children_of, ObjectEntry, ObjectTable};

fn run(n: usize, style: u8) -> CaptureRun {
    (n, style, ZColour::Default, ZColour::Default, 0, ParaFmt::default(), 0, false)
}

fn picture(align: ImageAlign, margin_px: Option<u32>) -> TranscriptElem {
    TranscriptElem::Image(InlineImage { pixels: Raster::new(8, 8), align, margin_px })
}

fn entry(number: u16, parent: u16, child: u16, sibling: u16, base: u32) -> ObjectEntry {
    ObjectEntry {
        number,
        parent,
        child,
        sibling,
        name: format!("o{number}"),
        addr: base + number as u32,
    }
}

#[test]
fn build_object_tree_walks_children_under_their_parent() {
    let t = ObjectTable {
        entries: vec![
            entry(1, 0, 3, 0, 0x100),
            entry(2, 0, 6, 0, 0x100),
            entry(3, 1, 4, 5, 0x100),
            entry(4, 3, 0, 0, 0x100),
            entry(5, 1, 0, 0, 0x100),
            entry(6, 2, 0, 0, 0x100),
        ],
    };
    let lines = build_object_tree(&vec![1, 2, 3, 4, 5, 6], &t);
    assert_eq!(
        lines,
        vec![
            "@0x000101 [1] o1".to_string(),
            "@0x000103   [3] o3".to_string(),
            "@0x000104     [4] o4".to_string(),
            "@0x000105   [5] o5".to_string(),
            "@0x000102 [2] o2".to_string(),
            "@0x000106   [6] o6".to_string(),
        ]
    );
    assert_eq!(children_of(&t, &vec![1, 2, 3, 4, 5, 6], 1), vec![3, 5]);
}

#[test]
fn build_object_tree_appends_objects_unreachable_from_a_root() {
    let t = ObjectTable {
        entries: vec![
            entry(1, 0, 0, 0, 0x200),
            entry(2, 0, 0, 0, 0x200),
            entry(3, 2, 0, 0, 0x200),
        ],
    };
    let lines = build_object_tree(&vec![1, 2, 3], &t);
    assert_eq!(
        lines,
        vec![
            "@0x000201 [1] o1".to_string(),
            "@0x000202 [2] o2".to_string(),
            "@0x000203   [3] o3".to_string(),
        ]
    );
}

#[test]
fn capture_sink_records_style_runs() {
    let mut s = CaptureSink::new();
    s.print("ab");
    s.print_styled("CD", 0x02);
    let (text, runs) = s.take_styled();
    assert_eq!(text, "abCD");
    assert_eq!(runs, vec![run(2, 0), run(2, 0x02)]);
}

#[test]
fn capture_sink_flags_runs_printed_with_buffering_off() {
    let mut s = CaptureSink::new();
    s.print("on");
    s.set_buffer_mode(false);
    s.print("off");
    s.print_styled("OFF", 0x02);
    s.set_buffer_mode(true);
    s.print("on again");
    let (text, runs) = s.take_styled();
    assert_eq!(text, "onoffOFFon again");
    let flags: Vec<(usize, bool)> = runs.iter().map(|r| (r.0, r.7)).collect();
    assert_eq!(flags, vec![(2, false), (3, true), (3, true), (8, false)]);
}

#[test]
fn interleave_story_elems_splits_at_line_starts_and_keeps_runs_synced() {
    let text = "first line\nsecond line";
    let runs = vec![run(text.chars().count(), 2)];
    let elems = interleave_story_elems(
        text,
        &runs,
        vec![(115, picture(ImageAlign::MarginLeft, Some(56)))],
        100,
        None,
    );
    assert_eq!(elems.len(), 3, "Text, Image, Text");
    let TranscriptElem::Text { text: t0, runs: r0 } = &elems[0] else {
        panic!("elem 0 is Text")
    };
    assert_eq!(t0, "first line", "the element boundary is the break");
    assert_eq!(r0.iter().map(|r| r.0).sum::<usize>(), 10, "runs cover exactly the chunk");
    assert!(matches!(&elems[1], TranscriptElem::Image(i) if i.margin_px == Some(56)));
    let TranscriptElem::Text { text: t2, runs: r2 } = &elems[2] else {
        panic!("elem 2 is Text")
    };
    assert_eq!(t2, "second line");
    assert_eq!(r2.iter().map(|r| r.0).sum::<usize>(), 11, "tail runs cover the tail");
}

#[test]
fn interleave_story_elems_at_start_needs_no_split() {
    let elems = interleave_story_elems(
        "story text",
        &vec![],
        vec![(0, picture(ImageAlign::MarginLeft, None))],
        0,
        None,
    );
    assert_eq!(elems.len(), 2, "Image then Text");
    assert!(matches!(&elems[0], TranscriptElem::Image(_)));
    assert!(matches!(&elems[1], TranscriptElem::Text { text, .. } if text == "story text"));
}

#[test]
fn content_art_shogun_title_splash_is_content() {
    assert!(is_content_art(320, 200, 320, 200));
}

#[test]
fn win0_ship_splash_is_inline_but_dropcap_stays_margin() {
    let noma = |iw, ih, sw: u32, sh| win0_pic_align(iw, ih, sw, sh, 1, 0, 0, sw as u16);
    assert_eq!(noma(320, 200, 320, 200), ImageAlign::InlineUp, "ship splash is inline");
    assert_eq!(noma(288, 176, 320, 200), ImageAlign::InlineUp, "big illustration is inline");
    assert_eq!(noma(24, 32, 320, 200), ImageAlign::MarginLeft, "small drop-cap stays margin");
    assert_eq!(noma(40, 48, 320, 200), ImageAlign::MarginLeft, "small icon stays margin");
}

#[test]
fn win0_shogun_opening_is_a_right_margin_float() {
    assert_eq!(
        win0_pic_align(320, 368, 640, 400, 229, 2, 328, 548),
        ImageAlign::MarginRight,
        "right-margin picture floats right with prose beside it"
    );
    assert_eq!(
        win0_pic_align(40, 48, 512, 400, 40, 36, 36, 512),
        ImageAlign::MarginLeft,
        "symmetric frame inset is not a right float"
    );
}

#[test]
fn content_art_shogun_side_border_is_frame() {
    assert!(!is_content_art(23, 200, 320, 200));
}

#[test]
fn content_art_zork0_compass_tiles_are_frame() {
    for dim in [9u32, 12, 16, 20, 24] {
        assert!(!is_content_art(dim, dim, 320, 200), "{dim}x{dim} tile must be frame art");
    }
}

#[test]
fn content_art_wide_short_band_is_frame() {
    assert!(!is_content_art(320, 20, 320, 200));
}

#[test]
fn content_art_room_illustration_is_content() {
    assert!(is_content_art(220, 120, 320, 200));
}

#[test]
fn clamp_runs_trims_to_char_len() {
    let runs = vec![run(2, 0), run(5, 0x02)];
    assert_eq!(clamp_runs(&runs, 4), vec![run(2, 0), run(2, 0x02)]);
}

#[test]
fn trim_elems_strips_trailing_prompt_from_last_text() {
    let raw = "You see a rock.\n> ";
    let kept = strip_read_prompt(raw).chars().count();
    let mut elems = vec![TranscriptElem::Text {
        text: raw.to_string(),
        runs: vec![run(raw.chars().count(), 0)],
    }];
    trim_elems_to_len(&mut elems, kept);
    let TranscriptElem::Text { text, runs } = &elems[0] else { panic!("expected Text") };
    assert_eq!(text, "You see a rock.");
    assert_eq!(runs.iter().map(|r| r.0).sum::<usize>(), kept);
}

#[test]
fn trim_elems_reaches_across_image_to_reach_length() {
    let mut elems = vec![
        TranscriptElem::Text { text: "foo\n".into(), runs: vec![run(4, 0)] },
        picture(ImageAlign::InlineUp, None),
        TranscriptElem::Text { text: ">".into(), runs: vec![run(1, 0)] },
    ];
    trim_elems_to_len(&mut elems, 3);
    let TranscriptElem::Text { text, .. } = &elems[0] else { panic!("expected Text") };
    assert_eq!(text, "foo");
    assert!(matches!(&elems[1], TranscriptElem::Image(_)));
    let TranscriptElem::Text { text, .. } = &elems[2] else { panic!("expected Text") };
    assert_eq!(text, "");
}

#[test]
fn skipping_and_clamping_split_a_list_of_runs() {
    let runs = vec![run(2, 0), run(5, 2), run(3, 4)];
    assert_eq!(skip_runs(&runs, 4), vec![run(3, 2), run(3, 4)]);
    assert_eq!(clamp_runs(&runs, 4), vec![run(2, 0), run(2, 2)]);
    assert_eq!(clamp_runs(&runs, 99), runs);
}

#[test]
fn a_clear_is_marked_where_it_fell() {
    let mut s = CaptureSink::new();
    s.print("gone");
    s.screen_cleared();
    s.print("kept");
    assert_eq!(s.take_cleared_at(), Some(4));
    assert_eq!(s.take_cleared_at(), None);
    assert_eq!(s.take_text(), "gonekept");
    assert_eq!(s.take_text(), "");
}

fn red() -> Rgba {
    Rgba { r: 255, g: 0, b: 0, a: 255 }
}

#[test]
fn scaled_art_repeats_each_pixel() {
    let mut src = Raster::new(2, 1);
    src.fill_rect(0, 0, 1, 1, red());
    let big = v6_scaled_art(&src, (V6_ART_SCALE, 3));
    assert_eq!((big.width, big.height), (4, 3));
    for y in 0..3u32 {
        assert_eq!(big.get(0, y), red());
        assert_eq!(big.get(1, y), red());
        assert_eq!(big.get(2, y).a, 0);
        assert_eq!(big.get(3, y).a, 0);
    }
}

#[test]
fn art_keeps_its_class_at_any_scale() {
    for (w, h) in [(320u32, 200u32), (23, 200), (220, 120), (320, 20), (16, 16)] {
        assert_eq!(is_content_art(w, h, 320, 200), is_content_art(2 * w, 2 * h, 640, 400));
    }
}

#[test]
fn marks_come_out_in_the_order_of_their_places() {
    let text = "one\ntwo\nthree";
    let runs = vec![run(13, 0)];
    let marks = vec![
        (9, picture(ImageAlign::MarginRight, None)),
        (5, picture(ImageAlign::MarginLeft, None)),
        (4, TranscriptElem::ScreenClear),
    ];
    let elems = interleave_story_elems(text, &runs, marks, 0, None);
    let words: Vec<String> = elems
        .iter()
        .map(|e| match e {
            TranscriptElem::Text { text, .. } => text.clone(),
            TranscriptElem::Image(i) => format!("{:?}", i.align),
            TranscriptElem::ScreenClear => "clear".to_string(),
        })
        .collect();
    assert_eq!(words, vec!["one", "MarginLeft", "clear", "two", "MarginRight", "three"]);
}

#[test]
fn frozen_text_is_left_out_and_the_rest_keeps_its_runs() {
    let text = "frozen\nlive";
    let runs = vec![run(7, 1), run(4, 2)];
    let elems =
        interleave_story_elems(text, &runs, vec![(7, TranscriptElem::ScreenClear)], 0, Some(7));
    assert_eq!(elems.len(), 2);
    assert!(matches!(&elems[0], TranscriptElem::ScreenClear));
    let TranscriptElem::Text { text, runs } = &elems[1] else { panic!("expected Text") };
    assert_eq!(text, "live");
    assert_eq!(*runs, vec![run(4, 2)]);
}
