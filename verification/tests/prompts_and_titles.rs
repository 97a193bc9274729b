use fiction_session::prompt::{ends_with_read_prompt, strip_read_prompt};
use fiction_session::titles::{
    format_pane_title, normalize_ident, resolve_title, title_from_banner,
};

#[test]
fn title_from_banner_anchors_on_boilerplate() {
    assert_eq!(
        title_from_banner("\n\nZORK I: The Great Underground Empire\nCopyright...\n> ").as_deref(),
        Some("ZORK I: The Great Underground Empire")
    );
    assert_eq!(
        title_from_banner("SPELLBREAKER\nAn Interactive Fantasy\nCopyright (c) 1985").as_deref(),
        Some("SPELLBREAKER")
    );
    assert_eq!(
        title_from_banner("Copyright (C) 1987 Infocom, Inc.\nType RESTORE...").as_deref(),
        None
    );
    assert_eq!(
        title_from_banner("\"Tomorrow never yet\nOn any human being rose or set.").as_deref(),
        None
    );
    assert_eq!(title_from_banner("\n\n").as_deref(), None);
}

#[test]
fn resolve_title_override_then_metadata_then_banner_then_filename() {
    assert_eq!(
        resolve_title(Some("My Game"), Some("Bureaucracy"), Some("X"), "/x/zork1.z3"),
        "My Game"
    );
    assert_eq!(resolve_title(None, Some("Bureaucracy"), None, "/x/bureaucr.z4"), "Bureaucracy");
    assert_eq!(resolve_title(None, None, Some("ZORK I"), "/x/zork1.z3"), "ZORK I");
    assert_eq!(resolve_title(None, None, None, "/x/zork1.z3"), "zork1");
}

#[test]
fn resolve_title_prefers_metadata_over_an_unparseable_banner() {
    let anchor = "\n\n\n                             A N C H O R H E A D\n\n\n               [Press 'R' to restore; any other key to begin]\n";
    assert_eq!(title_from_banner(anchor), None, "no boilerplate to anchor on");
    assert_eq!(
        resolve_title(
            None,
            Some("Anchorhead"),
            title_from_banner(anchor).as_deref(),
            "/x/anchor.z8"
        ),
        "Anchorhead"
    );
    assert_eq!(resolve_title(None, None, None, "/x/anchor.z8"), "anchor");
    assert_eq!(resolve_title(None, Some("Photopia"), None, "/x/photo201.blb"), "Photopia");
}

#[test]
fn format_pane_title_same_name_omits_parenthetical() {
    assert_eq!(format_pane_title("Bureaucracy", "bureaucracy.z4", false), "Bureaucracy");
    assert_eq!(format_pane_title("Zork I", "zork-i.z3", false), "Zork I");
}

#[test]
fn format_pane_title_differing_name_appends_filename() {
    assert_eq!(
        format_pane_title("Journey: The Quest Begins", "journey-r83-s890706.z6", false),
        "Journey: The Quest Begins (journey-r83-s890706.z6)"
    );
    assert_eq!(format_pane_title("Zork I", "zork1.z3", false), "Zork I (zork1.z3)");
    assert_eq!(format_pane_title("Photopia", "photo201.blb", false), "Photopia (photo201.blb)");
}

#[test]
fn format_pane_title_always_names_a_disk_image() {
    for (name, file) in [
        ("Arthur: The Quest for Excalibur", "Arthur - The Quest for Excalibur.adf"),
        ("Journey: The Quest Begins", "Journey - The Quest Begins.adf"),
    ] {
        assert_eq!(
            normalize_ident(name),
            normalize_ident(file.trim_end_matches(".adf")),
            "{file}: premise: name and stem normalize alike"
        );
        assert_eq!(format_pane_title(name, file, true), format!("{name} ({file})"));
    }
    assert_eq!(format_pane_title("Journey", "journey.z6", false), "Journey");
}

#[test]
fn format_pane_title_unknown_name_falls_back_to_filename() {
    assert_eq!(format_pane_title("", "mystery.z5", false), "mystery.z5");
    assert_eq!(format_pane_title("", "Shogun.adf", true), "Shogun.adf");
}

#[test]
fn strip_prompt_removes_trailing_gt_on_own_line() {
    assert_eq!(strip_read_prompt("You are in a room.\n\n>"), "You are in a room.");
}

#[test]
fn strip_prompt_removes_trailing_gt_with_trailing_space() {
    assert_eq!(strip_read_prompt("You are in a room.\n> "), "You are in a room.");
}

#[test]
fn strip_prompt_does_not_remove_mid_text_gt() {
    let s = "Your score is > 10.\nYou are here.";
    assert_eq!(strip_read_prompt(s), s);
}

#[test]
fn strip_prompt_does_not_remove_gt_mid_line() {
    let s = "Go east, then go >";
    assert_eq!(strip_read_prompt(s), s);
}

#[test]
fn strip_prompt_empty_input_unchanged() {
    assert_eq!(strip_read_prompt(""), "");
}

#[test]
fn strip_prompt_sole_gt_removed() {
    assert_eq!(strip_read_prompt(">"), "");
}

#[test]
fn strip_prompt_gt_with_only_whitespace_before() {
    assert_eq!(strip_read_prompt("\n>"), "");
}

#[test]
fn strip_prompt_no_trailing_prompt_unchanged() {
    let s = "You are in a maze of twisty passages, all alike.";
    assert_eq!(strip_read_prompt(s), s);
}

#[test]
fn a_prompt_is_there_exactly_when_stripping_shortens() {
    for s in ["a\n>", "a\n> ", ">", "\n>", "go >", "", "a\n", "x > y\n"] {
        let stripped = strip_read_prompt(s);
        assert!(s.starts_with(stripped));
        let written = s.trim_end_matches(|c: char| c.is_ascii_whitespace());
        assert_eq!(ends_with_read_prompt(s), stripped.len() < written.len(), "{s:?}");
    }
}

#[test]
fn a_banner_title_is_cut_to_forty_characters() {
    let long = "A".repeat(60);
    let banner = format!("{long}\nCopyright 1985");
    assert_eq!(title_from_banner(&banner), Some("A".repeat(40)));
}

#[test]
fn a_name_is_lowered_before_it_is_judged() {
    assert_eq!(title_from_banner("Moonmist\nCOPYRIGHT 1986").as_deref(), Some("Moonmist"));
    assert_eq!(title_from_banner("Moonmist\ncopyright 1986").as_deref(), Some("Moonmist"));
}

#[test]
fn the_stem_loses_only_the_last_extension() {
    assert_eq!(resolve_title(None, None, None, "a/b.tar.gz"), "b.tar");
    assert_eq!(resolve_title(None, None, None, "plain"), "plain");
}

#[test]
fn a_path_without_a_name_at_its_end_has_no_stem() {
    for path in ["", "/", ".", "..", "./", "/.", "a/..", "a/../", "./."] {
        assert_eq!(resolve_title(None, None, None, path), "", "{path:?}");
        assert_eq!(resolve_title(None, None, Some("ZORK I"), path), "ZORK I");
    }
    assert_eq!(format_pane_title("Zork", "..", false), "Zork (..)");
    assert_eq!(format_pane_title("...", "..", false), "...", "neither holds a letter");
}

#[test]
fn slashes_and_dots_at_the_end_of_a_path_do_not_count() {
    assert_eq!(resolve_title(None, None, None, "games/zork1.z3/"), "zork1");
    assert_eq!(resolve_title(None, None, None, "games/zork1.z3/."), "zork1");
    assert_eq!(resolve_title(None, None, None, "zork1.z3/.//./"), "zork1");
    assert_eq!(resolve_title(None, None, None, "games/"), "games");
}

#[test]
fn a_colon_in_a_name_is_part_of_it() {
    assert_eq!(format_pane_title("Zork: I", "zork:i.z3", false), "Zork: I");
    assert_eq!(resolve_title(None, None, None, "x/a:b.z3"), "a:b");
    assert_eq!(resolve_title(None, None, None, "1:b.z3"), "1:b");
}
