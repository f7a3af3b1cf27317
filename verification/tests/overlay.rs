use desert_tooling::ini::{lines_in_section, Line};
use desert_tooling::overlay::config::{parse as parse_overlay, ColorSpace, Config as OverlayConfig, Note as OverlayNote, RawKey as OverlayRaw};
use desert_tooling::overlay::cursor::{ClipAction, CursorGate, SetPosAction};
use desert_tooling::overlay::dynmodel::{i32_of, option_index, FileState};
use desert_tooling::overlay::model::{GathererModel, IniModel};
use desert_tooling::overlay::presets::{Preset, ALL};
use desert_tooling::overlay::rewrite::{rewrite, temp_path};
use desert_tooling::overlay::store::{Flushed, Store};

fn up(pairs: &[(&'static str, &str)]) -> Vec<(&'static str, String)> {
    pairs.iter().map(|(k, v)| (*k, (*v).to_string())).collect()
}

const SHARED: &str = "\
; Desert Tooling
[Looter]
; why Enabled matters
Enabled=1
Debug=0
GatherOre=1

[Gatherer]
Enabled=1
Foraging=2

[Overlay]
Enabled=1
Debug=0
Theme=banner
";

fn read(text: &str, section: &str) -> Vec<(String, String)> {
    lines_in_section(text.as_bytes(), section.as_bytes())
        .into_iter()
        .filter_map(|l| match l {
            Line::Pair(k, v) => Some((String::from_utf8(k).unwrap(), String::from_utf8(v).unwrap())),
            Line::Bad(_) => None,
        })
        .collect()
}

fn value(text: &str, section: &str, key: &str) -> Option<String> {
    read(text, section).into_iter().rev().find(|(k, _)| k.eq_ignore_ascii_case(key)).map(|(_, v)| v)
}

#[test]
fn a_write_lands_in_its_own_section_and_nowhere_else() {
    let after = rewrite(SHARED, "Gatherer", &up(&[("Enabled", "0"), ("Foraging", "5")]));
    assert_eq!(value(&after, "Gatherer", "Enabled").as_deref(), Some("0"));
    assert_eq!(value(&after, "Gatherer", "Foraging").as_deref(), Some("5"));
    assert_eq!(value(&after, "Looter", "Enabled").as_deref(), Some("1"), "the looter is untouched");
    assert_eq!(value(&after, "Overlay", "Enabled").as_deref(), Some("1"), "so is the overlay");
    assert_eq!(read(&after, "Looter"), read(SHARED, "Looter"));
    assert_eq!(read(&after, "Overlay"), read(SHARED, "Overlay"));
}

#[test]
fn every_section_can_be_written_in_turn_without_disturbing_the_others() {
    let mut text = SHARED.to_string();
    for (section, key) in [("Looter", "Debug"), ("Gatherer", "Enabled"), ("Overlay", "Debug")] {
        text = rewrite(&text, section, &up(&[(key, "1")]));
    }
    assert_eq!(value(&text, "Looter", "Debug").as_deref(), Some("1"));
    assert_eq!(value(&text, "Looter", "Enabled").as_deref(), Some("1"));
    assert_eq!(value(&text, "Gatherer", "Enabled").as_deref(), Some("1"));
    assert_eq!(value(&text, "Overlay", "Debug").as_deref(), Some("1"));
    assert_eq!(value(&text, "Overlay", "Enabled").as_deref(), Some("1"));
    assert_eq!(value(&text, "Gatherer", "Foraging").as_deref(), Some("2"));
    assert!(text.contains("; why Enabled matters"), "the comments are still there");
}

#[test]
fn a_key_missing_from_its_section_is_inserted_under_that_header() {
    let after = rewrite(SHARED, "Gatherer", &up(&[("Fish", "3")]));
    assert_eq!(value(&after, "Gatherer", "Fish").as_deref(), Some("3"));
    assert_eq!(value(&after, "Looter", "Fish"), None, "it did not land in the looter");
    assert_eq!(value(&after, "Overlay", "Fish"), None, "nor at the end of the file");
    assert_eq!(
        after,
        "; Desert Tooling\n[Looter]\n; why Enabled matters\nEnabled=1\nDebug=0\nGatherOre=1\n\n\
         [Gatherer]\nEnabled=1\nForaging=2\nFish=3\n\n\
         [Overlay]\nEnabled=1\nDebug=0\nTheme=banner\n"
    );
}

#[test]
fn a_key_missing_from_the_last_section_stays_inside_it() {
    let after = rewrite(SHARED, "Overlay", &up(&[("Scale", "1.5")]));
    assert_eq!(value(&after, "Overlay", "Scale").as_deref(), Some("1.5"));
    assert!(after.ends_with("Theme=banner\nScale=1.5\n"), "{after}");
}

#[test]
fn a_section_the_file_does_not_have_is_appended_with_its_header() {
    let after = rewrite(SHARED, "Gatherer2", &up(&[("Enabled", "0")]));
    assert_eq!(value(&after, "Gatherer2", "Enabled").as_deref(), Some("0"));
    assert_eq!(value(&after, "Gatherer", "Enabled").as_deref(), Some("1"));
    assert!(after.ends_with("\n[Gatherer2]\nEnabled=0\n"), "{after}");
}

#[test]
fn a_key_before_any_header_is_not_mistaken_for_ours() {
    let before = "Enabled=1\nDebug=1\n\n[Overlay]\nEnabled=1\n";
    let after = rewrite(before, "Overlay", &up(&[("Enabled", "0"), ("Debug", "1")]));
    assert!(after.starts_with("Enabled=1\nDebug=1\n"), "the orphan lines are untouched: {after}");
    assert_eq!(value(&after, "Overlay", "Enabled").as_deref(), Some("0"));
    assert_eq!(value(&after, "Overlay", "Debug").as_deref(), Some("1"), "inserted, not stolen");
    assert!(after.ends_with("[Overlay]\nEnabled=0\nDebug=1\n"), "{after}");
}

#[test]
fn the_sections_may_come_in_any_order() {
    let before = "[Overlay]\nEnabled=1\n\n[Gatherer]\nEnabled=1\n\n[Looter]\nEnabled=1\n";
    let after = rewrite(before, "Looter", &up(&[("Enabled", "0")]));
    assert_eq!(after, "[Overlay]\nEnabled=1\n\n[Gatherer]\nEnabled=1\n\n[Looter]\nEnabled=0\n");
}

#[test]
fn a_header_that_repeats_continues_the_same_section() {
    let before = "[Looter]\nEnabled=1\n\n[Gatherer]\nEnabled=1\n\n[Looter]\nDebug=1\n";
    let after = rewrite(before, "Looter", &up(&[("Enabled", "0"), ("Debug", "0"), ("New", "7")]));
    assert_eq!(after, "[Looter]\nEnabled=0\n\n[Gatherer]\nEnabled=1\n\n[Looter]\nDebug=0\nNew=7\n");
    assert_eq!(value(&after, "Gatherer", "Enabled").as_deref(), Some("1"));
}

#[test]
fn the_header_match_is_case_insensitive_and_ignores_spacing() {
    let before = "[ gatherer ]\nEnabled=1\n";
    let after = rewrite(before, "Gatherer", &up(&[("Enabled", "0")]));
    assert_eq!(after, "[ gatherer ]\nEnabled=0\n");
}

#[test]
fn a_comment_that_introduces_the_next_section_keeps_its_place() {
    let before = "[Looter]\nEnabled=1\n\n; the gatherer's own settings\n[Gatherer]\nEnabled=1\n";
    let after = rewrite(before, "Looter", &up(&[("Enabled", "1"), ("Debug", "0")]));
    assert_eq!(after, "[Looter]\nEnabled=1\nDebug=0\n\n; the gatherer's own settings\n[Gatherer]\nEnabled=1\n");
}

#[test]
fn replaces_a_value_and_keeps_everything_else() {
    let before = "; a comment\n[Looter]\n\n; why Enabled matters\nEnabled=1\nDebug=0\n";
    let after = rewrite(before, "Looter", &up(&[("Enabled", "0")]));
    assert_eq!(after, "; a comment\n[Looter]\n\n; why Enabled matters\nEnabled=0\nDebug=0\n");
}

#[test]
fn key_match_is_case_insensitive_and_the_spelling_is_kept() {
    let after = rewrite("[Looter]\nenabled=1\nGATHERITEMS=0\n", "Looter", &up(&[("Enabled", "0"), ("GatherItems", "1")]));
    assert_eq!(after, "[Looter]\nenabled=0\nGATHERITEMS=1\n", "the user's capitalisation survives");
}

#[test]
fn spacing_around_the_equals_is_preserved() {
    let after = rewrite("[Looter]\n  Enabled = 1  \nScanRange=40\n", "Looter", &up(&[("Enabled", "0"), ("ScanRange", "55")]));
    assert_eq!(after, "[Looter]\n  Enabled = 0\nScanRange=55\n");
}

#[test]
fn appends_after_a_file_with_no_trailing_newline() {
    let after = rewrite("[Looter]\nEnabled=1", "Looter", &up(&[("GatherOre", "0")]));
    assert_eq!(after, "[Looter]\nEnabled=1\nGatherOre=0\n");
}

#[test]
fn crlf_is_preserved_including_on_inserted_keys() {
    let before = "; c\r\n[Looter]\r\nEnabled=1\r\n";
    let after = rewrite(before, "Looter", &up(&[("Enabled", "0"), ("GatherOre", "1")]));
    assert_eq!(after, "; c\r\n[Looter]\r\nEnabled=0\r\nGatherOre=1\r\n");
}

#[test]
fn comments_that_look_like_pairs_are_left_alone() {
    let before = "[Looter]\n; Enabled=1 is the default\n# Enabled=9\nEnabled=1\n";
    let after = rewrite(before, "Looter", &up(&[("Enabled", "0")]));
    assert_eq!(after, "[Looter]\n; Enabled=1 is the default\n# Enabled=9\nEnabled=0\n");
}

#[test]
fn every_occurrence_of_a_duplicated_key_is_updated() {
    let after = rewrite("[Looter]\nEnabled=1\nDebug=0\nEnabled=1\n", "Looter", &up(&[("Enabled", "0")]));
    assert_eq!(after, "[Looter]\nEnabled=0\nDebug=0\nEnabled=0\n");
}

#[test]
fn a_key_the_overlay_does_not_own_is_untouched() {
    let before = "[Looter]\nBagTab=1\nKeyToggle=F10\nEnabled=1\n";
    let after = rewrite(before, "Looter", &up(&[("Enabled", "0")]));
    assert_eq!(after, "[Looter]\nBagTab=1\nKeyToggle=F10\nEnabled=0\n");
}

#[test]
fn an_empty_file_becomes_a_header_and_the_keys() {
    assert_eq!(rewrite("", "Overlay", &up(&[("Enabled", "1")])), "[Overlay]\nEnabled=1\n");
}

#[test]
fn rewriting_is_idempotent() {
    let updates = up(&[("Enabled", "0"), ("Ore", "5")]);
    let once = rewrite("[Looter]\n; c\nEnabled=1\n", "Looter", &updates);
    let twice = rewrite(&once, "Looter", &updates);
    assert_eq!(once, twice);
}

#[test]
fn temp_path_sits_beside_the_target() {
    assert_eq!(temp_path("/game/bin64/DesertTooling.ini"), "/game/bin64/DesertTooling.ini.tmp");
}

#[test]
fn non_ascii_text_survives_a_rewrite() {
    let before = "; café ☕\n[Looter]\nName=Jörg\nEnabled=1\n";
    let after = rewrite(before, "Looter", &up(&[("Enabled", "0"), ("Note", "naïve")]));
    assert_eq!(after, "; café ☕\n[Looter]\nName=Jörg\nEnabled=0\nNote=naïve\n");
}

// -- small pieces -------------------------------------------------------------

#[test]
fn i32_of_saturates_instead_of_wrapping() {
    assert_eq!(i32_of(0), 0);
    assert_eq!(i32_of(-5), -5);
    assert_eq!(i32_of(i64::from(i32::MAX)), i32::MAX);
    assert_eq!(i32_of(i64::from(i32::MIN)), i32::MIN);
    assert_eq!(i32_of(i64::MAX), i32::MAX);
    assert_eq!(i32_of(i64::MIN), i32::MIN);
    assert_eq!(i32_of(1 << 40), i32::MAX);
}

#[test]
fn an_option_is_found_ignoring_case_and_spacing() {
    let opts: Vec<String> = ["classic", "banner", "steel"].iter().map(|s| s.to_string()).collect();
    assert_eq!(option_index(&opts, " Banner "), 1);
    assert_eq!(option_index(&opts, "STEEL"), 2);
    assert_eq!(option_index(&opts, "nope"), 0);
    assert_eq!(option_index(&[], "x"), 0);
}

#[test]
fn only_a_failure_has_a_tooltip() {
    assert_eq!(FileState::Failed("cannot write x".to_string()).tooltip(), Some("cannot write x"));
    assert_eq!(FileState::Saving.tooltip(), None);
    assert_eq!(FileState::Saved.tooltip(), None);
}

#[test]
fn color_space_names_round_trip_in_any_case() {
    for (text, want) in [
        ("auto", ColorSpace::Auto),
        ("SDR", ColorSpace::Sdr),
        ("Hdr10", ColorSpace::Hdr10),
        (" scrgb ", ColorSpace::ScRgb),
    ] {
        assert_eq!(ColorSpace::parse(text), Some(want), "{text}");
        assert_eq!(ColorSpace::parse(want.as_str()), Some(want));
    }
    assert_eq!(ColorSpace::parse("hdr"), None);
    assert_eq!(ColorSpace::default(), ColorSpace::Auto);
}

#[test]
fn gatherer_defaults_match_the_plugin() {
    let m = GathererModel::default();
    assert!(m.enabled && !m.dry_run);
    assert_eq!((m.foraging, m.logging, m.mining, m.ore), (1, 1, 1, 1));
}

#[test]
fn gatherer_parses_its_keys() {
    let g = GathererModel::parse("[DesertGatherer]\nEnabled=1\nDryRun=1\nForaging=10\nOre=100\n");
    assert!(g.enabled && g.dry_run);
    assert_eq!((g.foraging, g.ore), (10, 100));
    assert_eq!((g.logging, g.mining), (1, 1), "untouched multipliers stay vanilla");
}

#[test]
fn gatherer_pairs_round_trip_through_parse() {
    for g in [
        GathererModel { enabled: false, dry_run: true, foraging: 7, logging: 2, mining: 3, ore: 4 },
        GathererModel { enabled: true, dry_run: false, foraging: 3, logging: 1, mining: 1, ore: 1 },
    ] {
        let text: String = g.pairs().iter().map(|(k, v)| format!("{k}={v}\n")).collect();
        assert_eq!(GathererModel::parse(&text), g);
        assert_eq!(GathererModel::parse(&format!("{}{text}", GathererModel::HEADER)), g);
    }
    let g = GathererModel::parse("Foraging=0\nLogging=101\nMining=x\n");
    assert_eq!((g.foraging, g.logging, g.mining), (1, 1, 1));
}

#[test]
fn labels_are_distinct() {
    let mut labels: Vec<_> = ALL.iter().map(|p| p.label()).collect();
    labels.sort_unstable();
    labels.dedup();
    assert_eq!(labels.len(), ALL.len());
}

#[test]
fn each_preset_names_its_families() {
    assert_eq!(Preset::Everything.families(), (true, true, true, true));
    assert_eq!(Preset::PlantsOnly.families(), (true, false, false, false));
    assert_eq!(Preset::WoodOnly.families(), (false, true, false, false));
    assert_eq!(Preset::RockAndOre.families(), (false, false, true, true));
    assert_eq!(Preset::RockAndOre.hint(), "Mining and Ore Nodes: rocks, veins, ore deposits.");
}

// -- store ----------------------------------------------------------------------

#[test]
fn flush_is_debounced_while_a_widget_is_held_and_immediate_on_release() {
    let mut s = Store::new("/d/DesertTooling.ini".to_string(), "DesertTooling.ini".to_string(), 0);
    assert!(!s.flush_due(0, true), "nothing to write");
    s.touch();
    assert!(!s.flush_due(0, false), "a held slider does not write on the same frame");
    assert!(s.flush_due(250, false));
    assert_eq!(s.write_ok(Some(1), Flushed::Created), Flushed::Created);
    assert!(!s.dirty());
    s.touch();
    assert!(s.flush_due(260, true), "release writes now");
}

#[test]
fn a_failed_write_backs_off_instead_of_retrying_every_frame() {
    let mut s = Store::new("/d/x.ini".to_string(), "x.ini".to_string(), 0);
    s.touch();
    assert!(s.flush_due(1000, true));
    assert_eq!(s.write_failed("access denied"), Flushed::Failed);
    assert_eq!(s.status(), Some("cannot write x.ini: access denied"));
    assert!(s.dirty(), "a failed write stays pending");
    assert!(!s.flush_due(1000, true), "released does not shortcut the backoff");
    assert!(!s.flush_due(1250, true), "nor does the normal interval");
    assert!(s.flush_due(3000, true));
}

#[test]
fn poll_waits_its_interval_and_never_clobbers_a_pending_edit() {
    let mut s = Store::new("/d/x.ini".to_string(), "x.ini".to_string(), 0);
    s.read_ok(Some(5));
    assert!(!s.poll(500), "no stat before the poll interval is up");
    assert!(s.poll(1000));
    assert!(!s.changed(Some(5)), "our own watermark is not an outside change");
    assert!(s.changed(Some(6)));
    assert!(!s.changed(None));
    s.touch();
    assert!(!s.poll(2000), "a dirty model is not overwritten from disk");
    assert_eq!(s.file_name(), "x.ini");
    assert_eq!(s.path(), "/d/x.ini");
}

// -- what a rewritten file reads back as --------------------------------------

/// Every line the reader hands a parser from one section, bad lines included.
fn all_lines(text: &str, section: &str) -> Vec<String> {
    lines_in_section(text.as_bytes(), section.as_bytes())
        .into_iter()
        .map(|l| match l {
            Line::Pair(k, v) => {
                format!("pair {}={}", String::from_utf8(k).unwrap(), String::from_utf8(v).unwrap())
            }
            Line::Bad(w) => format!("bad {}", String::from_utf8(w).unwrap()),
        })
        .collect()
}

#[test]
fn other_sections_read_line_for_line_as_before() {
    let before = "top=1\n[A]\nx=1\nnot a pair\n[B]\ny=2\n[ a ]\nz=3";
    let after = rewrite(before, "B", &up(&[("y", "9"), ("w", "4")]));
    assert_eq!(all_lines(&after, "A"), all_lines(before, "A"));
    assert_eq!(all_lines(&after, "A"), vec!["pair x=1", "bad no '=' in \"not a pair\"", "pair z=3"]);
    assert_eq!(all_lines(&after, "B"), vec!["pair y=9", "pair w=4"]);
    assert_eq!(after, "top=1\n[A]\nx=1\nnot a pair\n[B]\ny=9\nw=4\n[ a ]\nz=3");
}

#[test]
fn a_written_key_reads_back_as_its_value_and_the_rest_as_before() {
    let before = "[S]\nk = old\nother=1\nk=older\n";
    let after = rewrite(before, "S", &up(&[("K", "new  "), ("fresh", "3")]));
    assert_eq!(value(&after, "S", "k").as_deref(), Some("new"), "the reader trims values");
    assert_eq!(value(&after, "S", "FRESH").as_deref(), Some("3"));
    assert_eq!(value(&after, "S", "other").as_deref(), Some("1"));
    assert_eq!(value(&after, "S", "absent"), None);
    assert_eq!(after, "[S]\nk = new  \nother=1\nk=new  \nfresh=3\n");
}

#[test]
fn a_bare_carriage_return_before_a_new_line_reads_the_same() {
    // The file ends in `\r` with no `\n`: the inserted key gives that line a
    // terminator, and the reader still sees the same value there.
    let before = "[S]\nx=1\r";
    let after = rewrite(before, "S", &up(&[("y", "2")]));
    assert_eq!(after, "[S]\nx=1\r\ny=2\n");
    assert_eq!(value(&after, "S", "x").as_deref(), Some("1"));
    assert_eq!(value(&after, "S", "y").as_deref(), Some("2"));
    assert_eq!(rewrite(&after, "S", &up(&[("y", "2")])), after);
}

#[test]
fn a_second_write_changes_nothing_in_a_crlf_file_with_a_new_section() {
    let updates = up(&[("a", "5"), ("c", "")]);
    let once = rewrite("pre\r\n[S]\r\na=1\r\nb=2", "T", &updates);
    assert_eq!(once, "pre\r\n[S]\r\na=1\r\nb=2\r\n\r\n[T]\r\na=5\r\nc=\r\n");
    assert_eq!(rewrite(&once, "T", &updates), once);
}

#[test]
fn the_lines_before_the_first_header_come_out_unchanged() {
    let after = rewrite("; note\nstray=1\n[S]\na=1\n", "S", &up(&[("stray", "2")]));
    assert!(after.starts_with("; note\nstray=1\n"), "{after}");
    assert_eq!(rewrite("stray=1", "S", &up(&[("a", "1")])), "stray=1\n\n[S]\na=1\n");
}

#[test]
fn the_pointer_is_released_only_while_the_menu_is_open() {
    let mut g = CursorGate::new();
    assert_eq!(g.clip(true), ClipAction::PassRect);
    assert_eq!(g.set_pos(true), SetPosAction::Forward);
    g.set_menu_open(true);
    assert_eq!(g.clip(true), ClipAction::Release);
    assert_eq!(g.set_pos(true), SetPosAction::Swallow);
    assert_eq!(g.clip(false), ClipAction::Fail, "nothing to call through to");
    g.set_menu_open(false);
    assert_eq!(g.set_pos(false), SetPosAction::Swallow, "no trampoline: claim success, move nothing");
}

#[test]
fn the_footer_label_names_the_file_or_cuts_the_failure() {
    assert_eq!(FileState::Saved.label("DesertTooling.ini"), "DesertTooling.ini \u{b7} saved");
    assert_eq!(FileState::Saving.label("DesertTooling.ini"), "DesertTooling.ini \u{b7} saving\u{2026}");
    let status = "cannot write DesertTooling.ini: Permission denied (os error 13)";
    let label = FileState::Failed(status.to_string()).label("DesertTooling.ini");
    assert!(label.starts_with("cannot write DesertTooling.ini"));
    assert!(label.ends_with('\u{2026}'));
    assert_eq!(label.chars().count(), 45, "44 characters and the ellipsis");
    assert_eq!(FileState::Failed("cannot read it".to_string()).label("DesertTooling.ini"), "cannot read it");
    let wide = "\u{e9}".repeat(44);
    assert_eq!(FileState::Failed(wide.clone()).label("x"), wide, "exactly 44 characters is not cut");
    let wider = "\u{e9}".repeat(45);
    assert_eq!(FileState::Failed(wider).label("x"), format!("{wide}\u{2026}"), "counted in characters, not bytes");
}

#[test]
fn color_space_takes_the_four_names_in_any_case() {
    for (text, want) in [
        ("auto", ColorSpace::Auto),
        ("SDR", ColorSpace::Sdr),
        ("Hdr10", ColorSpace::Hdr10),
        (" scrgb ", ColorSpace::ScRgb),
    ] {
        let (c, w) = parse_overlay(&format!("ColorSpace={text}\n"), &menu_keys());
        assert_eq!(c.color_space, want, "{text}");
        assert!(w.is_empty(), "{text}");
        assert_eq!(ColorSpace::parse(want.as_str()), Some(want));
    }
}

#[test]
fn an_unknown_color_space_is_auto_with_a_warning() {
    let (c, w) = parse_overlay("ColorSpace=hdr\n", &menu_keys());
    assert_eq!(c.color_space, ColorSpace::Auto);
    assert_eq!(w.len(), 1);
    match &w[0] {
        OverlayNote::Warning(s) => {
            assert!(s.starts_with("ColorSpace: unknown value"), "{s}");
            assert_eq!(s, "ColorSpace: unknown value \"hdr\" (auto, sdr, hdr10, scrgb), keeping auto");
        },
        OverlayNote::Raw(..) => panic!("a warning was expected"),
    }
}

/// The key names these tests use, with their virtual-key codes.
fn menu_keys() -> Vec<(String, u16)> {
    [("Insert", 0x2Du16), ("Home", 0x24), ("F4", 0x73)].iter().map(|(n, c)| (n.to_string(), *c)).collect()
}

fn overlay_warnings(notes: &[OverlayNote]) -> Vec<String> {
    notes
        .iter()
        .filter_map(|n| match n {
            OverlayNote::Warning(w) => Some(w.clone()),
            OverlayNote::Raw(..) => None,
        })
        .collect()
}

#[test]
fn overlay_parses_every_key() {
    let (c, w) = parse_overlay(
        "; c\n[DesertOverlay]\nEnabled=0\nDebug=1\nKeyMenu=F4\nShowOnStart=yes\nScale=1.5\nHdrBrightness=400\nColorSpace=hdr10\n",
        &menu_keys(),
    );
    assert!(!c.enabled && c.debug && c.show_on_start);
    assert_eq!(c.key_menu, 0x73);
    assert_eq!(c.color_space, ColorSpace::Hdr10);
    assert!(overlay_warnings(&w).is_empty());
    assert_eq!(w.len(), 2, "the scale and the brightness come back raw");
}

#[test]
fn overlay_case_insensitive_keys() {
    let (c, w) = parse_overlay("ENABLED=0\nkeymenu=home\n", &menu_keys());
    assert!(!c.enabled);
    assert_eq!(c.key_menu, 0x24);
    assert!(w.is_empty());
}

#[test]
fn overlay_bad_values_keep_the_default_and_warn() {
    let (c, w) = parse_overlay("KeyMenu=nope\nJunk=1\nnoequals\n", &menu_keys());
    assert_eq!(c.key_menu, OverlayConfig::default().key_menu);
    let w = overlay_warnings(&w);
    assert_eq!(w.len(), 3, "{w:?}");
    assert!(w[0].starts_with("KeyMenu: unknown key name"), "{w:?}");
    assert_eq!(w[0], "KeyMenu: unknown key name \"nope\", keeping 0x2D");
}

#[test]
fn the_overlay_switches_parse_and_the_decimals_come_back_raw() {
    let (c, w) = parse_overlay("; c\n[DesertOverlay]\nENABLED=0\nDebug=1\nKeyMenu=F4\nShowOnStart=yes\nScale=1.5\nHdrBrightness=400\nColorSpace=hdr10\nJunk=1\n", &menu_keys());
    assert!(!c.enabled && c.debug && c.show_on_start);
    assert_eq!(c.color_space, ColorSpace::Hdr10);
    assert_eq!(c.key_menu, 0x73);
    let raws: Vec<_> = w
        .iter()
        .filter_map(|n| match n {
            OverlayNote::Raw(r, k, v) => Some((*r, k.clone(), v.clone())),
            OverlayNote::Warning(_) => None,
        })
        .collect();
    assert_eq!(
        raws,
        vec![
            (OverlayRaw::Scale, "Scale".to_string(), "1.5".to_string()),
            (OverlayRaw::HdrBrightness, "HdrBrightness".to_string(), "400".to_string()),
        ]
    );
    assert_eq!(w.len(), 3, "and one warning for the unknown key");
}
