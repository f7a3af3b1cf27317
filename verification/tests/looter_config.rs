use desert_tooling::looter::config::{never_forge_pickup, parse, Config, Family, Note, RawKey, WELL_BUCKET_RECORD_KEY};

/// The key names these tests use, with their virtual-key codes.
fn keys() -> Vec<(String, u16)> {
    [("F5", 0x74u16), ("F7", 0x76), ("F8", 0x77), ("F9", 0x78), ("F10", 0x79), ("F11", 0x7A)]
        .iter()
        .map(|(n, c)| (n.to_string(), *c))
        .collect()
}

fn sectioned(body: &str) -> String {
    format!("[Looter]\n{body}")
}

fn warnings(notes: &[Note]) -> Vec<String> {
    notes
        .iter()
        .filter_map(|n| match n {
            Note::Warning(w) => Some(w.clone()),
            Note::Raw(..) => None,
        })
        .collect()
}

fn raws(notes: &[Note]) -> Vec<(RawKey, String, String)> {
    notes
        .iter()
        .filter_map(|n| match n {
            Note::Raw(r, k, v) => Some((*r, k.clone(), v.clone())),
            Note::Warning(_) => None,
        })
        .collect()
}

#[test]
fn looter_parses_and_warns() {
    let (c, n) = parse("; c\n[Looter]\nEnabled=0\nDebug=1\nLogReceived=1\nScanRange=25.5\nGatherRange=4\nAutoGather=1\nGatherInterval=250\nNodeCooldown=5\nKeyToggle=F5\nKeyScan=nope\nKeyGather=F8\nJunk=1\n", &keys());
    assert!(!c.enabled && c.debug && c.log_received && c.auto_gather);
    assert!(!Config::default().log_received);
    assert_eq!(c.key_toggle, 0x74);
    assert_eq!(c.key_scan, Config::default().key_scan);
    assert_eq!(c.key_gather, 0x77);
    assert_eq!(c.gather_interval_ms, 250);
    assert_eq!(c.node_cooldown_ms, Config::default().node_cooldown_ms);
    assert_eq!(
        warnings(&n),
        vec![
            "NodeCooldown: bad value \"5\" (100..60000 ms), keeping default".to_string(),
            "KeyScan: unknown key name \"nope\", keeping previous".to_string(),
            "unknown key \"Junk\"".to_string(),
        ]
    );
    assert_eq!(
        raws(&n),
        vec![
            (RawKey::ScanRange, "ScanRange".to_string(), "25.5".to_string()),
            (RawKey::GatherRange, "GatherRange".to_string(), "4".to_string()),
        ]
    );
    assert_eq!(n.len(), 5, "the notes keep file order");
}

#[test]
fn looter_family_switches_default_on_and_parse() {
    let d = Config::default();
    for f in [Family::Foraging, Family::Logging, Family::Mining, Family::Ore] {
        assert!(d.allows_family(f), "{f:?} should be on by default");
    }
    assert!(!d.allows_family(Family::Money), "Money is off until it is asked for");
    assert_eq!(WELL_BUCKET_RECORD_KEY, 1001081);
    assert!(never_forge_pickup(Some(WELL_BUCKET_RECORD_KEY), None));
    let (c, n) = parse(&sectioned("GatherForaging=1\nGatherLogging=0\nGatherMining=no\nGatherOre=on\n"), &keys());
    assert!(n.is_empty());
    assert!(c.allows_family(Family::Foraging) && !c.allows_family(Family::Logging));
    assert!(!c.allows_family(Family::Mining) && c.allows_family(Family::Ore));
    assert!(!c.allows_family(Family::Money));
    let (c, n) = parse(&sectioned("GatherMoney=1\n"), &keys());
    assert!(n.is_empty() && c.allows_family(Family::Money));
}

#[test]
fn looter_bugs_and_fish_are_independent_switches() {
    let d = Config::default();
    assert!(d.gather_bugs && d.gather_fish);
    let (c, n) = parse(&sectioned("GatherBugs=0\nGatherFish=1\n"), &keys());
    assert!(n.is_empty());
    assert!(!c.gather_bugs && c.gather_fish);
    let (c, _) = parse(&sectioned("GatherFish=off\nGatherBugs=on\n"), &keys());
    assert!(c.gather_bugs && !c.gather_fish);
}

#[test]
fn only_the_looter_section_is_read_by_the_looter() {
    let text = "[Gatherer]\nEnabled=0\nJunk=1\n[Looter]\nDebug=1\n[Overlay]\nEnabled=0\n";
    let (c, n) = parse(text, &keys());
    assert!(c.enabled, "the other sections' Enabled is not ours");
    assert!(c.debug);
    assert!(n.is_empty(), "keys of other sections are not warned about");
}

#[test]
fn looter_numbers_are_range_checked_and_bag_tab_reaches_auto() {
    let (c, n) = parse(&sectioned("SurveyLines=15\nStackLimit=2000000\nBagTab=x\nGatherInterval=60001\n"), &keys());
    assert_eq!((c.survey_lines, c.stack_limit, c.bag_tab, c.gather_interval_ms), (200, 999, Some(1), 500));
    assert_eq!(
        warnings(&n),
        vec![
            "SurveyLines: bad value \"15\", keeping 200".to_string(),
            "StackLimit: bad value \"2000000\", keeping 999".to_string(),
            "BagTab: bad value \"x\", keeping auto".to_string(),
            "GatherInterval: bad value \"60001\" (100..60000 ms), keeping default".to_string(),
        ]
    );
    let (c, n) = parse(&sectioned("SurveyLines=2000\nStackLimit=10\nBagTab=-1\nNodeCooldown=100\n"), &keys());
    assert!(n.is_empty());
    assert_eq!((c.survey_lines, c.stack_limit, c.bag_tab, c.node_cooldown_ms), (2000, 10, None, 100));
    let (c, _) = parse(&sectioned("BagTab=3\n"), &keys());
    assert_eq!(c.bag_tab, Some(3));
    let (_, n) = parse(&sectioned("BagTab=40000\n"), &keys());
    assert_eq!(warnings(&n).len(), 1, "out of i16 range is a bad value");
    let (_, n) = parse(&sectioned("nonsense line\n"), &keys());
    assert_eq!(warnings(&n).len(), 1, "a bad line is reported");
}

use desert_tooling::looter::schema::schema;
use desert_tooling::schema::FieldKind;

#[test]
fn the_schema_defaults_parse_back_to_the_default_config() {
    let s = schema();
    assert_eq!((s.title.as_str(), s.ini.as_str(), s.ini_section.as_str(), s.order), ("Desert Looter", "DesertTooling.ini", "Looter", 10));
    let mut text = String::from("[Looter]\n");
    for f in &s.fields {
        let v = match &f.kind {
            FieldKind::Bool { default } => if *default { "1".to_string() } else { "0".to_string() },
            FieldKind::Int { default, .. } => default.to_string(),
            FieldKind::Float { default, .. } => default.clone(),
            FieldKind::Key { default } => default.clone(),
        };
        text.push_str(&format!("{}={}\n", f.key, v));
    }
    let (c, notes) = parse(&text, &keys());
    assert_eq!(c, Config::default());
    assert!(warnings(&notes).is_empty(), "{:?}", warnings(&notes));
    assert_eq!(raws(&notes).len(), 2, "the two decimals");
}

#[test]
fn every_preset_sets_the_four_families_and_ground_items() {
    let s = schema();
    assert_eq!(s.presets.len(), 4);
    for p in &s.presets {
        let names: Vec<&str> = p.set.iter().map(|(k, _)| k.as_str()).collect();
        assert_eq!(names, vec!["GatherForaging", "GatherLogging", "GatherMining", "GatherOre", "GatherItems"]);
        let (c, n) = parse(&format!(
            "[Looter]\n{}",
            p.set.iter().map(|(k, v)| format!("{k}={v}\n")).collect::<String>()
        ), &keys());
        assert!(n.is_empty());
        assert!(c.gather_items);
    }
    let rock = &s.presets[3];
    assert_eq!(rock.label, "Rock and ore only");
    let (c, _) = parse(&format!("[Looter]\n{}", rock.set.iter().map(|(k, v)| format!("{k}={v}\n")).collect::<String>()), &keys());
    assert!(!c.gather_foraging && !c.gather_logging && c.gather_mining && c.gather_ore);
}
