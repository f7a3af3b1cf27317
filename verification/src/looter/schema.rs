//! The `[Looter]` section as the menu draws it. Every default is the
//! parser's default and every range is the one `parse` enforces.

use vstd::prelude::*;

use crate::looter::config::{
    default_spec, Config, MS_MAX, MS_MIN, STACK_LIMIT_MAX, STACK_LIMIT_MIN, SURVEY_LINES_MAX, SURVEY_LINES_MIN,
};
use crate::schema::{
    fields_view, pairs_view, presets_view, section_v, Field, FieldKind, FieldKindView, FieldView, Preset, PresetView, Section, SectionView,
};

verus! {

/// The top of `BagTab`'s menu input; a real character carries a handful of
/// tabs.
pub const BAG_TAB_MENU_MAX: i64 = 15;

/// The `[Looter]` section of the menu: every field in menu order with its
/// label, kind, default, range and help, and the preset buttons.
pub open spec fn looter_fields_spec() -> Seq<FieldView> {
    let d = default_spec();
    seq![
        FieldView { key: "Enabled"@, label: "Enabled"@, kind: FieldKindView::Bool { default: d.enabled }, heading: None, same_line: false, help: Some("Master switch. 0 = the plugin is idle: no gathering, no hotkeys, nothing logged."@) },
        FieldView { key: "AutoGather"@, label: "Auto gather"@, kind: FieldKindView::Bool { default: d.auto_gather }, heading: None, same_line: false, help: Some("1 = automatic gathering is on from the start (the toggle key flips it)."@) },
        FieldView { key: "GatherForaging"@, label: "Foraging"@, kind: FieldKindView::Bool { default: d.gather_foraging }, heading: Some("Gather families:"@), same_line: false, help: Some("Plants, fruit, berries, mushrooms, crops. Never the water well: taking its bucket with a forged pickup leaves the well empty for good, so the plugin refuses that one record whatever this is set to."@) },
        FieldView { key: "GatherLogging"@, label: "Logging"@, kind: FieldKindView::Bool { default: d.gather_logging }, heading: None, same_line: true, help: Some("Firewood cut from felled trees (firewood_*)."@) },
        FieldView { key: "GatherMining"@, label: "Mining"@, kind: FieldKindView::Bool { default: d.gather_mining }, heading: None, same_line: true, help: Some("The collect_mine family: mine_* rocks and veins, breakable stalactites."@) },
        FieldView { key: "GatherOre"@, label: "Ore"@, kind: FieldKindView::Bool { default: d.gather_ore }, heading: None, same_line: true, help: Some("The collect_ore family: ore_* deposits and sulfur stone, separate from Mining."@) },
        FieldView { key: "GatherMoney"@, label: "Money"@, kind: FieldKindView::Bool { default: d.gather_money }, heading: None, same_line: true, help: Some("0 by default. 1 = also pick up the coins lying in the world (the placed coin props). Untested in game: the pickup is forged the same way as at an ore chunk. This is the auto-loot switch; the amount is the [Gatherer] Money multiplier."@) },
        FieldView { key: "GatherItems"@, label: "Ground items"@, kind: FieldKindView::Bool { default: d.gather_items }, heading: None, same_line: false, help: Some("1 = also pick up basic items lying on the ground (ore chunks and other item_basic_* drops)."@) },
        FieldView { key: "GatherGear"@, label: "Dropped gear"@, kind: FieldKindView::Bool { default: d.gather_gear }, heading: None, same_line: true, help: Some("1 = dropped weapons and armour (item_basic_equip_*) are picked up too. Each one costs a bag slot."@) },
        FieldView { key: "GatherUnarmed"@, label: "Unarmed nodes"@, kind: FieldKindView::Bool { default: d.gather_unarmed }, heading: None, same_line: true, help: Some("1 = also target the nodes the game has not armed with interaction data, which is what lets auto mode mine a whole vein."@) },
        FieldView { key: "GatherBugs"@, label: "Catch insects"@, kind: FieldKindView::Bool { default: d.gather_bugs }, heading: None, same_line: false, help: Some("1 = catch insects within GatherRange; the game's steal check still applies."@) },
        FieldView { key: "GatherFish"@, label: "Catch fish"@, kind: FieldKindView::Bool { default: d.gather_fish }, heading: None, same_line: true, help: Some("1 = catch fish within GatherRange by hand, the same event as insects; the steal check still applies."@) },
        FieldView { key: "ScanRange"@, label: "Scan range"@, kind: FieldKindView::Float { default: "40"@, min: "1"@, max: "200"@, format: Some("%.0f m"@) }, heading: None, same_line: false, help: Some("Survey radius in game metres."@) },
        FieldView { key: "SurveyLines"@, label: "Survey lines"@, kind: FieldKindView::Int { default: d.survey_lines as i64, min: SURVEY_LINES_MIN as i64, max: SURVEY_LINES_MAX as i64, step: 16, slider: false, format: None }, heading: None, same_line: false, help: Some("How many actor lines one F11 survey prints. Gather nodes and items are listed first, so raising this only ever adds the less interesting actors; the survey says how many it cut."@) },
        FieldView { key: "GatherRange"@, label: "Gather range"@, kind: FieldKindView::Float { default: "6"@, min: "1"@, max: "50"@, format: Some("%.1f m"@) }, heading: None, same_line: false, help: Some("The gather key and auto mode pick the nearest node within this many metres. 6 m is confirmed to work."@) },
        FieldView { key: "GatherInterval"@, label: "Gather interval (ms)"@, kind: FieldKindView::Int { default: d.gather_interval_ms as i64, min: MS_MIN as i64, max: MS_MAX as i64, step: 50, slider: false, format: None }, heading: None, same_line: false, help: Some("Milliseconds between two automatic sends. Nodes and chunks vanish within about 100 ms of a send."@) },
        FieldView { key: "NodeCooldown"@, label: "Node cooldown (ms)"@, kind: FieldKindView::Int { default: d.node_cooldown_ms as i64, min: MS_MIN as i64, max: MS_MAX as i64, step: 500, slider: false, format: None }, heading: None, same_line: false, help: Some("After sending for a node, leave it alone this long before trying it again."@) },
        FieldView { key: "StackLimit"@, label: "Stack limit"@, kind: FieldKindView::Int { default: d.stack_limit as i64, min: STACK_LIMIT_MIN as i64, max: STACK_LIMIT_MAX as i64, step: 10, slider: false, format: None }, heading: None, same_line: false, help: Some("When the bag is full a node whose yield is already stacked is still gathered, unless the stack would pass this ceiling."@) },
        FieldView { key: "KeyToggle"@, label: "Toggle auto gather"@, kind: FieldKindView::Key { default: "F10"@ }, heading: Some("Keys:"@), same_line: false, help: Some("Turns automatic gathering on and off. Avoid keys the game already uses."@) },
        FieldView { key: "KeyScan"@, label: "Survey"@, kind: FieldKindView::Key { default: "F11"@ }, heading: None, same_line: false, help: Some("Writes the nodes and items in scan range to the log."@) },
        FieldView { key: "KeyGather"@, label: "Gather nearest"@, kind: FieldKindView::Key { default: "F9"@ }, heading: None, same_line: false, help: Some("Gather the nearest node: one node per press, whatever the auto state."@) },
        FieldView { key: "KeyRecord"@, label: "Record events (debug)"@, kind: FieldKindView::Key { default: "F7"@ }, heading: None, same_line: false, help: Some("Toggles recording of every event the game queues, capped at 300."@) },
        FieldView { key: "Debug"@, label: "Debug"@, kind: FieldKindView::Bool { default: d.debug }, heading: Some("Diagnostics:"@), same_line: false, help: Some("The very verbose survey: the first Survey press after this is on dumps hundreds of lines to the log. For working out why something is not picked up, not for playing."@) },
        FieldView { key: "LogReceived"@, label: "Log received items"@, kind: FieldKindView::Bool { default: d.log_received }, heading: None, same_line: true, help: Some("Logs every item the game hands the player as [recv] item <key> x<count>, whether or not this plugin caused it, capped at 500 a session. This is how a gathering yield is actually measured."@) },
        FieldView { key: "BagTab"@, label: "Bag tab"@, kind: FieldKindView::Int { default: 1i64, min: -1i64, max: BAG_TAB_MENU_MAX, step: 1, slider: false, format: None }, heading: None, same_line: false, help: Some("Which inventory tab counts as the bag for the full check. 1 is the right answer on build 25116796; -1 means auto, i.e. whichever tab has the largest capacity."@) },
    ]
}

pub open spec fn looter_presets_spec() -> Seq<PresetView> {
    seq![
        PresetView { label: "Everything"@, hint: Some("All four gather families, plus ground items."@), set: seq![("GatherForaging"@, "1"@), ("GatherLogging"@, "1"@), ("GatherMining"@, "1"@), ("GatherOre"@, "1"@), ("GatherItems"@, "1"@)] },
        PresetView { label: "Plants only"@, hint: Some("Foraging only: plants, fruit, berries, mushrooms, crops."@), set: seq![("GatherForaging"@, "1"@), ("GatherLogging"@, "0"@), ("GatherMining"@, "0"@), ("GatherOre"@, "0"@), ("GatherItems"@, "1"@)] },
        PresetView { label: "Wood only"@, hint: Some("Logging only: firewood from felled trees."@), set: seq![("GatherForaging"@, "0"@), ("GatherLogging"@, "1"@), ("GatherMining"@, "0"@), ("GatherOre"@, "0"@), ("GatherItems"@, "1"@)] },
        PresetView { label: "Rock and ore only"@, hint: Some("Mining and Ore Nodes: rocks, veins, ore deposits."@), set: seq![("GatherForaging"@, "0"@), ("GatherLogging"@, "0"@), ("GatherMining"@, "1"@), ("GatherOre"@, "1"@), ("GatherItems"@, "1"@)] },
    ]
}
pub open spec fn schema_spec() -> SectionView {
    SectionView {
        title: "Desert Looter"@,
        ini: "DesertTooling.ini"@,
        ini_section: "Looter"@,
        module: None,
        order: 10,
        notice: None,
        presets_label: Some("Presets (what auto-loot picks up):"@),
        presets: looter_presets_spec(),
        fields: looter_fields_spec(),
    }
}

fn looter_fields() -> (r: Vec<Field>)
    ensures
        fields_view(r@) == looter_fields_spec(),
{
    let d = Config::default();
    let mut v: Vec<Field> = Vec::new();
    v.push(Field { key: String::from_str("Enabled"), label: String::from_str("Enabled"), kind: FieldKind::Bool { default: d.enabled }, heading: None, same_line: false, help: Some(String::from_str("Master switch. 0 = the plugin is idle: no gathering, no hotkeys, nothing logged.")) });
    v.push(Field { key: String::from_str("AutoGather"), label: String::from_str("Auto gather"), kind: FieldKind::Bool { default: d.auto_gather }, heading: None, same_line: false, help: Some(String::from_str("1 = automatic gathering is on from the start (the toggle key flips it).")) });
    v.push(Field { key: String::from_str("GatherForaging"), label: String::from_str("Foraging"), kind: FieldKind::Bool { default: d.gather_foraging }, heading: Some(String::from_str("Gather families:")), same_line: false, help: Some(String::from_str("Plants, fruit, berries, mushrooms, crops. Never the water well: taking its bucket with a forged pickup leaves the well empty for good, so the plugin refuses that one record whatever this is set to.")) });
    v.push(Field { key: String::from_str("GatherLogging"), label: String::from_str("Logging"), kind: FieldKind::Bool { default: d.gather_logging }, heading: None, same_line: true, help: Some(String::from_str("Firewood cut from felled trees (firewood_*).")) });
    v.push(Field { key: String::from_str("GatherMining"), label: String::from_str("Mining"), kind: FieldKind::Bool { default: d.gather_mining }, heading: None, same_line: true, help: Some(String::from_str("The collect_mine family: mine_* rocks and veins, breakable stalactites.")) });
    v.push(Field { key: String::from_str("GatherOre"), label: String::from_str("Ore"), kind: FieldKind::Bool { default: d.gather_ore }, heading: None, same_line: true, help: Some(String::from_str("The collect_ore family: ore_* deposits and sulfur stone, separate from Mining.")) });
    v.push(Field { key: String::from_str("GatherMoney"), label: String::from_str("Money"), kind: FieldKind::Bool { default: d.gather_money }, heading: None, same_line: true, help: Some(String::from_str("0 by default. 1 = also pick up the coins lying in the world (the placed coin props). Untested in game: the pickup is forged the same way as at an ore chunk. This is the auto-loot switch; the amount is the [Gatherer] Money multiplier.")) });
    v.push(Field { key: String::from_str("GatherItems"), label: String::from_str("Ground items"), kind: FieldKind::Bool { default: d.gather_items }, heading: None, same_line: false, help: Some(String::from_str("1 = also pick up basic items lying on the ground (ore chunks and other item_basic_* drops).")) });
    v.push(Field { key: String::from_str("GatherGear"), label: String::from_str("Dropped gear"), kind: FieldKind::Bool { default: d.gather_gear }, heading: None, same_line: true, help: Some(String::from_str("1 = dropped weapons and armour (item_basic_equip_*) are picked up too. Each one costs a bag slot.")) });
    v.push(Field { key: String::from_str("GatherUnarmed"), label: String::from_str("Unarmed nodes"), kind: FieldKind::Bool { default: d.gather_unarmed }, heading: None, same_line: true, help: Some(String::from_str("1 = also target the nodes the game has not armed with interaction data, which is what lets auto mode mine a whole vein.")) });
    v.push(Field { key: String::from_str("GatherBugs"), label: String::from_str("Catch insects"), kind: FieldKind::Bool { default: d.gather_bugs }, heading: None, same_line: false, help: Some(String::from_str("1 = catch insects within GatherRange; the game's steal check still applies.")) });
    v.push(Field { key: String::from_str("GatherFish"), label: String::from_str("Catch fish"), kind: FieldKind::Bool { default: d.gather_fish }, heading: None, same_line: true, help: Some(String::from_str("1 = catch fish within GatherRange by hand, the same event as insects; the steal check still applies.")) });
    v.push(Field { key: String::from_str("ScanRange"), label: String::from_str("Scan range"), kind: FieldKind::Float { default: String::from_str("40"), min: String::from_str("1"), max: String::from_str("200"), format: Some(String::from_str("%.0f m")) }, heading: None, same_line: false, help: Some(String::from_str("Survey radius in game metres.")) });
    v.push(Field { key: String::from_str("SurveyLines"), label: String::from_str("Survey lines"), kind: FieldKind::Int { default: d.survey_lines as i64, min: SURVEY_LINES_MIN as i64, max: SURVEY_LINES_MAX as i64, step: 16, slider: false, format: None }, heading: None, same_line: false, help: Some(String::from_str("How many actor lines one F11 survey prints. Gather nodes and items are listed first, so raising this only ever adds the less interesting actors; the survey says how many it cut.")) });
    v.push(Field { key: String::from_str("GatherRange"), label: String::from_str("Gather range"), kind: FieldKind::Float { default: String::from_str("6"), min: String::from_str("1"), max: String::from_str("50"), format: Some(String::from_str("%.1f m")) }, heading: None, same_line: false, help: Some(String::from_str("The gather key and auto mode pick the nearest node within this many metres. 6 m is confirmed to work.")) });
    v.push(Field { key: String::from_str("GatherInterval"), label: String::from_str("Gather interval (ms)"), kind: FieldKind::Int { default: d.gather_interval_ms as i64, min: MS_MIN as i64, max: MS_MAX as i64, step: 50, slider: false, format: None }, heading: None, same_line: false, help: Some(String::from_str("Milliseconds between two automatic sends. Nodes and chunks vanish within about 100 ms of a send.")) });
    v.push(Field { key: String::from_str("NodeCooldown"), label: String::from_str("Node cooldown (ms)"), kind: FieldKind::Int { default: d.node_cooldown_ms as i64, min: MS_MIN as i64, max: MS_MAX as i64, step: 500, slider: false, format: None }, heading: None, same_line: false, help: Some(String::from_str("After sending for a node, leave it alone this long before trying it again.")) });
    v.push(Field { key: String::from_str("StackLimit"), label: String::from_str("Stack limit"), kind: FieldKind::Int { default: d.stack_limit as i64, min: STACK_LIMIT_MIN as i64, max: STACK_LIMIT_MAX as i64, step: 10, slider: false, format: None }, heading: None, same_line: false, help: Some(String::from_str("When the bag is full a node whose yield is already stacked is still gathered, unless the stack would pass this ceiling.")) });
    v.push(Field { key: String::from_str("KeyToggle"), label: String::from_str("Toggle auto gather"), kind: FieldKind::Key { default: String::from_str("F10") }, heading: Some(String::from_str("Keys:")), same_line: false, help: Some(String::from_str("Turns automatic gathering on and off. Avoid keys the game already uses.")) });
    v.push(Field { key: String::from_str("KeyScan"), label: String::from_str("Survey"), kind: FieldKind::Key { default: String::from_str("F11") }, heading: None, same_line: false, help: Some(String::from_str("Writes the nodes and items in scan range to the log.")) });
    v.push(Field { key: String::from_str("KeyGather"), label: String::from_str("Gather nearest"), kind: FieldKind::Key { default: String::from_str("F9") }, heading: None, same_line: false, help: Some(String::from_str("Gather the nearest node: one node per press, whatever the auto state.")) });
    v.push(Field { key: String::from_str("KeyRecord"), label: String::from_str("Record events (debug)"), kind: FieldKind::Key { default: String::from_str("F7") }, heading: None, same_line: false, help: Some(String::from_str("Toggles recording of every event the game queues, capped at 300.")) });
    v.push(Field { key: String::from_str("Debug"), label: String::from_str("Debug"), kind: FieldKind::Bool { default: d.debug }, heading: Some(String::from_str("Diagnostics:")), same_line: false, help: Some(String::from_str("The very verbose survey: the first Survey press after this is on dumps hundreds of lines to the log. For working out why something is not picked up, not for playing.")) });
    v.push(Field { key: String::from_str("LogReceived"), label: String::from_str("Log received items"), kind: FieldKind::Bool { default: d.log_received }, heading: None, same_line: true, help: Some(String::from_str("Logs every item the game hands the player as [recv] item <key> x<count>, whether or not this plugin caused it, capped at 500 a session. This is how a gathering yield is actually measured.")) });
    v.push(Field { key: String::from_str("BagTab"), label: String::from_str("Bag tab"), kind: FieldKind::Int { default: 1, min: -1, max: BAG_TAB_MENU_MAX, step: 1, slider: false, format: None }, heading: None, same_line: false, help: Some(String::from_str("Which inventory tab counts as the bag for the full check. 1 is the right answer on build 25116796; -1 means auto, i.e. whichever tab has the largest capacity.")) });
    proof {
        assert(fields_view(v@) =~= looter_fields_spec());
    }
    v
}

fn looter_presets() -> (r: Vec<Preset>)
    ensures
        presets_view(r@) == looter_presets_spec(),
{
    let mut v: Vec<Preset> = Vec::new();
    {
        let mut set: Vec<(String, String)> = Vec::new();
        set.push((String::from_str("GatherForaging"), String::from_str("1")));
        set.push((String::from_str("GatherLogging"), String::from_str("1")));
        set.push((String::from_str("GatherMining"), String::from_str("1")));
        set.push((String::from_str("GatherOre"), String::from_str("1")));
        set.push((String::from_str("GatherItems"), String::from_str("1")));
        proof {
            assert(pairs_view(set@) =~= looter_presets_spec()[0].set);
        }
        v.push(Preset { label: String::from_str("Everything"), hint: Some(String::from_str("All four gather families, plus ground items.")), set });
    }
    {
        let mut set: Vec<(String, String)> = Vec::new();
        set.push((String::from_str("GatherForaging"), String::from_str("1")));
        set.push((String::from_str("GatherLogging"), String::from_str("0")));
        set.push((String::from_str("GatherMining"), String::from_str("0")));
        set.push((String::from_str("GatherOre"), String::from_str("0")));
        set.push((String::from_str("GatherItems"), String::from_str("1")));
        proof {
            assert(pairs_view(set@) =~= looter_presets_spec()[1].set);
        }
        v.push(Preset { label: String::from_str("Plants only"), hint: Some(String::from_str("Foraging only: plants, fruit, berries, mushrooms, crops.")), set });
    }
    {
        let mut set: Vec<(String, String)> = Vec::new();
        set.push((String::from_str("GatherForaging"), String::from_str("0")));
        set.push((String::from_str("GatherLogging"), String::from_str("1")));
        set.push((String::from_str("GatherMining"), String::from_str("0")));
        set.push((String::from_str("GatherOre"), String::from_str("0")));
        set.push((String::from_str("GatherItems"), String::from_str("1")));
        proof {
            assert(pairs_view(set@) =~= looter_presets_spec()[2].set);
        }
        v.push(Preset { label: String::from_str("Wood only"), hint: Some(String::from_str("Logging only: firewood from felled trees.")), set });
    }
    {
        let mut set: Vec<(String, String)> = Vec::new();
        set.push((String::from_str("GatherForaging"), String::from_str("0")));
        set.push((String::from_str("GatherLogging"), String::from_str("0")));
        set.push((String::from_str("GatherMining"), String::from_str("1")));
        set.push((String::from_str("GatherOre"), String::from_str("1")));
        set.push((String::from_str("GatherItems"), String::from_str("1")));
        proof {
            assert(pairs_view(set@) =~= looter_presets_spec()[3].set);
        }
        v.push(Preset { label: String::from_str("Rock and ore only"), hint: Some(String::from_str("Mining and Ore Nodes: rocks, veins, ore deposits.")), set });
    }
    proof {
        assert(presets_view(v@) =~= looter_presets_spec());
    }
    v
}
/// What the menu draws for the `[Looter]` section, and what seeds the ini
/// when the file is missing.
pub fn schema() -> (r: Section)
    ensures
        section_v(r) == schema_spec(),
{
    Section {
        title: String::from_str("Desert Looter"),
        ini: String::from_str("DesertTooling.ini"),
        ini_section: String::from_str("Looter"),
        module: None,
        order: 10,
        notice: None,
        presets_label: Some(String::from_str("Presets (what auto-loot picks up):")),
        presets: looter_presets(),
        fields: looter_fields(),
    }
}

} // verus!
