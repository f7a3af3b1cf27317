use desert_tooling::overlay::model::{GathererModel, IniModel, LooterModel, RangeKey};

fn ranges(m: &LooterModel) -> Vec<(RangeKey, String)> {
    m.ranges.iter().map(|(k, v)| (*k, String::from_utf8(v.clone()).unwrap())).collect()
}

#[test]
fn looter_defaults_match_the_plugin() {
    let m = LooterModel::parse("");
    assert!(m.enabled && !m.auto_gather && m.gather_unarmed);
    assert!(m.gather_foraging && m.gather_logging && m.gather_mining && m.gather_ore);
    assert!(m.gather_items && !m.gather_gear);
    assert!(m.ranges.is_empty(), "no range written: the decimals keep their defaults");
    assert_eq!(m.gather_interval_ms, 500);
    assert_eq!(m.node_cooldown_ms, 8000);
    assert_eq!(m.stack_limit, 999);
}

#[test]
fn looter_parses_the_keys_it_owns_and_ignores_the_rest() {
    let m = LooterModel::parse(
        "; c\n[DesertLooter]\nEnabled=0\nAutoGather=yes\nGatherLogging=0\n\
         ScanRange=25.5\nGatherRange=4\nGatherInterval=250\nNodeCooldown=12000\n\
         StackLimit=500\nBagTab=1\nKeyToggle=F10\nLogReceived=1\nDebug=1\n",
    );
    assert!(!m.enabled);
    assert!(m.auto_gather);
    assert!(!m.gather_logging);
    assert!(m.gather_foraging, "an untouched family keeps its default");
    assert_eq!(ranges(&m), vec![(RangeKey::Scan, "25.5".to_string()), (RangeKey::Gather, "4".to_string())]);
    assert_eq!(m.gather_interval_ms, 250);
    assert_eq!(m.node_cooldown_ms, 12_000);
    assert_eq!(m.stack_limit, 500);
}

#[test]
fn out_of_range_values_keep_the_default() {
    let m = LooterModel::parse("ScanRange=0\nGatherRange=80\nGatherInterval=5\nNodeCooldown=99999\nStackLimit=1\n");
    assert_eq!(ranges(&m), vec![(RangeKey::Scan, "0".to_string()), (RangeKey::Gather, "80".to_string())]);
    assert_eq!(m.gather_interval_ms, 500);
    assert_eq!(m.node_cooldown_ms, 8000);
    assert_eq!(m.stack_limit, 999);

    let g = GathererModel::parse("Foraging=0\nLogging=101\nMining=x\n");
    assert_eq!((g.foraging, g.logging, g.mining), (1, 1, 1));
}

#[test]
fn looter_keys_match_case_insensitively_and_the_last_good_value_wins() {
    let m = LooterModel::parse("stacklimit=20\nSTACKLIMIT=abc\nGatherInterval=60000\ngatherinterval=60001\nscanrange=7\n");
    assert_eq!(m.stack_limit, 20, "a bad later value keeps the earlier good one");
    assert_eq!(m.gather_interval_ms, 60_000, "the top of the range is accepted, one past it is not");
    assert_eq!(ranges(&m), vec![(RangeKey::Scan, "7".to_string())]);
}
