use demonax_core::error::DemonaxError;
use demonax_core::harvesting::{
    generate_all_harvesting_rules, generate_harvesting_rule, insert_harvesting_rules,
    HarvestingData,
};

fn sample_entry() -> HarvestingData {
    HarvestingData {
        tool_id: 5544,
        corpse_id: 5317,
        next_corpse_id: 5518,
        percent_chance: 9,
        reward_id: 5366,
        race_id: 403,
    }
}

#[test]
fn test_generate_harvesting_rule() {
    let entry = sample_entry();

    let rule = generate_harvesting_rule(&entry);
    let lines: Vec<&str> = rule.lines().collect();

    assert_eq!(lines.len(), 2);
    assert!(lines[0].contains("Random(9)"));
    assert!(lines[0].contains("Create(Obj2, 5366, 0)"));
    assert!(lines[0].contains("Effect(User, 13)"));
    assert!(lines[0].contains("IncrementHarvestingValue(User, 403, 1)"));
    assert!(!lines[1].contains("Random"));
    assert!(lines[1].contains("Change(Obj2, 5518, 0)"));
}

#[test]
fn test_insert_harvesting_rules() {
    let moveuse_content = "# Header\nBEGIN \"MultiUse\"\nold rule 1\nold rule 2\nBEGIN \"Baking\"\nbaking rule 1\n";

    let rules = "new rule 1\nnew rule 2";
    let result = insert_harvesting_rules(moveuse_content, rules).unwrap();

    assert!(result.contains("BEGIN \"MultiUse\""));
    assert!(result.contains("BEGIN \"Harvesting\""));
    assert!(result.contains("new rule 1"));
    assert!(result.contains("new rule 2"));
    assert!(result.contains("END"));
    assert!(result.contains("BEGIN \"Baking\""));
    assert!(!result.contains("old rule 1"));
    assert!(!result.contains("old rule 2"));

    // Verify order: BEGIN "Harvesting" comes after BEGIN "MultiUse"
    let multiuse_pos = result.find("BEGIN \"MultiUse\"").unwrap();
    let harvesting_pos = result.find("BEGIN \"Harvesting\"").unwrap();
    let end_pos = result.find("END").unwrap();
    let baking_pos = result.find("BEGIN \"Baking\"").unwrap();
    assert!(multiuse_pos < harvesting_pos);
    assert!(harvesting_pos < end_pos);
    assert!(end_pos < baking_pos);
}

#[test]
fn test_insert_harvesting_rules_missing_multiuse() {
    let moveuse_content = "BEGIN \"Baking\"\nrule\n";

    let result = insert_harvesting_rules(moveuse_content, "test");
    assert!(result.is_err());
}

#[test]
fn test_insert_harvesting_rules_missing_baking() {
    let moveuse_content = "BEGIN \"MultiUse\"\nrule\n";

    let result = insert_harvesting_rules(moveuse_content, "test");
    assert!(result.is_err());
}

#[test]
fn harvesting_rule_has_the_exact_text() {
    let rule = generate_harvesting_rule(&sample_entry());
    assert_eq!(
        rule,
        "MultiUse, IsType(Obj1, 5544), IsType(Obj2, 5317), Random(9) -> Create(Obj2, 5366, 0), Change(Obj2, 5518, 0), Effect(User, 13), IncrementHarvestingValue(User, 403, 1)\nMultiUse, IsType(Obj1, 5544), IsType(Obj2, 5317) -> Change(Obj2, 5518, 0)"
    );
}

#[test]
fn all_rules_are_joined_by_line_feeds() {
    assert_eq!(generate_all_harvesting_rules(&[]), "");
    let one = generate_harvesting_rule(&sample_entry());
    assert_eq!(generate_all_harvesting_rules(&[sample_entry()]), one);
    let mut other = sample_entry();
    other.tool_id = -1;
    let two = generate_all_harvesting_rules(&[sample_entry(), other.clone()]);
    assert_eq!(two, format!("{}\n{}", one, generate_harvesting_rule(&other)));
    assert_eq!(two.lines().count(), 4);
}

#[test]
fn inserted_rules_have_the_exact_text() {
    let content = "# Header\r\nBEGIN \"MultiUse\"\r\nold\r\n-- BEGIN \"Baking\" --\nlast";
    let out = insert_harvesting_rules(content, "r1\nr2\n").unwrap();
    assert_eq!(
        out,
        "# Header\nBEGIN \"MultiUse\"\nBEGIN \"Harvesting\"\nr1\nr2\nEND\n-- BEGIN \"Baking\" --\nlast"
    );
    let empty = insert_harvesting_rules("BEGIN \"MultiUse\"\n\nBEGIN \"Baking\"", "").unwrap();
    assert_eq!(empty, "BEGIN \"MultiUse\"\nBEGIN \"Harvesting\"\nEND\nBEGIN \"Baking\"");
}

#[test]
fn insert_reports_each_failure() {
    assert_eq!(insert_harvesting_rules("", "x").err(), Some(DemonaxError::MissingMultiUse));
    assert_eq!(
        insert_harvesting_rules("BEGIN \"MultiUse\"\n", "x").err(),
        Some(DemonaxError::MissingBaking)
    );
    assert_eq!(
        insert_harvesting_rules("BEGIN \"Baking\"\nBEGIN \"MultiUse\"\n", "x").err(),
        Some(DemonaxError::BakingBeforeMultiUse)
    );
    assert_eq!(
        insert_harvesting_rules("BEGIN \"MultiUse\" BEGIN \"Baking\"\n", "x").err(),
        Some(DemonaxError::BakingBeforeMultiUse)
    );
    assert_eq!(
        DemonaxError::MissingBaking.message(),
        "Parse error: Could not find BEGIN \"Baking\" in moveuse.dat"
    );
}
