use winfu::profile::{add_missing_lines, import_addition, import_module_line, save_variable};

#[test]
fn missing_lines_are_prepended_in_order() {
    let (text, modified) = add_missing_lines("existing\n", &["one", "existing", "two"]);
    assert!(modified);
    assert_eq!(text, "one\ntwo\nexisting\n");
}

#[test]
fn nothing_missing_leaves_profile() {
    let (text, modified) = add_missing_lines("alpha beta\n", &["alpha", "beta"]);
    assert!(!modified);
    assert_eq!(text, "alpha beta\n");
}

#[test]
fn adding_twice_changes_nothing() {
    let lines = ["oh-my-posh init pwsh", "Set-Alias x y"];
    let (once, _) = add_missing_lines("", &lines);
    let (twice, modified) = add_missing_lines(&once, &lines);
    assert!(!modified);
    assert_eq!(twice, once);
}

#[test]
fn import_line_text() {
    assert_eq!(
        import_module_line("C:\\Users\\me\\mods.psm1"),
        "Import-Module -DisableNameChecking \"C:\\Users\\me\\mods.psm1\""
    );
}

#[test]
fn import_added_when_missing() {
    assert_eq!(
        import_addition("", "m.psm1"),
        Some("Import-Module -DisableNameChecking \"m.psm1\"\n".to_string())
    );
}

#[test]
fn import_not_added_twice() {
    let profile = "Import-Module -DisableNameChecking \"m.psm1\"\n";
    assert_eq!(import_addition(profile, "m.psm1"), None);
}

#[test]
fn save_variable_text() {
    assert_eq!(
        save_variable("", "docs", "C:\\Users\\Username\\Documents\\"),
        Some("$docs =  'C:\\Users\\Username\\Documents\\'\n".to_string())
    );
}

#[test]
fn save_variable_escapes_quotes() {
    assert_eq!(
        save_variable("", "q", "it's \"x\""),
        Some("$q =  'it''s \"\"\"x\"\"\"'\n".to_string())
    );
}

#[test]
fn save_variable_refuses_existing() {
    assert_eq!(save_variable("$docs =  'a'\n", "docs", "b"), None);
}

#[test]
fn save_variable_twice_is_refused() {
    let def = save_variable("", "v", "1").unwrap();
    assert_eq!(save_variable(&def, "v", "2"), None);
}
