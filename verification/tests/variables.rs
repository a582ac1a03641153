use winfu::pattern::Pattern;
use winfu::variables::{
    captures_are_complete, finish_variable_removal, list_variables, remove_variable,
    render_variables, variable_pattern, VariableError,
};

#[test]
fn removal_pattern_text() {
    assert_eq!(variable_pattern("docs"), "(?m)^\\$docs\\s*=\\s*.+[\\r\\n]*");
}

#[test]
fn remove_saved_variable() {
    let profile = "$docs =  'C:\\Docs'\n$x =  'y'\n";
    assert_eq!(remove_variable(profile, "docs"), Ok("$x =  'y'\n".to_string()));
}

#[test]
fn remove_missing_variable() {
    assert_eq!(remove_variable("$x =  'y'\n", "docs"), Err(VariableError::NotFound));
}

#[test]
fn remove_with_invalid_name() {
    assert_eq!(remove_variable("$x =  'y'\n", "("), Err(VariableError::InvalidName));
}

#[test]
fn finish_removal_outcomes() {
    assert_eq!(finish_variable_removal(true, "rest".to_string()), Ok("rest".to_string()));
    assert_eq!(finish_variable_removal(false, "rest".to_string()), Err(VariableError::NotFound));
}

#[test]
fn list_saved_variables() {
    let profile = "$docs =  'C:\\Docs'\nWrite-Host hi\n$x =  'it''s'\n";
    assert_eq!(
        list_variables(profile),
        Some("$docs = 'C:\\Docs'\n$x = 'it''''s'\n".to_string())
    );
}

#[test]
fn list_no_variables() {
    assert_eq!(list_variables("Write-Host hi\n"), Some(String::new()));
}

#[test]
fn render_given_captures() {
    let caps = vec![vec![
        Some("$a = 'b'".to_string()),
        Some("a".to_string()),
        Some("b\"".to_string()),
    ]];
    assert!(captures_are_complete(&caps));
    assert_eq!(render_variables(&caps), "$a = 'b\"\"\"'\n");
}

#[test]
fn incomplete_captures_detected() {
    let caps = vec![vec![Some("x".to_string()), None, Some("v".to_string())]];
    assert!(!captures_are_complete(&caps));
    assert!(!captures_are_complete(&vec![vec![Some("x".to_string())]]));
}

#[test]
fn compile_reports_invalid_pattern() {
    assert!(Pattern::compile("(").is_none());
    assert!(Pattern::compile("a+").is_some());
}

#[test]
fn remove_after_save_variable() {
    let profile = "Write-Host start\n";
    let def = winfu::profile::save_variable(profile, "docs", "it's").unwrap();
    let saved = format!("{}{}", profile, def);
    assert_eq!(remove_variable(&saved, "docs"), Ok(profile.to_string()));
}
