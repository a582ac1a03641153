use winfu::cli::{pad_right, parse_command, same_text, usage_entries, Command};

fn args(a: &[&str]) -> Vec<String> {
    a.iter().map(|s| s.to_string()).collect()
}

#[test]
fn no_arguments_is_usage() {
    assert_eq!(parse_command(&args(&["winfu"])), Command::Usage);
}

#[test]
fn parse_save_function() {
    assert_eq!(
        parse_command(&args(&["winfu", "sv", "hi", "echo hello world"])),
        Command::SaveFunction { name: "hi".to_string(), body: "echo hello world".to_string() }
    );
    assert_eq!(parse_command(&args(&["winfu", "sv", "hi"])), Command::Usage);
}

#[test]
fn parse_remove_function() {
    assert_eq!(
        parse_command(&args(&["winfu", "rm", "hi"])),
        Command::RemoveFunction { name: "hi".to_string() }
    );
    assert_eq!(parse_command(&args(&["winfu", "rm"])), Command::Usage);
}

#[test]
fn parse_simple_commands() {
    assert_eq!(parse_command(&args(&["winfu", "ls"])), Command::ListFunctions);
    assert_eq!(parse_command(&args(&["winfu", "cp"])), Command::ImportClipboard);
    assert_eq!(parse_command(&args(&["winfu", "lsp"])), Command::ListVariables);
    assert_eq!(parse_command(&args(&["winfu", "nope"])), Command::Usage);
}

#[test]
fn parse_variable_commands() {
    assert_eq!(
        parse_command(&args(&["winfu", "svp", "docs", "C:\\Docs"])),
        Command::SaveVariable { name: "docs".to_string(), value: "C:\\Docs".to_string() }
    );
    assert_eq!(
        parse_command(&args(&["winfu", "rmp", "docs", "extra"])),
        Command::RemoveVariable { name: "docs".to_string() }
    );
    assert_eq!(parse_command(&args(&["winfu", "rmp"])), Command::Usage);
    assert_eq!(parse_command(&args(&["winfu", "svp", "docs"])), Command::Usage);
}

#[test]
fn padding() {
    assert_eq!(pad_right("sv", 4), "sv  ");
    assert_eq!(pad_right("svp", 4), "svp ");
    assert_eq!(pad_right("toolong", 4), "toolong");
}

#[test]
fn usage_table() {
    let e = usage_entries();
    assert_eq!(e.len(), 7);
    assert_eq!(e[0], ("sv".to_string(), "<name> <args> | save a new function".to_string()));
    assert_eq!(e[6], ("lsp".to_string(), "              | list all PowerShell variables".to_string()));
}

#[test]
fn text_equality() {
    assert!(same_text("sv", "sv"));
    assert!(!same_text("sv", "svp"));
}
