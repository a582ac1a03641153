use winfu::functions::{
    clearing_function_definition, function_definition, function_header, remove_function,
    save_function,
};

#[test]
fn header_text() {
    assert_eq!(function_header("hi"), "function hi {");
}

#[test]
fn definition_text() {
    assert_eq!(function_definition("hi", "echo hello world"), "function hi {\n    echo hello world\n}\n");
}

#[test]
fn clearing_definition_text() {
    assert_eq!(
        clearing_function_definition("hi", "echo hi"),
        "function hi {\n    Clear-Host; echo hi\n}\n"
    );
}

#[test]
fn save_into_empty_module() {
    assert_eq!(
        save_function("", "hi", "echo hello world"),
        Some("function hi {\n    echo hello world\n}\n".to_string())
    );
}

#[test]
fn save_refuses_existing_function() {
    let module = "function hi {\n    echo hi\n}\n";
    assert_eq!(save_function(module, "hi", "echo again"), None);
}

#[test]
fn save_refuses_header_anywhere_in_text() {
    // The check is on the text, not on the start of a line.
    let module = "# see function hi { below\n";
    assert_eq!(save_function(module, "hi", "x"), None);
}

#[test]
fn save_accepts_other_name() {
    let module = "function hi {\n    echo hi\n}\n";
    assert_eq!(save_function(module, "hie", "x"), Some("function hie {\n    x\n}\n".to_string()));
}

#[test]
fn remove_only_function() {
    let module = "function hi {\n    echo hi\n}\n";
    assert_eq!(remove_function(module, "hi"), Some(String::new()));
}

#[test]
fn remove_keeps_other_functions() {
    let module = "function a {\n    x\n}\nfunction hi {\n    echo hi\n}\nfunction b {\n    y\n}\n";
    assert_eq!(
        remove_function(module, "hi"),
        Some("function a {\n    x\n}\nfunction b {\n    y\n}\n".to_string())
    );
}

#[test]
fn remove_nested_braces() {
    let module = "a\nfunction hi {\n  if (x) {\n    y\n  }\n}\nb\n";
    assert_eq!(remove_function(module, "hi"), Some("a\nb\n".to_string()));
}

#[test]
fn remove_missing_function() {
    let module = "function a {\n    x\n}\n";
    assert_eq!(remove_function(module, "hi"), None);
}

#[test]
fn remove_empty_module() {
    assert_eq!(remove_function("", "hi"), None);
}

#[test]
fn remove_every_copy() {
    let module = "function hi {\n    1\n}\nmid\nfunction hi {\n    2\n}\n";
    assert_eq!(remove_function(module, "hi"), Some("mid\n".to_string()));
}

#[test]
fn remove_crlf_lines() {
    let module = "keep\r\nfunction hi {\r\n    x\r\n}\r\nlast";
    assert_eq!(remove_function(module, "hi"), Some("keep\nlast\n".to_string()));
}

#[test]
fn remove_unclosed_function_drops_the_rest() {
    let module = "a\nfunction hi {\n    {\n}\nb\n";
    assert_eq!(remove_function(module, "hi"), Some("a\n".to_string()));
}

#[test]
fn remove_header_inside_line_is_not_a_start() {
    let module = "  function hi {\n}\n";
    assert_eq!(remove_function(module, "hi"), None);
}

#[test]
fn remove_after_save_gives_module_back() {
    let module = "function a {\n    x\n}\n";
    let def = save_function(module, "hi", "if ($x) { y }").unwrap();
    let saved = format!("{}{}", module, def);
    assert_eq!(remove_function(&saved, "hi"), Some(module.to_string()));
}

#[test]
fn save_twice_is_refused() {
    let def = save_function("", "hi", "x").unwrap();
    assert_eq!(save_function(&def, "hi", "y"), None);
}
