use winfu::clipboard::{import_clipboard, ClipboardError, Target};

#[test]
fn import_function_from_clipboard() {
    let imp = import_clipboard("  function hi {\n    echo hi\n}\n\n", "", "").unwrap();
    assert_eq!(imp.target, Target::Module);
    assert_eq!(imp.text, "\nfunction hi {\n    echo hi\n}");
}

#[test]
fn import_variable_from_clipboard() {
    let imp = import_clipboard("\t$docs = 'C:\\Docs'\r\n", "", "").unwrap();
    assert_eq!(imp.target, Target::Profile);
    assert_eq!(imp.text, "\n$docs = 'C:\\Docs'");
}

#[test]
fn function_already_in_module() {
    let module = "x\nfunction hi {\n    echo hi\n}\n";
    assert_eq!(
        import_clipboard("function hi {\n    echo hi\n}", module, "").unwrap_err(),
        ClipboardError::FunctionExists
    );
}

#[test]
fn variable_already_in_profile() {
    assert_eq!(
        import_clipboard("$a = 1", "", "$a = 1\n").unwrap_err(),
        ClipboardError::VariableExists
    );
}

#[test]
fn clipboard_not_recognized() {
    assert_eq!(import_clipboard("echo hi", "", "").unwrap_err(), ClipboardError::NotRecognized);
    // A function must end with a line break and `}`.
    assert_eq!(
        import_clipboard("function hi { echo hi }", "", "").unwrap_err(),
        ClipboardError::NotRecognized
    );
}

#[test]
fn clipboard_import_twice_refused() {
    let clip = "function f {\n    1\n}";
    let imp = import_clipboard(clip, "", "").unwrap();
    let module = imp.text.clone();
    assert_eq!(import_clipboard(clip, &module, "").unwrap_err(), ClipboardError::FunctionExists);
}
