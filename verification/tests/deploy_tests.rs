use eldenring_remapper::validate_paths;

#[test]
fn deployment_proceeds_when_both_directories_exist() {
    let dll = String::from(r"C:\ModEngine2\dlls");
    let ini = String::from(r"C:\ModEngine2\config");
    assert!(validate_paths(&dll, &ini, true, true).is_ok());
}

#[test]
fn a_missing_directory_aborts_with_its_path_listed() {
    let dll = String::from(r"C:\ModEngine2\dlls");
    let ini = String::from(r"C:\ModEngine2\config");
    let msg = validate_paths(&dll, &ini, false, true).unwrap_err();
    assert_eq!(
        msg,
        "DEPLOYMENT ABORTED: Missing directories:\n   - C:\\ModEngine2\\dlls\n\nUse '--force' to create these folders automatically."
    );
}

#[test]
fn both_missing_directories_are_listed_in_order() {
    let dll = String::from("dlls");
    let ini = String::from("config");
    let msg = validate_paths(&dll, &ini, false, false).unwrap_err();
    assert_eq!(
        msg,
        "DEPLOYMENT ABORTED: Missing directories:\n   - dlls\n   - config\n\nUse '--force' to create these folders automatically."
    );
}

#[test]
fn only_the_missing_directory_is_listed() {
    let dll = String::from("dlls");
    let ini = String::from("config");
    let msg = validate_paths(&dll, &ini, true, false).unwrap_err();
    assert_eq!(
        msg,
        "DEPLOYMENT ABORTED: Missing directories:\n   - config\n\nUse '--force' to create these folders automatically."
    );
}
