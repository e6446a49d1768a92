use runmat_runtime::value::{CharArray, Value};
use runmat_runtime::what::{access_error, folder_argument, scan_entries};

fn entries(items: &[(&str, bool)]) -> Vec<(String, bool)> {
    items.iter().map(|(n, d)| (n.to_string(), *d)).collect()
}

#[test]
fn unresolved_choice_classifies_files_and_folders() {
    let listing = scan_entries(&entries(&[
        ("beta.m", false),
        ("alpha.m", false),
        ("data.mat", false),
        ("live.mlx", false),
        ("readme.txt", false),
        ("@Widget", true),
        ("+mypkg", true),
        ("plain", true),
    ]));
    assert_eq!(listing.m, vec!["alpha.m".to_string(), "beta.m".to_string()]);
    assert_eq!(listing.mat, vec!["data.mat".to_string()]);
    assert_eq!(listing.mlx, vec!["live.mlx".to_string()]);
    assert_eq!(listing.classes, vec!["Widget".to_string()]);
    assert_eq!(listing.packages, vec!["mypkg".to_string()]);
    assert!(listing.mlapp.is_empty());
    assert!(listing.mex.is_empty());
}

#[test]
fn unresolved_choice_empty_folder_lists_are_empty() {
    let listing = scan_entries(&Vec::new());
    for bucket in [&listing.m, &listing.mat, &listing.mex, &listing.mlx, &listing.mlapp, &listing.classes, &listing.packages] {
        assert!(bucket.is_empty());
    }
}

#[test]
fn unresolved_choice_too_many_inputs_errors() {
    let args = vec![Value::String("a".to_string()), Value::String("b".to_string())];
    let err = folder_argument(&args).err().expect("error");
    assert_eq!(err.identifier.as_deref(), Some("RunMat:what:TooManyInputs"));
}

#[test]
fn unresolved_choice_non_text_argument_errors() {
    let err = folder_argument(&vec![Value::Num]).err().expect("error");
    assert_eq!(err.identifier.as_deref(), Some("RunMat:what:FolderArg"));
}

#[test]
fn no_argument_means_current_folder() {
    assert_eq!(folder_argument(&Vec::new()).ok(), Some(String::new()));
}

#[test]
fn char_row_folder_argument_is_trimmed() {
    let data: Vec<char> = "/tmp  ".chars().collect();
    let cols = data.len();
    let arg = Value::CharArray(CharArray { data, rows: 1, cols });
    assert_eq!(folder_argument(&vec![arg]).ok(), Some("/tmp".to_string()));
}

#[test]
fn mex_and_mlapp_files_are_classified() {
    let listing = scan_entries(&entries(&[("z.mlapp", false), ("f.mexa64", false), ("notes.m", true)]));
    assert_eq!(listing.mlapp, vec!["z.mlapp".to_string()]);
    assert_eq!(listing.mex, vec!["f.mexa64".to_string()]);
    assert!(listing.m.is_empty());
}

#[test]
fn access_error_carries_detail() {
    let e = access_error("permission denied");
    assert_eq!(e.message, "what: unable to read folder (permission denied)");
    assert_eq!(e.identifier.as_deref(), Some("RunMat:what:Access"));
}
