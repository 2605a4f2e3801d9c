use ulbox360::ftp_plan::{plan_upload, upload_step, upload_step_with_parent};

#[test]
fn upload_step_for_nested_file() {
    let s = upload_step("/Hdd1/Games/", "Halo 3\\default.xex");
    assert_eq!(s.remote_path, "/Hdd1/Games/Halo 3/default.xex");
    assert_eq!(s.dirs, vec!["Hdd1", "Hdd1/Games", "Hdd1/Games/Halo 3"]);
}

#[test]
fn upload_step_base_without_trailing_slash() {
    let s = upload_step("/Hdd1/Games", "a.bin");
    assert_eq!(s.remote_path, "/Hdd1/Games/a.bin");
    assert_eq!(s.dirs, vec!["Hdd1", "Hdd1/Games"]);
}

#[test]
fn upload_step_parent_cases() {
    assert!(upload_step_with_parent("x".to_string(), None).dirs.is_empty());
    assert!(upload_step_with_parent("x".to_string(), Some(String::new())).dirs.is_empty());
    assert_eq!(upload_step_with_parent("/a/b/c".to_string(), Some("/a/b".to_string())).dirs, vec!["a", "a/b"]);
}

#[test]
fn nothing_to_upload_creates_nothing() {
    let plan = plan_upload("/Hdd1/Games/", &vec![]);
    assert!(plan.base_dirs.is_empty());
    assert!(plan.files.is_empty());
}

#[test]
fn upload_plan_creates_base_then_files() {
    let plan = plan_upload("/Hdd1/Games/", &vec!["g/a.bin".to_string(), "b.bin".to_string()]);
    assert_eq!(plan.base_dirs, vec!["Hdd1", "Hdd1/Games"]);
    assert_eq!(plan.files.len(), 2);
    assert_eq!(plan.files[0].remote_path, "/Hdd1/Games/g/a.bin");
    assert_eq!(plan.files[0].dirs, vec!["Hdd1", "Hdd1/Games", "Hdd1/Games/g"]);
    assert_eq!(plan.files[1].remote_path, "/Hdd1/Games/b.bin");
    assert_eq!(plan.files[1].dirs, vec!["Hdd1", "Hdd1/Games"]);
}
