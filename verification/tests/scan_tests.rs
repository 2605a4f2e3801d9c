use std::collections::HashMap;
use ulbox360::datetime::CivilDateTime;
use ulbox360::dirent::DirEntryInfo;
use ulbox360::fatx_scan::{plan_extraction, FatxScan, ScannedFile};

fn entry(name: &str, is_directory: bool, is_file: bool, size: u32) -> DirEntryInfo {
    let when = CivilDateTime { year: 2010, month: 1, day: 1, hour: 0, minute: 0, second: 0 };
    DirEntryInfo {
        name: name.to_string(),
        is_directory,
        is_file,
        file_size: size,
        created: when,
        modified: when,
        accessed: when,
    }
}

#[test]
fn scan_walks_subdirectories_last_in_first_out() {
    let mut scan = FatxScan::new("/Content");
    assert_eq!(scan.next_dir().as_deref(), Some("/Content"));
    scan.absorb("/Content", &vec![entry("A", true, false, 0), entry("f.bin", false, true, 10), entry("B", true, false, 0)]);
    assert_eq!(scan.next_dir().as_deref(), Some("/Content/B"));
    scan.absorb("/Content/B", &vec![entry("g", false, true, 3)]);
    assert_eq!(scan.next_dir().as_deref(), Some("/Content/A"));
    scan.absorb("/Content/A", &vec![]);
    assert_eq!(scan.next_dir(), None);
    let files = scan.into_files();
    let got: Vec<(String, u32)> = files.iter().map(|f| (f.remote_path.clone(), f.size)).collect();
    assert_eq!(got, vec![("/Content/f.bin".to_string(), 10), ("/Content/B/g".to_string(), 3)]);
}

#[test]
fn scan_joins_root_without_double_slash() {
    let mut scan = FatxScan::new("/");
    let root = scan.next_dir().unwrap();
    scan.absorb(&root, &vec![entry("x", false, true, 1), entry("odd", false, false, 0)]);
    assert_eq!(scan.next_dir(), None);
    let files = scan.into_files();
    assert_eq!(files.len(), 1);
    assert_eq!(files[0].remote_path, "/x");
}

#[test]
fn extraction_paths_lose_leading_slashes() {
    let files = vec![
        ScannedFile { remote_path: "/Content/a.bin".to_string(), size: 5 },
        ScannedFile { remote_path: "rel/b".to_string(), size: 0 },
    ];
    let plan = plan_extraction(&files);
    assert_eq!(plan.len(), 2);
    assert_eq!(plan[0].relative_path, "Content/a.bin");
    assert_eq!(plan[0].remote_path, "/Content/a.bin");
    assert_eq!(plan[0].size, 5);
    assert_eq!(plan[1].relative_path, "rel/b");
    assert!(plan_extraction(&vec![]).is_empty());
}

#[test]
fn finished_walk_finds_every_file_of_the_tree() {
    let mut volume: HashMap<&str, Vec<DirEntryInfo>> = HashMap::new();
    volume.insert("/", vec![entry("A", true, false, 0), entry("top", false, true, 1)]);
    volume.insert("/A", vec![entry("B", true, false, 0), entry("mid", false, true, 2)]);
    volume.insert("/A/B", vec![entry("deep", false, true, 3), entry("C", true, false, 0)]);
    volume.insert("/A/B/C", vec![]);
    let mut scan = FatxScan::new("/");
    while let Some(dir) = scan.next_dir() {
        let entries = volume.get(dir.as_str()).cloned().unwrap_or_default();
        scan.absorb(&dir, &entries);
    }
    let mut found: Vec<String> = scan.into_files().into_iter().map(|f| f.remote_path).collect();
    found.sort();
    assert_eq!(found, vec!["/A/B/deep", "/A/mid", "/top"]);
}
