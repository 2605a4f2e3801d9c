use std::path::PathBuf;
use ulbox360::paths::{
    backslashes_to_slashes, join_remote_path, push_path, remote_dir_chain, trim_leading_slashes,
};

fn std_push(base: &str, comp: &str) -> String {
    let mut p = PathBuf::from(base);
    p.push(comp);
    p.to_str().unwrap().to_string()
}

#[test]
fn push_path_matches_pathbuf() {
    for (base, comp) in [
        ("/", "Content"),
        ("/Content", "title"),
        ("/Content/", "title"),
        ("", "a"),
        ("/a", "/b"),
        ("a", ""),
        ("/a/b", "c d.xex"),
    ] {
        assert_eq!(push_path(base, comp), std_push(base, comp), "{} + {}", base, comp);
    }
}

#[test]
fn push_path_exact_values() {
    assert_eq!(push_path("/", "Content"), "/Content");
    assert_eq!(push_path("/Content", "x"), "/Content/x");
    assert_eq!(push_path("/a", "/b"), "/b");
}

#[test]
fn join_remote_path_values() {
    assert_eq!(join_remote_path("/", "Content"), "/Content");
    assert_eq!(join_remote_path("/Content", "x"), "/Content/x");
    assert_eq!(join_remote_path("/Hdd1/Games/", "a.xex"), "/Hdd1/Games/a.xex");
    assert_eq!(join_remote_path("", "a"), "/a");
}

#[test]
fn trim_leading_slashes_values() {
    assert_eq!(trim_leading_slashes("///a/b"), "a/b");
    assert_eq!(trim_leading_slashes("a/b/"), "a/b/");
    assert_eq!(trim_leading_slashes("/"), "");
    assert_eq!(trim_leading_slashes(""), "");
    assert_eq!(trim_leading_slashes("/a"), "/a".trim_start_matches('/'));
}

#[test]
fn trimming_twice_changes_nothing() {
    let once = trim_leading_slashes("//x//y");
    assert_eq!(trim_leading_slashes(&once), once);
    assert!(!once.starts_with('/'));
}

#[test]
fn backslashes_become_slashes() {
    assert_eq!(backslashes_to_slashes("Game\\data\\x.bin"), "Game/data/x.bin");
    assert_eq!(backslashes_to_slashes("plain/path"), "plain/path");
    assert_eq!(backslashes_to_slashes(""), "");
}

#[test]
fn dir_chain_of_aurora_games_folder() {
    assert_eq!(remote_dir_chain("/Hdd1/Games/"), vec!["Hdd1", "Hdd1/Games"]);
}

#[test]
fn dir_chain_skips_empty_segments() {
    assert_eq!(remote_dir_chain("a//b/"), vec!["a", "a/b"]);
    assert_eq!(remote_dir_chain("///"), Vec::<String>::new());
    assert_eq!(remote_dir_chain(""), Vec::<String>::new());
    assert_eq!(remote_dir_chain("x"), vec!["x"]);
}

#[test]
fn dir_chain_each_step_extends_the_last() {
    let chain = remote_dir_chain("/Hdd1/Games/Halo 3/Disc 1");
    assert_eq!(chain, vec!["Hdd1", "Hdd1/Games", "Hdd1/Games/Halo 3", "Hdd1/Games/Halo 3/Disc 1"]);
    for w in chain.windows(2) {
        assert!(w[1].starts_with(&format!("{}/", w[0])));
    }
}
