use serve_live::path_filter::{filter_paths, is_noise_path};

#[test]
fn auto_save_names_are_noise() {
    assert!(is_noise_path(".#notes.txt"));
    assert!(is_noise_path("dir/.#notes.txt"));
    assert!(is_noise_path("a/b/.#"));
}

#[test]
fn backup_names_are_noise() {
    assert!(is_noise_path("notes.txt~"));
    assert!(is_noise_path("a/b/notes~"));
    assert!(is_noise_path("~"));
}

#[test]
fn git_metadata_is_noise() {
    assert!(is_noise_path(".git"));
    assert!(is_noise_path(".git/config"));
    assert!(is_noise_path("a/.git/objects/aa"));
}

#[test]
fn ordinary_paths_are_not_noise() {
    assert!(!is_noise_path("notes.txt"));
    assert!(!is_noise_path("a/b/c.html"));
    assert!(!is_noise_path(".gitignore"));
    assert!(!is_noise_path("gitty/.gitignore"));
    assert!(!is_noise_path("ok.git"));
    assert!(!is_noise_path("~tilde"));
    assert!(!is_noise_path(""));
}

#[test]
fn filter_keeps_order_and_drops_noise() {
    let paths = vec![
        String::from("keep1.txt"),
        String::from(".#skip"),
        String::from("keep2.css"),
        String::from("skip~"),
        String::from(".git/skip"),
        String::from("keep3"),
    ];
    let kept = filter_paths(&paths);
    assert_eq!(kept, vec![
        String::from("keep1.txt"),
        String::from("keep2.css"),
        String::from("keep3"),
    ]);
}

#[test]
fn filter_of_all_noise_is_empty() {
    let paths = vec![
        String::from(".#a"),
        String::from("b~"),
        String::from("x/.git/y"),
    ];
    assert!(filter_paths(&paths).is_empty());
}
