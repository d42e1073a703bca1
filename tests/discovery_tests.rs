use bulk_ops::{audio_candidates, find_mp3_files, find_zip_files, select_matching, Mp3File, WalkEntry, ZipFile};

fn entry(path: &str, is_file: bool, size: u64) -> WalkEntry {
    WalkEntry { path: path.to_string(), is_file, size }
}

#[test]
fn empty_walk_gives_empty_catalog() {
    assert!(find_zip_files(&Vec::new()).is_empty());
    assert!(audio_candidates(&Vec::new()).is_empty());
    let only_root = vec![entry("empty_dir", false, 0)];
    assert!(find_zip_files(&only_root).is_empty());
    assert!(audio_candidates(&only_root).is_empty());
}

#[test]
fn discovery_finds_matches_at_any_depth_in_walk_order() {
    let walked = vec![
        entry("root", false, 0),
        entry("root/a.zip", true, 10),
        entry("root/notes.txt", true, 3),
        entry("root/sub", false, 0),
        entry("root/sub/deeper/b.zip", true, 20),
        entry("root/folder.zip", false, 0),
        entry("root/sub/.zip", true, 1),
        entry("root/c.mp3", true, 5),
    ];
    assert_eq!(
        find_zip_files(&walked),
        vec![
            ZipFile { path: "root/a.zip".to_string(), size: 10 },
            ZipFile { path: "root/sub/deeper/b.zip".to_string(), size: 20 },
        ]
    );
    let audio = audio_candidates(&walked);
    assert_eq!(audio, vec![entry("root/c.mp3", true, 5)]);
}

#[test]
fn non_matching_files_do_not_change_the_catalog() {
    let base = vec![entry("r/a.zip", true, 1)];
    let mut more = base.clone();
    more.push(entry("r/x.txt", true, 2));
    more.push(entry("r/y.mp3", true, 2));
    assert_eq!(find_zip_files(&base), find_zip_files(&more));
}

#[test]
fn select_matching_uses_the_given_extension() {
    let walked = vec![entry("a.flac", true, 1), entry("b.mp3", true, 2)];
    assert_eq!(select_matching(&walked, "flac"), vec![entry("a.flac", true, 1)]);
}

#[test]
fn audio_catalog_pairs_files_with_probe_results() {
    let candidates = vec![entry("a.mp3", true, 1), entry("d/b.mp3", true, 2)];
    let files = find_mp3_files(&candidates, &vec![true, false]);
    assert_eq!(
        files,
        vec![
            Mp3File { path: "a.mp3".to_string(), size: 1, has_metadata: true },
            Mp3File { path: "d/b.mp3".to_string(), size: 2, has_metadata: false },
        ]
    );
}
