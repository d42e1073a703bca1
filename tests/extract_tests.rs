use bulk_ops::{
    action_for_entry, extract_target, safe_entry_name, skips_extraction, unpack_archive, ArchiveEntry,
    ExtractAction, ExtractFailure, Unpacker,
};
use std::io::Write;
use zip::write::SimpleFileOptions;
use zip::{CompressionMethod, ZipWriter};

fn archive(files: &[(&str, &[u8])]) -> Vec<u8> {
    let mut w = ZipWriter::new(std::io::Cursor::new(Vec::new()));
    let opts = SimpleFileOptions::default().compression_method(CompressionMethod::Stored);
    for (name, data) in files {
        if name.ends_with('/') {
            w.add_directory(name.to_string(), opts).unwrap();
        } else {
            w.start_file(name.to_string(), opts).unwrap();
            w.write_all(data).unwrap();
        }
    }
    w.finish().unwrap().into_inner()
}

#[test]
fn target_is_stem_under_output_root() {
    assert_eq!(extract_target("extracted", "/data/in/album.zip"), "extracted/album");
    assert_eq!(extract_target("out/", "a.b.zip"), "out/a.b");
}

#[test]
fn skip_only_when_asked_and_present() {
    assert!(skips_extraction(true, true));
    assert!(!skips_extraction(true, false));
    assert!(!skips_extraction(false, true));
    assert!(!skips_extraction(false, false));
}

#[test]
fn entry_actions_follow_the_name() {
    let dir = action_for_entry("t", ArchiveEntry { name: "sub/".to_string(), data: vec![] });
    assert_eq!(dir, ExtractAction::CreateDir("t/sub/".to_string()));
    let file = action_for_entry("t", ArchiveEntry { name: "sub/f.txt".to_string(), data: vec![7] });
    assert_eq!(file, ExtractAction::WriteFile("t/sub/f.txt".to_string(), vec![7]));
}

#[test]
fn unpack_reads_every_entry_in_order() {
    let bytes = archive(&[("d/", b""), ("d/one.txt", b"hello"), ("two.bin", &[1, 2, 3])]);
    let plan = unpack_archive(bytes, "out/x");
    assert_eq!(plan.failure, None);
    assert_eq!(
        plan.actions,
        vec![
            ExtractAction::CreateDir("out/x/d/".to_string()),
            ExtractAction::WriteFile("out/x/d/one.txt".to_string(), b"hello".to_vec()),
            ExtractAction::WriteFile("out/x/two.bin".to_string(), vec![1, 2, 3]),
        ]
    );
}

#[test]
fn unpack_of_empty_archive_has_no_steps() {
    let plan = unpack_archive(archive(&[]), "o");
    assert!(plan.actions.is_empty());
    assert_eq!(plan.failure, None);
}

#[test]
fn unpack_of_garbage_is_unreadable_archive() {
    let plan = unpack_archive(b"this is not a zip file at all".to_vec(), "o");
    assert!(plan.actions.is_empty());
    assert!(matches!(plan.failure, Some(ExtractFailure::UnreadableArchive(_))));
}

#[test]
fn unpack_stops_at_a_damaged_entry() {
    let mut bytes = archive(&[("a.txt", b"first"), ("b.txt", b"second entry data")]);
    let pos = bytes.windows(17).position(|w| w == b"second entry data").unwrap();
    bytes[pos] ^= 0xff;
    let plan = unpack_archive(bytes, "o");
    assert_eq!(plan.actions, vec![ExtractAction::WriteFile("o/a.txt".to_string(), b"first".to_vec())]);
    assert!(matches!(plan.failure, Some(ExtractFailure::UnreadableEntry(1, _))));
}

#[test]
fn entries_leaving_the_folder_are_refused() {
    let plan = unpack_archive(archive(&[("ok.txt", b"a"), ("../evil.txt", b"b")]), "o/t");
    assert_eq!(plan.actions, vec![ExtractAction::WriteFile("o/t/ok.txt".to_string(), b"a".to_vec())]);
    assert_eq!(plan.failure, Some(ExtractFailure::UnsafeEntryName(1, "../evil.txt".to_string())));
    let plan = unpack_archive(archive(&[("/abs.txt", b"a")]), "o/t");
    assert!(plan.actions.is_empty());
    assert!(matches!(plan.failure, Some(ExtractFailure::UnsafeEntryName(0, _))));
}

#[test]
fn safe_names_are_relative_without_parent_parts() {
    assert!(safe_entry_name("a/b.txt"));
    assert!(safe_entry_name("a/..b/c"));
    assert!(safe_entry_name("dir/"));
    assert!(!safe_entry_name(".."));
    assert!(!safe_entry_name("a/../b"));
    assert!(!safe_entry_name("a/.."));
    assert!(!safe_entry_name("/etc/x"));
}

#[test]
fn one_corrupt_archive_among_valid_ones_fails_alone() {
    let mut batch = vec![
        archive(&[("a", b"1")]),
        archive(&[("b", b"2")]),
        archive(&[("c", b"3")]),
    ];
    batch.insert(1, b"PK\x03\x04 broken".to_vec());
    let plans: Vec<_> = batch.into_iter().map(|b| unpack_archive(b, "o")).collect();
    let failed = plans.iter().filter(|p| p.failure.is_some()).count();
    assert_eq!(plans.len() - failed, 3);
    assert_eq!(failed, 1);
    assert!(plans[1].failure.is_some());
}

#[test]
fn rerun_plans_the_same_steps_and_skip_existing_skips() {
    let bytes = archive(&[("a.txt", b"x")]);
    let first = unpack_archive(bytes.clone(), "o/a");
    let again = unpack_archive(bytes, "o/a");
    assert_eq!(first, again);
    assert!(skips_extraction(true, true));
}

#[test]
fn unpacker_yields_one_step_per_entry_then_stops() {
    let bytes = archive(&[("a.txt", b"1"), ("../x", b"2"), ("b.txt", b"3")]);
    let mut u = Unpacker::start(bytes, "t").unwrap();
    assert_eq!(u.next_step(), Some(Ok(ExtractAction::WriteFile("t/a.txt".to_string(), b"1".to_vec()))));
    assert_eq!(u.next_step(), Some(Err(ExtractFailure::UnsafeEntryName(1, "../x".to_string()))));
    assert_eq!(u.next_step(), None);
    assert!(matches!(Unpacker::start(b"nope".to_vec(), "t"), Err(ExtractFailure::UnreadableArchive(_))));
}
