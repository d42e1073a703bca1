use bulk_ops::{file_name_of, file_stem_of, gather, has_extension, join_path, partition};

#[test]
fn file_name_is_last_component() {
    assert_eq!(file_name_of("music/albums/a.mp3"), "a.mp3");
    assert_eq!(file_name_of("plain.zip"), "plain.zip");
    assert_eq!(file_name_of("/root/dir/"), "");
}

#[test]
fn stem_drops_only_the_last_extension() {
    assert_eq!(file_stem_of("/data/x.tar.zip"), "x.tar");
    assert_eq!(file_stem_of("archive.zip"), "archive");
    assert_eq!(file_stem_of("dir/.zip"), ".zip");
    assert_eq!(file_stem_of("noext"), "noext");
}

#[test]
fn extension_match_is_exact() {
    assert!(has_extension("a/b/c.zip", "zip"));
    assert!(!has_extension("a/b/c.ZIP", "zip"));
    assert!(!has_extension("a/b/.zip", "zip"));
    assert!(!has_extension("a/b.zip/c", "zip"));
    assert!(!has_extension("a/b/c.zipx", "zip"));
    assert!(has_extension("deep/er/song.mp3", "mp3"));
}

#[test]
fn join_puts_one_separator() {
    assert_eq!(join_path("out", "x"), "out/x");
    assert_eq!(join_path("out/", "x"), "out/x");
    assert_eq!(join_path("", "x"), "x");
    assert_eq!(join_path("out", "/abs/x"), "/abs/x");
    assert_eq!(join_path("out", "d/"), "out/d/");
}

#[test]
fn partition_ten_items_four_workers() {
    assert_eq!(partition(10, 4), vec![(0, 3), (3, 6), (6, 9), (9, 10)]);
}

#[test]
fn partition_empty_catalog_has_no_chunks() {
    assert_eq!(partition(0, 4), Vec::<(usize, usize)>::new());
    assert_eq!(partition(0, 0), Vec::<(usize, usize)>::new());
}

#[test]
fn partition_normalizes_zero_and_excess_workers() {
    assert_eq!(partition(3, 0), vec![(0, 1), (1, 2), (2, 3)]);
    assert_eq!(partition(3, 8), vec![(0, 1), (1, 2), (2, 3)]);
    assert_eq!(partition(5, 1), vec![(0, 5)]);
}

#[test]
fn partition_is_an_ordered_exact_cover() {
    for m in 0usize..40 {
        for w in 1usize..12 {
            let r = partition(m, w);
            assert!(r.len() <= w.min(m));
            let mut next = 0;
            for &(a, b) in &r {
                assert_eq!(a, next);
                assert!(a < b);
                next = b;
            }
            assert_eq!(next, m);
        }
    }
}

#[test]
fn partition_of_largest_size_does_not_overflow() {
    let r = partition(usize::MAX, 2);
    assert_eq!(r.len(), 2);
    assert_eq!(r[1].1, usize::MAX);
}

#[test]
fn gather_keeps_chunk_order() {
    assert_eq!(gather(vec![vec![1, 2], vec![3], vec![], vec![4]]), vec![1, 2, 3, 4]);
    assert_eq!(gather(Vec::<Vec<u8>>::new()), Vec::<u8>::new());
}

#[test]
fn gathered_results_do_not_depend_on_worker_count() {
    let items: Vec<u32> = (0..23).collect();
    let run = |w: usize| {
        let chunks: Vec<Vec<u32>> = partition(items.len(), w)
            .into_iter()
            .map(|(a, b)| items[a..b].iter().map(|x| x * 10).collect())
            .collect();
        gather(chunks)
    };
    assert_eq!(run(1), run(8));
    assert_eq!(run(1), items.iter().map(|x| x * 10).collect::<Vec<_>>());
}
