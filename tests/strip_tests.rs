use bulk_ops::{
    classify_field, keep_ops, metadata_args, output_root_to_create, record_outcomes, ItemStatus, parse_keep_fields, plan_strip, select_strip_targets,
    tag_rewrite, trim_text, KeepField, KeepOp, Mp3File, StripOptions, TagRecord, TagRewrite,
};

fn full_tag() -> TagRecord {
    TagRecord {
        title: Some("T".to_string()),
        artist: Some("A".to_string()),
        album: Some("L".to_string()),
        year: Some(1999),
        track: Some(4),
        genre: Some("G".to_string()),
        frame_ids: vec!["TIT2".to_string(), "TXXX".to_string(), "COMM".to_string(), "TXXX".to_string()],
    }
}

#[test]
fn trim_removes_unicode_space() {
    assert_eq!(trim_text("  a b\t\n"), "a b");
    assert_eq!(trim_text("\u{3000}x\u{a0}"), "x");
    assert_eq!(trim_text("   "), "");
}

#[test]
fn classify_known_and_custom_names() {
    assert_eq!(classify_field(" year "), KeepField::Year);
    assert_eq!(classify_field("genre"), KeepField::Genre);
    assert_eq!(classify_field("Title"), KeepField::Custom("Title".to_string()));
    assert_eq!(classify_field(" TXXX "), KeepField::Custom("TXXX".to_string()));
}

#[test]
fn parse_splits_on_commas() {
    assert_eq!(
        parse_keep_fields("title, artist ,TXXX"),
        vec![KeepField::Title, KeepField::Artist, KeepField::Custom("TXXX".to_string())]
    );
    assert_eq!(parse_keep_fields(""), vec![KeepField::Custom(String::new())]);
    assert_eq!(
        parse_keep_fields("album,,track"),
        vec![KeepField::Album, KeepField::Custom(String::new()), KeepField::Track]
    );
}

#[test]
fn keep_title_and_artist_only() {
    let fields = parse_keep_fields("title,artist");
    let ops = keep_ops(&full_tag(), &fields);
    assert_eq!(ops, vec![KeepOp::SetTitle("T".to_string()), KeepOp::SetArtist("A".to_string())]);
}

#[test]
fn absent_and_unknown_fields_are_omitted() {
    let mut tag = full_tag();
    tag.artist = None;
    let fields = parse_keep_fields("artist,year,NOPE,TXXX");
    let ops = keep_ops(&tag, &fields);
    assert_eq!(ops, vec![KeepOp::SetYear(1999), KeepOp::CopyFrame(1)]);
}

#[test]
fn custom_names_are_trimmed_before_lookup() {
    let fields = parse_keep_fields(" TXXX , COMM");
    assert_eq!(fields, vec![KeepField::Custom("TXXX".to_string()), KeepField::Custom("COMM".to_string())]);
    assert_eq!(keep_ops(&full_tag(), &fields), vec![KeepOp::CopyFrame(1), KeepOp::CopyFrame(2)]);
}

#[test]
fn remove_all_wins_over_keep_list() {
    let keep = Some(parse_keep_fields("title"));
    let tag = Some(full_tag());
    assert_eq!(tag_rewrite(true, &keep, &tag), TagRewrite::Clear);
    assert_eq!(tag_rewrite(false, &None, &tag), TagRewrite::Leave);
    assert_eq!(
        tag_rewrite(false, &keep, &tag),
        TagRewrite::Rebuild(vec![KeepOp::SetTitle("T".to_string())])
    );
}

#[test]
fn unreadable_tag_is_left_alone() {
    let keep = Some(parse_keep_fields("title"));
    assert_eq!(tag_rewrite(true, &keep, &None), TagRewrite::Leave);
    assert_eq!(tag_rewrite(false, &keep, &None), TagRewrite::Leave);
}

#[test]
fn dry_run_creates_no_output_root() {
    assert_eq!(output_root_to_create(&Some("out".to_string()), true), None);
    assert_eq!(output_root_to_create(&Some("out".to_string()), false), Some("out".to_string()));
    assert_eq!(output_root_to_create(&None, false), None);
}

#[test]
fn dry_run_touches_nothing() {
    let plan = plan_strip("in/a.mp3", &Some("out".to_string()), true);
    assert_eq!(plan.output_path, "out/a.mp3");
    assert_eq!(plan.create_dir, None);
    assert!(!plan.copy_source);
    assert!(!plan.rewrite_tag);
}

#[test]
fn output_dir_means_copy_then_rewrite() {
    let plan = plan_strip("in/a.mp3", &Some("out".to_string()), false);
    assert_eq!(plan.output_path, "out/a.mp3");
    assert_eq!(plan.create_dir, Some("out".to_string()));
    assert!(plan.copy_source);
    assert!(plan.rewrite_tag);
}

#[test]
fn in_place_means_no_copy() {
    let plan = plan_strip("in/a.mp3", &None, false);
    assert_eq!(plan.output_path, "in/a.mp3");
    assert_eq!(plan.create_dir, None);
    assert!(!plan.copy_source);
    assert!(plan.rewrite_tag);
}

#[test]
fn skip_clean_keeps_tagged_files_in_order() {
    let f = |p: &str, m: bool| Mp3File { path: p.to_string(), size: 1, has_metadata: m };
    let files = vec![f("a", true), f("b", false), f("c", true)];
    assert_eq!(select_strip_targets(&files, true), vec![f("a", true), f("c", true)]);
    assert_eq!(select_strip_targets(&files, false), files);
    assert!(select_strip_targets(&vec![f("b", false)], true).is_empty());
}

#[test]
fn options_carry_over() {
    let args = metadata_args(StripOptions {
        directory: "d".to_string(),
        output: None,
        workers: 3,
        skip_clean: true,
        keep_fields: Some("title".to_string()),
        remove_all: false,
        dry_run: true,
    });
    assert_eq!(args.directory, "d");
    assert_eq!(args.workers, 3);
    assert!(args.skip_clean && args.dry_run && !args.remove_all);
    assert_eq!(args.keep_fields, Some("title".to_string()));
}

#[test]
fn one_failure_is_recorded_against_its_item_only() {
    let paths: Vec<String> = ["a.zip", "bad.zip", "b.zip", "c.zip"].iter().map(|p| p.to_string()).collect();
    let results = vec![
        Ok(ItemStatus::Done),
        Err("broken".to_string()),
        Ok(ItemStatus::Skipped),
        Ok(ItemStatus::Done),
    ];
    let outs = record_outcomes(&paths, &results);
    assert_eq!(outs.len(), 4);
    assert_eq!(outs[1].path, "bad.zip");
    assert_eq!(outs[1].status, ItemStatus::Failed("broken".to_string()));
    assert_eq!(outs.iter().filter(|o| matches!(o.status, ItemStatus::Failed(_))).count(), 1);
    assert_eq!(outs[2].status, ItemStatus::Skipped);
}

#[test]
fn dry_run_batch_gives_one_success_per_item() {
    let paths: Vec<String> = (0..5).map(|i| format!("in/{}.mp3", i)).collect();
    let results: Vec<Result<ItemStatus, String>> = paths
        .iter()
        .map(|p| {
            let plan = plan_strip(p, &None, true);
            assert!(plan.create_dir.is_none() && !plan.copy_source && !plan.rewrite_tag);
            Ok(ItemStatus::Done)
        })
        .collect();
    let outs = record_outcomes(&paths, &results);
    assert_eq!(outs.len(), 5);
    assert!(outs.iter().all(|o| o.status == ItemStatus::Done));
}
