use dir_summary::{
    build_direct_summaries, compute_dir_summaries, is_reusable, plan_invocation, roll_up,
    should_read_cache, CachePlan, ClassifiedFile, DirSummaries, DirSummaryArgs, MalformedPayload,
    DIR_SUMMARY_VERSION,
};

fn dir(p: &str) -> Vec<String> {
    if p.is_empty() {
        Vec::new()
    } else {
        p.split('/').map(String::from).collect()
    }
}

fn file(path: &str, file_type: &str, display_name: &str) -> ClassifiedFile {
    ClassifiedFile {
        path: dir(path),
        file_type: file_type.to_string(),
        display_name: display_name.to_string(),
    }
}

fn count(s: &DirSummaries, d: &str, t: &str) -> i64 {
    s.count(&dir(d), &t.to_string())
}

fn scenario_a() -> Vec<ClassifiedFile> {
    vec![
        file("a/x.png", "png", "PNG image"),
        file("a/y.png", "png", "PNG image"),
        file("a/b/z.png", "png", "PNG image"),
        file("c.txt", "text", "Text"),
    ]
}

#[test]
fn scenario_a_direct() {
    let s = compute_dir_summaries(&scenario_a(), false);
    assert_eq!(s.version, DIR_SUMMARY_VERSION);
    assert_eq!(count(&s, "a", "png"), 2);
    assert_eq!(count(&s, "a/b", "png"), 1);
    assert_eq!(count(&s, "", "text"), 1);
    assert_eq!(count(&s, "", "png"), 0);
    assert_eq!(count(&s, "a", "text"), 0);
    assert_eq!(s.len(), 3);
}

#[test]
fn scenario_a_recursive() {
    let s = compute_dir_summaries(&scenario_a(), true);
    assert_eq!(s.version, DIR_SUMMARY_VERSION);
    assert_eq!(count(&s, "a", "png"), 3);
    assert_eq!(count(&s, "a/b", "png"), 1);
    assert_eq!(count(&s, "", "png"), 3);
    assert_eq!(count(&s, "", "text"), 1);
    assert_eq!(count(&s, "a", "text"), 0);
    assert_eq!(s.len(), 4);
}

#[test]
fn recursive_is_direct_plus_children() {
    let files = scenario_a();
    let direct = compute_dir_summaries(&files, false);
    let rec = compute_dir_summaries(&files, true);
    assert_eq!(
        count(&rec, "a", "png"),
        count(&direct, "a", "png") + count(&rec, "a/b", "png")
    );
    assert_eq!(
        count(&rec, "", "png"),
        count(&direct, "", "png") + count(&rec, "a", "png")
    );
}

#[test]
fn root_total_is_number_of_classified_files() {
    let mut files = scenario_a();
    files.push(file("d/e/f/g.bin", "bin", "Binary"));
    files.push(file("d/unknown", "", ""));
    let s = compute_dir_summaries(&files, true);
    let root_total: i64 = s
        .summaries
        .iter()
        .filter(|e| e.dir.is_empty())
        .map(|e| e.info.count)
        .sum();
    assert_eq!(root_total, 5);
    assert_eq!(count(&s, "d/e", "bin"), 1);
    assert_eq!(count(&s, "d/e/f", "bin"), 1);
}

#[test]
fn unclassified_files_count_nowhere() {
    let files = vec![file("a/x", "", ""), file("y", "", ""), file("b/c/z", "", "")];
    assert_eq!(compute_dir_summaries(&files, false).len(), 0);
    assert_eq!(compute_dir_summaries(&files, true).len(), 0);

    let mut mixed = scenario_a();
    mixed.insert(1, file("a/q", "", "unknown"));
    let s = compute_dir_summaries(&mixed, false);
    assert_eq!(count(&s, "a", "png"), 2);
    assert_eq!(count(&s, "a", ""), 0);
    assert_eq!(s.len(), 3);
}

#[test]
fn empty_listing_gives_no_entries() {
    let files: Vec<ClassifiedFile> = Vec::new();
    assert_eq!(compute_dir_summaries(&files, false).len(), 0);
    assert_eq!(compute_dir_summaries(&files, true).len(), 0);
}

#[test]
fn first_display_name_wins() {
    let files = vec![
        file("a/x.png", "png", "first"),
        file("a/y.png", "png", "second"),
    ];
    let s = build_direct_summaries(&files);
    assert_eq!(s.summaries.len(), 1);
    assert_eq!(s.summaries[0].info.display_name, "first");
    assert_eq!(s.summaries[0].info.count, 2);
}

#[test]
fn roll_up_reaches_root_from_deep_directory() {
    let files = vec![file("p/q/r/s/t.rs", "rust", "Rust source")];
    let direct = build_direct_summaries(&files);
    let rec = roll_up(&direct);
    for d in ["", "p", "p/q", "p/q/r", "p/q/r/s"] {
        assert_eq!(count(&rec, d, "rust"), 1);
    }
    assert_eq!(count(&rec, "p/q/r/s/t.rs", "rust"), 0);
    assert_eq!(rec.len(), 5);
}

#[test]
fn file_at_root_counts_in_root() {
    let s = compute_dir_summaries(&vec![file("README", "text", "Text")], false);
    assert_eq!(count(&s, "", "text"), 1);
}

fn stored(version: i64) -> Result<DirSummaries, MalformedPayload> {
    let mut s = compute_dir_summaries(&scenario_a(), false);
    s.version = version;
    Ok(s)
}

#[test]
fn reusable_needs_decode_and_version() {
    assert!(is_reusable(&stored(DIR_SUMMARY_VERSION), DIR_SUMMARY_VERSION));
    assert!(!is_reusable(&stored(DIR_SUMMARY_VERSION - 1), DIR_SUMMARY_VERSION));
    assert!(!is_reusable(&stored(DIR_SUMMARY_VERSION + 7), DIR_SUMMARY_VERSION));
    assert!(!is_reusable(&Err(MalformedPayload {}), DIR_SUMMARY_VERSION));
    assert!(is_reusable(&stored(5), 5));
}

#[test]
fn no_cache_never_touches_store() {
    assert!(!should_read_cache(true));
    assert!(should_read_cache(false));
    let expected = CachePlan::Recompute { write_back: false, force_overwrite: true };
    assert_eq!(plan_invocation(true, &None), expected);
    assert_eq!(plan_invocation(true, &Some(stored(DIR_SUMMARY_VERSION))), expected);
}

#[test]
fn stale_version_recomputes_and_overwrites() {
    let plan = plan_invocation(false, &Some(stored(DIR_SUMMARY_VERSION - 1)));
    assert_eq!(plan, CachePlan::Recompute { write_back: true, force_overwrite: true });
}

#[test]
fn malformed_or_missing_payload_recomputes() {
    let expected = CachePlan::Recompute { write_back: true, force_overwrite: true };
    assert_eq!(plan_invocation(false, &Some(Err(MalformedPayload {}))), expected);
    assert_eq!(plan_invocation(false, &None), expected);
}

#[test]
fn current_payload_is_reused() {
    assert_eq!(plan_invocation(false, &Some(stored(DIR_SUMMARY_VERSION))), CachePlan::Reuse);
}

#[test]
fn notes_ref_follows_mode() {
    let mut args = DirSummaryArgs { reference: "HEAD".to_string(), no_cache: false, recursive: false };
    assert_eq!(args.notes_ref(), "refs/notes/xet/dir-summary");
    args.recursive = true;
    assert_eq!(args.notes_ref(), "refs/notes/xet/dir-summary-recursive");
}

#[test]
fn default_summaries_are_empty_and_current() {
    let d = DirSummaries::default();
    assert_eq!(d.version, DIR_SUMMARY_VERSION);
    assert_eq!(d.len(), 0);
}

#[test]
fn roll_up_takes_name_from_first_direct_entry() {
    let files = vec![
        file("a/b/x.png", "png", "from b"),
        file("a/y.png", "png", "from a"),
    ];
    let rec = compute_dir_summaries(&files, true);
    for e in &rec.summaries {
        assert_eq!(e.info.display_name, "from b");
    }
    assert_eq!(count(&rec, "a", "png"), 2);
    assert_eq!(count(&rec, "a/b", "png"), 1);
}

#[test]
fn counts_accumulate_over_many_files() {
    let files: Vec<ClassifiedFile> = (0..50).map(|i| file(&format!("d/f{i}"), "t", "T")).collect();
    let direct = compute_dir_summaries(&files, false);
    assert_eq!(count(&direct, "d", "t"), 50);
    let rec = compute_dir_summaries(&files, true);
    assert_eq!(count(&rec, "", "t"), 50);
    assert_eq!(count(&rec, "d", "t"), 50);
}
