use bcbc::store::{
    parse_hash_store, reconcile, remove_calculated_file, remove_hash_info_for_missing_file,
    to_hash_file_contents, HashStore,
};
use bcbc::target::{calc_total_size, TargetFile};
use bcbc::worker::{file_step, plan_hashing, FileHasher, FileOutcome, FileStep};

fn digest_of(data: &[u8]) -> [u8; 16] {
    let mut h = FileHasher::new();
    h.read_chunk(0, data);
    h.finish()
}

fn targets(paths: &[(&str, u64)]) -> Vec<TargetFile> {
    paths
        .iter()
        .map(|(p, s)| TargetFile::new(p.to_string(), *s))
        .collect()
}

#[test]
fn digest_of_chunks_is_digest_of_whole() {
    let mut h = FileHasher::new();
    let e = h.read_chunk(3, b"abc");
    assert_eq!(e.disk_index(), 3);
    h.read_chunk(3, b"xyz");
    h.read_chunk(3, b"123");
    assert_eq!(hex::encode(h.finish()), "05d58ef1269251a11ec4d18f64d3acba");
}

#[test]
fn normalized_path_is_nfc() {
    let decomposed = "\u{30cf}\u{309a}\u{30ef}\u{30fc}\u{30cf}\u{3099}\u{30e9}\u{30f3}\u{30b9}";
    let composed = "\u{30d1}\u{30ef}\u{30fc}\u{30d0}\u{30e9}\u{30f3}\u{30b9}";
    assert_eq!(decomposed.len(), 27);
    let t = TargetFile::new(decomposed.to_string(), 1);
    assert_eq!(t.actual_path(), decomposed);
    assert_eq!(t.normalized_path(), composed);
    assert_eq!(t.normalized_path().len(), 21);
}

#[test]
fn path_in_other_normal_form_counts_as_hashed() {
    let composed = "caf\u{e9}.txt";
    let decomposed = "cafe\u{301}.txt";
    let mut store = HashStore::new();
    let first = TargetFile::new(composed.to_string(), 4);
    store.insert(first.normalized_path().to_string(), digest_of(b"data"));
    let found = targets(&[(decomposed, 4)]);
    let (pruned, todo) = reconcile(store, found);
    assert_eq!(pruned.len(), 1);
    assert!(todo.is_empty());
}

#[test]
fn total_size_sums_sizes() {
    assert_eq!(calc_total_size(&targets(&[("a", 3), ("b", 4)])), 7);
    assert_eq!(calc_total_size(&targets(&[])), 0);
    assert_eq!(calc_total_size(&targets(&[("a", u64::MAX), ("b", 1)])), u64::MAX);
}

#[test]
fn deleted_file_record_is_pruned() {
    let mut store = HashStore::new();
    store.insert("docs/a.txt".to_string(), digest_of(b"abc"));
    store.insert("docs/gone.txt".to_string(), digest_of(b"old"));
    let found = targets(&[("docs/a.txt", 3)]);
    let pruned = remove_hash_info_for_missing_file(store, &found);
    assert_eq!(pruned.len(), 1);
    assert!(!pruned.contains(&"docs/gone.txt".to_string()));
    let text = to_hash_file_contents(&pruned);
    assert_eq!(text, "docs/a.txt:900150983cd24fb0d6963f7d28e17f72\n");
    let reloaded = parse_hash_store(&text, "s").ok().unwrap();
    assert!(!reloaded.contains(&"docs/gone.txt".to_string()));
}

#[test]
fn hashed_files_are_left_out() {
    let mut store = HashStore::new();
    store.insert("b".to_string(), digest_of(b"b"));
    let left = remove_calculated_file(targets(&[("a", 1), ("b", 2), ("c", 3)]), &store);
    let names: Vec<&str> = left.iter().map(|t| t.normalized_path()).collect();
    assert_eq!(names, vec!["a", "c"]);
}

#[test]
fn first_run_then_second_run_hashes_nothing() {
    let found = targets(&[("docs/a.txt", 3), ("docs/b.txt", 3)]);
    let plan = plan_hashing(0, HashStore::new(), found);
    assert_eq!(plan.rewrite, "");
    assert_eq!(plan.targets.len(), 2);
    assert_eq!(plan.announcement.disk_index(), 0);
    let mut text = plan.rewrite.clone();
    for (t, data) in plan.targets.iter().zip([b"abc", b"xyz"]) {
        match file_step(0, t.normalized_path(), FileOutcome::Hashed(digest_of(data))).0 {
            FileStep::Append(line) => text.push_str(&line),
            FileStep::Skip(_) => panic!("the file was hashed"),
        }
    }
    let lines: Vec<&str> = text.lines().collect();
    assert_eq!(lines.len(), 2);
    assert!(lines[0].starts_with("docs/a.txt:"));
    assert_eq!(lines[0].len(), "docs/a.txt:".len() + 32);
    let reloaded = parse_hash_store(&text, "A1").ok().unwrap();
    let second = plan_hashing(0, reloaded, targets(&[("docs/a.txt", 3), ("docs/b.txt", 3)]));
    assert!(second.targets.is_empty());
    assert_eq!(
        second.rewrite,
        "docs/a.txt:900150983cd24fb0d6963f7d28e17f72\ndocs/b.txt:d16fb36f0911f878998c136191af705e\n"
    );
}
