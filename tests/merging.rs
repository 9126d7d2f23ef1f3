use bcbc::merge::{
    group_hash_files, integrate_hash_files, merge_hash_files_contents, merged_file_name,
    select_hash_files,
};

fn strings(v: &[&str]) -> Vec<String> {
    v.iter().map(|s| s.to_string()).collect()
}

#[test]
fn merge_sorts_all_lines() {
    let merged = merge_hash_files_contents(&strings(&["b:2\na:1\n", "c:3\n"]));
    assert_eq!(merged, "a:1\nb:2\nc:3\n");
}

#[test]
fn merge_ignores_listing_order() {
    let one = merge_hash_files_contents(&strings(&["z:9\nm:5\n", "b:2\n", "x:1\n"]));
    let two = merge_hash_files_contents(&strings(&["x:1\n", "z:9\nm:5\n", "b:2\n"]));
    assert_eq!(one, two);
    assert_eq!(one, "b:2\nm:5\nx:1\nz:9\n");
}

#[test]
fn merge_orders_by_bytes() {
    let merged = merge_hash_files_contents(&strings(&["a\n\u{e9}\nB\n"]));
    assert_eq!(merged, "B\na\n\u{e9}\n");
}

#[test]
fn merge_of_nothing_is_empty() {
    assert_eq!(merge_hash_files_contents(&strings(&[])), "");
}

#[test]
fn store_names_follow_disk_id_pattern() {
    let selected =
        select_hash_files(strings(&["A1", "x", "A1.backup", "B22", "a1", "C", "D\u{0663}", "E7\n"]))
            .ok()
            .unwrap();
    assert_eq!(selected, strings(&["A1", "B22"]));
}

#[test]
fn groups_by_first_character() {
    let groups = group_hash_files(strings(&["A1", "B2", "A10"]));
    assert_eq!(groups.len(), 2);
    assert_eq!(groups[0].0, 'A');
    assert_eq!(groups[0].1, strings(&["A1", "A10"]));
    assert_eq!(groups[1].0, 'B');
    assert_eq!(groups[1].1, strings(&["B2"]));
}

#[test]
fn integrate_plans_groups() {
    let groups = integrate_hash_files(strings(&["A1", "A", "B2", "notes.txt", "A3"]))
        .ok()
        .unwrap();
    assert_eq!(groups.len(), 2);
    assert_eq!(groups[0].1, strings(&["A1", "A3"]));
    assert_eq!(merged_file_name(groups[1].0), "B");
}
