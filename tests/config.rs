use bcbc::disk::{
    add_missing_disk_file_errors, index_disk_info, list_disk_files, list_disk_files_by,
    list_disk_info, raise_errors, DiskFileRead,
};
use bcbc::error::{with_line_number, Error};
use bcbc::filter::{filter_conf_filepath, load_filters, parse_filter_conf, parse_filter_conf_line};
use bcbc::options::{require_env, tilde_to_home, RunOptions};
use bcbc::worker::{backup_file_path, backup_to_discard, file_step, store_file_path, FileOutcome, FileStep};

fn strings(v: &[&str]) -> Vec<String> {
    v.iter().map(|s| s.to_string()).collect()
}

#[test]
fn line_number_is_appended() {
    let r: Result<(), Vec<Error>> = Err(Error::new("bad").with("cause").as_errors());
    let errors = with_line_number(r, "out/A1", 12).err().unwrap();
    assert_eq!(errors[0].message(), "bad[out/A1:12]");
    assert_eq!(errors[0].additional(), Some("cause"));
    assert_eq!(with_line_number(Ok::<u8, Vec<Error>>(4), "f", 1).ok(), Some(4));
}

#[test]
fn filter_rules_first_match_decides() {
    let filters = parse_filter_conf("# photos are skipped\n-\\.jpg$\n+^docs/\n").ok().unwrap();
    assert!(filters.is_target("docs/a.txt"));
    assert!(!filters.is_target("docs/a.jpg"));
    assert!(!filters.is_target("src/main.rs"));
}

#[test]
fn filter_rules_compare_nfc_paths() {
    let filters = load_filters("+caf\u{e9}".as_bytes().to_vec()).ok().unwrap();
    assert!(filters.is_target("cafe\u{301}/menu.txt"));
}

#[test]
fn filter_rule_errors_carry_line_numbers() {
    let errors = parse_filter_conf("x\n+\n\n+(\n").err().unwrap();
    assert_eq!(errors.len(), 3);
    assert_eq!(
        errors[0].message(),
        "malformed filter configuration: line 1: the line starts with neither '+' nor '-'"
    );
    assert_eq!(
        errors[1].message(),
        "malformed filter configuration: line 2: the line has no pattern"
    );
    assert_eq!(
        errors[2].message(),
        "malformed filter configuration: line 4: the pattern is not a valid regular expression"
    );
}

#[test]
fn filter_line_kinds() {
    assert!(parse_filter_conf_line("#+x").unwrap().is_none());
    assert!(parse_filter_conf_line("   ").unwrap().is_none());
    assert!(parse_filter_conf_line("  +abc  ").unwrap().is_some());
    assert!(parse_filter_conf_line(" #x").is_err());
    assert!(load_filters(vec![0xff]).is_err());
    assert_eq!(filter_conf_filepath("/h/configs"), "/h/configs/filter.conf");
}

#[test]
fn disks_are_read_and_numbered() {
    let disks = list_disk_info(
        strings(&["/d/a", "/d/b"]),
        vec![
            DiskFileRead::Contents(b"A1\n".to_vec()),
            DiskFileRead::Contents(b" B22 ".to_vec()),
        ],
    )
    .ok()
    .unwrap();
    assert_eq!(disks.len(), 2);
    assert_eq!((disks[0].index, disks[0].id.as_str(), disks[0].root_path.as_str()), (0, "A1", "/d/a"));
    assert_eq!((disks[1].index, disks[1].id.as_str(), disks[1].root_path.as_str()), (1, "B22", "/d/b"));
}

#[test]
fn every_disk_problem_is_reported() {
    let errors = list_disk_info(
        strings(&["/d/a", "/d/b", "/d/c"]),
        vec![
            DiskFileRead::Missing,
            DiskFileRead::Contents(b"lower1".to_vec()),
            DiskFileRead::Contents(b"C3".to_vec()),
        ],
    )
    .err()
    .unwrap();
    assert_eq!(errors.len(), 2);
}

#[test]
fn disk_helpers() {
    assert_eq!(list_disk_files_by(&strings(&["/m/a", "/m/b/"])), strings(&["/m/a/disk", "/m/b/disk"]));
    assert_eq!(list_disk_files(strings(&[]), Some("/here".to_string())).ok().unwrap(), strings(&["/here"]));
    assert!(list_disk_files(strings(&[]), None).is_err());
    assert_eq!(list_disk_files(strings(&["/x"]), None).ok().unwrap(), strings(&["/x"]));
    let mut errors = Vec::new();
    add_missing_disk_file_errors(&mut errors, &strings(&["/m/a"]));
    assert_eq!(errors[0].message(), "no disk file in the given folder: /m/a/disk");
    assert!(raise_errors(errors).is_err());
    assert!(raise_errors(Vec::new()).is_ok());
    let mut list = list_disk_info(strings(&["/a"]), vec![DiskFileRead::Contents(b"Z9".to_vec())]).ok().unwrap();
    list[0].index = 7;
    index_disk_info(&mut list);
    assert_eq!(list[0].index, 0);
}

#[test]
fn run_options_from_args_and_env() {
    let options = RunOptions::with_home(
        "/cur".to_string(),
        strings(&["bcbc", "~/disk1", "/mnt/x"]),
        vec![("BCBCHOME".to_string(), "~/bcbc".to_string()), ("CARGO_PKG_VERSION".to_string(), "0.1.0".to_string())],
        Some("/home/u".to_string()),
    )
    .ok()
    .unwrap();
    assert_eq!(options.current_folder(), "/cur");
    assert_eq!(options.disk_roots(), &strings(&["/home/u/disk1", "/mnt/x"]));
    assert_eq!(options.output_folder(), "/home/u/bcbc/out");
    assert_eq!(options.config_folder(), "/home/u/bcbc/configs");
    assert_eq!(options.required_env("CARGO_PKG_VERSION").ok().unwrap(), "0.1.0");
    assert!(options.required_env("NOPE").is_err());
}

#[test]
fn run_options_need_home_variable() {
    let errors = RunOptions::with_home("/c".to_string(), strings(&["bcbc"]), vec![], None).err().unwrap();
    assert_eq!(errors[0].message(), "the environment variable is not set: BCBCHOME");
    let envs = vec![("A".to_string(), "1".to_string())];
    assert_eq!(require_env(&envs, "A").ok().unwrap(), "1");
}

#[test]
fn tilde_needs_home() {
    assert_eq!(tilde_to_home("~", &Some("/h".to_string())), Some("/h".to_string()));
    assert_eq!(tilde_to_home("~x", &None), Some("~x".to_string()));
    assert_eq!(tilde_to_home("~/a", &None), None);
}

#[test]
fn worker_paths_and_steps() {
    assert_eq!(store_file_path("/h/out", "A1"), "/h/out/A1");
    assert_eq!(backup_file_path("/h/out/A1"), "/h/out/A1.backup");
    let mut d = [0u8; 16];
    d[15] = 0xab;
    let (step, closing) = file_step(2, "docs/a.txt", FileOutcome::Hashed(d));
    assert_eq!(closing.disk_index(), 2);
    assert_eq!(closing.message_type(), bcbc::progress::ProgressUpdateType::Done);
    match step {
        FileStep::Append(line) => assert_eq!(line, "docs/a.txt:000000000000000000000000000000ab\n"),
        FileStep::Skip(_) => panic!("expected a line"),
    }
    let (step, closing) = file_step(2, "x", FileOutcome::OpenFailed("denied".to_string()));
    assert_eq!(closing.message_type(), bcbc::progress::ProgressUpdateType::Done);
    match step {
        FileStep::Skip(e) => {
            assert_eq!(e.message(), "the target file could not be opened");
            assert_eq!(e.additional(), Some("denied"));
        }
        FileStep::Append(_) => panic!("expected an error"),
    }
}

#[test]
fn backup_stays_when_rewrite_fails() {
    let failed: Result<(), Vec<Error>> = Err(Error::new("disk full").as_errors());
    assert_eq!(backup_to_discard(Some("s.backup".to_string()), &failed), None);
    assert_eq!(backup_to_discard(Some("s.backup".to_string()), &Ok(())), Some("s.backup".to_string()));
    assert_eq!(backup_to_discard(None, &Ok(())), None);
}

#[test]
fn worker_result_collects_file_errors() {
    assert!(bcbc::worker::finish_worker(Vec::new()).is_ok());
    let errors = bcbc::worker::finish_worker(vec![Error::new("a"), Error::new("b")]).err().unwrap();
    assert_eq!(errors.len(), 2);
}

#[test]
fn run_options_without_tilde() {
    let options = RunOptions::new(
        "/cur".to_string(),
        strings(&["bcbc", "/mnt/a"]),
        vec![("BCBCHOME".to_string(), "/opt/bcbc".to_string())],
    )
    .ok()
    .unwrap();
    assert_eq!(options.output_folder(), "/opt/bcbc/out");
    assert_eq!(options.config_folder(), "/opt/bcbc/configs");
    assert_eq!(options.disk_roots(), &strings(&["/mnt/a"]));
}

#[test]
fn missing_disk_file_names_its_path() {
    let errors = list_disk_info(strings(&["/d/a"]), vec![DiskFileRead::Missing]).err().unwrap();
    assert_eq!(errors.len(), 1);
    assert_eq!(errors[0].message(), "no disk file in the given folder: /d/a/disk");
    let errors = list_disk_info(
        strings(&["/d/b"]),
        vec![DiskFileRead::Unreadable("denied".to_string())],
    )
    .err()
    .unwrap();
    assert_eq!(errors[0].message(), "the disk file could not be read");
    assert_eq!(errors[0].additional(), Some("denied"));
}

#[test]
fn existence_split_keeps_order() {
    let (present, missing) = bcbc::disk::divide_disk_files_by_existence(
        strings(&["/a", "/b", "/c"]),
        &vec![
            DiskFileRead::Contents(Vec::new()),
            DiskFileRead::Missing,
            DiskFileRead::Unreadable("x".to_string()),
        ],
    );
    assert_eq!(present, strings(&["/a", "/c"]));
    assert_eq!(missing, strings(&["/b"]));
}

#[test]
fn store_failure_keeps_file_errors() {
    let errors = bcbc::worker::store_failed(vec![Error::new("a")], Error::new("disk full"));
    assert_eq!(errors.len(), 2);
    assert_eq!(errors[0].message(), "a");
    assert_eq!(errors[1].message(), "disk full");
}

#[test]
fn one_error_per_bad_disk_in_order() {
    let errors = list_disk_info(
        strings(&["/d/a", "/d/b", "/d/c", "/d/d"]),
        vec![
            DiskFileRead::Contents(b"x".to_vec()),
            DiskFileRead::Contents(b"B2".to_vec()),
            DiskFileRead::Missing,
            DiskFileRead::Contents(b"D\xd9\xa3".to_vec()),
        ],
    )
    .err()
    .unwrap();
    assert_eq!(errors.len(), 3);
    assert_eq!(errors[0].message(), "the disk file does not hold a disk id");
    assert_eq!(errors[1].message(), "no disk file in the given folder: /d/c/disk");
    assert_eq!(errors[2].message(), "the disk file does not hold a disk id");
}

#[test]
fn disk_id_is_trimmed_of_unicode_white_space() {
    let disks = list_disk_info(
        strings(&["/d/a"]),
        vec![DiskFileRead::Contents("\u{a0}A1\u{3000}\n".as_bytes().to_vec())],
    )
    .ok()
    .unwrap();
    assert_eq!(disks[0].id, "A1");
}
