use bcbc::progress::{DiskProgressStatus, ProgressSummary, ProgressUpdate};

fn feed(summary: &mut ProgressSummary, events: Vec<ProgressUpdate>) -> Result<(), String> {
    for e in events {
        if let Err(errors) = summary.update(e) {
            return Err(errors[0].message().to_string());
        }
    }
    Ok(())
}

#[test]
fn worker_sequence_is_accepted() {
    let mut s = ProgressSummary::new();
    let events = vec![
        ProgressUpdate::init(0, "A1".to_string()),
        ProgressUpdate::list_targets(0, 2, 6),
        ProgressUpdate::new_file(0, "docs/a.txt".to_string()),
        ProgressUpdate::read(0, 3),
        ProgressUpdate::done(0),
        ProgressUpdate::new_file(0, "docs/b.txt".to_string()),
        ProgressUpdate::read(0, 3),
        ProgressUpdate::done(0),
    ];
    assert_eq!(feed(&mut s, events), Ok(()));
    let d = s.disk(0).unwrap();
    assert_eq!(d.status, DiskProgressStatus::WaitNewFile);
    assert_eq!(d.number_of_done_files, 2);
    assert_eq!(d.red_size, 6);
}

#[test]
fn interleaved_disks_are_accepted() {
    let mut s = ProgressSummary::new();
    let events = vec![
        ProgressUpdate::init(1, "B2".to_string()),
        ProgressUpdate::init(0, "A1".to_string()),
        ProgressUpdate::list_targets(1, 1, 10),
        ProgressUpdate::new_file(1, "x".to_string()),
        ProgressUpdate::list_targets(0, 0, 0),
        ProgressUpdate::read(1, 10),
        ProgressUpdate::done(1),
    ];
    assert_eq!(feed(&mut s, events), Ok(()));
    assert_eq!(s.len(), 2);
}

#[test]
fn read_before_new_file_is_rejected() {
    let mut s = ProgressSummary::new();
    let events = vec![
        ProgressUpdate::init(0, "A1".to_string()),
        ProgressUpdate::list_targets(0, 1, 1),
        ProgressUpdate::read(0, 1),
    ];
    assert_eq!(
        feed(&mut s, events),
        Err("unexpected progress update: status=WaitNewFile message_type=Read".to_string())
    );
}

#[test]
fn list_targets_before_init_is_rejected() {
    let mut s = ProgressSummary::new();
    let events = vec![ProgressUpdate::list_targets(2, 1, 1)];
    assert_eq!(
        feed(&mut s, events),
        Err("unexpected progress update: status=New message_type=ListTargets".to_string())
    );
    assert_eq!(s.len(), 3);
}

#[test]
fn new_file_without_done_is_rejected() {
    let mut s = ProgressSummary::new();
    let events = vec![
        ProgressUpdate::init(0, "A1".to_string()),
        ProgressUpdate::list_targets(0, 2, 2),
        ProgressUpdate::new_file(0, "a".to_string()),
        ProgressUpdate::new_file(0, "b".to_string()),
    ];
    assert!(feed(&mut s, events).is_err());
}

#[test]
fn status_check_names_status_and_kind() {
    let r = DiskProgressStatus::Calculating.check_status(&bcbc::progress::ProgressUpdateType::Init);
    assert_eq!(
        r.err().unwrap()[0].message(),
        "unexpected progress update: status=Calculating message_type=Init"
    );
    assert!(DiskProgressStatus::Calculating
        .check_status(&bcbc::progress::ProgressUpdateType::Done)
        .is_ok());
}

#[test]
fn single_disk_line() {
    let mut s = ProgressSummary::new();
    feed(
        &mut s,
        vec![
            ProgressUpdate::init(0, "A1".to_string()),
            ProgressUpdate::list_targets(0, 2, 6),
            ProgressUpdate::new_file(0, "docs/a.txt".to_string()),
            ProgressUpdate::read(0, 3),
        ],
    )
    .unwrap();
    assert_eq!(
        s.log_line(10).ok().unwrap(),
        "A1     0/    2  50.00%   0:00:10 docs/a.txt"
    );
}

#[test]
fn single_disk_line_before_listing() {
    let mut s = ProgressSummary::new();
    feed(&mut s, vec![ProgressUpdate::init(0, "A1".to_string())]).unwrap();
    assert_eq!(s.log_line(5).ok().unwrap(), "A1     0/-----   -.--%   -:--:--");
}

#[test]
fn empty_disk_has_unknown_remaining_time() {
    let mut s = ProgressSummary::new();
    feed(
        &mut s,
        vec![
            ProgressUpdate::init(0, "A1".to_string()),
            ProgressUpdate::list_targets(0, 0, 0),
        ],
    )
    .unwrap();
    assert_eq!(s.log_line(100).ok().unwrap(), "A1     0/    0   -.--%   -:--:--");
}

#[test]
fn multiple_disk_line() {
    let mut s = ProgressSummary::new();
    feed(
        &mut s,
        vec![
            ProgressUpdate::init(0, "A1".to_string()),
            ProgressUpdate::list_targets(0, 1, 100),
            ProgressUpdate::new_file(0, "f".to_string()),
            ProgressUpdate::read(0, 25),
            ProgressUpdate::init(1, "B2".to_string()),
        ],
    )
    .unwrap();
    assert_eq!(s.log_line(30).ok().unwrap(), "A1  25.00% / B2   -.--% -   0:01:30");
}

#[test]
fn multiple_disk_line_skips_new_disks() {
    let mut s = ProgressSummary::new();
    feed(&mut s, vec![ProgressUpdate::init(2, "C3".to_string())]).unwrap();
    assert_eq!(s.len(), 3);
    assert_eq!(s.log_line(1).ok().unwrap(), "C3   -.--%");
}

#[test]
fn no_disk_line_is_an_error() {
    let s = ProgressSummary::new();
    assert_eq!(
        s.log_line(0).err().unwrap()[0].message(),
        "no disk progress to report"
    );
}

#[test]
fn hours_minutes_seconds() {
    assert_eq!(
        bcbc::progress::seconds_to_hms(2 * 3600 + 19 * 60 + 37),
        (2, 19, 37)
    );
}

#[test]
fn remaining_time_extrapolates() {
    let mut s = ProgressSummary::new();
    feed(
        &mut s,
        vec![
            ProgressUpdate::init(0, "A1".to_string()),
            ProgressUpdate::list_targets(0, 1, 400),
            ProgressUpdate::new_file(0, "f".to_string()),
            ProgressUpdate::read(0, 100),
        ],
    )
    .unwrap();
    assert_eq!(s.disk(0).unwrap().remain_time_seconds(60), Some(180));
}

#[test]
fn skipped_file_closed_with_done_is_accepted() {
    let mut s = ProgressSummary::new();
    let events = vec![
        ProgressUpdate::init(0, "A1".to_string()),
        ProgressUpdate::list_targets(0, 3, 9),
        ProgressUpdate::new_file(0, "unreadable".to_string()),
        ProgressUpdate::done(0),
        ProgressUpdate::new_file(0, "half".to_string()),
        ProgressUpdate::read(0, 2),
        ProgressUpdate::done(0),
        ProgressUpdate::new_file(0, "ok".to_string()),
        ProgressUpdate::read(0, 3),
        ProgressUpdate::done(0),
    ];
    assert!(s.update_all(events).is_ok());
    assert_eq!(s.disk(0).unwrap().number_of_done_files, 3);
}

#[test]
fn batch_stops_at_first_violation() {
    let mut s = ProgressSummary::new();
    let events = vec![
        ProgressUpdate::init(0, "A1".to_string()),
        ProgressUpdate::read(0, 1),
        ProgressUpdate::init(1, "B1".to_string()),
    ];
    let errors = s.update_all(events).err().unwrap();
    assert_eq!(
        errors[0].message(),
        "unexpected progress update: status=Initialized message_type=Read"
    );
    assert_eq!(s.len(), 1);
}
