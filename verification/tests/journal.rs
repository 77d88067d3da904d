use std::path::PathBuf;

use wm::cloak_journal::{
    journal_dir, parse_entries, serialize_entries, uncloak_entry, CloakJournal, Recovery,
    RecoveryAction, UncloakReply, UncloakStage, HOME_CONFIG_DIR, JOURNAL_FILE_NAME,
};

/// A path for a test journal.
fn journal_file() -> PathBuf {
    PathBuf::from("config").join(JOURNAL_FILE_NAME)
}

/// Records entries and plays the journal file, whose new contents are
/// returned if it was rewritten.
fn record(journal: &mut CloakJournal, entries: Vec<(isize, String)>) -> Option<String> {
    let write = journal.record(entries)?;
    let contents = write.contents.clone();
    journal.written(write);
    Some(contents)
}

/// A window that a recovery meets.
struct Window {
    handle: isize,
    cloaked: Option<bool>,
    process: Option<&'static str>,
    uncloaks: bool,
}

/// Runs a recovery among `windows`, and returns the handles that it asked
/// to be uncloaked and whether it asked for the journal to be deleted.
fn run(recovery: &mut Recovery, windows: &[Window]) -> (Vec<isize>, bool) {
    let find = |handle: isize| windows.iter().find(|window| window.handle == handle);
    let mut asked = Vec::new();
    loop {
        let reply = match recovery.action() {
            RecoveryAction::IsValid(handle) => UncloakReply::Valid(find(handle).is_some()),
            RecoveryAction::IsCloaked(handle) => {
                UncloakReply::Cloaked(find(handle).and_then(|window| window.cloaked))
            }
            RecoveryAction::ProcessName(handle) => UncloakReply::ProcessName(
                find(handle).and_then(|window| window.process).map(|name| name.to_string()),
            ),
            RecoveryAction::Uncloak(handle) => {
                asked.push(handle);
                UncloakReply::Uncloaked(find(handle).is_some_and(|window| window.uncloaks))
            }
            RecoveryAction::Finish { delete_journal } => return (asked, delete_journal),
        };
        recovery.reply(&reply);
    }
}

#[test]
fn record_round_trips_through_the_journal_file() {
    let mut journal = CloakJournal::at(journal_file());
    let entries = vec![
        (395_510_isize, "alacritty".to_string()),
        (3_214_098_isize, "Code".to_string()),
    ];

    let contents = record(&mut journal, entries.clone()).unwrap_or_default();

    assert_eq!(parse_entries(&contents), entries);
}

#[test]
fn malformed_lines_are_skipped() {
    let contents =
        "12\talacritty\nnot-a-handle\tfirefox\nno-tab-separator\n\n34\t\n  56\tCode\n";

    assert_eq!(
        parse_entries(contents),
        vec![(12_isize, "alacritty".to_string()), (56_isize, "Code".to_string())]
    );
}

#[test]
fn unchanged_set_does_not_rewrite_the_journal() {
    let mut journal = CloakJournal::at(journal_file());
    let entries = vec![(7_isize, "alacritty".to_string())];

    record(&mut journal, entries.clone());
    assert_eq!(journal.writes(), 1);

    record(&mut journal, entries.clone());
    assert_eq!(journal.writes(), 1);

    record(&mut journal, vec![(8_isize, "alacritty".to_string())]);
    assert_eq!(journal.writes(), 2);
}

#[test]
fn serialization_uses_tab_separated_lines() {
    let entries = vec![(1_isize, "a".to_string()), (2, "b".to_string())];

    assert_eq!(serialize_entries(&entries), "1\ta\n2\tb\n");
}

#[test]
fn recovering_a_missing_journal_is_a_no_op() {
    let mut recovery = CloakJournal::recover(None);
    let (asked, delete_journal) = run(&mut recovery, &[]);

    assert_eq!(recovery.recovered(), 0);
    assert!(asked.is_empty());
    assert!(!delete_journal);
}

#[test]
fn the_journal_lies_beside_the_config_file() {
    let beside = PathBuf::from("elsewhere");
    let home = PathBuf::from("home").join(HOME_CONFIG_DIR);

    assert_eq!(journal_dir(Some(beside.clone()), Some(home.clone())), Some(beside.clone()));
    assert_eq!(journal_dir(Some(beside.clone()), None), Some(beside));
    assert_eq!(journal_dir(None, Some(home.clone())), Some(home));
    assert_eq!(journal_dir(None, None), None);
    assert_eq!(JOURNAL_FILE_NAME, "cloaked-windows.txt");
    assert_eq!(HOME_CONFIG_DIR, ".glzr/glazewm");
}

#[test]
fn a_journal_knows_its_file() {
    assert_eq!(CloakJournal::at(journal_file()).path(), Some(&journal_file()));
    assert_eq!(CloakJournal::new(Some(journal_file())).path(), Some(&journal_file()));
    assert_eq!(CloakJournal::new(None).path(), None);
}

#[test]
fn a_journal_without_a_file_writes_nothing() {
    let mut journal = CloakJournal::new(None);

    assert!(journal.record(vec![(7, "a".to_string())]).is_none());
    assert!(journal.record(vec![(8, "b".to_string())]).is_none());
    assert_eq!(journal.writes(), 0);
}

#[test]
fn a_failed_write_is_tried_again() {
    let mut journal = CloakJournal::at(journal_file());
    let entries = vec![(7_isize, "a".to_string())];

    // The write is asked for, and nothing is reported back.
    assert!(journal.record(entries.clone()).is_some());
    assert_eq!(journal.writes(), 0);
    assert!(journal.record(entries).is_some());
}

#[test]
fn an_empty_set_empties_the_journal() {
    let mut journal = CloakJournal::at(journal_file());

    // Nothing has been written yet, so nothing has to be.
    assert_eq!(record(&mut journal, Vec::new()), None);

    record(&mut journal, vec![(7, "a".to_string())]);
    assert_eq!(record(&mut journal, Vec::new()), Some(String::new()));
    assert_eq!(journal.writes(), 2);
}

#[test]
fn extreme_handles_round_trip() {
    let entries = vec![
        (isize::MAX, "max".to_string()),
        (isize::MIN, "min".to_string()),
        (0, "zero".to_string()),
        (-1, "with a\ttab and a space ".to_string()),
    ];
    let contents = serialize_entries(&entries);

    assert_eq!(
        contents,
        format!("{}\tmax\n{}\tmin\n0\tzero\n-1\twith a\ttab and a space \n", isize::MAX, isize::MIN)
    );
    assert_eq!(parse_entries(&contents), entries);
}

#[test]
fn handles_out_of_range_are_skipped() {
    let contents = format!("{}0\ta\n-{}0\tb\n99999999999999999999999\tc\n", isize::MAX, isize::MAX);

    assert_eq!(parse_entries(&contents), Vec::new());
}

#[test]
fn handles_are_read_with_signs_and_white_space() {
    let contents = "+5\ta\r\n -6 \tb\n\u{a0}7\u{2003}\tc\n--8\td\n+\te\n8 9\tf\n\tg\n10\th";

    assert_eq!(
        parse_entries(contents),
        vec![
            (5_isize, "a".to_string()),
            (-6, "b".to_string()),
            (7, "c".to_string()),
            (10, "h".to_string())
        ]
    );
}

#[test]
fn a_name_that_ends_in_a_carriage_return_loses_it() {
    let entries = vec![(1_isize, "a\r".to_string())];

    assert_eq!(parse_entries(&serialize_entries(&entries)), vec![(1_isize, "a".to_string())]);
}

#[test]
fn recovery_uncloaks_only_what_was_left_cloaked() {
    let contents = "1\ta\n2\tb\n3\tc\n4\td\n5\te\n6\tf\n7\tg\nbroken\n";
    let window = |handle, cloaked, process, uncloaks| Window { handle, cloaked, process, uncloaks };
    let windows = [
        window(1, Some(true), Some("a"), true),
        // Not cloaked any more.
        window(2, Some(false), Some("b"), true),
        // It cannot be told whether it is.
        window(3, None, Some("c"), true),
        // The handle now belongs to another process.
        window(4, Some(true), Some("other"), true),
        // The process cannot be told.
        window(5, Some(true), None, true),
        // It cannot be uncloaked.
        window(6, Some(true), Some("f"), false),
        // The window with handle 7 is gone.
    ];
    let mut recovery = CloakJournal::recover(Some(contents));
    let (asked, delete_journal) = run(&mut recovery, &windows);

    assert_eq!(asked, vec![1, 6]);
    assert_eq!(recovery.recovered(), 1);
    assert_eq!(recovery.journalled(), 7);
    assert!(delete_journal);
}

#[test]
fn recovering_an_empty_journal_deletes_it() {
    let mut recovery = CloakJournal::recover(Some(""));

    assert_eq!(run(&mut recovery, &[]), (Vec::new(), true));
    assert_eq!(recovery.recovered(), 0);
    assert_eq!(recovery.journalled(), 0);
}

#[test]
fn a_reply_to_another_question_is_ignored() {
    let reply = UncloakReply::Uncloaked(true);

    assert_eq!(uncloak_entry(UncloakStage::CheckValid, "a", &reply), UncloakStage::CheckValid);
    assert_eq!(uncloak_entry(UncloakStage::Uncloak, "a", &reply), UncloakStage::Done(true));
    assert_eq!(
        uncloak_entry(UncloakStage::CheckProcess, "a", &UncloakReply::ProcessName(None)),
        UncloakStage::Done(false)
    );
}
