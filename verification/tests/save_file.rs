use shell_gui::path::PathStyle;
use shell_gui::save_data::{
    default_path, load_state, parent_to_create, recent_record, save_state, state_file, FILENAME,
};
use shell_gui::timestamp::Timestamp;
use shell_gui::types::RecentDir;

fn recent(path: &str, secs: i64, nanos: u32) -> RecentDir {
    RecentDir { path: path.to_string(), dt: Timestamp { secs, nanos } }
}

#[test]
fn where_the_state_lives() {
    assert_eq!(FILENAME, "shell_state.ss");
    assert_eq!(
        default_path(Some("/u/profile".to_string()), Some("/home/me".to_string()), PathStyle::Unix),
        Some("/u/profile/shell_state.ss".to_string())
    );
    assert_eq!(
        default_path(None, Some("/home/me/".to_string()), PathStyle::Unix),
        Some("/home/me/shell_state.ss".to_string())
    );
    assert_eq!(default_path(None, None, PathStyle::Unix), None);
    assert_eq!(state_file(None, None, PathStyle::Unix), "shell_state.ss");
    assert_eq!(state_file(None, Some("/h".to_string()), PathStyle::Unix), "/h/shell_state.ss");
}

#[test]
fn parents_to_create() {
    assert_eq!(parent_to_create("/home/me/x.ss", PathStyle::Unix), Some("/home/me".to_string()));
    assert_eq!(parent_to_create("x.ss", PathStyle::Unix), None);
    assert_eq!(parent_to_create("/", PathStyle::Unix), None);
}

#[test]
fn the_file_as_written() {
    let text = save_state(
        &vec!["/home/me".to_string(), "/a b".to_string()],
        &vec![recent("/tmp/x y", 0, 0), recent("/r", 1_700_000_000, 5_000_000)],
    );
    assert_eq!(
        text,
        "# Shell state — auto-generated. Do not edit while shell is running.\n\
         BOOKMARK /home/me\n\
         BOOKMARK /a b\n\
         RECENT_DIR 1970-01-01T00:00:00+00:00 /tmp/x y\n\
         RECENT_DIR 2023-11-14T22:13:20.005+00:00 /r\n"
    );
}

#[test]
fn what_is_saved_is_read_back() {
    let bookmarks = vec!["/home/me".to_string(), "/a b".to_string(), " /led".to_string()];
    let recents = vec![
        recent("/tmp/x y", 1_700_000_000, 123_456_789),
        recent("/old", -62_167_219_200, 0),
        recent("/late", 253_402_300_799, 999_999_999),
        recent("/leap", 1_483_228_799, 1_500_000_000),
    ];
    let (b, r) = load_state(Some(save_state(&bookmarks, &recents).as_str()));
    assert_eq!(b, bookmarks);
    assert_eq!(r.len(), 4);
    for (x, y) in r.iter().zip(recents.iter()) {
        assert_eq!(x.path, y.path);
        assert_eq!(x.dt, y.dt);
    }
}

#[test]
fn a_recent_record() {
    let t = Timestamp { secs: 7, nanos: 8 };
    let r = recent_record("  /a b ", Some(t)).unwrap();
    assert_eq!(r.path, "/a b ");
    assert_eq!(r.dt, t);
    assert!(recent_record(" /a", None).is_none());
}

#[test]
fn a_missing_file_is_an_empty_state() {
    let (b, r) = load_state(None);
    assert!(b.is_empty() && r.is_empty());
    let (b, r) = load_state(Some(""));
    assert!(b.is_empty() && r.is_empty());
}

#[test]
fn comments_blank_lines_and_unknown_tags_are_skipped() {
    let (b, r) = load_state(Some(
        "# a comment\n\n   \nWINDOW 3 4\nBOOKMARK\nBOOKMARK /x\r\n  BOOKMARK /y z  \nRECENT_DIR\nbookmark /n\n",
    ));
    assert_eq!(b, vec!["/x".to_string(), "/y z".to_string()]);
    assert!(r.is_empty());
}

#[test]
fn recent_dirs_with_bad_dates_are_skipped() {
    let (b, r) = load_state(Some(
        "RECENT_DIR yesterday /x\nRECENT_DIR 2024-01-02T03:04:05Z\nRECENT_DIR 2024-01-02T03:04:05+01:00   /y z\nRECENT_DIR 2024-13-02T03:04:05Z /q",
    ));
    assert!(b.is_empty());
    assert_eq!(r.len(), 1);
    assert_eq!(r[0].path, "/y z");
    assert_eq!(r[0].dt, Timestamp { secs: 1_704_161_045, nanos: 0 });
}

#[test]
fn what_cannot_be_stored_is_not_read_back() {
    let (b, _) = load_state(Some(
        save_state(&vec!["/trailing ".to_string(), "/two\nlines".to_string()], &Vec::new()).as_str(),
    ));
    assert_eq!(b, vec!["/trailing".to_string(), "/two".to_string()]);
    let (_, r) = load_state(Some(
        save_state(&Vec::new(), &vec![recent("/far", 253_402_300_800, 0)]).as_str(),
    ));
    assert!(r.is_empty());
    let (_, r) = load_state(Some(
        save_state(&Vec::new(), &vec![recent(" /led", 0, 0)]).as_str(),
    ));
    assert_eq!(r[0].path, "/led");
}

#[test]
fn moments_at_the_ends_of_the_calendar_are_written() {
    let text = save_state(
        &Vec::new(),
        &vec![
            recent("/first", -8_334_601_228_800, 0),
            recent("/last", 8_210_266_876_799, 999_999_999),
        ],
    );
    assert!(text.contains("RECENT_DIR -262143-01-01T00:00:00+00:00 /first\n"));
    assert!(text.contains("RECENT_DIR +262142-12-31T23:59:59.999999999+00:00 /last\n"));
}

#[test]
fn the_clock_gives_a_moment() {
    let a = Timestamp::current();
    assert!(a.secs > 1_600_000_000);
    assert!(a.nanos < 2_000_000_000);
}
