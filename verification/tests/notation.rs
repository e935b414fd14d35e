use notation::clock::{now_timestamp, timestamp_of_clock};
use notation::errors::NoteError;
use notation::picker::{find_note, join_segment, parse_selection, select_entry};
use notation::store::{create_decision, delete_decision, new_note, render_note, rm_note, NoteStore};
use notation::timestamp::Timestamp;

fn ts(year: u32, month: u32, day: u32, hour: u32, minute: u32) -> Timestamp {
    Timestamp::new(year, month, day, hour, minute).expect("components in range")
}

#[test]
fn derive_path_pads_every_component() {
    assert_eq!(ts(2024, 3, 5, 9, 7).derive_path(), "notes/2024/03/05/09.07.md");
}

#[test]
fn derive_path_without_padding_needed() {
    assert_eq!(ts(2024, 12, 31, 23, 59).derive_path(), "notes/2024/12/31/23.59.md");
}

#[test]
fn derive_path_small_year() {
    assert_eq!(ts(7, 1, 1, 0, 0).derive_path(), "notes/0007/01/01/00.00.md");
}

#[test]
fn timestamp_new_rejects_out_of_range() {
    assert!(Timestamp::new(2024, 0, 5, 9, 7).is_none());
    assert!(Timestamp::new(2024, 13, 5, 9, 7).is_none());
    assert!(Timestamp::new(2024, 3, 0, 9, 7).is_none());
    assert!(Timestamp::new(2024, 3, 32, 9, 7).is_none());
    assert!(Timestamp::new(2024, 3, 5, 24, 7).is_none());
    assert!(Timestamp::new(2024, 3, 5, 9, 60).is_none());
    assert!(Timestamp::new(10000, 3, 5, 9, 7).is_none());
    assert!(Timestamp::new(2024, 3, 5, 9, 7).is_some());
}

#[test]
fn create_at_occupied_path_fails_and_preserves_content() {
    let mut store = NoteStore::new();
    let path = String::from("notes/2024/03/05/09.07.md");
    assert!(store.create(&path).is_ok());
    assert!(store
        .write_note(&path, Some(&String::from("Kept")), Some(&String::from("old text")))
        .is_ok());
    let before = store.read(&path).expect("note exists");
    assert_eq!(store.create(&path), Err(NoteError::AlreadyExists));
    assert_eq!(store.read(&path).expect("note still exists"), before);
    assert_eq!(before, "# Kept\nold text\n");
}

#[test]
fn delete_nonexistent_fails_with_not_found_and_changes_nothing() {
    let mut store = NoteStore::new();
    let kept = String::from("notes/2023/01/02/03.04.md");
    assert!(store.create(&kept).is_ok());
    let missing = String::from("notes/2024/06/01/14.30.md");
    assert_eq!(store.delete(&missing), Err(NoteError::NotFound));
    assert!(store.contains(&kept));
    assert_eq!(store.read(&kept).expect("note kept"), "");
}

#[test]
fn write_title_and_body_renders_heading_then_body() {
    let content = render_note(Some(&String::from("Shopping")), Some(&String::from("Milk, eggs")));
    assert_eq!(content, "# Shopping\nMilk, eggs\n");
}

#[test]
fn write_title_alone_renders_heading_only() {
    let content = render_note(Some(&String::from("Shopping")), None);
    assert_eq!(content, "# Shopping\n");
}

#[test]
fn write_body_without_title_is_dropped() {
    let body = String::from("Milk, eggs");
    let content = render_note(None, Some(&body));
    assert_eq!(content, "");
    assert!(!content.contains("Milk, eggs"));
}

#[test]
fn write_nothing_renders_empty_file() {
    assert_eq!(render_note(None, None), "");
}

#[test]
fn write_note_appends_to_stored_note() {
    let mut store = NoteStore::new();
    let path = String::from("notes/2024/03/05/09.07.md");
    assert!(store.create(&path).is_ok());
    assert!(store.write_note(&path, Some(&String::from("Shopping")), Some(&String::from("Milk, eggs"))).is_ok());
    assert_eq!(store.read(&path).expect("note exists"), "# Shopping\nMilk, eggs\n");
}

#[test]
fn write_note_to_missing_path_fails() {
    let mut store = NoteStore::new();
    let path = String::from("notes/2024/03/05/09.07.md");
    assert_eq!(
        store.write_note(&path, Some(&String::from("T")), None),
        Err(NoteError::NotFound)
    );
    assert!(!store.contains(&path));
}

fn year_entries() -> Vec<String> {
    vec![String::from("2023"), String::from("2024")]
}

#[test]
fn picker_selects_entry_by_index() {
    assert_eq!(select_entry(&year_entries(), "1"), Ok(String::from("2024")));
    assert_eq!(select_entry(&year_entries(), "0"), Ok(String::from("2023")));
}

#[test]
fn picker_rejects_out_of_range_index() {
    assert_eq!(select_entry(&year_entries(), "5"), Err(NoteError::InvalidSelection));
}

#[test]
fn picker_rejects_unparseable_input() {
    assert_eq!(select_entry(&year_entries(), "abc"), Err(NoteError::InvalidSelection));
    assert_eq!(select_entry(&year_entries(), ""), Err(NoteError::InvalidSelection));
    assert_eq!(select_entry(&year_entries(), "1x"), Err(NoteError::InvalidSelection));
    assert_eq!(select_entry(&year_entries(), "-1"), Err(NoteError::InvalidSelection));
}

#[test]
fn picker_rejects_selection_from_empty_listing() {
    let empty: Vec<String> = Vec::new();
    assert_eq!(select_entry(&empty, "0"), Err(NoteError::InvalidSelection));
}

#[test]
fn parse_selection_ignores_surrounding_whitespace() {
    assert_eq!(parse_selection(" 7 \n", 10), Some(7));
    assert_eq!(parse_selection("\t02\r\n", 10), Some(2));
}

#[test]
fn parse_selection_trims_unicode_whitespace_as_str_trim_does() {
    assert_eq!(parse_selection("\u{00A0}1\u{2003}", 10), Some(1));
    assert_eq!(parse_selection("\u{3000}4\n", 10), Some(4));
    assert_eq!("\u{00A0}1\u{2003}".trim().parse::<usize>(), Ok(1));
}

#[test]
fn parse_selection_accepts_one_leading_plus_as_parse_does() {
    assert_eq!(parse_selection("+1", 10), Some(1));
    assert_eq!(parse_selection(" +007 ", 10), Some(7));
    assert_eq!(parse_selection("+", 10), None);
    assert_eq!(parse_selection("++1", 10), None);
    assert_eq!("+1".parse::<usize>(), Ok(1));
    assert!("++1".parse::<usize>().is_err());
}

#[test]
fn picker_selects_entry_with_leading_plus() {
    assert_eq!(select_entry(&year_entries(), "+1"), Ok(String::from("2024")));
}

#[test]
fn parse_selection_accepts_leading_zeros() {
    assert_eq!(parse_selection("007", 10), Some(7));
}

#[test]
fn parse_selection_rejects_at_bound_and_huge_numbers() {
    assert_eq!(parse_selection("10", 10), None);
    assert_eq!(parse_selection("999999999999999999999999999999", 10), None);
    assert_eq!(parse_selection("3", 0), None);
}

#[test]
fn find_note_joins_all_four_selections() {
    let listings = vec![
        vec![String::from("2023"), String::from("2024")],
        vec![String::from("05"), String::from("06")],
        vec![String::from("01")],
        vec![String::from("09.07.md"), String::from("14.30.md")],
    ];
    let inputs = vec![
        String::from("1\n"),
        String::from("1\n"),
        String::from("0\n"),
        String::from("1\n"),
    ];
    assert_eq!(
        find_note(&listings, &inputs),
        Ok(String::from("notes/2024/06/01/14.30.md"))
    );
}

#[test]
fn find_note_fails_on_a_bad_level() {
    let listings = vec![
        vec![String::from("2023"), String::from("2024")],
        vec![String::from("05"), String::from("06")],
        Vec::new(),
        vec![String::from("09.07.md")],
    ];
    let inputs = vec![
        String::from("1\n"),
        String::from("0\n"),
        String::from("0\n"),
        String::from("0\n"),
    ];
    assert_eq!(find_note(&listings, &inputs), Err(NoteError::InvalidSelection));
}

#[test]
fn end_to_end_new_write_delete() {
    let mut store = NoteStore::new();
    let time = ts(2024, 6, 1, 14, 30);
    let path = new_note(&mut store, time).expect("free slot");
    assert_eq!(path, "notes/2024/06/01/14.30.md");
    assert!(store
        .write_note(&path, Some(&String::from("Groceries")), Some(&String::from("Buy bread")))
        .is_ok());
    assert_eq!(store.read(&path).expect("note exists"), "# Groceries\nBuy bread\n");

    assert_eq!(new_note(&mut store, time), Err(NoteError::AlreadyExists));
    assert_eq!(store.read(&path).expect("untouched"), "# Groceries\nBuy bread\n");

    assert_eq!(rm_note(&mut store, &path), Ok(()));
    assert!(!store.contains(&path));
    assert_eq!(rm_note(&mut store, &path), Err(NoteError::NotFound));
}

#[test]
fn join_segment_inserts_separator() {
    assert_eq!(join_segment("notes/2024", "06"), "notes/2024/06");
}

#[test]
fn create_and_delete_decisions_match_store_semantics() {
    assert_eq!(create_decision(true), Err(NoteError::AlreadyExists));
    assert_eq!(create_decision(false), Ok(()));
    assert_eq!(delete_decision(true), Ok(()));
    assert_eq!(delete_decision(false), Err(NoteError::NotFound));
}

#[test]
fn timestamp_of_clock_keeps_four_digit_years_only() {
    assert_eq!(timestamp_of_clock(2024, 6, 1, 14, 30), Timestamp::new(2024, 6, 1, 14, 30));
    assert_eq!(timestamp_of_clock(0, 1, 1, 0, 0), Timestamp::new(0, 1, 1, 0, 0));
    assert_eq!(timestamp_of_clock(10000, 1, 1, 0, 0), None);
    assert_eq!(timestamp_of_clock(-1, 1, 1, 0, 0), None);
}

#[test]
fn clock_reports_components_in_range() {
    let now = now_timestamp().expect("a present-day year fits four digits");
    assert!(Timestamp::new(now.year, now.month, now.day, now.hour, now.minute).is_some());
    assert!((1..=12).contains(&now.month));
    assert!((1..=31).contains(&now.day));
    assert!(now.hour <= 23 && now.minute <= 59);
}

#[test]
fn current_note_path_matches_derived_path() {
    let (now, path) = notation::clock::current_note().expect("a present-day year fits four digits");
    assert_eq!(path, now.derive_path());
    assert!(path.starts_with("notes/"));
    assert!(path.ends_with(".md"));
}
