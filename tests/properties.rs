use book_library::error::LibraryError;
use book_library::record::{BookEntry, ProgressUpdate, ReadingStatus};
use book_library::stats::ReadingStats;
use book_library::store::Contract;
use std::collections::{BTreeMap, BTreeSet};

fn s(x: &str) -> String {
    x.to_string()
}

fn book(isbn: &str, title: &str, status: ReadingStatus, total: Option<u32>) -> BookEntry {
    BookEntry {
        isbn: s(isbn),
        title: s(title),
        author: s("Someone"),
        acquisition_date: s("2024-01-15"),
        condition: s("Good"),
        personal_comments: s(""),
        media_hash: Some(s("QmHash")),
        reading_status: status,
        current_chapter: 0,
        total_chapters: total,
        chapters_read: BTreeSet::new(),
        last_read_position: s("Not started"),
        last_read_date: None,
        chapter_notes: BTreeMap::new(),
    }
}

fn store_with(owner: &str, b: BookEntry) -> Contract {
    let mut c = Contract::new();
    c.add_book(s(owner), b).unwrap();
    c
}

#[test]
fn second_add_with_same_key_is_refused_and_first_kept() {
    let mut c = store_with("a", book("k1", "First", ReadingStatus::ToRead, None));
    let r = c.add_book(s("a"), book("k1", "Second", ReadingStatus::Reading, None));
    assert_eq!(r, Err(LibraryError::DuplicateKey));
    let lib = c.get_library(s("a"));
    assert_eq!(lib.len(), 1);
    assert_eq!(lib[0].title, "First");
}

#[test]
fn same_key_under_two_owners_is_fine() {
    let mut c = store_with("a", book("k1", "First", ReadingStatus::ToRead, None));
    assert_eq!(c.add_book(s("b"), book("k1", "Other", ReadingStatus::ToRead, None)), Ok(()));
    assert_eq!(c.get_total_books(), 2);
}

#[test]
fn add_then_get_returns_the_record() {
    let mut b = book("k1", "Title", ReadingStatus::OnHold, Some(4));
    b.chapters_read.insert(2);
    b.chapter_notes.insert(1, s("n"));
    b.last_read_date = Some(s("2024-02-02"));
    let c = store_with("a", b.clone());
    let got = c.get_book(s("a"), s("k1")).unwrap();
    assert_eq!(got.isbn, b.isbn);
    assert_eq!(got.title, b.title);
    assert_eq!(got.media_hash, b.media_hash);
    assert_eq!(got.reading_status, b.reading_status);
    assert_eq!(got.total_chapters, b.total_chapters);
    assert_eq!(got.chapters_read, b.chapters_read);
    assert_eq!(got.chapter_notes, b.chapter_notes);
    assert_eq!(got.last_read_date, b.last_read_date);
}

#[test]
fn absent_owner_or_key_reads_as_empty() {
    let c = store_with("a", book("k1", "T", ReadingStatus::ToRead, None));
    assert!(c.get_book(s("a"), s("nope")).is_none());
    assert!(c.get_book(s("zed"), s("k1")).is_none());
    assert!(c.get_library(s("zed")).is_empty());
    assert!(c.get_user_library(s("zed")).is_empty());
    assert!(c.get_all_chapter_notes(s("zed"), s("k1")).is_empty());
    assert!(c.get_chapter_note(s("a"), s("k1"), 1).is_none());
    assert_eq!(c.get_user_library(s("a")).len(), 1);
}

#[test]
fn same_note_twice_keeps_one_note() {
    let mut c = store_with("a", book("k1", "T", ReadingStatus::ToRead, None));
    c.add_chapter_note(s("a"), s("k1"), 2, s("x")).unwrap();
    c.add_chapter_note(s("a"), s("k1"), 2, s("x")).unwrap();
    let notes = c.get_all_chapter_notes(s("a"), s("k1"));
    assert_eq!(notes.len(), 1);
    assert_eq!(notes.get(&2).unwrap(), "x");
}

#[test]
fn follow_twice_lists_once() {
    let mut c = Contract::new();
    assert_eq!(c.follow_account(s("a"), s("b")), Ok(true));
    assert_eq!(c.follow_account(s("a"), s("b")), Ok(false));
    assert_eq!(c.get_followed_accounts(s("a")), vec![s("b")]);
}

#[test]
fn chapter_only_update_leaves_the_rest() {
    let mut c = store_with("a", book("k1", "T", ReadingStatus::OnHold, Some(9)));
    c.add_chapter_note(s("a"), s("k1"), 4, s("n4")).unwrap();
    c.update_reading_progress(
        s("a"),
        s("k1"),
        ProgressUpdate {
            current_chapter: Some(7),
            chapters_completed: vec![],
            last_read_position: None,
            last_read_date: None,
            reading_status: None,
        },
    )
    .unwrap();
    let b = c.get_book(s("a"), s("k1")).unwrap();
    assert_eq!(b.current_chapter, 7);
    assert_eq!(b.reading_status, ReadingStatus::OnHold);
    assert_eq!(b.last_read_position, "Not started");
    assert_eq!(b.chapter_notes.len(), 1);
    assert_eq!(b.chapter_notes.get(&4).unwrap(), "n4");
    assert!(b.chapters_read.is_empty());
}

#[test]
fn progress_may_mark_chapters_past_the_total() {
    let mut c = store_with("a", book("k1", "T", ReadingStatus::ToRead, Some(3)));
    c.update_reading_progress(
        s("a"),
        s("k1"),
        ProgressUpdate {
            current_chapter: None,
            chapters_completed: vec![2, 8, 2],
            last_read_position: None,
            last_read_date: None,
            reading_status: Some(ReadingStatus::Abandoned),
        },
    )
    .unwrap();
    let b = c.get_book(s("a"), s("k1")).unwrap();
    assert_eq!(b.chapters_read.iter().copied().collect::<Vec<u32>>(), vec![2, 8]);
    assert_eq!(b.reading_status, ReadingStatus::Abandoned);
    assert_eq!(b.current_chapter, 0);
}

#[test]
fn note_chapter_bounds() {
    let mut c = store_with("a", book("k5", "Five", ReadingStatus::ToRead, Some(5)));
    c.add_book(s("a"), book("kn", "Open", ReadingStatus::ToRead, None)).unwrap();
    assert_eq!(c.add_chapter_note(s("a"), s("k5"), 5, s("last")), Ok(()));
    assert_eq!(c.add_chapter_note(s("a"), s("k5"), 6, s("past")), Err(LibraryError::InvalidChapter));
    assert_eq!(c.add_chapter_note(s("a"), s("kn"), 0, s("zero")), Err(LibraryError::InvalidChapter));
    assert_eq!(c.add_chapter_note(s("a"), s("kn"), 1, s("one")), Ok(()));
    assert_eq!(c.add_chapter_note(s("a"), s("kn"), 4000, s("far")), Ok(()));
    assert!(c.get_chapter_note(s("a"), s("k5"), 6).is_none());
    assert!(c.get_chapter_note(s("a"), s("kn"), 0).is_none());
    assert_eq!(c.get_chapter_note(s("a"), s("k5"), 5), Some(s("last")));
}

#[test]
fn chapter_zero_allowed_where_total_is_known() {
    let mut c = store_with("a", book("k5", "Five", ReadingStatus::ToRead, Some(5)));
    assert_eq!(c.add_chapter_note(s("a"), s("k5"), 0, s("preface")), Ok(()));
}

#[test]
fn completing_backfills_every_chapter() {
    let mut c = store_with("a", book("k1", "Ten", ReadingStatus::Reading, Some(10)));
    c.mark_completed(s("a"), s("k1"), s("1700000000")).unwrap();
    let b = c.get_book(s("a"), s("k1")).unwrap();
    assert_eq!(b.reading_status, ReadingStatus::Completed);
    assert_eq!(b.chapters_read, (1..=10).collect::<BTreeSet<u32>>());
    assert_eq!(b.last_read_date, Some(s("1700000000")));
}

#[test]
fn completing_without_total_keeps_read_chapters() {
    let mut b = book("k1", "Open", ReadingStatus::Reading, None);
    b.chapters_read.insert(3);
    let mut c = store_with("a", b);
    c.mark_completed(s("a"), s("k1"), s("t")).unwrap();
    let got = c.get_book(s("a"), s("k1")).unwrap();
    assert_eq!(got.chapters_read.iter().copied().collect::<Vec<u32>>(), vec![3]);
    assert_eq!(got.reading_status, ReadingStatus::Completed);
}

#[test]
fn start_reading_defaults_to_chapter_one() {
    let mut c = store_with("a", book("k1", "T", ReadingStatus::ToRead, None));
    c.start_reading(s("a"), s("k1"), None).unwrap();
    let b = c.get_book(s("a"), s("k1")).unwrap();
    assert_eq!(b.current_chapter, 1);
    assert_eq!(b.reading_status, ReadingStatus::Reading);
}

#[test]
fn stats_of_three_statuses() {
    let mut c = Contract::new();
    c.add_book(s("o"), book("1", "A", ReadingStatus::Reading, None)).unwrap();
    c.add_book(s("o"), book("2", "B", ReadingStatus::Completed, None)).unwrap();
    c.add_book(s("o"), book("3", "C", ReadingStatus::ToRead, None)).unwrap();
    let expected = ReadingStats { total_books: 3, currently_reading: 1, completed: 1, to_read: 1, on_hold: 0 };
    assert_eq!(c.get_reading_stats(s("o")), expected);
    assert_eq!(c.get_user_stats(s("o")), expected);
}

#[test]
fn abandoned_records_count_with_on_hold() {
    let mut c = Contract::new();
    c.add_book(s("o"), book("1", "A", ReadingStatus::OnHold, None)).unwrap();
    c.add_book(s("o"), book("2", "B", ReadingStatus::Abandoned, None)).unwrap();
    c.add_book(s("o"), book("3", "C", ReadingStatus::Reading, None)).unwrap();
    let st = c.get_reading_stats(s("o"));
    assert_eq!(st.total_books, 3);
    assert_eq!(st.on_hold, 2);
    assert_eq!(st.currently_reading + st.completed + st.to_read + st.on_hold, st.total_books);
    let empty = c.get_reading_stats(s("nobody"));
    assert_eq!(empty, ReadingStats { total_books: 0, currently_reading: 0, completed: 0, to_read: 0, on_hold: 0 });
}

#[test]
fn currently_reading_keeps_collection_order() {
    let mut c = Contract::new();
    c.add_book(s("o"), book("1", "A", ReadingStatus::Reading, None)).unwrap();
    c.add_book(s("o"), book("2", "B", ReadingStatus::ToRead, None)).unwrap();
    c.add_book(s("o"), book("3", "C", ReadingStatus::Reading, None)).unwrap();
    let r = c.get_currently_reading(s("o"));
    assert_eq!(r.len(), 2);
    assert_eq!(r[0].title, "A");
    assert_eq!(r[1].title, "C");
}

#[test]
fn self_follow_refused_and_unfollow_empties() {
    let mut c = Contract::new();
    assert_eq!(c.follow_account(s("a"), s("a")), Err(LibraryError::SelfFollow));
    assert!(c.get_followed_accounts(s("a")).is_empty());
    c.follow_account(s("a"), s("b")).unwrap();
    assert_eq!(c.unfollow_account(s("a"), s("b")), Ok(true));
    assert!(c.get_followed_accounts(s("a")).is_empty());
}

#[test]
fn unfollow_errors_and_no_ops() {
    let mut c = Contract::new();
    assert_eq!(c.unfollow_account(s("a"), s("b")), Err(LibraryError::NoFollowList));
    c.follow_account(s("a"), s("b")).unwrap();
    c.follow_account(s("a"), s("c")).unwrap();
    assert_eq!(c.unfollow_account(s("a"), s("z")), Ok(false));
    assert_eq!(c.get_followed_accounts(s("a")), vec![s("b"), s("c")]);
    assert_eq!(c.unfollow_account(s("a"), s("b")), Ok(true));
    assert_eq!(c.get_followed_accounts(s("a")), vec![s("c")]);
}

#[test]
fn delete_removes_record_and_lowers_total() {
    let mut c = store_with("a", book("k1", "First", ReadingStatus::ToRead, None));
    c.add_book(s("a"), book("k2", "Second", ReadingStatus::ToRead, None)).unwrap();
    c.add_book(s("b"), book("k1", "Other", ReadingStatus::ToRead, None)).unwrap();
    assert_eq!(c.get_total_books(), 3);
    assert_eq!(c.delete_book(s("a"), s("k1")), Ok(s("First")));
    assert!(c.get_book(s("a"), s("k1")).is_none());
    assert_eq!(c.get_total_books(), 2);
    assert_eq!(c.get_book(s("b"), s("k1")).unwrap().title, "Other");
}

#[test]
fn missing_collection_and_record_errors() {
    let mut c = Contract::new();
    assert_eq!(c.delete_book(s("a"), s("k1")), Err(LibraryError::CollectionNotFound));
    assert_eq!(c.start_reading(s("a"), s("k1"), None), Err(LibraryError::CollectionNotFound));
    c.add_book(s("a"), book("k1", "T", ReadingStatus::ToRead, None)).unwrap();
    assert_eq!(c.delete_book(s("a"), s("k2")), Err(LibraryError::RecordNotFound));
    assert_eq!(c.mark_completed(s("a"), s("k2"), s("t")), Err(LibraryError::RecordNotFound));
    assert_eq!(c.add_chapter_note(s("a"), s("k2"), 1, s("n")), Err(LibraryError::RecordNotFound));
    assert_eq!(c.delete_chapter_note(s("a"), s("k2"), 1), Err(LibraryError::RecordNotFound));
    assert_eq!(
        c.update_book(s("b"), s("k1"), book("k1", "X", ReadingStatus::ToRead, None)),
        Err(LibraryError::CollectionNotFound)
    );
    c.delete_book(s("a"), s("k1")).unwrap();
    assert_eq!(c.delete_book(s("a"), s("k1")), Err(LibraryError::RecordNotFound));
    assert!(c.get_library(s("a")).is_empty());
}

#[test]
fn deleting_an_absent_note_is_no_error() {
    let mut c = store_with("a", book("k1", "T", ReadingStatus::ToRead, None));
    assert_eq!(c.delete_chapter_note(s("a"), s("k1"), 3), Ok(false));
    c.add_chapter_note(s("a"), s("k1"), 3, s("n")).unwrap();
    assert_eq!(c.delete_chapter_note(s("a"), s("k1"), 3), Ok(true));
}

#[test]
fn replacement_is_a_blind_overwrite() {
    let mut c = store_with("a", book("k1", "Old", ReadingStatus::ToRead, None));
    c.update_book(s("a"), s("k1"), book("k9", "New", ReadingStatus::Completed, None)).unwrap();
    assert!(c.get_book(s("a"), s("k1")).is_none());
    let b = c.get_book(s("a"), s("k9")).unwrap();
    assert_eq!(b.title, "New");
    assert_eq!(c.get_total_books(), 1);
}
