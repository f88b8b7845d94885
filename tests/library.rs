use book_library::record::{BookEntry, ProgressUpdate, ReadingStatus};
use book_library::store::Contract;
use std::collections::{BTreeMap, BTreeSet};

const ALICE: &str = "alice.testnet";
const BOB: &str = "bob.testnet";
const ISBN: &str = "978-0451524935";

fn alice() -> String {
    ALICE.to_string()
}

fn isbn() -> String {
    ISBN.to_string()
}

fn create_sample_book() -> BookEntry {
    BookEntry {
        isbn: ISBN.to_string(),
        title: "1984".to_string(),
        author: "George Orwell".to_string(),
        acquisition_date: "2024-01-15".to_string(),
        condition: "Good".to_string(),
        personal_comments: "Still relevant today".to_string(),
        media_hash: None,
        reading_status: ReadingStatus::ToRead,
        current_chapter: 0,
        total_chapters: Some(10),
        chapters_read: BTreeSet::new(),
        last_read_position: "Not started".to_string(),
        last_read_date: None,
        chapter_notes: BTreeMap::new(),
    }
}

fn book_with(isbn: &str, title: &str, status: ReadingStatus) -> BookEntry {
    let mut b = create_sample_book();
    b.isbn = isbn.to_string();
    b.title = title.to_string();
    b.reading_status = status;
    b
}

fn chapter_only(chapter: u32) -> ProgressUpdate {
    ProgressUpdate {
        current_chapter: Some(chapter),
        chapters_completed: vec![],
        last_read_position: None,
        last_read_date: None,
        reading_status: None,
    }
}

#[test]
fn add_and_get_book() {
    let mut contract = Contract::default();
    contract.add_book(alice(), create_sample_book()).unwrap();

    let library = contract.get_library(alice());
    assert_eq!(library.len(), 1);
    assert_eq!(library[0].title, "1984");
    assert_eq!(library[0].reading_status, ReadingStatus::ToRead);
}

#[test]
fn duplicate_isbn_fails() {
    let mut contract = Contract::default();
    contract.add_book(alice(), create_sample_book()).unwrap();

    let result = contract.add_book(alice(), create_sample_book());
    assert!(result.is_err());
}

#[test]
fn start_reading() {
    let mut contract = Contract::default();
    contract.add_book(alice(), create_sample_book()).unwrap();
    contract.start_reading(alice(), isbn(), Some(1)).unwrap();

    let book = contract.get_book(alice(), isbn()).unwrap();
    assert_eq!(book.reading_status, ReadingStatus::Reading);
    assert_eq!(book.current_chapter, 1);
}

#[test]
fn update_reading_progress() {
    let mut contract = Contract::default();
    contract.add_book(alice(), create_sample_book()).unwrap();
    contract.start_reading(alice(), isbn(), Some(1)).unwrap();

    let progress = ProgressUpdate {
        current_chapter: Some(3),
        chapters_completed: vec![1, 2],
        last_read_position: Some("page 45".to_string()),
        last_read_date: Some("2024-12-22".to_string()),
        reading_status: None,
    };

    contract.update_reading_progress(alice(), isbn(), progress).unwrap();

    let book = contract.get_book(alice(), isbn()).unwrap();
    assert_eq!(book.current_chapter, 3);
    assert!(book.chapters_read.contains(&1));
    assert!(book.chapters_read.contains(&2));
    assert_eq!(book.last_read_position, "page 45");
    assert_eq!(book.last_read_date, Some("2024-12-22".to_string()));
}

#[test]
fn mark_completed() {
    let mut contract = Contract::default();
    contract.add_book(alice(), create_sample_book()).unwrap();
    contract.start_reading(alice(), isbn(), Some(1)).unwrap();

    contract.mark_completed(alice(), isbn(), "1735000000000000000".to_string()).unwrap();

    let book = contract.get_book(alice(), isbn()).unwrap();
    assert_eq!(book.reading_status, ReadingStatus::Completed);
    assert_eq!(book.chapters_read.len(), 10);
}

#[test]
fn add_chapter_note() {
    let mut contract = Contract::default();
    contract.add_book(alice(), create_sample_book()).unwrap();

    contract
        .add_chapter_note(alice(), isbn(), 3, "Great quote on page 45 about freedom".to_string())
        .unwrap();

    let note = contract.get_chapter_note(alice(), isbn(), 3);
    assert!(note.is_some());
    assert_eq!(note.unwrap(), "Great quote on page 45 about freedom");
}

#[test]
fn update_existing_chapter_note() {
    let mut contract = Contract::default();
    contract.add_book(alice(), create_sample_book()).unwrap();

    contract.add_chapter_note(alice(), isbn(), 3, "Initial note".to_string()).unwrap();
    contract
        .add_chapter_note(alice(), isbn(), 3, "Updated note with more detail".to_string())
        .unwrap();

    let note = contract.get_chapter_note(alice(), isbn(), 3);
    assert_eq!(note.unwrap(), "Updated note with more detail");
}

#[test]
fn get_all_chapter_notes() {
    let mut contract = Contract::default();
    contract.add_book(alice(), create_sample_book()).unwrap();

    contract.add_chapter_note(alice(), isbn(), 3, "Great quote on page 45".to_string()).unwrap();
    contract.add_chapter_note(alice(), isbn(), 5, "This was confusing".to_string()).unwrap();
    contract.add_chapter_note(alice(), isbn(), 7, "Key insight about Winston".to_string()).unwrap();

    let notes = contract.get_all_chapter_notes(alice(), isbn());
    assert_eq!(notes.len(), 3);
    assert_eq!(notes.get(&3).unwrap(), "Great quote on page 45");
    assert_eq!(notes.get(&5).unwrap(), "This was confusing");
    assert_eq!(notes.get(&7).unwrap(), "Key insight about Winston");
}

#[test]
fn delete_chapter_note() {
    let mut contract = Contract::default();
    contract.add_book(alice(), create_sample_book()).unwrap();

    contract.add_chapter_note(alice(), isbn(), 3, "Note to delete".to_string()).unwrap();

    let note = contract.get_chapter_note(alice(), isbn(), 3);
    assert!(note.is_some());

    contract.delete_chapter_note(alice(), isbn(), 3).unwrap();

    let note = contract.get_chapter_note(alice(), isbn(), 3);
    assert!(note.is_none());
}

#[test]
fn get_reading_stats() {
    let mut contract = Contract::default();
    contract.add_book(alice(), book_with(ISBN, "1984", ReadingStatus::Reading)).unwrap();
    contract
        .add_book(alice(), book_with("978-0061120084", "To Kill a Mockingbird", ReadingStatus::Completed))
        .unwrap();
    contract
        .add_book(alice(), book_with("978-0743273565", "The Great Gatsby", ReadingStatus::ToRead))
        .unwrap();

    let stats = contract.get_reading_stats(alice());
    assert_eq!(stats.total_books, 3);
    assert_eq!(stats.currently_reading, 1);
    assert_eq!(stats.completed, 1);
    assert_eq!(stats.to_read, 1);
}

#[test]
fn get_currently_reading() {
    let mut contract = Contract::default();
    contract.add_book(alice(), book_with(ISBN, "1984", ReadingStatus::Reading)).unwrap();
    contract
        .add_book(alice(), book_with("978-0061120084", "To Kill a Mockingbird", ReadingStatus::Completed))
        .unwrap();

    let reading = contract.get_currently_reading(alice());
    assert_eq!(reading.len(), 1);
    assert_eq!(reading[0].title, "1984");
}

#[test]
fn update_book() {
    let mut contract = Contract::default();
    contract.add_book(alice(), create_sample_book()).unwrap();

    let mut updated_book = create_sample_book();
    updated_book.personal_comments = "Re-read in 2025 - still terrifying".to_string();
    updated_book.total_chapters = Some(12);
    contract.update_book(alice(), isbn(), updated_book).unwrap();

    let updated = contract.get_book(alice(), isbn()).unwrap();
    assert_eq!(updated.personal_comments, "Re-read in 2025 - still terrifying");
    assert_eq!(updated.total_chapters, Some(12));
}

#[test]
fn delete_book() {
    let mut contract = Contract::default();
    contract.add_book(alice(), create_sample_book()).unwrap();
    contract.delete_book(alice(), isbn()).unwrap();

    let library = contract.get_library(alice());
    assert_eq!(library.len(), 0);
}

#[test]
fn get_total_books() {
    let mut contract = Contract::default();
    contract.add_book(alice(), create_sample_book()).unwrap();
    contract
        .add_book(alice(), book_with("978-0061120084", "To Kill a Mockingbird", ReadingStatus::ToRead))
        .unwrap();
    contract
        .add_book(BOB.to_string(), book_with("978-0743273565", "The Great Gatsby", ReadingStatus::ToRead))
        .unwrap();

    assert_eq!(contract.get_total_books(), 3);
}
