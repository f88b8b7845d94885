use std::collections::{BTreeMap, BTreeSet};
use vstd::prelude::*;

use crate::error::LibraryError;

verus! {

broadcast use vstd::std_specs::btree::group_btree_axioms;

/// Where a reader stands with a book.
#[derive(Clone, Copy, Debug, PartialEq, Eq, Structural)]
pub enum ReadingStatus {
    ToRead,
    Reading,
    Completed,
    OnHold,
    Abandoned,
}

/// One book of an owner's collection, with its reading progress and chapter notes.
#[derive(Clone, Debug)]
pub struct BookEntry {
    /// The key: unique within its owner's collection when added.
    pub isbn: String,
    pub title: String,
    pub author: String,
    pub acquisition_date: String,
    pub condition: String,
    pub personal_comments: String,
    pub media_hash: Option<String>,
    pub reading_status: ReadingStatus,
    pub current_chapter: u32,
    /// Where known, the inclusive upper bound of chapter numbers for notes.
    pub total_chapters: Option<u32>,
    /// The chapters read, as an ordered set.
    pub chapters_read: BTreeSet<u32>,
    pub last_read_position: String,
    pub last_read_date: Option<String>,
    /// At most one note per chapter, ordered by chapter number.
    pub chapter_notes: BTreeMap<u32, String>,
}

/// A partial update of a record's progress: every absent field leaves the record's own.
#[derive(Clone, Debug)]
pub struct ProgressUpdate {
    pub current_chapter: Option<u32>,
    pub chapters_completed: Vec<u32>,
    pub last_read_position: Option<String>,
    pub last_read_date: Option<String>,
    pub reading_status: Option<ReadingStatus>,
}

/// The mathematical value of a `BookEntry`.
pub struct BookModel {
    pub isbn: Seq<char>,
    pub title: Seq<char>,
    pub author: Seq<char>,
    pub acquisition_date: Seq<char>,
    pub condition: Seq<char>,
    pub personal_comments: Seq<char>,
    pub media_hash: Option<Seq<char>>,
    pub reading_status: ReadingStatus,
    pub current_chapter: u32,
    pub total_chapters: Option<u32>,
    pub chapters_read: Set<u32>,
    pub last_read_position: Seq<char>,
    pub last_read_date: Option<Seq<char>>,
    pub chapter_notes: Map<u32, Seq<char>>,
}

pub open spec fn opt_text(o: Option<String>) -> Option<Seq<char>> {
    match o {
        Some(s) => Some(s@),
        None => None,
    }
}

impl View for BookEntry {
    type V = BookModel;

    open spec fn view(&self) -> BookModel {
        BookModel {
            isbn: self.isbn@,
            title: self.title@,
            author: self.author@,
            acquisition_date: self.acquisition_date@,
            condition: self.condition@,
            personal_comments: self.personal_comments@,
            media_hash: opt_text(self.media_hash),
            reading_status: self.reading_status,
            current_chapter: self.current_chapter,
            total_chapters: self.total_chapters,
            chapters_read: self.chapters_read@,
            last_read_position: self.last_read_position@,
            last_read_date: opt_text(self.last_read_date),
            chapter_notes: self.chapter_notes@.map_values(|s: String| s@),
        }
    }
}

/// Whether `chapter` may carry a note in a book of `total` chapters: at most the
/// total where it is known, and at least 1 where it is not.
pub open spec fn chapter_allowed(total: Option<u32>, chapter: u32) -> bool {
    match total {
        Some(t) => chapter <= t,
        None => chapter >= 1,
    }
}

/// The chapters 1 to `total`.
pub open spec fn chapters_up_to(total: u32) -> Set<u32> {
    Set::new(|c: u32| 1 <= c && c <= total)
}

impl BookModel {
    /// The record after a progress update: present fields overwrite, completed
    /// chapters join the read set, absent fields stay.
    pub open spec fn merged(self, u: ProgressUpdate) -> BookModel {
        BookModel {
            current_chapter: match u.current_chapter {
                Some(c) => c,
                None => self.current_chapter,
            },
            chapters_read: self.chapters_read.union(u.chapters_completed@.to_set()),
            last_read_position: match u.last_read_position {
                Some(p) => p@,
                None => self.last_read_position,
            },
            last_read_date: match u.last_read_date {
                Some(d) => Some(d@),
                None => self.last_read_date,
            },
            reading_status: match u.reading_status {
                Some(s) => s,
                None => self.reading_status,
            },
            ..self
        }
    }

    /// The record with `note` as the note of `chapter`.
    pub open spec fn with_note(self, chapter: u32, note: Seq<char>) -> BookModel {
        BookModel { chapter_notes: self.chapter_notes.insert(chapter, note), ..self }
    }

    /// The record without a note for `chapter`.
    pub open spec fn without_note(self, chapter: u32) -> BookModel {
        BookModel { chapter_notes: self.chapter_notes.remove(chapter), ..self }
    }

    /// The record marked as read through on `date`: every chapter up to a known
    /// total joins the read set.
    pub open spec fn completed(self, date: Seq<char>) -> BookModel {
        BookModel {
            reading_status: ReadingStatus::Completed,
            last_read_date: Some(date),
            chapters_read: match self.total_chapters {
                Some(t) => self.chapters_read.union(chapters_up_to(t)),
                None => self.chapters_read,
            },
            ..self
        }
    }

    /// The record being read from `chapter` on.
    pub open spec fn started(self, chapter: u32) -> BookModel {
        BookModel { reading_status: ReadingStatus::Reading, current_chapter: chapter, ..self }
    }
}

fn copy_text(o: &Option<String>) -> (r: Option<String>)
    ensures
        opt_text(r) == opt_text(*o),
{
    match o {
        Some(s) => Some(s.clone()),
        None => None,
    }
}

impl BookEntry {
    /// A copy of the record with the same value.
    pub fn duplicate(&self) -> (r: BookEntry)
        ensures
            r@ == self@,
    {
        let notes = self.chapter_notes.clone();
        let r = BookEntry {
            isbn: self.isbn.clone(),
            title: self.title.clone(),
            author: self.author.clone(),
            acquisition_date: self.acquisition_date.clone(),
            condition: self.condition.clone(),
            personal_comments: self.personal_comments.clone(),
            media_hash: copy_text(&self.media_hash),
            reading_status: self.reading_status,
            current_chapter: self.current_chapter,
            total_chapters: self.total_chapters,
            chapters_read: self.chapters_read.clone(),
            last_read_position: self.last_read_position.clone(),
            last_read_date: copy_text(&self.last_read_date),
            chapter_notes: notes,
        };
        assert(r@.chapter_notes =~= self@.chapter_notes);
        r
    }
    /// Merges a progress update into the record.
    pub fn apply_progress(&mut self, update: ProgressUpdate)
        ensures
            final(self)@ == old(self)@.merged(update),
    {
        let ghost start = self@;
        let ProgressUpdate {
            current_chapter,
            chapters_completed,
            last_read_position,
            last_read_date,
            reading_status,
        } = update;
        if let Some(chapter) = current_chapter {
            self.current_chapter = chapter;
        }
        let mut i: usize = 0;
        while i < chapters_completed.len()
            invariant
                0 <= i <= chapters_completed.len(),
                self@.chapters_read == start.chapters_read.union(
                    chapters_completed@.subrange(0, i as int).to_set(),
                ),
                self@ == (BookModel {
                    chapters_read: self@.chapters_read,
                    current_chapter: match current_chapter {
                        Some(c) => c,
                        None => start.current_chapter,
                    },
                    ..start
                }),
            decreases chapters_completed.len() - i,
        {
            let chapter = chapters_completed[i];
            self.chapters_read.insert(chapter);
            proof {
                let before = chapters_completed@.subrange(0, i as int);
                let after = chapters_completed@.subrange(0, i + 1);
                assert(after =~= before.push(chapter));
                assert(after.to_set() =~= before.to_set().insert(chapter)) by {
                    before.lemma_push_to_set_commute(chapter);
                }
                assert(self@.chapters_read =~= start.chapters_read.union(after.to_set()));
            }
            i = i + 1;
        }
        assert(chapters_completed@.subrange(0, i as int) =~= chapters_completed@);
        if let Some(position) = last_read_position {
            self.last_read_position = position;
        }
        if let Some(date) = last_read_date {
            self.last_read_date = Some(date);
        }
        if let Some(status) = reading_status {
            self.reading_status = status;
        }
    }

    /// Sets the note of `chapter`, replacing any earlier one. Refused with
    /// `InvalidChapter`, and the record left as it was, where the chapter is out of
    /// range.
    pub fn set_chapter_note(&mut self, chapter: u32, note: String) -> (r: Result<(), LibraryError>)
        ensures
            r is Ok <==> chapter_allowed(old(self)@.total_chapters, chapter),
            r is Ok ==> final(self)@ == old(self)@.with_note(chapter, note@),
            r is Err ==> r == Err::<(), LibraryError>(LibraryError::InvalidChapter) && final(self)@
                == old(self)@,
    {
        let allowed = match self.total_chapters {
            Some(total) => chapter <= total,
            None => chapter >= 1,
        };
        if !allowed {
            return Err(LibraryError::InvalidChapter);
        }
        let ghost before = self@;
        self.chapter_notes.insert(chapter, note);
        assert(self@.chapter_notes =~= before.chapter_notes.insert(chapter, note@));
        Ok(())
    }

    /// Removes the note of `chapter`, and tells whether there was one.
    pub fn remove_chapter_note(&mut self, chapter: u32) -> (removed: bool)
        ensures
            removed == old(self)@.chapter_notes.contains_key(chapter),
            final(self)@ == old(self)@.without_note(chapter),
    {
        let ghost before = self@;
        let r = self.chapter_notes.remove(&chapter);
        assert(self@.chapter_notes =~= before.chapter_notes.remove(chapter));
        r.is_some()
    }

    /// Marks the record as read through on `date`.
    pub fn complete(&mut self, date: String)
        ensures
            final(self)@ == old(self)@.completed(date@),
    {
        let ghost start = self@;
        self.reading_status = ReadingStatus::Completed;
        self.last_read_date = Some(date);
        if let Some(total) = self.total_chapters {
            let mut i: u32 = 0;
            while i < total
                invariant
                    i <= total,
                    self.total_chapters == Some(total),
                    self@.chapters_read == start.chapters_read.union(chapters_up_to(i)),
                    self@ == (BookModel { chapters_read: self@.chapters_read, ..start.completed(
                        date@,
                    ) }),
                decreases total - i,
            {
                i = i + 1;
                self.chapters_read.insert(i);
                assert(chapters_up_to(i) =~= chapters_up_to((i - 1) as u32).insert(i));
                assert(self@.chapters_read =~= start.chapters_read.union(chapters_up_to(i)));
            }
        } else {
        }
        assert(self@.chapters_read =~= start.completed(date@).chapters_read) by {
            if self.total_chapters is None {
            }
        }
    }

    /// Marks the record as being read from `chapter` on.
    pub fn start(&mut self, chapter: u32)
        ensures
            final(self)@ == old(self)@.started(chapter),
    {
        self.reading_status = ReadingStatus::Reading;
        self.current_chapter = chapter;
    }
}

} // verus!
