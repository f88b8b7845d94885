use vstd::prelude::*;

use crate::record::{BookEntry, BookModel, ReadingStatus};
use crate::store::books_view;

verus! {

/// Counts of one owner's records, taken at the moment of the query.
#[derive(Clone, Copy, Debug, PartialEq, Eq, Structural)]
pub struct ReadingStats {
    pub total_books: u32,
    pub currently_reading: u32,
    pub completed: u32,
    pub to_read: u32,
    /// Records on hold and abandoned records together, so that the four buckets
    /// add up to the total.
    pub on_hold: u32,
}

/// The number of records of `books` with status `st`.
pub open spec fn count_status(books: Seq<BookModel>, st: ReadingStatus) -> nat
    decreases books.len(),
{
    if books.len() == 0 {
        0
    } else {
        count_status(books.drop_last(), st) + if books.last().reading_status == st {
            1nat
        } else {
            0nat
        }
    }
}

/// The records of `books` being read, in order.
pub open spec fn reading_books(books: Seq<BookModel>) -> Seq<BookModel>
    decreases books.len(),
{
    if books.len() == 0 {
        books
    } else if books.last().reading_status == ReadingStatus::Reading {
        reading_books(books.drop_last()).push(books.last())
    } else {
        reading_books(books.drop_last())
    }
}

impl ReadingStats {
    /// These are the counts of `books`.
    pub open spec fn describes(self, books: Seq<BookModel>) -> bool {
        &&& self.total_books == books.len()
        &&& self.currently_reading == count_status(books, ReadingStatus::Reading)
        &&& self.completed == count_status(books, ReadingStatus::Completed)
        &&& self.to_read == count_status(books, ReadingStatus::ToRead)
        &&& self.on_hold == count_status(books, ReadingStatus::OnHold) + count_status(
            books,
            ReadingStatus::Abandoned,
        )
    }
}

/// Every record falls in exactly one status, so the counts by status add up to
/// the number of records.
pub proof fn lemma_counts_cover(books: Seq<BookModel>)
    ensures
        count_status(books, ReadingStatus::ToRead) + count_status(books, ReadingStatus::Reading)
            + count_status(books, ReadingStatus::Completed) + count_status(
            books,
            ReadingStatus::OnHold,
        ) + count_status(books, ReadingStatus::Abandoned) == books.len(),
    decreases books.len(),
{
    if books.len() > 0 {
        lemma_counts_cover(books.drop_last());
    }
}

/// The counts of `books`, by one pass over them.
pub fn stats_of(books: &Vec<BookEntry>) -> (r: ReadingStats)
    requires
        books.len() <= u32::MAX,
    ensures
        r.describes(books_view(books@)),
{
    let ghost v = books_view(books@);
    let mut reading: u32 = 0;
    let mut completed: u32 = 0;
    let mut to_read: u32 = 0;
    let mut on_hold: u32 = 0;
    let mut i: usize = 0;
    while i < books.len()
        invariant
            i <= books.len() <= u32::MAX,
            v == books_view(books@),
            reading == count_status(v.subrange(0, i as int), ReadingStatus::Reading),
            completed == count_status(v.subrange(0, i as int), ReadingStatus::Completed),
            to_read == count_status(v.subrange(0, i as int), ReadingStatus::ToRead),
            on_hold == count_status(v.subrange(0, i as int), ReadingStatus::OnHold) + count_status(
                v.subrange(0, i as int),
                ReadingStatus::Abandoned,
            ),
            reading + completed + to_read + on_hold == i,
        decreases books.len() - i,
    {
        let ghost prefix = v.subrange(0, i as int);
        assert(v.subrange(0, i + 1).drop_last() =~= prefix);
        assert(v[i as int] == books@[i as int]@);
        match books[i].reading_status {
            ReadingStatus::Reading => reading = reading + 1,
            ReadingStatus::Completed => completed = completed + 1,
            ReadingStatus::ToRead => to_read = to_read + 1,
            ReadingStatus::OnHold => on_hold = on_hold + 1,
            ReadingStatus::Abandoned => on_hold = on_hold + 1,
        }
        i = i + 1;
    }
    assert(v.subrange(0, i as int) =~= v);
    ReadingStats {
        total_books: books.len() as u32,
        currently_reading: reading,
        completed,
        to_read,
        on_hold,
    }
}

/// Copies of the records of `books` being read, in order.
pub fn reading_of(books: &Vec<BookEntry>) -> (r: Vec<BookEntry>)
    ensures
        books_view(r@) == reading_books(books_view(books@)),
{
    let ghost v = books_view(books@);
    let mut r: Vec<BookEntry> = Vec::new();
    let mut i: usize = 0;
    while i < books.len()
        invariant
            i <= books.len(),
            v == books_view(books@),
            books_view(r@) == reading_books(v.subrange(0, i as int)),
        decreases books.len() - i,
    {
        let ghost prefix = v.subrange(0, i as int);
        assert(v.subrange(0, i + 1).drop_last() =~= prefix);
        assert(v[i as int] == books@[i as int]@);
        if books[i].reading_status == ReadingStatus::Reading {
            let ghost before = r@;
            r.push(books[i].duplicate());
            assert(books_view(r@) =~= books_view(before).push(v[i as int]));
        }
        i = i + 1;
    }
    assert(v.subrange(0, i as int) =~= v);
    r
}

} // verus!
