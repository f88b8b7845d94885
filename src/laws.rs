use vstd::prelude::*;

use crate::model::{
    StoreModel, key_pos, lemma_key_pos, lemma_owner_pos, lemma_total_update, owner_pos,
};
use crate::record::{BookModel, ProgressUpdate};

verus! {

/// Once `first` is added to a collection of `o` that lacked its key, adding
/// `second` with that key is refused as a duplicate (`add_book` refuses exactly
/// where `has_record` holds), and the collection holds one record with the key:
/// `first`.
pub proof fn law_duplicate_key_refused(
    m: StoreModel,
    o: Seq<char>,
    first: BookModel,
    second: BookModel,
)
    requires
        !m.has_record(o, first.isbn),
        second.isbn == first.isbn,
    ensures
        m.with_book(o, first).has_record(o, second.isbn),
        ({
            let l = m.with_book(o, first).library(o);
            exists|i: int|
                0 <= i < l.len() && l[i] == first && forall|j: int|
                    0 <= j < l.len() && j != i ==> l[j].isbn != first.isbn
        }),
{
    let k = first.isbn;
    let l0 = m.library(o);
    let l = l0.push(first);
    m.lemma_with_library(o, l);
    lemma_key_pos(l0, k);
    assert(l.drop_last() =~= l0);
    assert(key_pos(l, k) == l0.len());
    assert(forall|j: int| 0 <= j < l.len() && j != l0.len() ==> l[j] == l0[j]);
    assert(l[l0.len() as int] == first);
}

/// A record added under a key that its owner's collection lacked is what a
/// lookup of that key then returns.
pub proof fn law_add_then_get(m: StoreModel, o: Seq<char>, b: BookModel)
    requires
        !m.has_record(o, b.isbn),
    ensures
        m.with_book(o, b).record(o, b.isbn) == Some(b),
{
    let l0 = m.library(o);
    let l = l0.push(b);
    m.lemma_with_library(o, l);
    lemma_key_pos(l0, b.isbn);
    assert(l.drop_last() =~= l0);
    assert(key_pos(l, b.isbn) == l0.len());
}

/// Setting the same note of one chapter twice is the same as setting it once,
/// and the record then holds that note for the chapter.
pub proof fn law_note_twice(
    m: StoreModel,
    o: Seq<char>,
    k: Seq<char>,
    chapter: u32,
    note: Seq<char>,
)
    requires
        m.check_note(o, k, chapter) is Ok,
    ensures
        ({
            let once = m.with_record(o, k, m.entry(o, k).with_note(chapter, note));
            let twice = once.with_record(o, k, once.entry(o, k).with_note(chapter, note));
            &&& once.check_note(o, k, chapter) is Ok
            &&& twice == once
            &&& twice.note(o, k, chapter) == Some(note)
        }),
{
    let b = m.entry(o, k).with_note(chapter, note);
    lemma_key_pos(m.library(o), k);
    m.lemma_with_record(o, k, b, b);
    let once = m.with_record(o, k, b);
    assert(once.entry(o, k).with_note(chapter, note) == b) by {
        assert(b.chapter_notes.insert(chapter, note) =~= b.chapter_notes);
    }
}

/// Following the same owner twice leaves the store as following it once, with
/// that owner in the list exactly once.
pub proof fn law_follow_twice(m: StoreModel, a: Seq<char>, b: Seq<char>)
    requires
        m.follows_valid(),
        a != b,
    ensures
        m.after_follow(a, b).after_follow(a, b) == m.after_follow(a, b),
        ({
            let l = m.after_follow(a, b).followed(a);
            exists|i: int| 0 <= i < l.len() && l[i] == b && forall|j: int| 0 <= j < l.len() && j != i ==> l[j] != b
        }),
{
    let l0 = m.followed(a);
    assert(l0.no_duplicates());
    if l0.contains(b) {
        let i = choose|i: int| 0 <= i < l0.len() && l0[i] == b;
        assert(forall|j: int| 0 <= j < l0.len() && j != i ==> l0[j] != b);
    } else {
        let l = l0.push(b);
        m.lemma_with_follows(a, l);
        assert(l[l0.len() as int] == b);
        assert(m.after_follow(a, b).followed(a).contains(b));
        assert forall|j: int| 0 <= j < l.len() && j != l0.len() implies l[j] != b by {
            assert(l[j] == l0[j]);
        }
    }
}

/// A progress update that sets only the current chapter changes nothing else of
/// the record: notes, position, status and read chapters stay.
pub proof fn law_progress_chapter_only(b: BookModel, u: ProgressUpdate)
    requires
        u.current_chapter is Some,
        u.chapters_completed@.len() == 0,
        u.last_read_position is None,
        u.last_read_date is None,
        u.reading_status is None,
    ensures
        b.merged(u).current_chapter == u.current_chapter->0,
        b.merged(u).chapter_notes == b.chapter_notes,
        b.merged(u).last_read_position == b.last_read_position,
        b.merged(u).last_read_date == b.last_read_date,
        b.merged(u).reading_status == b.reading_status,
        b.merged(u).chapters_read == b.chapters_read,
{
    assert(u.chapters_completed@.to_set() =~= Set::empty());
    assert(b.chapters_read.union(Set::empty()) =~= b.chapters_read);
}

/// Deleting a record whose key occurs once in its owner's collection leaves no
/// record under that key, and one record fewer in the store.
pub proof fn law_delete_record(m: StoreModel, o: Seq<char>, k: Seq<char>)
    requires
        m.has_record(o, k),
        forall|j: int|
            0 <= j < m.library(o).len() && j != key_pos(m.library(o), k) ==> m.library(o)[j].isbn != k,
    ensures
        m.without_record(o, k).record(o, k) is None,
        m.without_record(o, k).total() == m.total() - 1,
{
    let l0 = m.library(o);
    let p = key_pos(l0, k);
    lemma_key_pos(l0, k);
    let l = l0.remove(p);
    m.lemma_with_library(o, l);
    lemma_key_pos(l, k);
    assert forall|j: int| 0 <= j < l.len() implies l[j].isbn != k by {
        if j < p {
            assert(l[j] == l0[j]);
        } else {
            assert(l[j] == l0[j + 1]);
        }
    }
    lemma_owner_pos(m.libraries, o);
    lemma_total_update(m.libraries, owner_pos(m.libraries, o), (o, l));
}

} // verus!
