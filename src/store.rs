use vstd::prelude::*;

use crate::error::LibraryError;
use crate::model::{
    StoreModel, key_pos, lemma_key_pos, lemma_owner_pos, lemma_total_bounds, lemma_total_push,
    lemma_total_update, lemma_without, owner_pos, total_of, without,
};
use crate::record::{opt_text, BookEntry, BookModel, ProgressUpdate};
use crate::stats::{ReadingStats, reading_books, reading_of, stats_of};
use std::collections::BTreeMap;

verus! {

/// `caller` has a record with key `isbn` in `m`.
pub open spec fn record_found(m: StoreModel, caller: Seq<char>, isbn: Seq<char>) -> bool {
    m.check_record(caller, isbn) is Ok
}

/// One owner's collection of records.
struct Shelf {
    owner: String,
    books: Vec<BookEntry>,
}

impl View for Shelf {
    type V = (Seq<char>, Seq<BookModel>);

    closed spec fn view(&self) -> (Seq<char>, Seq<BookModel>) {
        (self.owner@, books_view(self.books@))
    }
}

/// One owner's list of followed owners.
struct FollowList {
    owner: String,
    accounts: Vec<String>,
}

impl View for FollowList {
    type V = (Seq<char>, Seq<Seq<char>>);

    closed spec fn view(&self) -> (Seq<char>, Seq<Seq<char>>) {
        (self.owner@, names_view(self.accounts@))
    }
}

pub open spec fn names_view(names: Seq<String>) -> Seq<Seq<char>> {
    names.map_values(|a: String| a@)
}

pub open spec fn books_view(books: Seq<BookEntry>) -> Seq<BookModel> {
    books.map_values(|b: BookEntry| b@)
}

/// The store: every owner's collection of book records, and who follows whom.
pub struct Contract {
    libraries: Vec<Shelf>,
    followed_accounts: Vec<FollowList>,
}

impl View for Contract {
    type V = StoreModel;

    closed spec fn view(&self) -> StoreModel {
        StoreModel {
            libraries: self.libraries@.map_values(|s: Shelf| s@),
            follows: self.followed_accounts@.map_values(|f: FollowList| f@),
        }
    }
}

impl Default for Contract {
    fn default() -> (r: Contract)
        ensures
            r.wf(),
            r@.libraries.len() == 0,
            r@.follows.len() == 0,
    {
        Contract::new()
    }
}

/// Copies each record of `books`.
fn copy_books(books: &Vec<BookEntry>) -> (r: Vec<BookEntry>)
    ensures
        books_view(r@) == books_view(books@),
{
    let mut r: Vec<BookEntry> = Vec::new();
    let mut i: usize = 0;
    while i < books.len()
        invariant
            i <= books.len(),
            r@.len() == i,
            forall|k: int| 0 <= k < i ==> #[trigger] r@[k]@ == books@[k]@,
        decreases books.len() - i,
    {
        r.push(books[i].duplicate());
        i = i + 1;
    }
    assert(books_view(r@) =~= books_view(books@));
    r
}

/// Appending a name that is new and not `o` keeps a follow list of `o` valid.
proof fn lemma_push_valid(l: Seq<Seq<char>>, t: Seq<char>, o: Seq<char>)
    requires
        l.no_duplicates(),
        !l.contains(o),
        !l.contains(t),
        t != o,
    ensures
        l.push(t).no_duplicates(),
        !l.push(t).contains(o),
{
    let q = l.push(t);
    assert forall|i: int, j: int| 0 <= i < q.len() && 0 <= j < q.len() && i != j implies q[i] != q[j] by {
        if i == l.len() {
            assert(l[j] == q[j]);
        } else if j == l.len() {
            assert(l[i] == q[i]);
        } else {
            assert(l[i] == q[i] && l[j] == q[j]);
        }
    }
    if q.contains(o) {
        let k = choose|k: int| 0 <= k < q.len() && q[k] == o;
        assert(k < l.len());
        assert(l[k] == o);
    }
}

/// Copies each name of `names`.
fn copy_names(names: &Vec<String>) -> (r: Vec<String>)
    ensures
        names_view(r@) == names_view(names@),
{
    let mut r: Vec<String> = Vec::new();
    let mut i: usize = 0;
    while i < names.len()
        invariant
            i <= names.len(),
            r@.len() == i,
            forall|k: int| 0 <= k < i ==> #[trigger] r@[k]@ == names@[k]@,
        decreases names.len() - i,
    {
        r.push(names[i].clone());
        i = i + 1;
    }
    assert(names_view(r@) =~= names_view(names@));
    r
}

/// Whether `names` holds `target`.
fn has_name(names: &Vec<String>, target: &String) -> (r: bool)
    ensures
        r == names_view(names@).contains(target@),
{
    let ghost v = names_view(names@);
    let mut i: usize = 0;
    while i < names.len()
        invariant
            i <= names.len(),
            v == names_view(names@),
            forall|j: int| 0 <= j < i ==> v[j] != target@,
        decreases names.len() - i,
    {
        if names[i] == *target {
            assert(v[i as int] == target@);
            return true;
        }
        i = i + 1;
    }
    false
}

/// `names` without `target`, and whether it held `target`.
fn drop_name(names: &Vec<String>, target: &String) -> (r: (Vec<String>, bool))
    ensures
        names_view(r.0@) == without(names_view(names@), target@),
        r.1 == names_view(names@).contains(target@),
{
    let ghost v = names_view(names@);
    let mut kept: Vec<String> = Vec::new();
    let mut found = false;
    let mut i: usize = 0;
    while i < names.len()
        invariant
            i <= names.len(),
            v == names_view(names@),
            names_view(kept@) == without(v.subrange(0, i as int), target@),
            found == v.subrange(0, i as int).contains(target@),
        decreases names.len() - i,
    {
        let ghost prefix = v.subrange(0, i as int);
        assert(v.subrange(0, i + 1).drop_last() =~= prefix);
        assert(v.subrange(0, i + 1) =~= prefix.push(v[i as int]));
        proof {
            let next = v.subrange(0, i + 1);
            if next.contains(target@) {
                let k = choose|k: int| 0 <= k < next.len() && next[k] == target@;
                if k < i {
                    assert(prefix[k] == target@);
                }
            }
            if prefix.contains(target@) {
                let k = choose|k: int| 0 <= k < prefix.len() && prefix[k] == target@;
                assert(next[k] == target@);
            }
            if v[i as int] == target@ {
                assert(next[i as int] == target@);
            }
        }
        if names[i] == *target {
            found = true;
        } else {
            kept.push(names[i].clone());
            assert(names_view(kept@) =~= without(prefix, target@).push(v[i as int]));
        }
        i = i + 1;
    }
    assert(v.subrange(0, i as int) =~= v);
    (kept, found)
}

/// Finds the first record of `books` with key `isbn`.
fn find_book(books: &Vec<BookEntry>, isbn: &String) -> (r: Option<usize>)
    ensures
        match r {
            Some(i) => i < books.len() && i == key_pos(books_view(books@), isbn@),
            None => key_pos(books_view(books@), isbn@) == -1,
        },
{
    proof {
        lemma_key_pos(books_view(books@), isbn@);
    }
    let mut i: usize = 0;
    while i < books.len()
        invariant
            i <= books.len(),
            forall|j: int| 0 <= j < i ==> books_view(books@)[j].isbn != isbn@,
        decreases books.len() - i,
    {
        if books[i].isbn == *isbn {
            proof {
                let bv = books_view(books@);
                lemma_key_pos(bv, isbn@);
                assert(bv[i as int].isbn == isbn@);
                assert(key_pos(bv, isbn@) >= i);
            }
            return Some(i);
        }
        i = i + 1;
    }
    None
}

impl Contract {
    /// The empty store.
    pub fn new() -> (r: Contract)
        ensures
            r.wf(),
            r@.libraries.len() == 0,
            r@.follows.len() == 0,
    {
        let r = Contract { libraries: Vec::new(), followed_accounts: Vec::new() };
        assert(r@.libraries =~= Seq::empty());
        assert(r@.follows =~= Seq::empty());
        r
    }

    /// The store's own invariant: the number of records fits the `u32` that counts
    /// are reported in, and the follow lists are valid.
    pub open spec fn wf(&self) -> bool {
        &&& self@.total() <= u32::MAX
        &&& self@.follows_valid()
    }

    proof fn lemma_view_facts(&self)
        ensures
            self@.libraries.len() == self.libraries@.len(),
            forall|i: int|
                0 <= i < self.libraries@.len() ==> #[trigger] self@.libraries[i]
                    == self.libraries@[i]@,
            self@.follows.len() == self.followed_accounts@.len(),
            forall|i: int|
                0 <= i < self.followed_accounts@.len() ==> #[trigger] self@.follows[i]
                    == self.followed_accounts@[i]@,
    {
    }

    /// Finds the collection of `owner`.
    fn find_shelf(&self, owner: &String) -> (r: Option<usize>)
        ensures
            match r {
                Some(i) => i < self@.libraries.len() && i == owner_pos(self@.libraries, owner@),
                None => owner_pos(self@.libraries, owner@) == -1,
            },
    {
        proof {
            self.lemma_view_facts();
            lemma_owner_pos(self@.libraries, owner@);
        }
        let mut i: usize = 0;
        while i < self.libraries.len()
            invariant
                i <= self.libraries.len(),
                forall|j: int| 0 <= j < i ==> self@.libraries[j].0 != owner@,
            decreases self.libraries.len() - i,
        {
            if self.libraries[i].owner == *owner {
                proof {
                    self.lemma_view_facts();
                    let v = self@.libraries;
                    lemma_owner_pos(v, owner@);
                    assert(v[i as int].0 == owner@);
                    assert(owner_pos(v, owner@) >= i);
                }
                return Some(i);
            }
            i = i + 1;
        }
        None
    }

    /// Finds the follow list of `owner`.
    fn find_follow_list(&self, owner: &String) -> (r: Option<usize>)
        ensures
            match r {
                Some(i) => i < self@.follows.len() && i == owner_pos(self@.follows, owner@),
                None => owner_pos(self@.follows, owner@) == -1,
            },
    {
        proof {
            self.lemma_view_facts();
            lemma_owner_pos(self@.follows, owner@);
        }
        let mut i: usize = 0;
        while i < self.followed_accounts.len()
            invariant
                i <= self.followed_accounts.len(),
                forall|j: int| 0 <= j < i ==> self@.follows[j].0 != owner@,
            decreases self.followed_accounts.len() - i,
        {
            if self.followed_accounts[i].owner == *owner {
                proof {
                    self.lemma_view_facts();
                    let v = self@.follows;
                    lemma_owner_pos(v, owner@);
                    assert(v[i as int].0 == owner@);
                    assert(owner_pos(v, owner@) >= i);
                }
                return Some(i);
            }
            i = i + 1;
        }
        None
    }

    /// Adds `book` to the collection of `caller`, which is created if needed.
    /// Refused with `DuplicateKey` where that collection already holds the key.
    pub fn add_book(&mut self, caller: String, book: BookEntry) -> (r: Result<(), LibraryError>)
        requires
            old(self).wf(),
            old(self)@.total() < u32::MAX,
        ensures
            r is Ok <==> !old(self)@.has_record(caller@, book@.isbn),
            r is Ok ==> final(self)@ == old(self)@.with_book(caller@, book@),
            r is Err ==> r == Err::<(), LibraryError>(LibraryError::DuplicateKey) && final(self)@
                == old(self)@,
            final(self).wf(),
            r is Ok ==> final(self)@.library(caller@) == old(self)@.library(caller@).push(book@),
    {
        let ghost before = self@;
        proof {
            self.lemma_view_facts();
            lemma_owner_pos(before.libraries, caller@);
            lemma_total_bounds(before.libraries, 0);
        }
        match self.find_shelf(&caller) {
            Some(si) => {
                if find_book(&self.libraries[si].books, &book.isbn).is_some() {
                    return Err(LibraryError::DuplicateKey);
                }
                let ghost b = book@;
                let ghost old_shelf = self.libraries@[si as int]@;
                self.libraries[si].books.push(book);
                proof {
                    assert(books_view(self.libraries@[si as int].books@) =~= old_shelf.1.push(b));
                    lemma_total_update(before.libraries, si as int, (caller@, old_shelf.1.push(b)));
                    self.lemma_view_facts();
                    assert(self@.libraries =~= before.with_book(caller@, b).libraries);
                    assert(self@.follows =~= before.follows);
                    self@.lemma_same_follows(before);
                }
            },
            None => {
                let ghost b = book@;
                let mut books: Vec<BookEntry> = Vec::new();
                books.push(book);
                self.libraries.push(Shelf { owner: caller, books });
                proof {
                    lemma_total_push(before.libraries, (caller@, seq![b]));
                    self.lemma_view_facts();
                    assert(books_view(self.libraries@.last().books@) =~= seq![b]);
                    assert(self@.libraries =~= before.with_book(caller@, b).libraries);
                    assert(self@.follows =~= before.follows);
                    self@.lemma_same_follows(before);
                }
            },
        }
        proof {
            before.lemma_with_library(caller@, before.library(caller@).push(book@));
        }
        Ok(())
    }

    /// A copy of the collection of `account_id`; empty where it has none.
    pub fn get_library(&self, account_id: String) -> (r: Vec<BookEntry>)
        ensures
            books_view(r@) == self@.library(account_id@),
    {
        proof {
            self.lemma_view_facts();
            lemma_owner_pos(self@.libraries, account_id@);
        }
        match self.find_shelf(&account_id) {
            Some(si) => copy_books(&self.libraries[si].books),
            None => {
                let r: Vec<BookEntry> = Vec::new();
                assert(books_view(r@) =~= Seq::empty());
                r
            },
        }
    }

    /// A copy of the first record of `account_id` with key `isbn`, if there is one.
    pub fn get_book(&self, account_id: String, isbn: String) -> (r: Option<BookEntry>)
        ensures
            match r {
                Some(b) => self@.record(account_id@, isbn@) == Some(b@),
                None => self@.record(account_id@, isbn@) is None,
            },
    {
        proof {
            self.lemma_view_facts();
            lemma_owner_pos(self@.libraries, account_id@);
        }
        match self.find_shelf(&account_id) {
            Some(si) => match find_book(&self.libraries[si].books, &isbn) {
                Some(bi) => Some(self.libraries[si].books[bi].duplicate()),
                None => None,
            },
            None => None,
        }
    }

    /// The number of records over all owners.
    pub fn get_total_books(&self) -> (r: u32)
        requires
            self.wf(),
        ensures
            r == self@.total(),
    {
        proof {
            self.lemma_view_facts();
        }
        let ghost s = self@.libraries;
        let mut sum: u32 = 0;
        let mut i: usize = 0;
        while i < self.libraries.len()
            invariant
                i <= self.libraries.len(),
                s == self@.libraries,
                self.wf(),
                sum == total_of(s.subrange(0, i as int)),
            decreases self.libraries.len() - i,
        {
            proof {
                self.lemma_view_facts();
                assert(s.subrange(0, i + 1).drop_last() =~= s.subrange(0, i as int));
                lemma_total_bounds(s, i + 1);
            }
            sum = sum + self.libraries[i].books.len() as u32;
            i = i + 1;
        }
        assert(s.subrange(0, i as int) =~= s);
        sum
    }
    /// Finds the record of `caller` with key `isbn`, as a collection and a position in it.
    fn locate(&self, caller: &String, isbn: &String) -> (r: Result<(usize, usize), LibraryError>)
        ensures
            match r {
                Ok((si, bi)) => {
                    &&& record_found(self@, caller@, isbn@)
                    &&& si == owner_pos(self@.libraries, caller@)
                    &&& bi == key_pos(self@.library(caller@), isbn@)
                    &&& si < self.libraries@.len()
                    &&& bi < self.libraries@[si as int].books@.len()
                },
                Err(e) => self@.check_record(caller@, isbn@) == Err::<(), LibraryError>(e),
            },
    {
        proof {
            self.lemma_view_facts();
        }
        match self.find_shelf(caller) {
            Some(si) => match find_book(&self.libraries[si].books, isbn) {
                Some(bi) => Ok((si, bi)),
                None => Err(LibraryError::RecordNotFound),
            },
            None => Err(LibraryError::CollectionNotFound),
        }
    }

    /// What a change of the record at (`si`, `bi`) does to the store's value.
    proof fn lemma_record_changed(
        before: &Contract,
        after: &Contract,
        si: int,
        bi: int,
        caller: Seq<char>,
        isbn: Seq<char>,
    )
        requires
            record_found(before@, caller, isbn),
            si == owner_pos(before@.libraries, caller),
            bi == key_pos(before@.library(caller), isbn),
            si < before.libraries@.len(),
            bi < before.libraries@[si].books@.len(),
            after.libraries@.len() == before.libraries@.len(),
            forall|j: int| 0 <= j < before.libraries@.len() && j != si ==> after.libraries@[j] == before.libraries@[j],
            after.libraries@[si].owner == before.libraries@[si].owner,
            after.libraries@[si].books@.len() == before.libraries@[si].books@.len(),
            forall|k: int|
                0 <= k < before.libraries@[si].books@.len() && k != bi
                    ==> after.libraries@[si].books@[k] == before.libraries@[si].books@[k],
            after.followed_accounts@ == before.followed_accounts@,
        ensures
            after@ == before@.with_record(caller, isbn, after.libraries@[si].books@[bi]@),
            after@.total() == before@.total(),
            before@.entry(caller, isbn) == before.libraries@[si].books@[bi]@,
            before.libraries@[si].books@[bi]@.isbn == isbn,
            after@.follows_valid() == before@.follows_valid(),
            after.libraries@[si].books@[bi]@.isbn == isbn ==> after@.record(caller, isbn) == Some(
                after.libraries@[si].books@[bi]@,
            ),
    {
        before.lemma_view_facts();
        after.lemma_view_facts();
        lemma_owner_pos(before@.libraries, caller);
        lemma_key_pos(before@.library(caller), isbn);
        let b = after.libraries@[si].books@[bi]@;
        let l = before@.library(caller).update(bi, b);
        assert(before@.libraries[si] == before.libraries@[si]@);
        assert(before@.library(caller) == books_view(before.libraries@[si].books@));
        assert(books_view(after.libraries@[si].books@) =~= l);
        assert(after@.libraries[si] == (caller, l));
        assert(after@.libraries =~= before@.with_record(caller, isbn, b).libraries);
        assert(after@.follows =~= before@.follows);
        lemma_total_update(before@.libraries, si, (caller, l));
        after@.lemma_same_follows(before@);
        if b.isbn == isbn {
            before@.lemma_with_record(caller, isbn, b, b);
        }
    }

    /// Merges `progress` into the record of `caller` with key `isbn`.
    pub fn update_reading_progress(
        &mut self,
        caller: String,
        isbn: String,
        progress: ProgressUpdate,
    ) -> (r: Result<(), LibraryError>)
        requires
            old(self).wf(),
        ensures
            final(self).wf(),
            r == old(self)@.check_record(caller@, isbn@),
            r is Ok ==> final(self)@ == old(self)@.with_record(
                caller@,
                isbn@,
                old(self)@.entry(caller@, isbn@).merged(progress),
            ),
            r is Err ==> final(self)@ == old(self)@,
            final(self)@.total() == old(self)@.total(),
            r is Ok ==> final(self)@.record(caller@, isbn@) == Some(
                old(self)@.entry(caller@, isbn@).merged(progress),
            ),
    {
        let (si, bi) = match self.locate(&caller, &isbn) {
            Ok(p) => p,
            Err(e) => return Err(e),
        };
        let ghost before = *self;
        self.libraries[si].books[bi].apply_progress(progress);
        proof {
            Contract::lemma_record_changed(&before, self, si as int, bi as int, caller@, isbn@);
        }
        Ok(())
    }
    /// Sets the note of `chapter` on the record of `caller` with key `isbn`,
    /// replacing any earlier one. Refused with `InvalidChapter` where the chapter
    /// exceeds a known total, or is 0 where the total is unknown.
    pub fn add_chapter_note(
        &mut self,
        caller: String,
        isbn: String,
        chapter: u32,
        note: String,
    ) -> (r: Result<(), LibraryError>)
        requires
            old(self).wf(),
        ensures
            final(self).wf(),
            r == old(self)@.check_note(caller@, isbn@, chapter),
            r is Ok ==> final(self)@ == old(self)@.with_record(
                caller@,
                isbn@,
                old(self)@.entry(caller@, isbn@).with_note(chapter, note@),
            ),
            r is Err ==> final(self)@ == old(self)@,
            final(self)@.total() == old(self)@.total(),
            r is Ok ==> final(self)@.note(caller@, isbn@, chapter) == Some(note@),
    {
        let (si, bi) = match self.locate(&caller, &isbn) {
            Ok(p) => p,
            Err(e) => return Err(e),
        };
        proof {
            Contract::lemma_record_changed(self, self, si as int, bi as int, caller@, isbn@);
        }
        let ghost before = *self;
        let r = self.libraries[si].books[bi].set_chapter_note(chapter, note);
        proof {
            Contract::lemma_record_changed(&before, self, si as int, bi as int, caller@, isbn@);
        }
        match r {
            Ok(()) => Ok(()),
            Err(e) => Err(e),
        }
    }

    /// Removes the note of `chapter` from the record of `caller` with key `isbn`,
    /// and tells whether there was one.
    pub fn delete_chapter_note(
        &mut self,
        caller: String,
        isbn: String,
        chapter: u32,
    ) -> (r: Result<bool, LibraryError>)
        requires
            old(self).wf(),
        ensures
            final(self).wf(),
            r is Ok <==> old(self)@.check_record(caller@, isbn@) is Ok,
            match r {
                Ok(removed) => {
                    &&& removed == old(self)@.entry(caller@, isbn@).chapter_notes.contains_key(chapter)
                    &&& final(self)@ == old(self)@.with_record(
                        caller@,
                        isbn@,
                        old(self)@.entry(caller@, isbn@).without_note(chapter),
                    )
                },
                Err(e) => old(self)@.check_record(caller@, isbn@) == Err::<(), LibraryError>(e)
                    && final(self)@ == old(self)@,
            },
            final(self)@.total() == old(self)@.total(),
            r is Ok ==> final(self)@.note(caller@, isbn@, chapter) is None,
    {
        let (si, bi) = match self.locate(&caller, &isbn) {
            Ok(p) => p,
            Err(e) => return Err(e),
        };
        proof {
            Contract::lemma_record_changed(self, self, si as int, bi as int, caller@, isbn@);
        }
        let ghost before = *self;
        let removed = self.libraries[si].books[bi].remove_chapter_note(chapter);
        proof {
            Contract::lemma_record_changed(&before, self, si as int, bi as int, caller@, isbn@);
        }
        Ok(removed)
    }

    /// Marks the record of `caller` with key `isbn` as read through on `date`.
    pub fn mark_completed(
        &mut self,
        caller: String,
        isbn: String,
        date: String,
    ) -> (r: Result<(), LibraryError>)
        requires
            old(self).wf(),
        ensures
            final(self).wf(),
            r == old(self)@.check_record(caller@, isbn@),
            r is Ok ==> final(self)@ == old(self)@.with_record(
                caller@,
                isbn@,
                old(self)@.entry(caller@, isbn@).completed(date@),
            ),
            r is Err ==> final(self)@ == old(self)@,
            final(self)@.total() == old(self)@.total(),
            r is Ok ==> final(self)@.record(caller@, isbn@) == Some(
                old(self)@.entry(caller@, isbn@).completed(date@),
            ),
    {
        let (si, bi) = match self.locate(&caller, &isbn) {
            Ok(p) => p,
            Err(e) => return Err(e),
        };
        proof {
            Contract::lemma_record_changed(self, self, si as int, bi as int, caller@, isbn@);
        }
        let ghost before = *self;
        self.libraries[si].books[bi].complete(date);
        proof {
            Contract::lemma_record_changed(&before, self, si as int, bi as int, caller@, isbn@);
        }
        Ok(())
    }

    /// Marks the record of `caller` with key `isbn` as being read, from
    /// `starting_chapter`, or from chapter 1 where none is given.
    pub fn start_reading(
        &mut self,
        caller: String,
        isbn: String,
        starting_chapter: Option<u32>,
    ) -> (r: Result<(), LibraryError>)
        requires
            old(self).wf(),
        ensures
            final(self).wf(),
            r == old(self)@.check_record(caller@, isbn@),
            r is Ok ==> final(self)@ == old(self)@.with_record(
                caller@,
                isbn@,
                old(self)@.entry(caller@, isbn@).started(
                    match starting_chapter {
                        Some(c) => c,
                        None => 1,
                    },
                ),
            ),
            r is Err ==> final(self)@ == old(self)@,
            final(self)@.total() == old(self)@.total(),
            r is Ok ==> final(self)@.record(caller@, isbn@) == Some(
                old(self)@.entry(caller@, isbn@).started(
                    match starting_chapter {
                        Some(c) => c,
                        None => 1,
                    },
                ),
            ),
    {
        let (si, bi) = match self.locate(&caller, &isbn) {
            Ok(p) => p,
            Err(e) => return Err(e),
        };
        proof {
            Contract::lemma_record_changed(self, self, si as int, bi as int, caller@, isbn@);
        }
        let chapter = match starting_chapter {
            Some(c) => c,
            None => 1,
        };
        let ghost before = *self;
        self.libraries[si].books[bi].start(chapter);
        proof {
            Contract::lemma_record_changed(&before, self, si as int, bi as int, caller@, isbn@);
        }
        Ok(())
    }

    /// Puts `updated_book`, as it is, in the place of the record of `caller` with
    /// key `isbn`. Its own key is not compared with `isbn`.
    pub fn update_book(
        &mut self,
        caller: String,
        isbn: String,
        updated_book: BookEntry,
    ) -> (r: Result<(), LibraryError>)
        requires
            old(self).wf(),
        ensures
            final(self).wf(),
            r == old(self)@.check_record(caller@, isbn@),
            r is Ok ==> final(self)@ == old(self)@.with_record(caller@, isbn@, updated_book@),
            r is Err ==> final(self)@ == old(self)@,
            final(self)@.total() == old(self)@.total(),
    {
        let (si, bi) = match self.locate(&caller, &isbn) {
            Ok(p) => p,
            Err(e) => return Err(e),
        };
        let ghost before = *self;
        self.libraries[si].books[bi] = updated_book;
        proof {
            Contract::lemma_record_changed(&before, self, si as int, bi as int, caller@, isbn@);
        }
        Ok(())
    }

    /// Removes the record of `caller` with key `isbn` (the first one, where a
    /// replacement left two), and returns its title.
    pub fn delete_book(&mut self, caller: String, isbn: String) -> (r: Result<String, LibraryError>)
        requires
            old(self).wf(),
        ensures
            final(self).wf(),
            r is Ok <==> old(self)@.check_record(caller@, isbn@) is Ok,
            match r {
                Ok(title) => {
                    &&& title@ == old(self)@.entry(caller@, isbn@).title
                    &&& final(self)@ == old(self)@.without_record(caller@, isbn@)
                    &&& final(self)@.total() == old(self)@.total() - 1
                },
                Err(e) => old(self)@.check_record(caller@, isbn@) == Err::<(), LibraryError>(e)
                    && final(self)@ == old(self)@,
            },
    {
        let (si, bi) = match self.locate(&caller, &isbn) {
            Ok(p) => p,
            Err(e) => return Err(e),
        };
        proof {
            Contract::lemma_record_changed(self, self, si as int, bi as int, caller@, isbn@);
            lemma_owner_pos(self@.libraries, caller@);
            self.lemma_view_facts();
        }
        let ghost before = self@;
        let ghost old_books = self.libraries@[si as int].books@;
        let removed = self.libraries[si].books.remove(bi);
        proof {
            self.lemma_view_facts();
            let l = before.library(caller@).remove(bi as int);
            assert(before.library(caller@) == books_view(old_books));
            assert(books_view(self.libraries@[si as int].books@) =~= l);
            assert(self@.libraries =~= before.without_record(caller@, isbn@).libraries);
            assert(self@.follows =~= before.follows);
            lemma_total_update(before.libraries, si as int, (caller@, l));
            self@.lemma_same_follows(before);
        }
        Ok(removed.title)
    }

    /// The note of `chapter` on the record of `account_id` with key `isbn`.
    pub fn get_chapter_note(
        &self,
        account_id: String,
        isbn: String,
        chapter: u32,
    ) -> (r: Option<String>)
        ensures
            opt_text(r) == self@.note(account_id@, isbn@, chapter),
    {
        match self.locate(&account_id, &isbn) {
            Ok((si, bi)) => {
                proof {
                    Contract::lemma_record_changed(self, self, si as int, bi as int, account_id@, isbn@);
                }
                match self.libraries[si].books[bi].chapter_notes.get(&chapter) {
                    Some(n) => Some(n.clone()),
                    None => None,
                }
            },
            Err(_) => None,
        }
    }

    /// All notes of the record of `account_id` with key `isbn`; none where there
    /// is no such record.
    pub fn get_all_chapter_notes(
        &self,
        account_id: String,
        isbn: String,
    ) -> (r: BTreeMap<u32, String>)
        ensures
            r@.map_values(|s: String| s@) == self@.notes(account_id@, isbn@),
    {
        match self.locate(&account_id, &isbn) {
            Ok((si, bi)) => {
                proof {
                    Contract::lemma_record_changed(self, self, si as int, bi as int, account_id@, isbn@);
                }
                self.libraries[si].books[bi].chapter_notes.clone()
            },
            Err(_) => {
                let r = BTreeMap::new();
                assert(r@.map_values(|s: String| s@) =~= Map::empty());
                r
            },
        }
    }
    /// Adds `account_id_to_follow` to the owners that `caller` follows, and tells
    /// whether it was new there. Refused with `SelfFollow` where the two are one.
    pub fn follow_account(
        &mut self,
        caller: String,
        account_id_to_follow: String,
    ) -> (r: Result<bool, LibraryError>)
        requires
            old(self).wf(),
        ensures
            final(self).wf(),
            caller@ == account_id_to_follow@ ==> r == Err::<bool, LibraryError>(LibraryError::SelfFollow),
            caller@ != account_id_to_follow@ ==> r == Ok::<bool, LibraryError>(
                !old(self)@.followed(caller@).contains(account_id_to_follow@),
            ),
            caller@ != account_id_to_follow@ ==> final(self)@ == old(self)@.after_follow(
                caller@,
                account_id_to_follow@,
            ),
            r == Ok::<bool, LibraryError>(true) ==> final(self)@ == old(self)@.with_follows(
                caller@,
                old(self)@.followed(caller@).push(account_id_to_follow@),
            ),
            r != Ok::<bool, LibraryError>(true) ==> final(self)@ == old(self)@,
            caller@ != account_id_to_follow@ ==> final(self)@.followed(caller@) == if old(
                self,
            )@.followed(caller@).contains(account_id_to_follow@) {
                old(self)@.followed(caller@)
            } else {
                old(self)@.followed(caller@).push(account_id_to_follow@)
            },
    {
        if caller == account_id_to_follow {
            return Err(LibraryError::SelfFollow);
        }
        let ghost before = self@;
        proof {
            self.lemma_view_facts();
            lemma_owner_pos(before.follows, caller@);
        }
        proof {
            before.lemma_with_follows(caller@, before.followed(caller@).push(account_id_to_follow@));
        }
        match self.find_follow_list(&caller) {
            Some(fi) => {
                if has_name(&self.followed_accounts[fi].accounts, &account_id_to_follow) {
                    return Ok(false);
                }
                let ghost old_list = before.followed(caller@);
                self.followed_accounts[fi].accounts.push(account_id_to_follow);
                proof {
                    lemma_push_valid(old_list, account_id_to_follow@, caller@);
                    before.lemma_follows_valid_after(caller@, old_list.push(account_id_to_follow@));
                    self.lemma_view_facts();
                    assert(names_view(self.followed_accounts@[fi as int].accounts@) =~= old_list.push(
                        account_id_to_follow@,
                    ));
                    assert(self@.follows =~= before.with_follows(caller@, old_list.push(account_id_to_follow@)).follows);
                    assert(self@.libraries =~= before.libraries);
                }
            },
            None => {
                let ghost t = account_id_to_follow@;
                let mut accounts: Vec<String> = Vec::new();
                accounts.push(account_id_to_follow);
                self.followed_accounts.push(FollowList { owner: caller, accounts });
                proof {
                    self.lemma_view_facts();
                    assert(names_view(self.followed_accounts@.last().accounts@) =~= seq![t]);
                    assert(before.followed(caller@).push(t) =~= seq![t]);
                    lemma_push_valid(before.followed(caller@), t, caller@);
                    before.lemma_follows_valid_after(caller@, seq![t]);
                    assert(self@.follows =~= before.with_follows(caller@, seq![t]).follows);
                    assert(self@.libraries =~= before.libraries);
                }
            },
        }
        Ok(true)
    }

    /// Removes `account_id_to_unfollow` from the owners that `caller` follows, and
    /// tells whether it was there. Refused with `NoFollowList` where `caller` never
    /// followed anyone.
    pub fn unfollow_account(
        &mut self,
        caller: String,
        account_id_to_unfollow: String,
    ) -> (r: Result<bool, LibraryError>)
        requires
            old(self).wf(),
        ensures
            final(self).wf(),
            !old(self)@.has_follow_list(caller@) ==> r == Err::<bool, LibraryError>(LibraryError::NoFollowList)
                && final(self)@ == old(self)@,
            old(self)@.has_follow_list(caller@) ==> r == Ok::<bool, LibraryError>(
                old(self)@.followed(caller@).contains(account_id_to_unfollow@),
            ) && final(self)@ == old(self)@.with_follows(
                caller@,
                without(old(self)@.followed(caller@), account_id_to_unfollow@),
            ),
            old(self)@.has_follow_list(caller@) ==> final(self)@.followed(caller@) == without(
                old(self)@.followed(caller@),
                account_id_to_unfollow@,
            ),
    {
        let ghost before = self@;
        proof {
            self.lemma_view_facts();
            lemma_owner_pos(before.follows, caller@);
        }
        let fi = match self.find_follow_list(&caller) {
            Some(fi) => fi,
            None => return Err(LibraryError::NoFollowList),
        };
        let (kept, present) = drop_name(&self.followed_accounts[fi].accounts, &account_id_to_unfollow);
        self.followed_accounts[fi].accounts = kept;
        proof {
            let l = before.followed(caller@);
            assert(l.no_duplicates() && !l.contains(caller@));
            lemma_without(l, account_id_to_unfollow@);
            before.lemma_follows_valid_after(caller@, without(l, account_id_to_unfollow@));
            before.lemma_with_follows(caller@, without(l, account_id_to_unfollow@));
            self.lemma_view_facts();
            assert(self@.follows =~= before.with_follows(
                caller@,
                without(before.followed(caller@), account_id_to_unfollow@),
            ).follows);
            assert(self@.libraries =~= before.libraries);
        }
        Ok(present)
    }

    /// The owners that `account_id` follows, in the order they were followed.
    pub fn get_followed_accounts(&self, account_id: String) -> (r: Vec<String>)
        ensures
            names_view(r@) == self@.followed(account_id@),
    {
        proof {
            self.lemma_view_facts();
            lemma_owner_pos(self@.follows, account_id@);
        }
        match self.find_follow_list(&account_id) {
            Some(fi) => copy_names(&self.followed_accounts[fi].accounts),
            None => {
                let r: Vec<String> = Vec::new();
                assert(names_view(r@) =~= Seq::empty());
                r
            },
        }
    }
    /// The counts by status of the collection of `account_id`.
    pub fn get_reading_stats(&self, account_id: String) -> (r: ReadingStats)
        requires
            self.wf(),
        ensures
            r.describes(self@.library(account_id@)),
    {
        proof {
            self.lemma_view_facts();
            lemma_owner_pos(self@.libraries, account_id@);
            lemma_total_bounds(self@.libraries, 0);
        }
        match self.find_shelf(&account_id) {
            Some(si) => stats_of(&self.libraries[si].books),
            None => {
                let empty: Vec<BookEntry> = Vec::new();
                assert(books_view(empty@) =~= Seq::empty());
                stats_of(&empty)
            },
        }
    }

    /// Copies of the records of `account_id` being read, in collection order.
    pub fn get_currently_reading(&self, account_id: String) -> (r: Vec<BookEntry>)
        ensures
            books_view(r@) == reading_books(self@.library(account_id@)),
    {
        proof {
            self.lemma_view_facts();
            lemma_owner_pos(self@.libraries, account_id@);
        }
        match self.find_shelf(&account_id) {
            Some(si) => reading_of(&self.libraries[si].books),
            None => {
                let r: Vec<BookEntry> = Vec::new();
                assert(books_view(r@) =~= Seq::empty());
                assert(reading_books(Seq::empty()) =~= Seq::empty());
                r
            },
        }
    }

    /// A copy of another owner's collection, for reading.
    pub fn get_user_library(&self, account_id: String) -> (r: Vec<BookEntry>)
        ensures
            books_view(r@) == self@.library(account_id@),
    {
        self.get_library(account_id)
    }

    /// Another owner's counts by status, by the same rule as `get_reading_stats`.
    pub fn get_user_stats(&self, account_id: String) -> (r: ReadingStats)
        requires
            self.wf(),
        ensures
            r.describes(self@.library(account_id@)),
    {
        self.get_reading_stats(account_id)
    }
}

} // verus!
