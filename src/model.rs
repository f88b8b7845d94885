use vstd::prelude::*;

use crate::error::LibraryError;
use crate::record::{BookModel, chapter_allowed};

verus! {

/// Position of the first entry of `s` that belongs to owner `o`, or -1 if none does.
pub open spec fn owner_pos<X>(s: Seq<(Seq<char>, X)>, o: Seq<char>) -> int
    decreases s.len(),
{
    if s.len() == 0 {
        -1
    } else {
        let r = owner_pos(s.drop_last(), o);
        if r >= 0 {
            r
        } else if s.last().0 == o {
            s.len() - 1
        } else {
            -1
        }
    }
}

/// `s` with `x` as the value of owner `o`: in the place of its first entry, or
/// appended where `o` has none.
pub open spec fn put<X>(s: Seq<(Seq<char>, X)>, o: Seq<char>, x: X) -> Seq<(Seq<char>, X)> {
    if owner_pos(s, o) >= 0 {
        s.update(owner_pos(s, o), (o, x))
    } else {
        s.push((o, x))
    }
}

/// Position of the first record of `books` with key `k`, or -1 if none has it.
pub open spec fn key_pos(books: Seq<BookModel>, k: Seq<char>) -> int
    decreases books.len(),
{
    if books.len() == 0 {
        -1
    } else {
        let r = key_pos(books.drop_last(), k);
        if r >= 0 {
            r
        } else if books.last().isbn == k {
            books.len() - 1
        } else {
            -1
        }
    }
}

/// The number of records over all owners.
pub open spec fn total_of(s: Seq<(Seq<char>, Seq<BookModel>)>) -> int
    decreases s.len(),
{
    if s.len() == 0 {
        0
    } else {
        total_of(s.drop_last()) + s.last().1.len()
    }
}

/// `s` without the entries equal to `t`, in order.
pub open spec fn without(s: Seq<Seq<char>>, t: Seq<char>) -> Seq<Seq<char>>
    decreases s.len(),
{
    if s.len() == 0 {
        s
    } else {
        let r = without(s.drop_last(), t);
        if s.last() == t {
            r
        } else {
            r.push(s.last())
        }
    }
}

/// The value of the whole store: each owner's collection and each owner's follow
/// list, in order of creation. Lookups take the first entry of an owner.
pub struct StoreModel {
    pub libraries: Seq<(Seq<char>, Seq<BookModel>)>,
    pub follows: Seq<(Seq<char>, Seq<Seq<char>>)>,
}

impl StoreModel {
    pub open spec fn has_library(self, o: Seq<char>) -> bool {
        owner_pos(self.libraries, o) >= 0
    }

    /// The collection of `o`; empty where `o` has none.
    pub open spec fn library(self, o: Seq<char>) -> Seq<BookModel> {
        if self.has_library(o) {
            self.libraries[owner_pos(self.libraries, o)].1
        } else {
            Seq::empty()
        }
    }

    pub open spec fn has_record(self, o: Seq<char>, k: Seq<char>) -> bool {
        key_pos(self.library(o), k) >= 0
    }

    /// The first record of `o` with key `k`.
    pub open spec fn entry(self, o: Seq<char>, k: Seq<char>) -> BookModel {
        self.library(o)[key_pos(self.library(o), k)]
    }

    pub open spec fn record(self, o: Seq<char>, k: Seq<char>) -> Option<BookModel> {
        if self.has_record(o, k) {
            Some(self.entry(o, k))
        } else {
            None
        }
    }

    /// How an operation on the record of `o` with key `k` ends: refused where `o`
    /// has no collection or no record with that key.
    pub open spec fn check_record(self, o: Seq<char>, k: Seq<char>) -> Result<(), LibraryError> {
        if !self.has_library(o) {
            Err(LibraryError::CollectionNotFound)
        } else if !self.has_record(o, k) {
            Err(LibraryError::RecordNotFound)
        } else {
            Ok(())
        }
    }

    /// How setting the note of `chapter` on the record of `o` with key `k` ends.
    pub open spec fn check_note(
        self,
        o: Seq<char>,
        k: Seq<char>,
        chapter: u32,
    ) -> Result<(), LibraryError> {
        match self.check_record(o, k) {
            Err(e) => Err(e),
            Ok(_) => if chapter_allowed(self.entry(o, k).total_chapters, chapter) {
                Ok(())
            } else {
                Err(LibraryError::InvalidChapter)
            },
        }
    }

    /// The note of `chapter` on the record of `o` with key `k`, if both exist.
    pub open spec fn note(self, o: Seq<char>, k: Seq<char>, chapter: u32) -> Option<Seq<char>> {
        if self.has_record(o, k) && self.entry(o, k).chapter_notes.contains_key(chapter) {
            Some(self.entry(o, k).chapter_notes[chapter])
        } else {
            None
        }
    }

    /// All notes of the record of `o` with key `k`; none where there is no such record.
    pub open spec fn notes(self, o: Seq<char>, k: Seq<char>) -> Map<u32, Seq<char>> {
        if self.has_record(o, k) {
            self.entry(o, k).chapter_notes
        } else {
            Map::empty()
        }
    }

    /// The store with `l` as the collection of `o`, created if `o` had none.
    pub open spec fn with_library(self, o: Seq<char>, l: Seq<BookModel>) -> StoreModel {
        StoreModel {
            libraries: put(self.libraries, o, l),
            follows: self.follows,
        }
    }

    pub open spec fn with_book(self, o: Seq<char>, b: BookModel) -> StoreModel {
        self.with_library(o, self.library(o).push(b))
    }

    /// The store with `b` in the place of the first record of `o` with key `k`.
    pub open spec fn with_record(self, o: Seq<char>, k: Seq<char>, b: BookModel) -> StoreModel {
        self.with_library(o, self.library(o).update(key_pos(self.library(o), k), b))
    }

    pub open spec fn without_record(self, o: Seq<char>, k: Seq<char>) -> StoreModel {
        self.with_library(o, self.library(o).remove(key_pos(self.library(o), k)))
    }

    pub open spec fn total(self) -> int {
        total_of(self.libraries)
    }

    /// The store after `a` follows `b` (where `a` and `b` differ): `b` is appended to
    /// the list of `a` unless it is already there.
    pub open spec fn after_follow(self, a: Seq<char>, b: Seq<char>) -> StoreModel {
        if self.followed(a).contains(b) {
            self
        } else {
            self.with_follows(a, self.followed(a).push(b))
        }
    }

    /// No follow list holds an owner twice, nor the owner it belongs to.
    pub open spec fn follows_valid(self) -> bool {
        forall|o: Seq<char>|
            #![trigger self.followed(o)]
            self.followed(o).no_duplicates() && !self.followed(o).contains(o)
    }

    pub open spec fn has_follow_list(self, o: Seq<char>) -> bool {
        owner_pos(self.follows, o) >= 0
    }

    /// The owners that `o` follows; empty where `o` never followed anyone.
    pub open spec fn followed(self, o: Seq<char>) -> Seq<Seq<char>> {
        if self.has_follow_list(o) {
            self.follows[owner_pos(self.follows, o)].1
        } else {
            Seq::empty()
        }
    }

    pub open spec fn with_follows(self, o: Seq<char>, l: Seq<Seq<char>>) -> StoreModel {
        StoreModel {
            libraries: self.libraries,
            follows: put(self.follows, o, l),
        }
    }
}

pub proof fn lemma_owner_pos<X>(s: Seq<(Seq<char>, X)>, o: Seq<char>)
    ensures
        -1 <= owner_pos(s, o) < s.len(),
        owner_pos(s, o) >= 0 ==> s[owner_pos(s, o)].0 == o,
        forall|j: int| 0 <= j < owner_pos(s, o) ==> s[j].0 != o,
        owner_pos(s, o) == -1 ==> forall|j: int| 0 <= j < s.len() ==> s[j].0 != o,
    decreases s.len(),
{
    if s.len() > 0 {
        lemma_owner_pos(s.drop_last(), o);
        assert forall|j: int| 0 <= j < s.len() - 1 implies s[j] == s.drop_last()[j] by {}
    }
}

pub proof fn lemma_owner_pos_same_owners<X>(
    s1: Seq<(Seq<char>, X)>,
    s2: Seq<(Seq<char>, X)>,
    o: Seq<char>,
)
    requires
        s1.len() == s2.len(),
        forall|i: int| 0 <= i < s1.len() ==> s1[i].0 == s2[i].0,
    ensures
        owner_pos(s1, o) == owner_pos(s2, o),
    decreases s1.len(),
{
    if s1.len() > 0 {
        lemma_owner_pos_same_owners(s1.drop_last(), s2.drop_last(), o);
    }
}

/// After `put`, owner `o` has the value given, and every other owner keeps its own.
pub proof fn lemma_put<X>(s: Seq<(Seq<char>, X)>, o: Seq<char>, x: X)
    ensures
        owner_pos(put(s, o, x), o) >= 0,
        put(s, o, x)[owner_pos(put(s, o, x), o)] == (o, x),
        forall|o2: Seq<char>|
            o2 != o ==> #[trigger] owner_pos(put(s, o, x), o2) == owner_pos(s, o2),
        forall|i: int|
            0 <= i < s.len() && i != owner_pos(s, o) ==> #[trigger] put(s, o, x)[i] == s[i],
{
    lemma_owner_pos(s, o);
    let t = put(s, o, x);
    if owner_pos(s, o) >= 0 {
        assert forall|o2: Seq<char>| o2 != o implies #[trigger] owner_pos(t, o2) == owner_pos(s, o2) by {
            lemma_owner_pos_same_owners(s, t, o2);
        }
        lemma_owner_pos_same_owners(s, t, o);
    } else {
        assert(t.drop_last() =~= s);
    }
}

/// A second `put` for one owner overrides the first.
pub proof fn lemma_put_twice<X>(s: Seq<(Seq<char>, X)>, o: Seq<char>, x: X, y: X)
    ensures
        put(put(s, o, x), o, y) == put(s, o, y),
{
    lemma_owner_pos(s, o);
    let t = put(s, o, x);
    if owner_pos(s, o) >= 0 {
        lemma_owner_pos_same_owners(s, t, o);
        assert(put(t, o, y) =~= put(s, o, y));
    } else {
        lemma_put(s, o, x);
        lemma_owner_pos(t, o);
        assert(t.drop_last() =~= s);
        assert(owner_pos(t, o) == s.len());
        assert(put(t, o, y) =~= put(s, o, y));
    }
}

pub proof fn lemma_key_pos_same_keys(l1: Seq<BookModel>, l2: Seq<BookModel>, k: Seq<char>)
    requires
        l1.len() == l2.len(),
        forall|i: int| 0 <= i < l1.len() ==> l1[i].isbn == l2[i].isbn,
    ensures
        key_pos(l1, k) == key_pos(l2, k),
    decreases l1.len(),
{
    if l1.len() > 0 {
        lemma_key_pos_same_keys(l1.drop_last(), l2.drop_last(), k);
    }
}

pub proof fn lemma_key_pos(books: Seq<BookModel>, k: Seq<char>)
    ensures
        -1 <= key_pos(books, k) < books.len(),
        key_pos(books, k) >= 0 ==> books[key_pos(books, k)].isbn == k,
        forall|j: int| 0 <= j < key_pos(books, k) ==> books[j].isbn != k,
        key_pos(books, k) == -1 ==> forall|j: int| 0 <= j < books.len() ==> books[j].isbn != k,
    decreases books.len(),
{
    if books.len() > 0 {
        lemma_key_pos(books.drop_last(), k);
        assert forall|j: int| 0 <= j < books.len() - 1 implies books[j] == books.drop_last()[j] by {}
    }
}

impl StoreModel {
    /// After `with_library`, owner `o` has collection `l`; every other owner keeps
    /// its own, and the follow lists stay.
    pub proof fn lemma_with_library(self, o: Seq<char>, l: Seq<BookModel>)
        ensures
            self.with_library(o, l).has_library(o),
            self.with_library(o, l).library(o) == l,
            forall|o2: Seq<char>|
                o2 != o ==> #[trigger] self.with_library(o, l).library(o2) == self.library(o2)
                    && self.with_library(o, l).has_library(o2) == self.has_library(o2),
            self.with_library(o, l).follows == self.follows,
    {
        lemma_put(self.libraries, o, l);
        assert forall|o2: Seq<char>| o2 != o implies #[trigger] self.with_library(o, l).library(o2)
            == self.library(o2) && self.with_library(o, l).has_library(o2) == self.has_library(o2) by {
            lemma_owner_pos(self.libraries, o2);
            lemma_owner_pos(self.libraries, o);
            if owner_pos(self.libraries, o2) >= 0 && owner_pos(self.libraries, o) >= 0 {
                assert(owner_pos(self.libraries, o2) != owner_pos(self.libraries, o));
            }
        }
    }

    /// Replacing the record of `o` with key `k` by one with the same key: the record
    /// is then found there, and a later replacement overrides this one.
    pub proof fn lemma_with_record(self, o: Seq<char>, k: Seq<char>, b: BookModel, b2: BookModel)
        requires
            self.has_record(o, k),
            b.isbn == k,
        ensures
            self.with_record(o, k, b).has_record(o, k),
            self.with_record(o, k, b).entry(o, k) == b,
            self.with_record(o, k, b).with_record(o, k, b2) == self.with_record(o, k, b2),
    {
        let l = self.library(o);
        let p = key_pos(l, k);
        lemma_key_pos(l, k);
        let l1 = l.update(p, b);
        self.lemma_with_library(o, l1);
        lemma_key_pos_same_keys(l, l1, k);
        assert(l1.update(p, b2) =~= l.update(p, b2));
        lemma_put_twice(self.libraries, o, l1, l.update(p, b2));
    }

    /// Two stores with the same follow lists agree on their validity.
    pub proof fn lemma_same_follows(self, other: StoreModel)
        requires
            self.follows == other.follows,
        ensures
            self.follows_valid() == other.follows_valid(),
    {
        if self.follows_valid() {
            assert forall|o: Seq<char>| #[trigger] other.followed(o).no_duplicates() && !other.followed(o).contains(o) by {
                assert(self.followed(o) == other.followed(o));
            }
        }
        if other.follows_valid() {
            assert forall|o: Seq<char>| #[trigger] self.followed(o).no_duplicates() && !self.followed(o).contains(o) by {
                assert(self.followed(o) == other.followed(o));
            }
        }
    }

    /// Changing one follow list to another valid one keeps the store's lists valid.
    pub proof fn lemma_follows_valid_after(self, o: Seq<char>, l: Seq<Seq<char>>)
        requires
            self.follows_valid(),
            l.no_duplicates(),
            !l.contains(o),
        ensures
            self.with_follows(o, l).follows_valid(),
    {
        self.lemma_with_follows(o, l);
        let n = self.with_follows(o, l);
        assert forall|o2: Seq<char>| #[trigger] n.followed(o2).no_duplicates() && !n.followed(o2).contains(o2) by {
            if o2 != o {
                assert(self.followed(o2).no_duplicates());
            }
        }
    }

    /// After `with_follows`, owner `o` follows `l`; every other owner keeps its
    /// list, and the collections stay.
    pub proof fn lemma_with_follows(self, o: Seq<char>, l: Seq<Seq<char>>)
        ensures
            self.with_follows(o, l).has_follow_list(o),
            self.with_follows(o, l).followed(o) == l,
            forall|o2: Seq<char>|
                o2 != o ==> #[trigger] self.with_follows(o, l).followed(o2) == self.followed(o2)
                    && self.with_follows(o, l).has_follow_list(o2) == self.has_follow_list(o2),
            self.with_follows(o, l).libraries == self.libraries,
    {
        lemma_put(self.follows, o, l);
        assert forall|o2: Seq<char>| o2 != o implies #[trigger] self.with_follows(o, l).followed(o2)
            == self.followed(o2) && self.with_follows(o, l).has_follow_list(o2)
            == self.has_follow_list(o2) by {
            lemma_owner_pos(self.follows, o2);
            lemma_owner_pos(self.follows, o);
            if owner_pos(self.follows, o2) >= 0 && owner_pos(self.follows, o) >= 0 {
                assert(owner_pos(self.follows, o2) != owner_pos(self.follows, o));
            }
        }
    }
}

/// `without` keeps the other entries and drops no distinctness.
pub proof fn lemma_without(s: Seq<Seq<char>>, t: Seq<char>)
    ensures
        forall|x: Seq<char>| #[trigger] without(s, t).contains(x) <==> s.contains(x) && x != t,
        s.no_duplicates() ==> without(s, t).no_duplicates(),
    decreases s.len(),
{
    if s.len() > 0 {
        let p = s.drop_last();
        lemma_without(p, t);
        assert forall|x: Seq<char>| #[trigger] s.contains(x) <==> p.contains(x) || x == s.last() by {
            if s.contains(x) {
                let k = choose|k: int| 0 <= k < s.len() && s[k] == x;
                if k < s.len() - 1 {
                    assert(p[k] == x);
                }
            }
            if p.contains(x) {
                let k = choose|k: int| 0 <= k < p.len() && p[k] == x;
                assert(s[k] == x);
            }
            if x == s.last() {
                assert(s[s.len() - 1] == x);
            }
        }
        let w = without(p, t);
        assert forall|x: Seq<char>| #[trigger] w.push(s.last()).contains(x) <==> w.contains(x) || x == s.last() by {
            let q = w.push(s.last());
            if q.contains(x) {
                let k = choose|k: int| 0 <= k < q.len() && q[k] == x;
                if k < w.len() {
                    assert(w[k] == x);
                }
            }
            if w.contains(x) {
                let k = choose|k: int| 0 <= k < w.len() && w[k] == x;
                assert(q[k] == x);
            }
            if x == s.last() {
                assert(q[w.len() as int] == x);
            }
        }
        if s.no_duplicates() {
            assert(p.no_duplicates());
            assert(!p.contains(s.last())) by {
                if p.contains(s.last()) {
                    let k = choose|k: int| 0 <= k < p.len() && p[k] == s.last();
                    assert(s[k] == s[s.len() - 1]);
                }
            }
            if s.last() != t {
                let q = w.push(s.last());
                assert forall|i: int, j: int| 0 <= i < q.len() && 0 <= j < q.len() && i != j implies q[i] != q[j] by {
                    if i == w.len() {
                        assert(w.contains(q[j]));
                    } else if j == w.len() {
                        assert(w.contains(q[i]));
                    }
                }
            }
        }
    }
}

pub proof fn lemma_total_update(
    s: Seq<(Seq<char>,
    Seq<BookModel>)>,
    i: int,
    x: (Seq<char>,
    Seq<BookModel>),
)
    requires
        0 <= i < s.len(),
    ensures
        total_of(s.update(i, x)) == total_of(s) - s[i].1.len() + x.1.len(),
    decreases s.len(),
{
    if i == s.len() - 1 {
        assert(s.update(i, x).drop_last() =~= s.drop_last());
    } else {
        assert(s.update(i, x).drop_last() =~= s.drop_last().update(i, x));
        lemma_total_update(s.drop_last(), i, x);
    }
}

pub proof fn lemma_total_push(s: Seq<(Seq<char>, Seq<BookModel>)>, x: (Seq<char>, Seq<BookModel>))
    ensures
        total_of(s.push(x)) == total_of(s) + x.1.len(),
{
    assert(s.push(x).drop_last() =~= s);
}

/// Every prefix of the owners, and every single owner, holds at most the total.
pub proof fn lemma_total_bounds(s: Seq<(Seq<char>, Seq<BookModel>)>, n: int)
    requires
        0 <= n <= s.len(),
    ensures
        0 <= total_of(s.subrange(0, n)) <= total_of(s),
        forall|i: int| 0 <= i < s.len() ==> s[i].1.len() <= total_of(s),
    decreases s.len(),
{
    if s.len() > 0 {
        if n == s.len() {
            assert(s.subrange(0, n) =~= s);
            lemma_total_bounds(s.drop_last(), n - 1);
        } else {
            assert(s.subrange(0, n) =~= s.drop_last().subrange(0, n));
            lemma_total_bounds(s.drop_last(), n);
        }
        assert forall|i: int| 0 <= i < s.len() implies s[i].1.len() <= total_of(s) by {
            if i < s.len() - 1 {
                assert(s[i] == s.drop_last()[i]);
            }
        }
    }
}

} // verus!
