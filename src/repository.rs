use vstd::prelude::*;

use crate::book::{Book, BookView};
use crate::order::{
    is_listing_sorted, lemma_listed_before_asymmetric, lemma_listed_before_total,
    lemma_listed_before_transitive, listed_before, title_less,
};

verus! {

/// The views of a sequence of books, in the same order.
pub open spec fn views(s: Seq<Book>) -> Seq<BookView> {
    s.map_values(|b: Book| b@)
}

/// The record stored under `id` in `m`, if there is one.
pub open spec fn lookup(m: Map<u32, BookView>, id: u32) -> Option<BookView> {
    if m.contains_key(id) {
        Some(m[id])
    } else {
        None
    }
}

/// `m` after storing `b` under its id.
pub open spec fn upserted(m: Map<u32, BookView>, b: BookView) -> Map<u32, BookView> {
    m.insert(b.id, b)
}

/// The view of an optional book.
pub open spec fn option_view(r: Option<Book>) -> Option<BookView> {
    match r {
        Some(b) => Some(b@),
        None => None,
    }
}

/// `s` holds exactly the records of `m`, each once, in listing order.
pub open spec fn is_listing_of(s: Seq<BookView>, m: Map<u32, BookView>) -> bool {
    &&& is_listing_sorted(s)
    &&& forall|i: int| 0 <= i < s.len() ==> #[trigger] m.contains_key(s[i].id) && m[s[i].id] == s[i]
    &&& forall|k: u32| #[trigger] m.contains_key(k) ==> exists|i: int| 0 <= i < s.len() && s[i].id == k
}

/// Two sequences in listing order with the same elements are equal.
proof fn lemma_sorted_same_elements_equal(a: Seq<BookView>, b: Seq<BookView>)
    requires
        is_listing_sorted(a),
        is_listing_sorted(b),
        forall|x: BookView| a.contains(x) <==> b.contains(x),
    ensures
        a == b,
    decreases a.len(),
{
    if a.len() == 0 {
        if b.len() > 0 {
            assert(b.contains(b[0]));
        }
        assert(a =~= b);
    } else {
        assert(a.contains(a[0]));
        let q = choose|q: int| 0 <= q < b.len() && b[q] == a[0];
        assert(b.contains(b[0]));
        let p = choose|p: int| 0 <= p < a.len() && a[p] == b[0];
        if q > 0 && p > 0 {
            assert(listed_before(a[0], a[p]));
            assert(listed_before(b[0], b[q]));
            lemma_listed_before_asymmetric(a[0], b[0]);
        }
        assert(a[0] == b[0]);
        let a1 = a.drop_first();
        let b1 = b.drop_first();
        assert forall|x: BookView| a1.contains(x) <==> b1.contains(x) by {
            if a1.contains(x) {
                let i = choose|i: int| 0 <= i < a1.len() && a1[i] == x;
                assert(a[i + 1] == x);
                assert(listed_before(a[0], x));
                lemma_listed_before_asymmetric(a[0], x);
                assert(b.contains(x));
                let j = choose|j: int| 0 <= j < b.len() && b[j] == x;
                assert(j != 0);
                assert(b1[j - 1] == x);
            }
            if b1.contains(x) {
                let i = choose|i: int| 0 <= i < b1.len() && b1[i] == x;
                assert(b[i + 1] == x);
                assert(listed_before(b[0], x));
                lemma_listed_before_asymmetric(b[0], x);
                assert(a.contains(x));
                let j = choose|j: int| 0 <= j < a.len() && a[j] == x;
                assert(j != 0);
                assert(a1[j - 1] == x);
            }
        }
        lemma_sorted_same_elements_equal(a1, b1);
        assert(a =~= seq![a[0]] + a1);
        assert(b =~= seq![b[0]] + b1);
    }
}

/// A listing of a map is one sequence: it depends on the records alone,
/// not on the order in which they were stored.
pub proof fn lemma_listing_unique(s1: Seq<BookView>, s2: Seq<BookView>, m: Map<u32, BookView>)
    requires
        is_listing_of(s1, m),
        is_listing_of(s2, m),
    ensures
        s1 == s2,
{
    assert forall|x: BookView| s1.contains(x) <==> s2.contains(x) by {
        if s1.contains(x) {
            let i = choose|i: int| 0 <= i < s1.len() && s1[i] == x;
            assert(m.contains_key(s1[i].id));
            let j = choose|j: int| 0 <= j < s2.len() && s2[j].id == x.id;
            assert(m.contains_key(s2[j].id));
            assert(s2[j] == x);
        }
        if s2.contains(x) {
            let i = choose|i: int| 0 <= i < s2.len() && s2[i] == x;
            assert(m.contains_key(s2[i].id));
            let j = choose|j: int| 0 <= j < s1.len() && s1[j].id == x.id;
            assert(m.contains_key(s1[j].id));
            assert(s1[j] == x);
        }
    }
    lemma_sorted_same_elements_equal(s1, s2);
}

/// The sequence of records of `m` in listing order.
pub open spec fn listing_of(m: Map<u32, BookView>) -> Seq<BookView> {
    choose|s: Seq<BookView>| is_listing_of(s, m)
}

/// The in-memory store of books, keyed by id.
pub struct Repository {
    books: Vec<Book>,
    contents: Ghost<Map<u32, BookView>>,
}

impl View for Repository {
    type V = Map<u32, BookView>;

    closed spec fn view(&self) -> Map<u32, BookView> {
        self.contents@
    }
}

/// Whether `a` comes before `b` in listing order.
fn listed_first(a: &Book, b: &Book) -> (r: bool)
    ensures
        r == listed_before(a@, b@),
{
    title_less(a.title.as_str(), b.title.as_str()) || (a.title == b.title && a.id < b.id)
}

/// Inserts `b` into `r` before the first record that it comes before in
/// listing order.
fn insert_in_order(r: &mut Vec<Book>, b: Book)
    requires
        is_listing_sorted(views(old(r)@)),
        forall|m: int| 0 <= m < old(r)@.len() ==> #[trigger] old(r)@[m].id != b.id,
    ensures
        is_listing_sorted(views(final(r)@)),
        exists|j: int|
            0 <= j <= old(r)@.len() && views(final(r)@) == views(old(r)@).insert(j, b@),
{
    let ghost old_v = views(r@);
    let ghost bv = b@;
    let mut j: usize = 0;
    while j < r.len() && !listed_first(&b, &r[j])
        invariant
            views(r@) == old_v,
            b@ == bv,
            j <= r@.len(),
            forall|m: int| 0 <= m < j ==> !listed_before(bv, #[trigger] old_v[m]),
        decreases r@.len() - j,
    {
        j = j + 1;
    }
    r.insert(j, b);
    let ghost v = views(r@);
    assert(v =~= old_v.insert(j as int, bv));
    assert forall|p: int, q: int| 0 <= p < q < v.len() implies listed_before(
        #[trigger] v[p],
        #[trigger] v[q],
    ) by {
        if q < j {
            assert(old_v[p] == v[p] && old_v[q] == v[q]);
        } else if p > j {
            assert(old_v[p - 1] == v[p] && old_v[q - 1] == v[q]);
        } else if p < j && q > j {
            assert(old_v[p] == v[p] && old_v[q - 1] == v[q]);
        } else if q == j {
            assert(old_v[p] == v[p]);
            lemma_listed_before_total(bv, old_v[p]);
        } else {
            assert(old_v[q - 1] == v[q]);
            if q - 1 > j {
                assert(listed_before(old_v[j as int], old_v[q - 1]));
                lemma_listed_before_transitive(bv, old_v[j as int], old_v[q - 1]);
            }
        }
    }
}

/// Each of `v` is among the first `i` of `src`, and each of those is in `v`.
spec fn covers(v: Seq<BookView>, src: Seq<BookView>, i: int) -> bool {
    &&& forall|m: int| 0 <= m < v.len() ==> exists|k: int| 0 <= k < i && #[trigger] v[m] == src[k]
    &&& forall|k: int| 0 <= k < i ==> exists|m: int| 0 <= m < v.len() && v[m] == #[trigger] src[k]
}

proof fn lemma_cover_after_insert(v: Seq<BookView>, j: int, src: Seq<BookView>, i: int)
    requires
        0 <= j <= v.len(),
        0 <= i < src.len(),
        covers(v, src, i),
    ensures
        covers(v.insert(j, src[i]), src, i + 1),
{
    let w = v.insert(j, src[i]);
    assert forall|m: int| 0 <= m < w.len() implies exists|k: int|
        0 <= k < i + 1 && #[trigger] w[m] == src[k] by {
        if m < j {
            assert(w[m] == v[m]);
        } else if m > j {
            assert(w[m] == v[m - 1]);
        } else {
            assert(w[m] == src[i]);
        }
    }
    assert forall|k: int| 0 <= k < i + 1 implies exists|m: int|
        0 <= m < w.len() && w[m] == #[trigger] src[k] by {
        if k < i {
            let m = choose|m: int| 0 <= m < v.len() && v[m] == src[k];
            if m < j {
                assert(w[m] == v[m]);
            } else {
                assert(w[m + 1] == v[m]);
            }
        } else {
            assert(w[j] == src[k]);
        }
    }
}

impl Repository {
    /// The stored records are those of the map, ids are unique, and every
    /// record is stored under its own id.
    pub closed spec fn wf(&self) -> bool {
        &&& forall|i: int, j: int|
            0 <= i < j < self.books@.len() ==> #[trigger] self.books@[i].id != #[trigger] self.books@[j].id
        &&& forall|i: int|
            0 <= i < self.books@.len() ==> #[trigger] self.contents@.contains_key(self.books@[i].id)
                && self.contents@[self.books@[i].id] == self.books@[i]@
        &&& forall|k: u32| #[trigger]
            self.contents@.contains_key(k) ==> exists|i: int|
                0 <= i < self.books@.len() && self.books@[i].id == k
    }

    /// An empty repository.
    pub fn new() -> (r: Repository)
        ensures
            r.wf(),
            r@ == Map::<u32, BookView>::empty(),
    {
        Repository { books: Vec::new(), contents: Ghost(Map::empty()) }
    }

    /// The position of the record with this id, if there is one.
    fn position(&self, id: u32) -> (r: Option<usize>)
        requires
            self.wf(),
        ensures
            match r {
                Some(i) => i < self.books@.len() && self.books@[i as int].id == id
                    && self@.contains_key(id) && self@[id] == self.books@[i as int]@,
                None => !self@.contains_key(id),
            },
    {
        let mut i: usize = 0;
        while i < self.books.len()
            invariant
                self.wf(),
                i <= self.books@.len(),
                forall|j: int| 0 <= j < i ==> self.books@[j].id != id,
            decreases self.books@.len() - i,
        {
            if self.books[i].id == id {
                assert(self.contents@.contains_key(self.books@[i as int].id));
                return Some(i);
            }
            i = i + 1;
        }
        None
    }

    /// The record stored under `id`, or `None` where there is none.
    pub fn get(&self, id: u32) -> (r: Option<Book>)
        requires
            self.wf(),
        ensures
            option_view(r) == lookup(self@, id),
    {
        match self.position(id) {
            Some(i) => Some(self.books[i].duplicate()),
            None => None,
        }
    }

    /// Stores `book` under its id, replacing the whole record stored there
    /// before, and returns that earlier record.
    pub fn upsert(&mut self, book: Book) -> (r: Option<Book>)
        requires
            old(self).wf(),
        ensures
            final(self).wf(),
            final(self)@ == upserted(old(self)@, book@),
            option_view(r) == lookup(old(self)@, book.id),
    {
        let ghost old_books = self.books@;
        let ghost bv = book@;
        let id = book.id;
        match self.position(id) {
            Some(i) => {
                let prev = self.books[i].duplicate();
                self.books.set(i, book);
                self.contents = Ghost(self.contents@.insert(id, bv));
                assert forall|a: int, c: int|
                    0 <= a < c < self.books@.len() implies #[trigger] self.books@[a].id
                    != #[trigger] self.books@[c].id by {
                    assert(a != i ==> old_books[a].id == self.books@[a].id);
                    assert(c != i ==> old_books[c].id == self.books@[c].id);
                }
                assert forall|j: int| 0 <= j < self.books@.len() implies #[trigger]
                    self.contents@.contains_key(self.books@[j].id) && self.contents@[self.books@[j].id]
                    == self.books@[j]@ by {
                    if j != i {
                        assert(old_books[j].id != old_books[i as int].id);
                        assert(old(self).contents@.contains_key(old_books[j].id));
                        assert(self.books@[j] == old_books[j]);
                    } else {
                        assert(self.books@[j]@ == bv);
                    }
                }
                assert forall|k: u32| #[trigger]
                    self.contents@.contains_key(k) implies exists|j: int|
                        0 <= j < self.books@.len() && self.books@[j].id == k by {
                    if k != id {
                        let j = choose|j: int| 0 <= j < old_books.len() && old_books[j].id == k;
                        assert(self.books@[j].id == k);
                    } else {
                        assert(self.books@[i as int].id == k);
                    }
                }
                assert(self.wf());
                Some(prev)
            },
            None => {
                self.books.push(book);
                self.contents = Ghost(self.contents@.insert(id, bv));
                assert forall|j: int| 0 <= j < old_books.len() implies #[trigger] old_books[j].id
                    != id by {
                    assert(old(self).contents@.contains_key(old_books[j].id));
                }
                assert forall|a: int, c: int|
                    0 <= a < c < self.books@.len() implies #[trigger] self.books@[a].id
                    != #[trigger] self.books@[c].id by {
                    if c < old_books.len() {
                        assert(old_books[a].id != old_books[c].id);
                    } else {
                        assert(old_books[a].id != id);
                    }
                }
                assert forall|j: int| 0 <= j < self.books@.len() implies #[trigger]
                    self.contents@.contains_key(self.books@[j].id) && self.contents@[self.books@[j].id]
                    == self.books@[j]@ by {
                    if j < old_books.len() {
                        assert(old_books[j].id != id);
                        assert(old(self).contents@.contains_key(old_books[j].id));
                    }
                }
                assert forall|k: u32| #[trigger]
                    self.contents@.contains_key(k) implies exists|j: int|
                        0 <= j < self.books@.len() && self.books@[j].id == k by {
                    if k != id {
                        let j = choose|j: int| 0 <= j < old_books.len() && old_books[j].id == k;
                        assert(self.books@[j].id == k);
                    } else {
                        assert(self.books@[old_books.len() as int].id == k);
                    }
                }
                assert(self.wf());
                None
            },
        }
    }

    /// Every stored record, once each, sorted by title and by id among
    /// equal titles.
    pub fn list(&self) -> (r: Vec<Book>)
        requires
            self.wf(),
        ensures
            is_listing_of(views(r@), self@),
            views(r@) == listing_of(self@),
    {
        let mut r: Vec<Book> = Vec::new();
        let n = self.books.len();
        let mut i: usize = 0;
        while i < n
            invariant
                self.wf(),
                n == self.books@.len(),
                i <= n,
                is_listing_sorted(views(r@)),
                covers(views(r@), views(self.books@), i as int),
            decreases n - i,
        {
            let b = self.books[i].duplicate();
            let ghost old_v = views(r@);
            let ghost bv = b@;
            assert(bv == views(self.books@)[i as int]);
            assert forall|m: int| 0 <= m < r@.len() implies #[trigger] r@[m].id != b.id by {
                assert(old_v[m].id == r@[m].id);
                let k = choose|k: int| 0 <= k < i && old_v[m] == views(self.books@)[k];
                assert(self.books@[k].id != self.books@[i as int].id);
            }
            insert_in_order(&mut r, b);
            let ghost j = choose|j: int| 0 <= j <= old_v.len() && views(r@) == old_v.insert(j, bv);
            proof {
                lemma_cover_after_insert(old_v, j, views(self.books@), i as int);
            }
            i = i + 1;
        }
        proof {
            let v = views(r@);
            let src = views(self.books@);
            assert forall|m: int| 0 <= m < v.len() implies #[trigger] self@.contains_key(v[m].id)
                && self@[v[m].id] == v[m] by {
                let k = choose|k: int| 0 <= k < n && v[m] == src[k];
                assert(self.contents@.contains_key(self.books@[k].id));
            }
            assert forall|id: u32| #[trigger] self@.contains_key(id) implies exists|m: int|
                0 <= m < v.len() && v[m].id == id by {
                let k = choose|k: int| 0 <= k < n && self.books@[k].id == id;
                assert(src[k].id == id);
                let m = choose|m: int| 0 <= m < v.len() && v[m] == src[k];
            }
            lemma_listing_unique(v, listing_of(self@), self@);
        }
        r
    }
}

} // verus!
