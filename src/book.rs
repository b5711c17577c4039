use vstd::prelude::*;

verus! {

/// The mathematical value of a book: its id and the characters of its
/// title and author.
pub ghost struct BookView {
    pub id: u32,
    pub title: Seq<char>,
    pub author: Seq<char>,
}

/// A book record, keyed by its numeric id.
#[derive(Clone, Debug, Eq, Hash)]
pub struct Book {
    pub id: u32,
    pub title: String,
    pub author: String,
}

impl View for Book {
    type V = BookView;

    open spec fn view(&self) -> BookView {
        BookView { id: self.id, title: self.title@, author: self.author@ }
    }
}

impl PartialEq for Book {
    /// Books are equal when their id, title and author are.
    fn eq(&self, other: &Book) -> (r: bool) {
        self.id == other.id && self.title == other.title && self.author == other.author
    }
}

impl vstd::std_specs::cmp::PartialEqSpecImpl for Book {
    open spec fn obeys_eq_spec() -> bool {
        true
    }

    open spec fn eq_spec(&self, other: &Book) -> bool {
        self@ == other@
    }
}

/// The text a book is shown as: `<title> by <author>`.
pub open spec fn display_of(b: BookView) -> Seq<char> {
    b.title + " by "@ + b.author
}

impl Book {
    pub fn new(id: u32, title: String, author: String) -> (r: Book)
        ensures
            r@ == (BookView { id, title: title@, author: author@ }),
    {
        Book { id, title, author }
    }

    /// A copy of this book with the same id, title and author.
    pub fn duplicate(&self) -> (r: Book)
        ensures
            r@ == self@,
    {
        Book { id: self.id, title: self.title.clone(), author: self.author.clone() }
    }

    /// The book shown as `<title> by <author>`.
    pub fn display(&self) -> (r: String)
        ensures
            r@ == display_of(self@),
    {
        let mut r = self.title.clone();
        r.append(" by ");
        r.append(self.author.as_str());
        r
    }
}

} // verus!
