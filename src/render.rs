use vstd::prelude::*;

use crate::book::{display_of, Book, BookView};
use crate::repository::views;

verus! {

/// The decimal digit `d`.
pub open spec fn digit_char(d: nat) -> char {
    "0123456789"@[d as int]
}

/// The decimal numeral of `n`, without leading zeros.
pub open spec fn decimal(n: nat) -> Seq<char>
    decreases n,
{
    if n < 10 {
        seq![digit_char(n)]
    } else {
        decimal(n / 10).push(digit_char(n % 10))
    }
}

/// One paragraph of a listing: `<p><title> by <author></p>` and a newline.
pub open spec fn paragraph(b: BookView) -> Seq<char> {
    "<p>"@ + display_of(b) + "</p>\n"@
}

/// The listing page: one paragraph per book, in the given order.
pub open spec fn listing(s: Seq<BookView>) -> Seq<char>
    decreases s.len(),
{
    if s.len() == 0 {
        Seq::empty()
    } else {
        listing(s.drop_last()) + paragraph(s.last())
    }
}

/// The fragment shown for one book, or for a missing one.
pub open spec fn book_fragment(r: Option<BookView>) -> Seq<char> {
    match r {
        Some(b) => paragraph(b),
        None => "<p>Book not found</p>\n"@,
    }
}

/// The confirmation of a stored book.
pub open spec fn upsert_confirmation(b: BookView) -> Seq<char> {
    "PUT book: "@ + display_of(b) + "\n"@
}

/// The edit form of a book, pre-filled from the record; or a fragment
/// naming the missing id.
pub open spec fn form_fragment(id: u32, r: Option<BookView>) -> Seq<char> {
    match r {
        Some(b) => "<form method=\"post\" action=\"/books/"@ + decimal(b.id as nat)
            + "/form\">\n<input type=\"hidden\" name=\"id\" value=\""@ + decimal(b.id as nat)
            + "\">\n<p><input name=\"title\" value=\""@ + b.title
            + "\"></p>\n<p><input name=\"author\" value=\""@ + b.author
            + "\"></p>\n<input type=\"submit\" value=\"Save\">\n</form>\n"@,
        None => "<p>Book id "@ + decimal(id as nat) + " not found</p>"@,
    }
}

/// Appends the decimal numeral of `n` to `s`.
pub fn push_decimal(s: &mut String, n: u32)
    ensures
        final(s)@ == old(s)@ + decimal(n as nat),
    decreases n,
{
    let digits = "0123456789";
    proof {
        reveal_strlit("0123456789");
    }
    if n >= 10 {
        push_decimal(s, n / 10);
    }
    let d = (n % 10) as usize;
    let c = digits.substring_char(d, d + 1);
    assert(c@ =~= seq![digit_char((n % 10) as nat)]);
    s.append(c);
    assert(decimal(n as nat) =~= if n < 10 {
        seq![digit_char(n as nat)]
    } else {
        decimal((n / 10) as nat).push(digit_char((n % 10) as nat))
    });
}

/// The listing page of `books`, in their order.
pub fn render_listing(books: &Vec<Book>) -> (r: String)
    ensures
        r@ == listing(views(books@)),
{
    let mut r = String::new();
    let mut i: usize = 0;
    while i < books.len()
        invariant
            i <= books@.len(),
            r@ == listing(views(books@).take(i as int)),
        decreases books@.len() - i,
    {
        r.append("<p>");
        let shown = books[i].display();
        r.append(shown.as_str());
        r.append("</p>\n");
        assert(views(books@).take(i + 1).drop_last() =~= views(books@).take(i as int));
        i = i + 1;
    }
    assert(views(books@).take(i as int) =~= views(books@));
    r
}

/// The fragment for one looked-up book.
pub fn render_book(found: &Option<Book>) -> (r: String)
    ensures
        r@ == book_fragment(crate::repository::option_view(*found)),
{
    let mut r = String::new();
    match found {
        Some(b) => {
            r.append("<p>");
            let shown = b.display();
            r.append(shown.as_str());
            r.append("</p>\n");
        },
        None => {
            r.append("<p>Book not found</p>\n");
        },
    }
    r
}

/// The confirmation that `b` was stored.
pub fn render_upsert(b: &Book) -> (r: String)
    ensures
        r@ == upsert_confirmation(b@),
{
    let mut r = String::new();
    r.append("PUT book: ");
    let shown = b.display();
    r.append(shown.as_str());
    r.append("\n");
    r
}

/// The edit form for the book looked up under `id`.
pub fn render_form(id: u32, found: &Option<Book>) -> (r: String)
    ensures
        r@ == form_fragment(id, crate::repository::option_view(*found)),
{
    let mut r = String::new();
    match found {
        Some(b) => {
            r.append("<form method=\"post\" action=\"/books/");
            push_decimal(&mut r, b.id);
            r.append("/form\">\n<input type=\"hidden\" name=\"id\" value=\"");
            push_decimal(&mut r, b.id);
            r.append("\">\n<p><input name=\"title\" value=\"");
            r.append(b.title.as_str());
            r.append("\"></p>\n<p><input name=\"author\" value=\"");
            r.append(b.author.as_str());
            r.append("\"></p>\n<input type=\"submit\" value=\"Save\">\n</form>\n");
        },
        None => {
            r.append("<p>Book id ");
            push_decimal(&mut r, id);
            r.append(" not found</p>");
        },
    }
    r
}

} // verus!
