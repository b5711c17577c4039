use vstd::prelude::*;

use crate::book::Book;
use crate::render::{
    book_fragment, form_fragment, listing, render_book, render_form, render_listing,
    render_upsert, upsert_confirmation,
};
use crate::repository::{listing_of, lookup, upserted, Repository};

verus! {

/// The page of all books, one paragraph each, sorted by title.
pub fn get_books(repo: &Repository) -> (r: String)
    requires
        repo.wf(),
    ensures
        r@ == listing(listing_of(repo@)),
{
    let books = repo.list();
    render_listing(&books)
}

/// The page of the book stored under `id`, or a not-found fragment.
pub fn get_book_id(repo: &Repository, id: u32) -> (r: String)
    requires
        repo.wf(),
    ensures
        r@ == book_fragment(lookup(repo@, id)),
{
    let found = repo.get(id);
    render_book(&found)
}

/// Stores `book`, replacing any record under its id, and confirms it.
pub fn put_book(repo: &mut Repository, book: Book) -> (r: String)
    requires
        old(repo).wf(),
    ensures
        final(repo).wf(),
        final(repo)@ == upserted(old(repo)@, book@),
        r@ == upsert_confirmation(book@),
{
    let confirmation = render_upsert(&book);
    let _ = repo.upsert(book);
    confirmation
}

/// The edit form of the book stored under `id`, or a not-found fragment.
pub fn get_books_id_form(repo: &Repository, id: u32) -> (r: String)
    requires
        repo.wf(),
    ensures
        r@ == form_fragment(id, lookup(repo@, id)),
{
    let found = repo.get(id);
    render_form(id, &found)
}

} // verus!
