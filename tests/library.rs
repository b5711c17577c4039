use bookshelf::book::Book;
use bookshelf::bridge::{respond, AccessOutcome, STATUS_INTERNAL_ERROR, STATUS_OK};
use bookshelf::handlers::{get_book_id, get_books, get_books_id_form, put_book};
use bookshelf::order::title_less;
use bookshelf::render::{push_decimal, render_book, render_form, render_listing, render_upsert};
use bookshelf::repository::Repository;

fn book(id: u32, title: &str, author: &str) -> Book {
    Book::new(id, title.to_string(), author.to_string())
}

fn seeded() -> Repository {
    let mut repo = Repository::new();
    repo.upsert(book(1, "Antigone", "Sophocles"));
    repo.upsert(book(2, "Dune", "Herbert"));
    repo
}

fn titles(books: &[Book]) -> Vec<String> {
    books.iter().map(|b| b.title.clone()).collect()
}

#[test]
fn display_joins_title_and_author() {
    assert_eq!(book(1, "Dune", "Herbert").display(), "Dune by Herbert");
}

#[test]
fn duplicate_keeps_every_field() {
    let b = book(7, "Emma", "Austen");
    let c = b.duplicate();
    assert_eq!((c.id, c.title.as_str(), c.author.as_str()), (7, "Emma", "Austen"));
}

#[test]
fn upsert_then_get_returns_the_record() {
    let mut repo = Repository::new();
    assert!(repo.upsert(book(5, "Beowulf", "Anonymous")).is_none());
    let got = repo.get(5).unwrap();
    assert_eq!((got.id, got.title.as_str(), got.author.as_str()), (5, "Beowulf", "Anonymous"));
}

#[test]
fn get_of_missing_id_is_none() {
    let repo = seeded();
    assert!(repo.get(99).is_none());
    assert!(Repository::new().get(0).is_none());
}

#[test]
fn upsert_replaces_whole_record() {
    let mut repo = seeded();
    let prev = repo.upsert(book(2, "Children of Dune", "F. Herbert")).unwrap();
    assert_eq!((prev.title.as_str(), prev.author.as_str()), ("Dune", "Herbert"));
    let got = repo.get(2).unwrap();
    assert_eq!((got.title.as_str(), got.author.as_str()), ("Children of Dune", "F. Herbert"));
    assert_eq!(repo.list().len(), 2);
}

#[test]
fn list_is_sorted_regardless_of_insertion_order() {
    let mut a = Repository::new();
    a.upsert(book(3, "Zorba", "Kazantzakis"));
    a.upsert(book(1, "Antigone", "Sophocles"));
    a.upsert(book(2, "Medea", "Euripides"));
    let mut b = Repository::new();
    b.upsert(book(2, "Medea", "Euripides"));
    b.upsert(book(1, "Antigone", "Sophocles"));
    b.upsert(book(3, "Zorba", "Kazantzakis"));
    assert_eq!(titles(&a.list()), vec!["Antigone", "Medea", "Zorba"]);
    assert_eq!(titles(&b.list()), vec!["Antigone", "Medea", "Zorba"]);
}

#[test]
fn list_breaks_title_ties_by_id() {
    let mut repo = Repository::new();
    repo.upsert(book(9, "Poems", "Keats"));
    repo.upsert(book(4, "Poems", "Byron"));
    let ids: Vec<u32> = repo.list().iter().map(|b| b.id).collect();
    assert_eq!(ids, vec![4, 9]);
}

#[test]
fn list_of_empty_repository_is_empty() {
    assert!(Repository::new().list().is_empty());
}

#[test]
fn distinct_upserts_all_persist() {
    let mut repo = Repository::new();
    for id in 0..50u32 {
        repo.upsert(book(id, &format!("Title {}", 50 - id), "Someone"));
    }
    assert_eq!(repo.list().len(), 50);
    for id in 0..50u32 {
        assert_eq!(repo.get(id).unwrap().title, format!("Title {}", 50 - id));
    }
}

#[test]
fn title_order_is_by_code_point() {
    assert!(title_less("Antigone", "Dune"));
    assert!(title_less("Dun", "Dune"));
    assert!(!title_less("Dune", "Dune"));
    assert!(title_less("Zeta", "alpha"));
    assert!(!title_less("", ""));
    assert!(title_less("", "a"));
}

#[test]
fn decimal_numerals() {
    let mut s = String::from("n=");
    push_decimal(&mut s, 0);
    assert_eq!(s, "n=0");
    let mut s = String::new();
    push_decimal(&mut s, 4294967295);
    assert_eq!(s, "4294967295");
    let mut s = String::new();
    push_decimal(&mut s, 1030);
    assert_eq!(s, "1030");
}

#[test]
fn render_fragments() {
    let b = book(3, "Decameron", "Boccaccio");
    assert_eq!(render_book(&Some(b.clone())), "<p>Decameron by Boccaccio</p>\n");
    assert_eq!(render_book(&None), "<p>Book not found</p>\n");
    assert_eq!(render_upsert(&b), "PUT book: Decameron by Boccaccio\n");
    assert_eq!(
        render_listing(&vec![book(1, "A", "B"), book(2, "C", "D")]),
        "<p>A by B</p>\n<p>C by D</p>\n"
    );
    assert_eq!(render_listing(&Vec::new()), "");
}

#[test]
fn render_form_of_found_and_missing_book() {
    let b = book(12, "Emma", "Austen");
    assert_eq!(
        render_form(12, &Some(b)),
        "<form method=\"post\" action=\"/books/12/form\">\n\
         <input type=\"hidden\" name=\"id\" value=\"12\">\n\
         <p><input name=\"title\" value=\"Emma\"></p>\n\
         <p><input name=\"author\" value=\"Austen\"></p>\n\
         <input type=\"submit\" value=\"Save\">\n\
         </form>\n"
    );
    assert_eq!(render_form(40, &None), "<p>Book id 40 not found</p>");
}

#[test]
fn seeded_put_then_list_and_lookups() {
    let mut repo = seeded();
    assert_eq!(
        put_book(&mut repo, book(3, "Decameron", "Boccaccio")),
        "PUT book: Decameron by Boccaccio\n"
    );
    assert_eq!(
        get_books(&repo),
        "<p>Antigone by Sophocles</p>\n<p>Decameron by Boccaccio</p>\n<p>Dune by Herbert</p>\n"
    );
    assert_eq!(get_book_id(&repo, 2), "<p>Dune by Herbert</p>\n");
    assert_eq!(get_book_id(&repo, 99), "<p>Book not found</p>\n");
}

#[test]
fn form_page_reads_the_store() {
    let repo = seeded();
    assert!(get_books_id_form(&repo, 1).contains("value=\"Antigone\""));
    assert_eq!(get_books_id_form(&repo, 7), "<p>Book id 7 not found</p>");
}

#[test]
fn access_outcomes_become_responses() {
    let (status, body) = respond(AccessOutcome::Completed("<p>x</p>".to_string()));
    assert_eq!((status, body.as_str()), (200, "<p>x</p>"));
    assert_eq!(STATUS_OK, 200);
    let (status, body) = respond(AccessOutcome::LockPoisoned);
    assert_eq!((status, body.as_str()), (500, "repository lock is poisoned"));
    let (status, body) = respond(AccessOutcome::WorkerFailed);
    assert_eq!((status, body.as_str()), (STATUS_INTERNAL_ERROR, "repository worker failed"));
}

#[test]
fn books_compare_by_all_fields() {
    assert_eq!(book(1, "A", "B"), book(1, "A", "B"));
    assert_ne!(book(1, "A", "B"), book(2, "A", "B"));
    assert_ne!(book(1, "A", "B"), book(1, "A", "C"));
}

#[test]
fn seeded_scenario_lists_in_title_order() {
    let mut repo = seeded();
    repo.upsert(book(3, "Decameron", "Boccaccio"));
    assert_eq!(titles(&repo.list()), vec!["Antigone", "Decameron", "Dune"]);
    assert_eq!(repo.get(2).unwrap(), book(2, "Dune", "Herbert"));
    assert!(repo.get(99).is_none());
}
