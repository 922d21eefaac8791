use docstore::docs::{create_doc_at, delete_doc_at};
use docstore::models::CreateDocRequest;
use docstore::search::{parse_query, search_docs, MAX_RESULTS};
use docstore::store::DocStore;

fn add(store: &mut DocStore, owner: &str, id: &str, title: &str, content: Option<&str>) {
    let req = CreateDocRequest {
        title: title.to_string(),
        content: content.map(|c| c.to_string()),
        parent_id: None,
        is_folder: false,
        tags: None,
    };
    create_doc_at(store, owner, req, id.to_string(), 1).unwrap();
}

#[test]
fn search_never_returns_other_users_documents() {
    let mut store = DocStore::new();
    add(&mut store, "a", "a1", "mine", Some("nothing here"));
    add(&mut store, "b", "b1", "theirs", Some("secret zebra"));
    assert!(search_docs(&store, "a", "zebra").is_empty());
    assert_eq!(search_docs(&store, "b", "zebra").len(), 1);
}

#[test]
fn malformed_query_returns_empty() {
    let mut store = DocStore::new();
    add(&mut store, "a", "a1", "t", Some("say \"hello\" there"));
    assert!(search_docs(&store, "a", "\"hello").is_empty());
    assert!(search_docs(&store, "a", "hello \"there").is_empty());
    assert!(parse_query("\"unbalanced").is_none());
    assert_eq!(search_docs(&store, "a", "\"hello\"").len(), 1);
    assert!(search_docs(&store, "a", "").is_empty());
    assert!(search_docs(&store, "a", "   ").is_empty());
}

#[test]
fn query_terms_and_phrases() {
    let terms = parse_query("  foo \"bar baz\"qux\t").unwrap();
    let words: Vec<String> = terms.iter().map(|t| t.iter().collect()).collect();
    assert_eq!(words, vec!["foo", "bar baz", "qux"]);
    assert!(parse_query("").unwrap().is_empty());
}

#[test]
fn ranking_headline_and_case() {
    let mut store = DocStore::new();
    add(&mut store, "a", "one", "Rust", Some("Rust is fun. rust!"));
    add(&mut store, "a", "two", "Other", Some("a little rust"));
    add(&mut store, "a", "three", "None", Some("python"));
    let hits = search_docs(&store, "a", "RUST");
    assert_eq!(hits.len(), 2);
    assert_eq!(hits[0].id, "one");
    assert_eq!(hits[0].rank, -3);
    assert_eq!(hits[0].headline, "<mark>Rust</mark> is fun. <mark>rust</mark>!");
    assert_eq!(hits[1].id, "two");
    assert_eq!(hits[1].rank, -1);
    assert_eq!(hits[1].title, "Other");
}

#[test]
fn every_term_must_occur() {
    let mut store = DocStore::new();
    add(&mut store, "a", "1", "cats", Some("and dogs"));
    add(&mut store, "a", "2", "cats", Some("only"));
    let hits = search_docs(&store, "a", "cats dogs");
    assert_eq!(hits.len(), 1);
    assert_eq!(hits[0].id, "1");
    assert_eq!(hits[0].headline, "and <mark>dogs</mark>");
    assert_eq!(hits[0].rank, -2);
}

#[test]
fn trashed_documents_are_not_searched() {
    let mut store = DocStore::new();
    add(&mut store, "a", "1", "x", Some("needle"));
    delete_doc_at(&mut store, "a", "1", 5).unwrap();
    assert!(search_docs(&store, "a", "needle").is_empty());
}

#[test]
fn at_most_twenty_results() {
    let mut store = DocStore::new();
    for i in 0..25 {
        let body = "w ".repeat(i + 1);
        add(&mut store, "a", &format!("d{}", i), "t", Some(&body));
    }
    let hits = search_docs(&store, "a", "w");
    assert_eq!(hits.len(), MAX_RESULTS);
    assert_eq!(hits[0].id, "d24");
    assert_eq!(hits[0].rank, -25);
    assert_eq!(hits[19].id, "d5");
}

fn words(n: usize, needle_at: usize) -> String {
    let ws: Vec<String> = (0..n).map(|i| if i == needle_at { "needle".to_string() } else { format!("w{}", i) }).collect();
    ws.join(" ")
}

#[test]
fn headline_quotes_the_first_words() {
    let mut store = DocStore::new();
    add(&mut store, "a", "1", "t", Some(&words(100, 2)));
    let hits = search_docs(&store, "a", "needle");
    let expected_words: Vec<String> =
        (0..64).map(|i| if i == 2 { "<mark>needle</mark>".to_string() } else { format!("w{}", i) }).collect();
    assert_eq!(hits[0].headline, format!("{} ...", expected_words.join(" ")));
}

#[test]
fn headline_starts_at_a_late_match() {
    let mut store = DocStore::new();
    add(&mut store, "a", "1", "t", Some(&words(100, 80)));
    let hits = search_docs(&store, "a", "needle");
    let rest: Vec<String> = (81..100).map(|i| format!("w{}", i)).collect();
    assert_eq!(hits[0].headline, format!("...<mark>needle</mark> {}", rest.join(" ")));
}

#[test]
fn headline_of_a_short_text_is_whole() {
    let mut store = DocStore::new();
    add(&mut store, "a", "1", "needle", None);
    let hits = search_docs(&store, "a", "needle");
    assert_eq!(hits.len(), 1);
    assert_eq!(hits[0].headline, "");
    assert_eq!(hits[0].rank, -1);
}

#[test]
fn terms_match_whole_words_only() {
    let mut store = DocStore::new();
    add(&mut store, "a", "1", "t", Some("homework and networking"));
    add(&mut store, "a", "2", "t", Some("work, then (work)"));
    let hits = search_docs(&store, "a", "work");
    assert_eq!(hits.len(), 1);
    assert_eq!(hits[0].id, "2");
    assert_eq!(hits[0].headline, "<mark>work</mark>, then (<mark>work</mark>)");
    assert_eq!(hits[0].rank, -2);
    let phrase = search_docs(&store, "a", "\"and networking\"");
    assert_eq!(phrase.len(), 1);
    assert_eq!(phrase[0].headline, "homework <mark>and networking</mark>");
}
