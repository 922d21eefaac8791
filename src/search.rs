use vstd::prelude::*;
use crate::models::{lemma_results_insert, results_view, DocModel, Document, SearchResult, SearchResultModel};
use crate::order::{insert_by, lemma_insert_by};
use crate::store::{DocStore, EntryModel, StoreModel};
use crate::text::{chars_of, count_occurrences, deep, occurrences, snippet, snippet_text, str_eq};

verus! {

/// At most this many hits are returned.
pub const MAX_RESULTS: usize = 20;

/// Where a query stands after a prefix of it: the terms so far, the term
/// being read, and whether a quote is open.
pub struct ScanState {
    pub terms: Seq<Seq<char>>,
    pub cur: Seq<char>,
    pub quoted: bool,
}

pub open spec fn is_space(c: char) -> bool {
    c == ' ' || c == '\t' || c == '\n' || c == '\r'
}

/// `terms`, with `cur` added where it is not empty.
pub open spec fn flush(terms: Seq<Seq<char>>, cur: Seq<char>) -> Seq<Seq<char>> {
    if cur.len() > 0 {
        terms.push(cur)
    } else {
        terms
    }
}

/// Reads one character: a quote opens or closes a phrase, white space
/// outside a phrase ends a term, anything else extends the term.
pub open spec fn scan_step(st: ScanState, c: char) -> ScanState {
    if c == '"' {
        ScanState { terms: flush(st.terms, st.cur), cur: Seq::empty(), quoted: !st.quoted }
    } else if !st.quoted && is_space(c) {
        ScanState { terms: flush(st.terms, st.cur), cur: Seq::empty(), quoted: false }
    } else {
        ScanState { terms: st.terms, cur: st.cur.push(c), quoted: st.quoted }
    }
}

pub open spec fn scan(q: Seq<char>) -> ScanState
    decreases q.len(),
{
    if q.len() == 0 {
        ScanState { terms: Seq::empty(), cur: Seq::empty(), quoted: false }
    } else {
        scan_step(scan(q.drop_last()), q.last())
    }
}

/// The terms of a query: words, and phrases in double quotes. A quote left
/// open makes the query malformed.
pub open spec fn query_terms(q: Seq<char>) -> Option<Seq<Seq<char>>> {
    let st = scan(q);
    if st.quoted {
        None
    } else {
        Some(flush(st.terms, st.cur))
    }
}

pub proof fn lemma_deep_push(s: Seq<Vec<char>>, x: Vec<char>)
    ensures
        deep(s.push(x)) == deep(s).push(x@),
{
    assert(deep(s.push(x)) =~= deep(s).push(x@));
}

fn flush_term(terms: &mut Vec<Vec<char>>, cur: Vec<char>)
    ensures
        deep(final(terms)@) == flush(deep(old(terms)@), cur@),
{
    if cur.len() > 0 {
        proof {
            lemma_deep_push(terms@, cur);
        }
        terms.push(cur);
    }
}

/// Splits a query into its terms; `None` where it is malformed.
pub fn parse_query(q: &str) -> (r: Option<Vec<Vec<char>>>)
    ensures
        match r {
            Some(v) => query_terms(q@) == Some(deep(v@)),
            None => query_terms(q@) is None,
        },
{
    let cs = chars_of(q);
    let mut terms: Vec<Vec<char>> = Vec::new();
    let mut cur: Vec<char> = Vec::new();
    let mut quoted = false;
    let mut i: usize = 0;
    assert(deep(terms@) =~= Seq::<Seq<char>>::empty());
    assert(cs@.take(0) =~= Seq::<char>::empty());
    while i < cs.len()
        invariant
            cs@ == q@,
            i <= cs.len(),
            deep(terms@) == scan(cs@.take(i as int)).terms,
            cur@ == scan(cs@.take(i as int)).cur,
            quoted == scan(cs@.take(i as int)).quoted,
        decreases cs.len() - i,
    {
        assert(cs@.take(i + 1).drop_last() =~= cs@.take(i as int));
        let c = cs[i];
        if c == '"' {
            flush_term(&mut terms, cur);
            cur = Vec::new();
            quoted = !quoted;
        } else if !quoted && (c == ' ' || c == '\t' || c == '\n' || c == '\r') {
            flush_term(&mut terms, cur);
            cur = Vec::new();
        } else {
            cur.push(c);
        }
        assert(cur@ =~= scan(cs@.take(i + 1)).cur);
        i = i + 1;
    }
    assert(cs@.take(cs.len() as int) =~= cs@);
    if quoted {
        None
    } else {
        flush_term(&mut terms, cur);
        Some(terms)
    }
}

} // verus!

verus! {

/// The text of a document that is searched and quoted: its content, or
/// nothing for a document without one.
pub open spec fn body(d: DocModel) -> Seq<char> {
    match d.content {
        Some(c) => c,
        None => Seq::empty(),
    }
}

/// How often `t` occurs in the title and the content of `d`.
pub open spec fn term_hits(d: DocModel, t: Seq<char>) -> nat {
    occurrences(d.title, t) + occurrences(body(d), t)
}

/// The occurrences of the first `n` terms, summed.
pub open spec fn total_hits(d: DocModel, terms: Seq<Seq<char>>, n: int) -> nat
    decreases n,
{
    if n <= 0 {
        0
    } else {
        total_hits(d, terms, n - 1) + term_hits(d, terms[n - 1])
    }
}

/// A document matches a query of at least one term where each term occurs
/// as whole words in its title or its content, ignoring ASCII case.
pub open spec fn doc_matches(d: DocModel, terms: Seq<Seq<char>>) -> bool {
    terms.len() > 0 && forall|k: int| 0 <= k < terms.len() ==> term_hits(d, #[trigger] terms[k]) > 0
}

/// The rank of a match: minus the number of occurrences, so that more
/// occurrences rank better (lower).
pub open spec fn rank_of(d: DocModel, terms: Seq<Seq<char>>) -> i64 {
    let h = total_hits(d, terms, terms.len() as int);
    if h >= i64::MAX {
        (-i64::MAX) as i64
    } else {
        (-h) as i64
    }
}

/// The search hit for a matching document.
pub open spec fn hit_of(d: DocModel, terms: Seq<Seq<char>>) -> SearchResultModel {
    SearchResultModel {
        id: d.id,
        title: d.title,
        headline: snippet(body(d), terms),
        rank: rank_of(d, terms),
    }
}

pub open spec fn rank_le(a: SearchResultModel, b: SearchResultModel) -> bool {
    a.rank <= b.rank
}

pub open spec fn rank_order() -> spec_fn(SearchResultModel, SearchResultModel) -> bool {
    |a: SearchResultModel, b: SearchResultModel| rank_le(a, b)
}

/// A document of `owner` that is not in the trash.
pub open spec fn searchable(owner: Seq<char>, e: EntryModel) -> bool {
    e.doc.owner_id == owner && e.doc.deleted_at is None
}

/// The hits among `es`, best first; equal ranks keep the order of creation.
pub open spec fn hits_of(es: Seq<EntryModel>, owner: Seq<char>, terms: Seq<Seq<char>>) -> Seq<
    SearchResultModel,
>
    decreases es.len(),
{
    if es.len() == 0 {
        Seq::empty()
    } else {
        let p = hits_of(es.drop_last(), owner, terms);
        let e = es.last();
        if searchable(owner, e) && doc_matches(e.doc, terms) {
            insert_by(p, hit_of(e.doc, terms), rank_order())
        } else {
            p
        }
    }
}

pub open spec fn first_n<T>(s: Seq<T>, n: int) -> Seq<T> {
    if s.len() <= n {
        s
    } else {
        s.take(n)
    }
}

/// `search`: the best hits of `owner`'s own documents outside the trash; a
/// malformed query finds nothing.
pub open spec fn search_spec(m: StoreModel, owner: Seq<char>, q: Seq<char>) -> Seq<SearchResultModel> {
    match query_terms(q) {
        None => Seq::empty(),
        Some(terms) => first_n(hits_of(m.entries, owner, terms), MAX_RESULTS as int),
    }
}

/// The hit for `d`, where it matches.
pub fn hit_for(d: &Document, terms: &Vec<Vec<char>>) -> (r: Option<SearchResult>)
    ensures
        match r {
            Some(h) => doc_matches(d@, deep(terms@)) && h@ == hit_of(d@, deep(terms@)),
            None => !doc_matches(d@, deep(terms@)),
        },
{
    if terms.len() == 0 {
        return None;
    }
    let empty = String::new();
    let body_str: &str = match &d.content {
        Some(c) => c.as_str(),
        None => empty.as_str(),
    };
    assert(body_str@ == body(d@));
    let title = chars_of(d.title.as_str());
    let text = chars_of(body_str);
    let mut total: u64 = 0;
    let mut k: usize = 0;
    while k < terms.len()
        invariant
            title@ == d@.title,
            text@ == body(d@),
            k <= terms.len(),
            forall|j: int| 0 <= j < k ==> term_hits(d@, #[trigger] deep(terms@)[j]) > 0,
            total as int == if total_hits(d@, deep(terms@), k as int) >= i64::MAX {
                i64::MAX as int
            } else {
                total_hits(d@, deep(terms@), k as int) as int
            },
        decreases terms.len() - k,
    {
        let ct = count_occurrences(&title, &terms[k]);
        let cb = count_occurrences(&text, &terms[k]);
        if ct == 0 && cb == 0 {
            assert(term_hits(d@, deep(terms@)[k as int]) == 0);
            return None;
        }
        let s: u128 = total as u128 + ct as u128 + cb as u128;
        total = if s >= i64::MAX as u128 {
            i64::MAX as u64
        } else {
            s as u64
        };
        k = k + 1;
    }
    let rank: i64 = -(total as i64);
    let headline = snippet_text(body_str, terms);
    Some(SearchResult { id: d.id.clone(), title: d.title.clone(), headline: headline, rank: rank })
}

/// Inserts `x` into `v` as `insert_by` does under `rank_order`.
pub fn insert_ranked(v: &mut Vec<SearchResult>, x: SearchResult)
    ensures
        results_view(final(v)@) == insert_by(results_view(old(v)@), x@, rank_order()),
{
    let mut pos: usize = 0;
    while pos < v.len() && v[pos].rank <= x.rank
        invariant
            pos <= v.len(),
            forall|k: int| 0 <= k < pos ==> rank_le(#[trigger] results_view(v@)[k], x@),
        decreases v.len() - pos,
    {
        pos = pos + 1;
    }
    proof {
        lemma_insert_by(results_view(v@), x@, rank_order(), pos as int);
        lemma_results_insert(v@, pos as int, x);
    }
    v.insert(pos, x);
}

/// Searches the documents of `user_id` that are not in the trash for the
/// query `q`, and returns at most `MAX_RESULTS` hits, best first, each with
/// a highlighted excerpt of its content (see `snippet`). A malformed query
/// finds nothing: it is no error.
pub fn search_docs(store: &DocStore, user_id: &str, q: &str) -> (r: Vec<SearchResult>)
    ensures
        results_view(r@) == search_spec(store@, user_id@, q@),
{
    let terms = match parse_query(q) {
        None => {
            let r: Vec<SearchResult> = Vec::new();
            assert(results_view(r@) =~= Seq::<SearchResultModel>::empty());
            return r;
        },
        Some(t) => t,
    };
    let ghost ts = deep(terms@);
    let mut r: Vec<SearchResult> = Vec::new();
    let mut i: usize = 0;
    assert(results_view(r@) =~= Seq::<SearchResultModel>::empty());
    while i < store.entries.len()
        invariant
            i <= store.entries.len(),
            ts == deep(terms@),
            results_view(r@) == hits_of(store@.entries.take(i as int), user_id@, ts),
        decreases store.entries.len() - i,
    {
        assert(store@.entries.take(i + 1).drop_last() =~= store@.entries.take(i as int));
        assert(store@.entries[i as int] == store.entries@[i as int]@);
        let e = &store.entries[i];
        if str_eq(e.doc.owner_id.as_str(), user_id) && e.doc.deleted_at.is_none() {
            match hit_for(&e.doc, &terms) {
                Some(h) => insert_ranked(&mut r, h),
                None => {},
            }
        }
        i = i + 1;
    }
    assert(store@.entries.take(store.entries.len() as int) =~= store@.entries);
    let ghost all = r@;
    r.truncate(MAX_RESULTS);
    proof {
        if all.len() > MAX_RESULTS {
            assert(results_view(r@) =~= results_view(all).take(MAX_RESULTS as int));
        }
    }
    r
}

} // verus!
