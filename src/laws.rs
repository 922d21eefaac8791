use vstd::prelude::*;
use crate::docs::{
    create_spec, delete_spec, get_spec, list_le, list_of, list_order, list_spec, listed, opt_strs,
    update_spec,
};
use crate::docs_trash::{purge_spec, restore_spec, trash_le, trash_of, trash_order, trash_spec, trashed};
use crate::models::{CreateDocRequest, DocWithTagsModel, TagModel, Timestamp, UpdateDocRequest};
use crate::order::{lemma_insert_by_len, lemma_insert_by_sorted, sorted_by, total};
use crate::search::{
    doc_matches, hit_of, hits_of, query_terms, rank_order, scan, search_spec, searchable,
};
use crate::text::{lemma_lex_total, lemma_lex_trans, lex_le};
use crate::store::{
    find, ids_distinct, tag_ids_distinct, tag_order, known_tag, lemma_distinct_remove, lemma_find, link_ids, linked_tags,
    with_tags, EntryModel, Failure, StoreModel,
};

verus! {

broadcast use vstd::multiset::group_multiset_axioms;

/// What `insert_by` holds: what `s` holds, and `x`.
pub proof fn lemma_insert_by_contains<T>(s: Seq<T>, x: T, le: spec_fn(T, T) -> bool, y: T)
    ensures
        crate::order::insert_by(s, x, le).contains(y) <==> (s.contains(y) || y == x),
{
    let t = crate::order::insert_by(s, x, le);
    lemma_insert_by_len(s, x, le);
    vstd::seq_lib::to_multiset_contains(t, y);
    vstd::seq_lib::to_multiset_contains(s, y);
    assert(t.to_multiset().count(y) == s.to_multiset().count(y) + if y == x {
        1nat
    } else {
        0nat
    });
}

/// A document is in the list of `owner` exactly where it is the read form
/// of one of `owner`'s documents outside the trash.
pub proof fn lemma_list_members(m: StoreModel, es: Seq<EntryModel>, owner: Seq<char>, x: DocWithTagsModel)
    ensures
        list_of(m, es, owner).contains(x) <==> exists|i: int|
            0 <= i < es.len() && listed(owner, #[trigger] es[i]) && x == with_tags(m, es[i]),
    decreases es.len(),
{
    if es.len() > 0 {
        let q = es.drop_last();
        let p = list_of(m, q, owner);
        lemma_list_members(m, q, owner, x);
        if listed(owner, es.last()) {
            lemma_insert_by_contains(p, with_tags(m, es.last()), list_order(), x);
        }
        if list_of(m, es, owner).contains(x) {
            if p.contains(x) {
                let i = choose|i: int| 0 <= i < q.len() && listed(owner, #[trigger] q[i]) && x == with_tags(m, q[i]);
                assert(es[i] == q[i]);
            } else {
                assert(listed(owner, es[es.len() - 1]));
            }
        }
        if exists|i: int| 0 <= i < es.len() && listed(owner, #[trigger] es[i]) && x == with_tags(m, es[i]) {
            let i = choose|i: int| 0 <= i < es.len() && listed(owner, #[trigger] es[i]) && x == with_tags(m, es[i]);
            if i < es.len() - 1 {
                assert(q[i] == es[i]);
            }
        }
    }
}

/// A document is in the trash of `owner` exactly where it is the read form
/// of one of `owner`'s trashed documents.
pub proof fn lemma_trash_members(m: StoreModel, es: Seq<EntryModel>, owner: Seq<char>, x: DocWithTagsModel)
    ensures
        trash_of(m, es, owner).contains(x) <==> exists|i: int|
            0 <= i < es.len() && trashed(owner, #[trigger] es[i]) && x == with_tags(m, es[i]),
    decreases es.len(),
{
    if es.len() > 0 {
        let q = es.drop_last();
        let p = trash_of(m, q, owner);
        lemma_trash_members(m, q, owner, x);
        if trashed(owner, es.last()) {
            lemma_insert_by_contains(p, with_tags(m, es.last()), trash_order(), x);
        }
        if trash_of(m, es, owner).contains(x) {
            if p.contains(x) {
                let i = choose|i: int| 0 <= i < q.len() && trashed(owner, #[trigger] q[i]) && x == with_tags(m, q[i]);
                assert(es[i] == q[i]);
            } else {
                assert(trashed(owner, es[es.len() - 1]));
            }
        }
        if exists|i: int| 0 <= i < es.len() && trashed(owner, #[trigger] es[i]) && x == with_tags(m, es[i]) {
            let i = choose|i: int| 0 <= i < es.len() && trashed(owner, #[trigger] es[i]) && x == with_tags(m, es[i]);
            if i < es.len() - 1 {
                assert(q[i] == es[i]);
            }
        }
    }
}

/// A tag is linked to a document exactly where it is one of the store's
/// tags and its id is among the document's tag ids.
pub proof fn lemma_linked_members(tags: Seq<TagModel>, ids: Seq<Seq<char>>, t: TagModel)
    ensures
        linked_tags(tags, ids).contains(t) <==> (tags.contains(t) && ids.contains(t.id)),
    decreases tags.len(),
{
    if tags.len() > 0 {
        let q = tags.drop_last();
        lemma_linked_members(q, ids, t);
        if tags.contains(t) {
            let k = choose|k: int| 0 <= k < tags.len() && tags[k] == t;
            if k < tags.len() - 1 {
                assert(q[k] == t);
            }
        }
        if q.contains(t) {
            let k = choose|k: int| 0 <= k < q.len() && q[k] == t;
            assert(tags[k] == t);
        }
        if ids.contains(tags.last().id) {
            assert(linked_tags(tags, ids) == linked_tags(q, ids).push(tags.last()));
            assert(linked_tags(tags, ids)[linked_tags(q, ids).len() as int] == tags.last());
            if linked_tags(q, ids).contains(t) {
                let k = choose|k: int| 0 <= k < linked_tags(q, ids).len() && linked_tags(q, ids)[k] == t;
                assert(linked_tags(tags, ids)[k] == t);
            }
            if linked_tags(tags, ids).contains(t) && t != tags.last() {
                let k = choose|k: int| 0 <= k < linked_tags(tags, ids).len() && linked_tags(tags, ids)[k] == t;
                assert(linked_tags(q, ids)[k] == t);
            }
        }
    }
}

/// The tags linked to a document are distinct where the store's are.
pub proof fn lemma_linked_distinct(tags: Seq<TagModel>, ids: Seq<Seq<char>>)
    requires
        tag_ids_distinct(tags),
    ensures
        tag_ids_distinct(linked_tags(tags, ids)),
    decreases tags.len(),
{
    if tags.len() > 0 {
        let q = tags.drop_last();
        assert forall|i: int, j: int|
            0 <= i < q.len() && 0 <= j < q.len() && i != j implies #[trigger] q[i].id
            != #[trigger] q[j].id by {
            assert(q[i] == tags[i] && q[j] == tags[j]);
        }
        lemma_linked_distinct(q, ids);
        let p = linked_tags(q, ids);
        if ids.contains(tags.last().id) {
            let r = linked_tags(tags, ids);
            assert(r == p.push(tags.last()));
            assert forall|i: int, j: int|
                0 <= i < r.len() && 0 <= j < r.len() && i != j implies #[trigger] r[i].id
                != #[trigger] r[j].id by {
                if i == p.len() || j == p.len() {
                    let k = if i == p.len() { j } else { i };
                    assert(p.contains(r[k]));
                    lemma_linked_members(q, ids, r[k]);
                    let w = choose|w: int| 0 <= w < q.len() && q[w] == r[k];
                    assert(tags[w] == q[w]);
                    assert(tags[tags.len() - 1] == tags.last());
                }
            }
        }
    }
}

/// Strictly increasing names, pair by pair.
pub open spec fn names_increasing(tags: Seq<TagModel>) -> bool {
    forall|i: int, j: int|
        0 <= i < j < tags.len() ==> lex_le(#[trigger] tags[i].name, #[trigger] tags[j].name)
            && tags[i].name != tags[j].name
}

proof fn lemma_sorted_pair(tags: Seq<TagModel>, i: int, j: int)
    requires
        sorted_by(tags, tag_order()),
        0 <= i < j < tags.len(),
    ensures
        lex_le(tags[i].name, tags[j].name),
    decreases j - i,
{
    let k = j - 1;
    assert(tag_order()(tags[k], tags[k + 1]));
    assert(k + 1 == j);
    if j > i + 1 {
        lemma_sorted_pair(tags, i, j - 1);
        lemma_lex_trans(tags[i].name, tags[j - 1].name, tags[j].name);
    }
}

/// A well-formed store's tags have strictly increasing names.
pub proof fn lemma_tags_increasing(m: StoreModel)
    requires
        m.wf(),
    ensures
        names_increasing(m.tags),
{
    assert forall|i: int, j: int| 0 <= i < j < m.tags.len() implies lex_le(
        #[trigger] m.tags[i].name,
        #[trigger] m.tags[j].name,
    ) && m.tags[i].name != m.tags[j].name by {
        lemma_sorted_pair(m.tags, i, j);
    }
}

/// The tags linked to a document keep the store's strict order of names.
pub proof fn lemma_linked_increasing(tags: Seq<TagModel>, ids: Seq<Seq<char>>)
    requires
        names_increasing(tags),
    ensures
        names_increasing(linked_tags(tags, ids)),
    decreases tags.len(),
{
    if tags.len() > 0 {
        let q = tags.drop_last();
        assert forall|i: int, j: int| 0 <= i < j < q.len() implies lex_le(
            #[trigger] q[i].name,
            #[trigger] q[j].name,
        ) && q[i].name != q[j].name by {
            assert(q[i] == tags[i] && q[j] == tags[j]);
        }
        lemma_linked_increasing(q, ids);
        let p = linked_tags(q, ids);
        if ids.contains(tags.last().id) {
            let r = linked_tags(tags, ids);
            assert(r == p.push(tags.last()));
            assert forall|i: int, j: int| 0 <= i < j < r.len() implies lex_le(
                #[trigger] r[i].name,
                #[trigger] r[j].name,
            ) && r[i].name != r[j].name by {
                if j == p.len() {
                    assert(p.contains(r[i]));
                    lemma_linked_members(q, ids, r[i]);
                    let w = choose|w: int| 0 <= w < q.len() && q[w] == r[i];
                    assert(tags[w] == q[w]);
                    assert(tags[tags.len() - 1] == tags.last());
                } else {
                    assert(r[i] == p[i] && r[j] == p[j]);
                }
            }
        }
    }
}

/// An id is linked exactly where it names a tag and was requested.
pub proof fn lemma_link_ids_members(tags: Seq<TagModel>, req: Seq<Seq<char>>, x: Seq<char>)
    ensures
        link_ids(tags, req).contains(x) <==> (known_tag(tags, x) && req.contains(x)),
    decreases req.len(),
{
    if req.len() > 0 {
        let q = req.drop_last();
        let p = link_ids(tags, q);
        lemma_link_ids_members(tags, q, x);
        if req.contains(x) && x != req.last() {
            let k = choose|k: int| 0 <= k < req.len() && req[k] == x;
            assert(q[k] == x);
        }
        if q.contains(x) {
            let k = choose|k: int| 0 <= k < q.len() && q[k] == x;
            assert(req[k] == x);
        }
        if known_tag(tags, req.last()) && !p.contains(req.last()) {
            assert(link_ids(tags, req)[p.len() as int] == req.last());
            if p.contains(x) {
                let k = choose|k: int| 0 <= k < p.len() && p[k] == x;
                assert(link_ids(tags, req)[k] == x);
            }
            if link_ids(tags, req).contains(x) && x != req.last() {
                let k = choose|k: int| 0 <= k < link_ids(tags, req).len() && link_ids(tags, req)[k] == x;
                assert(p[k] == x);
            }
        }
        assert(req[req.len() - 1] == req.last());
    }
}

/// A document outside the trash can be read by its owner and one in the
/// trash cannot; read by another user, a document is `Forbidden`, in the
/// trash or not.
pub proof fn law_get_visibility(m: StoreModel, i: int, other: Seq<char>)
    requires
        m.wf(),
        0 <= i < m.entries.len(),
        other != m.entries[i].doc.owner_id,
    ensures
        get_spec(m, m.entries[i].doc.owner_id, m.entries[i].doc.id) is Ok <==> m.entries[i].doc.deleted_at is None,
        get_spec(m, other, m.entries[i].doc.id) == Err::<
            DocWithTagsModel,
            Failure,
        >(Failure::Forbidden),
{
    lemma_find(m.entries, m.entries[i].doc.id);
}

pub open spec fn requested_ids(req: Option<Seq<Seq<char>>>) -> Seq<Seq<char>> {
    match req {
        Some(t) => t,
        None => Seq::empty(),
    }
}

/// A document read right after it is created is the one created, and
/// carries exactly the store's tags whose ids were requested: each once,
/// whatever the repeats, none for an unknown id, in increasing order of
/// name.
pub proof fn law_create_then_get(
    m: StoreModel,
    owner: Seq<char>,
    req: CreateDocRequest,
    id: Seq<char>,
    now: Timestamp,
    m2: StoreModel,
    d: DocWithTagsModel,
)
    requires
        m.wf(),
        create_spec(m, owner, req, id, now) == (m2, Ok::<DocWithTagsModel, Failure>(d)),
    ensures
        m2.wf(),
        get_spec(m2, owner, id) == Ok::<DocWithTagsModel, Failure>(d),
        forall|t: TagModel|
            d.tags.contains(t) <==> (m.tags.contains(t) && requested_ids(opt_strs(req.tags)).contains(
                t.id,
            )),
        forall|i: int, j: int|
            0 <= i < d.tags.len() && 0 <= j < d.tags.len() && i != j ==> #[trigger] d.tags[i].id
                != #[trigger] d.tags[j].id,
        names_increasing(d.tags),
{
    let e = crate::docs::created_entry(m, owner, req, id, now);
    lemma_linked_distinct(m.tags, e.tag_ids);
    lemma_tags_increasing(m);
    lemma_linked_increasing(m.tags, e.tag_ids);
    crate::store::lemma_distinct_push(m.entries, e);
    lemma_find(m2.entries, id);
    assert(m2.entries[m.entries.len() as int] == e);
    assert forall|t: TagModel|
        d.tags.contains(t) <==> (m.tags.contains(t) && requested_ids(opt_strs(req.tags)).contains(
            t.id,
        )) by {
        lemma_linked_members(m.tags, e.tag_ids, t);
        lemma_link_ids_members(m.tags, requested_ids(opt_strs(req.tags)), t.id);
        if m.tags.contains(t) {
            let k = choose|k: int| 0 <= k < m.tags.len() && m.tags[k] == t;
            assert(known_tag(m.tags, t.id));
        }
        if opt_strs(req.tags) is None {
            assert(e.tag_ids =~= Seq::<Seq<char>>::empty());
        }
    }
}

/// An update that sets only the title leaves the content, the parent and
/// the tags as they were, and moves the update time forward (unless it
/// already stands at the largest time there is).
pub proof fn law_title_only_update(
    m: StoreModel,
    owner: Seq<char>,
    id: Seq<char>,
    req: UpdateDocRequest,
    now: Timestamp,
    m2: StoreModel,
    d: DocWithTagsModel,
)
    requires
        update_spec(m, owner, id, req, now) == (m2, Ok::<DocWithTagsModel, Failure>(d)),
        req.title is Some,
        req.content is None,
        req.parent_id is None,
        req.tags is None,
    ensures
        d.document.title == req.title->Some_0@,
        d.document.content == m.entries[find(m.entries, id)].doc.content,
        d.document.parent_id == m.entries[find(m.entries, id)].doc.parent_id,
        d.tags == with_tags(m, m.entries[find(m.entries, id)]).tags,
        m.entries[find(m.entries, id)].doc.updated_at < i64::MAX ==> d.document.updated_at
            > m.entries[find(m.entries, id)].doc.updated_at,
{
}

/// An update with an empty tag list leaves the document without tags, and
/// a second such update leaves it so.
pub proof fn law_clear_tags(
    m: StoreModel,
    owner: Seq<char>,
    id: Seq<char>,
    req1: UpdateDocRequest,
    now1: Timestamp,
    m2: StoreModel,
    d1: DocWithTagsModel,
    req2: UpdateDocRequest,
    now2: Timestamp,
    m3: StoreModel,
    d2: DocWithTagsModel,
)
    requires
        update_spec(m, owner, id, req1, now1) == (m2, Ok::<DocWithTagsModel, Failure>(d1)),
        update_spec(m2, owner, id, req2, now2) == (m3, Ok::<DocWithTagsModel, Failure>(d2)),
        opt_strs(req1.tags) == Some(Seq::<Seq<char>>::empty()),
        opt_strs(req2.tags) == Some(Seq::<Seq<char>>::empty()),
    ensures
        d1.tags.len() == 0,
        d2.tags.len() == 0,
{
    assert(link_ids(m.tags, Seq::<Seq<char>>::empty()) =~= Seq::<Seq<char>>::empty());
    if d1.tags.len() > 0 {
        lemma_linked_members(m2.tags, Seq::<Seq<char>>::empty(), d1.tags[0]);
        assert(d1.tags.contains(d1.tags[0]));
    }
    if d2.tags.len() > 0 {
        lemma_linked_members(m3.tags, Seq::<Seq<char>>::empty(), d2.tags[0]);
        assert(d2.tags.contains(d2.tags[0]));
    }
}

/// A document moved to the trash leaves its owner's list and shows in the
/// trash; restored, it is back in the list and out of the trash.
pub proof fn law_trash_round_trip(
    m: StoreModel,
    owner: Seq<char>,
    id: Seq<char>,
    now: Timestamp,
    m2: StoreModel,
    m3: StoreModel,
)
    requires
        m.wf(),
        delete_spec(m, owner, id, now) == (m2, Ok::<(), Failure>(())),
        restore_spec(m2, owner, id) == (m3, Ok::<(), Failure>(())),
    ensures
        forall|k: int|
            0 <= k < list_spec(m2, owner).len() ==> #[trigger] list_spec(m2, owner)[k].document.id != id,
        exists|k: int|
            0 <= k < trash_spec(m2, owner).len() && #[trigger] trash_spec(m2, owner)[k].document.id == id,
        exists|k: int|
            0 <= k < list_spec(m3, owner).len() && #[trigger] list_spec(m3, owner)[k].document.id == id,
        forall|k: int|
            0 <= k < trash_spec(m3, owner).len() ==> #[trigger] trash_spec(m3, owner)[k].document.id != id,
{
    let i = find(m.entries, id);
    lemma_find(m.entries, id);
    let e = m.entries[i];
    let m2b = crate::store::with_deleted(m, i, Some(now));
    crate::store::lemma_distinct_update(m.entries, i, m2b.entries[i]);
    assert(m2.entries[i].doc.deleted_at is Some);
    assert(m2.entries.len() == m.entries.len());
    assert(ids_distinct(m2.entries));
    lemma_find(m2.entries, id);
    assert(find(m2.entries, id) == i);
    crate::store::lemma_distinct_update(m2.entries, i, m3.entries[i]);
    lemma_find(m3.entries, id);
    let l2 = list_spec(m2, owner);
    assert forall|k: int| 0 <= k < l2.len() implies #[trigger] l2[k].document.id != id by {
        lemma_list_members(m2, m2.entries, owner, l2[k]);
        assert(l2.contains(l2[k]));
        let j = choose|j: int| 0 <= j < m2.entries.len() && listed(owner, #[trigger] m2.entries[j]) && l2[k] == with_tags(m2, m2.entries[j]);
        if l2[k].document.id == id {
            assert(j == i);
        }
    }
    let t2 = trash_spec(m2, owner);
    lemma_trash_members(m2, m2.entries, owner, with_tags(m2, m2.entries[i]));
    assert(trashed(owner, m2.entries[i]));
    let k2 = choose|k: int| 0 <= k < t2.len() && t2[k] == with_tags(m2, m2.entries[i]);
    assert(t2[k2].document.id == id);
    let l3 = list_spec(m3, owner);
    lemma_list_members(m3, m3.entries, owner, with_tags(m3, m3.entries[i]));
    assert(listed(owner, m3.entries[i]));
    let k3 = choose|k: int| 0 <= k < l3.len() && l3[k] == with_tags(m3, m3.entries[i]);
    assert(l3[k3].document.id == id);
    let t3 = trash_spec(m3, owner);
    assert forall|k: int| 0 <= k < t3.len() implies #[trigger] t3[k].document.id != id by {
        lemma_trash_members(m3, m3.entries, owner, t3[k]);
        assert(t3.contains(t3[k]));
        let j = choose|j: int| 0 <= j < m3.entries.len() && trashed(owner, #[trigger] m3.entries[j]) && t3[k] == with_tags(m3, m3.entries[j]);
        if t3[k].document.id == id {
            assert(j == i);
        }
    }
}

/// After a document is deleted for good, reading, restoring or trashing it
/// is `NotFound`, for every user.
pub proof fn law_purge_terminal(
    m: StoreModel,
    owner: Seq<char>,
    id: Seq<char>,
    m2: StoreModel,
    user: Seq<char>,
    now: Timestamp,
)
    requires
        m.wf(),
        purge_spec(m, owner, id) == (m2, Ok::<(), Failure>(())),
    ensures
        get_spec(m2, user, id) == Err::<DocWithTagsModel, Failure>(Failure::NotFound),
        restore_spec(m2, user, id).1 == Err::<(), Failure>(Failure::NotFound),
        delete_spec(m2, user, id, now).1 == Err::<(), Failure>(Failure::NotFound),
{
    lemma_find(m.entries, id);
    lemma_distinct_remove(m.entries, find(m.entries, id));
}

/// A hit is one of `owner`'s documents outside the trash that matches.
pub proof fn lemma_hit_members(
    es: Seq<EntryModel>,
    owner: Seq<char>,
    terms: Seq<Seq<char>>,
    x: crate::models::SearchResultModel,
)
    ensures
        hits_of(es, owner, terms).contains(x) ==> exists|i: int|
            0 <= i < es.len() && searchable(owner, #[trigger] es[i]) && doc_matches(es[i].doc, terms)
                && x == crate::search::hit_of(es[i].doc, terms),
    decreases es.len(),
{
    if es.len() > 0 {
        let q = es.drop_last();
        let p = hits_of(q, owner, terms);
        lemma_hit_members(q, owner, terms, x);
        if searchable(owner, es.last()) && doc_matches(es.last().doc, terms) {
            lemma_insert_by_contains(p, crate::search::hit_of(es.last().doc, terms), crate::search::rank_order(), x);
        }
        if hits_of(es, owner, terms).contains(x) {
            if p.contains(x) {
                let i = choose|i: int|
                    0 <= i < q.len() && searchable(owner, #[trigger] q[i]) && doc_matches(q[i].doc, terms)
                        && x == crate::search::hit_of(q[i].doc, terms);
                assert(es[i] == q[i]);
            } else {
                assert(searchable(owner, es[es.len() - 1]));
            }
        }
    }
}

/// Every hit of a search by `owner` is one of `owner`'s own documents
/// outside the trash, whatever other users' documents hold; so where none
/// of those matches, the search finds nothing.
pub proof fn law_search_own_only(m: StoreModel, owner: Seq<char>, q: Seq<char>)
    ensures
        forall|k: int|
            0 <= k < search_spec(m, owner, q).len() ==> exists|i: int|
                0 <= i < m.entries.len() && searchable(owner, #[trigger] m.entries[i])
                    && m.entries[i].doc.id == (#[trigger] search_spec(m, owner, q)[k]).id,
        (forall|i: int| 0 <= i < m.entries.len() && searchable(owner, #[trigger] m.entries[i]) ==> !doc_matches(
            m.entries[i].doc,
            query_terms(q)->Some_0,
        )) ==> search_spec(m, owner, q).len() == 0,
{
    let r = search_spec(m, owner, q);
    if let Some(terms) = query_terms(q) {
        let h = hits_of(m.entries, owner, terms);
        assert forall|k: int| 0 <= k < r.len() implies exists|i: int|
            0 <= i < m.entries.len() && searchable(owner, #[trigger] m.entries[i])
                && m.entries[i].doc.id == (#[trigger] r[k]).id by {
            assert(r[k] == h[k]);
            assert(h.contains(h[k]));
            lemma_hit_members(m.entries, owner, terms, h[k]);
        }
        if r.len() > 0 {
            assert(r[0] == h[0]);
            assert(h.contains(h[0]));
            lemma_hit_members(m.entries, owner, terms, h[0]);
        }
    }
}

/// The number of double quotes in a query.
pub open spec fn quote_count(q: Seq<char>) -> nat
    decreases q.len(),
{
    if q.len() == 0 {
        0
    } else {
        quote_count(q.drop_last()) + if q.last() == '"' {
            1nat
        } else {
            0nat
        }
    }
}

/// A phrase is open after a query exactly where it holds an odd number of
/// double quotes.
pub proof fn lemma_quoted_parity(q: Seq<char>)
    ensures
        scan(q).quoted <==> quote_count(q) % 2 == 1,
    decreases q.len(),
{
    if q.len() > 0 {
        lemma_quoted_parity(q.drop_last());
    }
}

/// A query with an odd number of double quotes is malformed, and a search
/// with it returns an empty list rather than an error.
pub proof fn law_malformed_query(m: StoreModel, owner: Seq<char>, q: Seq<char>)
    requires
        quote_count(q) % 2 == 1,
    ensures
        query_terms(q) is None,
        search_spec(m, owner, q).len() == 0,
{
    lemma_quoted_parity(q);
}

pub proof fn lemma_list_order_total()
    ensures
        total(list_order()),
{
    assert forall|a: DocWithTagsModel, b: DocWithTagsModel|
        #[trigger] list_order()(a, b) || list_order()(b, a) by {
        lemma_lex_total(a.document.title, b.document.title);
    }
}

proof fn lemma_list_of_sorted(m: StoreModel, es: Seq<EntryModel>, owner: Seq<char>)
    ensures
        sorted_by(list_of(m, es, owner), list_order()),
    decreases es.len(),
{
    if es.len() > 0 {
        lemma_list_of_sorted(m, es.drop_last(), owner);
        if listed(owner, es.last()) {
            lemma_list_order_total();
            lemma_insert_by_sorted(list_of(m, es.drop_last(), owner), with_tags(m, es.last()), list_order());
        }
    }
}

proof fn lemma_trash_of_sorted(m: StoreModel, es: Seq<EntryModel>, owner: Seq<char>)
    ensures
        sorted_by(trash_of(m, es, owner), trash_order()),
    decreases es.len(),
{
    if es.len() > 0 {
        lemma_trash_of_sorted(m, es.drop_last(), owner);
        if trashed(owner, es.last()) {
            assert(total(trash_order()));
            lemma_insert_by_sorted(trash_of(m, es.drop_last(), owner), with_tags(m, es.last()), trash_order());
        }
    }
}

proof fn lemma_hits_sorted(es: Seq<EntryModel>, owner: Seq<char>, terms: Seq<Seq<char>>)
    ensures
        sorted_by(hits_of(es, owner, terms), rank_order()),
    decreases es.len(),
{
    if es.len() > 0 {
        lemma_hits_sorted(es.drop_last(), owner, terms);
        if searchable(owner, es.last()) && doc_matches(es.last().doc, terms) {
            assert(total(rank_order()));
            lemma_insert_by_sorted(hits_of(es.drop_last(), owner, terms), hit_of(es.last().doc, terms), rank_order());
        }
    }
}

/// The list of a user's documents is ordered: folders before documents,
/// and by title within each.
pub proof fn law_list_sorted(m: StoreModel, owner: Seq<char>)
    ensures
        forall|k: int|
            0 <= k < list_spec(m, owner).len() - 1 ==> list_le(
                #[trigger] list_spec(m, owner)[k],
                list_spec(m, owner)[k + 1],
            ),
{
    lemma_list_of_sorted(m, m.entries, owner);
    let l = list_spec(m, owner);
    assert forall|k: int| 0 <= k < l.len() - 1 implies list_le(#[trigger] l[k], l[k + 1]) by {
        assert(list_order()(l[k], l[k + 1]));
    }
}

/// The trash is ordered by the time of trashing, the most recent first.
pub proof fn law_trash_sorted(m: StoreModel, owner: Seq<char>)
    ensures
        forall|k: int|
            0 <= k < trash_spec(m, owner).len() - 1 ==> trash_le(
                #[trigger] trash_spec(m, owner)[k],
                trash_spec(m, owner)[k + 1],
            ),
{
    lemma_trash_of_sorted(m, m.entries, owner);
    let l = trash_spec(m, owner);
    assert forall|k: int| 0 <= k < l.len() - 1 implies trash_le(#[trigger] l[k], l[k + 1]) by {
        assert(trash_order()(l[k], l[k + 1]));
    }
}

/// Search hits come best first: ranks never decrease along the list.
pub proof fn law_search_ranked(m: StoreModel, owner: Seq<char>, q: Seq<char>)
    ensures
        forall|k: int|
            0 <= k < search_spec(m, owner, q).len() - 1 ==> (#[trigger] search_spec(m, owner, q)[k]).rank
                <= search_spec(m, owner, q)[k + 1].rank,
{
    let r = search_spec(m, owner, q);
    if let Some(terms) = query_terms(q) {
        let h = hits_of(m.entries, owner, terms);
        lemma_hits_sorted(m.entries, owner, terms);
        assert forall|k: int| 0 <= k < r.len() - 1 implies (#[trigger] r[k]).rank <= r[k + 1].rank by {
            assert(r[k] == h[k] && r[k + 1] == h[k + 1]);
            assert(rank_order()(h[k], h[k + 1]));
        }
    }
}

} // verus!
