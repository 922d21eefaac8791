use vstd::prelude::*;
use crate::errors::{msg, ServiceError};
use crate::models::{
    clone_opt, clone_strs, dwts_view, lemma_dwts_insert, opt_view, strs_view, CreateDocRequest,
    DocModel, DocWithTagsModel, Document, DocumentWithTags, Timestamp, UpdateDocRequest,
};
use crate::order::{insert_by, lemma_insert_by};
use crate::store::{
    find, lemma_distinct_push, lemma_distinct_update, lemma_entries_push, lemma_entries_update,
    link_ids, outcome, owned_check, status, with_deleted, with_tags, DocStore, Entry, EntryModel,
    Failure, StoreModel,
};
use crate::text::{lex_le, str_eq, str_le};

verus! {

/// The order of the document list: folders first, then by title.
pub open spec fn list_le(a: DocWithTagsModel, b: DocWithTagsModel) -> bool {
    (a.document.is_folder && !b.document.is_folder) || (a.document.is_folder
        == b.document.is_folder && lex_le(a.document.title, b.document.title))
}

pub open spec fn list_order() -> spec_fn(DocWithTagsModel, DocWithTagsModel) -> bool {
    |a: DocWithTagsModel, b: DocWithTagsModel| list_le(a, b)
}

/// A document that `owner` sees in the document list.
pub open spec fn listed(owner: Seq<char>, e: EntryModel) -> bool {
    e.doc.owner_id == owner && e.doc.deleted_at is None
}

/// The listed documents of `es`, ordered by `list_le`; equal keys keep
/// the order of creation.
pub open spec fn list_of(m: StoreModel, es: Seq<EntryModel>, owner: Seq<char>) -> Seq<
    DocWithTagsModel,
>
    decreases es.len(),
{
    if es.len() == 0 {
        Seq::empty()
    } else {
        let p = list_of(m, es.drop_last(), owner);
        if listed(owner, es.last()) {
            insert_by(p, with_tags(m, es.last()), list_order())
        } else {
            p
        }
    }
}

/// The documents that `owner` lists.
pub open spec fn list_spec(m: StoreModel, owner: Seq<char>) -> Seq<DocWithTagsModel> {
    list_of(m, m.entries, owner)
}

pub fn list_before(a: &DocumentWithTags, b: &DocumentWithTags) -> (r: bool)
    ensures
        r == list_le(a@, b@),
{
    if a.document.is_folder != b.document.is_folder {
        a.document.is_folder
    } else {
        str_le(a.document.title.as_str(), b.document.title.as_str())
    }
}

/// Inserts `x` into `v` as `insert_by` does under `list_order`.
pub fn insert_listed(v: &mut Vec<DocumentWithTags>, x: DocumentWithTags)
    ensures
        dwts_view(final(v)@) == insert_by(dwts_view(old(v)@), x@, list_order()),
{
    let mut pos: usize = 0;
    while pos < v.len() && list_before(&v[pos], &x)
        invariant
            pos <= v.len(),
            forall|k: int| 0 <= k < pos ==> list_le(#[trigger] dwts_view(v@)[k], x@),
        decreases v.len() - pos,
    {
        pos = pos + 1;
    }
    proof {
        lemma_insert_by(dwts_view(v@), x@, list_order(), pos as int);
        lemma_dwts_insert(v@, pos as int, x);
    }
    v.insert(pos, x);
}

/// The documents of `user_id` that are not in the trash, folders first and
/// then by title, each with its tags.
pub fn list_docs(store: &DocStore, user_id: &str) -> (r: Vec<DocumentWithTags>)
    ensures
        dwts_view(r@) == list_spec(store@, user_id@),
{
    let mut r: Vec<DocumentWithTags> = Vec::new();
    let mut i: usize = 0;
    while i < store.entries.len()
        invariant
            i <= store.entries.len(),
            dwts_view(r@) == list_of(store@, store@.entries.take(i as int), user_id@),
        decreases store.entries.len() - i,
    {
        assert(store@.entries.take(i + 1).drop_last() =~= store@.entries.take(i as int));
        assert(store@.entries[i as int] == store.entries@[i as int]@);
        let e = &store.entries[i];
        if str_eq(e.doc.owner_id.as_str(), user_id) && e.doc.deleted_at.is_none() {
            let d = store.read_at(i);
            insert_listed(&mut r, d);
        }
        i = i + 1;
    }
    assert(store@.entries.take(store.entries.len() as int) =~= store@.entries);
    r
}

} // verus!

verus! {

/// `get`: a document that is not in the trash, read by its owner. Ownership
/// is checked right after existence: another user's document is
/// `Forbidden` whether it is in the trash or not.
pub open spec fn get_spec(m: StoreModel, owner: Seq<char>, id: Seq<char>) -> Result<
    DocWithTagsModel,
    Failure,
> {
    let i = find(m.entries, id);
    if i < 0 {
        Err(Failure::NotFound)
    } else if m.entries[i].doc.owner_id != owner {
        Err(Failure::Forbidden)
    } else if m.entries[i].doc.deleted_at is Some {
        Err(Failure::NotFound)
    } else {
        Ok(with_tags(m, m.entries[i]))
    }
}

/// Reads one document of `user_id` with its tags. A document that does not
/// exist is `NotFound`; one of another user is `Forbidden`, in the trash or
/// not; one of `user_id` in the trash is `NotFound`.
pub fn get_doc(store: &DocStore, user_id: &str, doc_id: &str) -> (r: Result<
    DocumentWithTags,
    ServiceError,
>)
    ensures
        outcome(r) == get_spec(store@, user_id@, doc_id@),
{
    match store.locate(doc_id) {
        None => Err(ServiceError::NotFound(msg("Document not found"))),
        Some(i) => {
            assert(store@.entries[i as int] == store.entries@[i as int]@);
            if !str_eq(store.entries[i].doc.owner_id.as_str(), user_id) {
                Err(ServiceError::Forbidden(msg("Permission denied")))
            } else if store.entries[i].doc.deleted_at.is_some() {
                Err(ServiceError::NotFound(msg("Document not found")))
            } else {
                Ok(store.read_at(i))
            }
        },
    }
}

/// A parent reference is acceptable: none, or a document (in the trash or
/// not) of the same owner.
pub open spec fn parent_ok(m: StoreModel, owner: Seq<char>, parent: Option<Seq<char>>) -> bool {
    match parent {
        None => true,
        Some(p) => {
            let j = find(m.entries, p);
            j >= 0 && m.entries[j].doc.owner_id == owner
        },
    }
}

pub open spec fn opt_strs(o: Option<Vec<String>>) -> Option<Seq<Seq<char>>> {
    match o {
        Some(v) => Some(strs_view(v@)),
        None => None,
    }
}

/// The tag ids that a list of requested ids links; no list links none.
pub open spec fn requested_links(m: StoreModel, req: Option<Seq<Seq<char>>>) -> Seq<Seq<char>> {
    match req {
        Some(t) => link_ids(m.tags, t),
        None => Seq::empty(),
    }
}

/// The document that `create` adds.
pub open spec fn created_entry(
    m: StoreModel,
    owner: Seq<char>,
    req: CreateDocRequest,
    id: Seq<char>,
    now: Timestamp,
) -> EntryModel {
    EntryModel {
        doc: DocModel {
            id: id,
            title: req.title@,
            content: opt_view(req.content),
            parent_id: opt_view(req.parent_id),
            owner_id: owner,
            is_folder: req.is_folder,
            created_at: now,
            updated_at: now,
            deleted_at: None,
        },
        tag_ids: requested_links(m, opt_strs(req.tags)),
    }
}

/// `create` with the id `id` at time `now`: the new store and the outcome.
pub open spec fn create_spec(
    m: StoreModel,
    owner: Seq<char>,
    req: CreateDocRequest,
    id: Seq<char>,
    now: Timestamp,
) -> (StoreModel, Result<DocWithTagsModel, Failure>) {
    if !parent_ok(m, owner, opt_view(req.parent_id)) {
        (m, Err(Failure::BadRequest))
    } else if find(m.entries, id) != -1 {
        (m, Err(Failure::Internal))
    } else {
        let e = created_entry(m, owner, req, id, now);
        let m2 = StoreModel { entries: m.entries.push(e), tags: m.tags };
        (m2, Ok(with_tags(m2, e)))
    }
}

impl DocStore {
    pub(crate) fn check_parent(&self, owner: &str, parent: &Option<String>) -> (r: bool)
        ensures
            r == parent_ok(self@, owner@, opt_view(*parent)),
    {
        match parent {
            None => true,
            Some(p) => match self.locate(p.as_str()) {
                None => false,
                Some(j) => {
                    assert(self@.entries[j as int] == self.entries@[j as int]@);
                    str_eq(self.entries[j].doc.owner_id.as_str(), owner)
                },
            },
        }
    }
}

/// Adds a document of `user_id` with the id `id`, created at `now`, and
/// links the requested tags (unknown ids and repeats are ignored). A parent
/// that is missing or of another user is `BadRequest`; an id already in
/// use is an internal failure.
pub fn create_doc_at(
    store: &mut DocStore,
    user_id: &str,
    req: CreateDocRequest,
    id: String,
    now: Timestamp,
) -> (r: Result<DocumentWithTags, ServiceError>)
    requires
        old(store).wf(),
    ensures
        final(store).wf(),
        (final(store)@, outcome(r)) == create_spec(old(store)@, user_id@, req, id@, now),
{
    if !store.check_parent(user_id, &req.parent_id) {
        return Err(ServiceError::BadRequest(msg("Parent not found")));
    }
    if store.locate(id.as_str()).is_some() {
        return Err(ServiceError::InternalServerError);
    }
    let tag_ids = match &req.tags {
        Some(t) => store.resolve_tag_ids(t),
        None => Vec::new(),
    };
    assert(strs_view(tag_ids@) == requested_links(store@, opt_strs(req.tags)));
    let ghost req0 = req;
    let doc = Document {
        id: id,
        title: req.title,
        content: req.content,
        parent_id: req.parent_id,
        owner_id: String::from_str(user_id),
        is_folder: req.is_folder,
        created_at: now,
        updated_at: now,
        deleted_at: None,
    };
    let e = Entry { doc: doc, tag_ids: tag_ids };
    let ghost m0 = store@;
    assert(e@ == created_entry(m0, user_id@, req0, id@, now));
    proof {
        lemma_entries_push(store.entries@, e);
        lemma_distinct_push(m0.entries, e@);
    }
    store.entries.push(e);
    let n = store.entries.len();
    assert(store@.entries[n - 1] == e@);
    Ok(store.read_at(n - 1))
}

/// Adds a document of `user_id` with a fresh id, created now; see
/// `create_doc_at`.
pub fn create_doc(store: &mut DocStore, user_id: &str, req: CreateDocRequest) -> (r: Result<
    DocumentWithTags,
    ServiceError,
>)
    requires
        old(store).wf(),
    ensures
        final(store).wf(),
        exists|id: Seq<char>, now: Timestamp|
            (final(store)@, outcome(r)) == create_spec(old(store)@, user_id@, req, id, now),
{
    let id = crate::runtime::new_id();
    let now = crate::runtime::now_millis();
    create_doc_at(store, user_id, req, id, now)
}

} // verus!

verus! {

/// Following parent links from `from`, at most `fuel` documents on,
/// reaches `target`.
pub open spec fn reaches(es: Seq<EntryModel>, from: Seq<char>, target: Seq<char>, fuel: nat) -> bool
    decreases fuel,
{
    if fuel == 0 {
        false
    } else if from == target {
        true
    } else {
        let j = find(es, from);
        if j < 0 {
            false
        } else {
            match es[j].doc.parent_id {
                None => false,
                Some(q) => reaches(es, q, target, (fuel - 1) as nat),
            }
        }
    }
}

/// Making `parent` the parent of `id` would close a cycle: `parent` is `id`
/// or lies below it. A chain longer than the store holds already repeats a
/// document, so its length bounds the walk.
pub open spec fn makes_cycle(m: StoreModel, id: Seq<char>, parent: Seq<char>) -> bool {
    reaches(m.entries, parent, id, m.entries.len() + 1)
}

/// The time an update records: `now`, or just after the previous one where
/// the clock has not moved past it, so that an update always advances it.
pub open spec fn touch(prev: Timestamp, now: Timestamp) -> Timestamp {
    if now > prev {
        now
    } else if prev < i64::MAX {
        (prev + 1) as i64
    } else {
        prev
    }
}

pub fn touch_time(prev: Timestamp, now: Timestamp) -> (r: Timestamp)
    ensures
        r == touch(prev, now),
{
    if now > prev {
        now
    } else if prev < i64::MAX {
        prev + 1
    } else {
        prev
    }
}

/// What an update makes of a document.
pub open spec fn patched(m: StoreModel, e: EntryModel, req: UpdateDocRequest, now: Timestamp) -> EntryModel {
    EntryModel {
        doc: DocModel {
            title: match req.title {
                Some(t) => t@,
                None => e.doc.title,
            },
            content: match req.content {
                Some(c) => Some(c@),
                None => e.doc.content,
            },
            parent_id: match req.parent_id {
                Some(p) => Some(p@),
                None => e.doc.parent_id,
            },
            updated_at: touch(e.doc.updated_at, now),
            ..e.doc
        },
        tag_ids: match req.tags {
            Some(t) => link_ids(m.tags, strs_view(t@)),
            None => e.tag_ids,
        },
    }
}

/// `update` at time `now`: the new store and the outcome.
pub open spec fn update_spec(
    m: StoreModel,
    owner: Seq<char>,
    id: Seq<char>,
    req: UpdateDocRequest,
    now: Timestamp,
) -> (StoreModel, Result<DocWithTagsModel, Failure>) {
    let i = find(m.entries, id);
    if i < 0 {
        (m, Err(Failure::NotFound))
    } else if m.entries[i].doc.owner_id != owner {
        (m, Err(Failure::Forbidden))
    } else if m.entries[i].doc.deleted_at is Some {
        (m, Err(Failure::NotFound))
    } else if req.parent_id is Some && (!parent_ok(m, owner, opt_view(req.parent_id))
        || makes_cycle(m, id, req.parent_id->Some_0@)) {
        (m, Err(Failure::BadRequest))
    } else {
        let e = patched(m, m.entries[i], req, now);
        let m2 = StoreModel { entries: m.entries.update(i, e), tags: m.tags };
        (m2, Ok(with_tags(m2, e)))
    }
}

impl DocStore {
    pub(crate) fn would_cycle(&self, id: &str, parent: &str) -> (r: bool)
        ensures
            r == makes_cycle(self@, id@, parent@),
    {
        let n = self.entries.len();
        let mut cur = String::from_str(parent);
        let mut fuel: usize = n;
        loop
            invariant
                n == self@.entries.len(),
                fuel <= n,
                makes_cycle(self@, id@, parent@) == reaches(
                    self@.entries,
                    cur@,
                    id@,
                    (fuel + 1) as nat,
                ),
            decreases fuel,
        {
            if str_eq(cur.as_str(), id) {
                return true;
            }
            match self.locate(cur.as_str()) {
                None => {
                    return false;
                },
                Some(j) => {
                    assert(self@.entries[j as int] == self.entries@[j as int]@);
                    match &self.entries[j].doc.parent_id {
                        None => {
                            return false;
                        },
                        Some(q) => {
                            cur = q.clone();
                            assert(makes_cycle(self@, id@, parent@) == reaches(
                                self@.entries,
                                cur@,
                                id@,
                                fuel as nat,
                            ));
                        },
                    }
                },
            }
            if fuel == 0 {
                return false;
            }
            fuel = fuel - 1;
        }
    }
}

/// Applies a sparse patch to a document of `user_id` at time `now`: only
/// the fields present change, and `tags`, when present, replaces the set of
/// its tags. The update time always advances (see `touch`). A document
/// that does not exist is `NotFound`, one of another user `Forbidden` (in
/// the trash or not), one of `user_id` in the trash `NotFound`; a new parent that is missing, of another user, or
/// would close a cycle is `BadRequest`.
pub fn update_doc_at(
    store: &mut DocStore,
    user_id: &str,
    doc_id: &str,
    req: UpdateDocRequest,
    now: Timestamp,
) -> (r: Result<DocumentWithTags, ServiceError>)
    requires
        old(store).wf(),
    ensures
        final(store).wf(),
        (final(store)@, outcome(r)) == update_spec(old(store)@, user_id@, doc_id@, req, now),
{
    let i = match store.locate(doc_id) {
        None => {
            return Err(ServiceError::NotFound(msg("Document not found")));
        },
        Some(i) => i,
    };
    assert(store@.entries[i as int] == store.entries@[i as int]@);
    if !str_eq(store.entries[i].doc.owner_id.as_str(), user_id) {
        return Err(ServiceError::Forbidden(msg("Permission denied")));
    }
    if store.entries[i].doc.deleted_at.is_some() {
        return Err(ServiceError::NotFound(msg("Document not found")));
    }
    if let Some(p) = &req.parent_id {
        if !store.check_parent(user_id, &req.parent_id) || store.would_cycle(doc_id, p.as_str()) {
            return Err(ServiceError::BadRequest(msg("Invalid parent")));
        }
    }
    let ghost m0 = store@;
    let ghost req0 = req;
    let tag_ids = match &req.tags {
        Some(t) => store.resolve_tag_ids(t),
        None => clone_strs(&store.entries[i].tag_ids),
    };
    let old_doc = &store.entries[i].doc;
    let doc = Document {
        id: old_doc.id.clone(),
        title: match req.title {
            Some(t) => t,
            None => old_doc.title.clone(),
        },
        content: match req.content {
            Some(c) => Some(c),
            None => clone_opt(&old_doc.content),
        },
        parent_id: match req.parent_id {
            Some(p) => Some(p),
            None => clone_opt(&old_doc.parent_id),
        },
        owner_id: old_doc.owner_id.clone(),
        is_folder: old_doc.is_folder,
        created_at: old_doc.created_at,
        updated_at: touch_time(old_doc.updated_at, now),
        deleted_at: old_doc.deleted_at,
    };
    let e = Entry { doc: doc, tag_ids: tag_ids };
    assert(e@ == patched(m0, m0.entries[i as int], req0, now));
    proof {
        lemma_entries_update(store.entries@, i as int, e);
        lemma_distinct_update(m0.entries, i as int, e@);
    }
    store.entries.set(i, e);
    Ok(store.read_at(i))
}

/// Applies a sparse patch at the current time; see `update_doc_at`.
pub fn update_doc(store: &mut DocStore, user_id: &str, doc_id: &str, req: UpdateDocRequest) -> (r:
    Result<DocumentWithTags, ServiceError>)
    requires
        old(store).wf(),
    ensures
        final(store).wf(),
        exists|now: Timestamp|
            (final(store)@, outcome(r)) == update_spec(old(store)@, user_id@, doc_id@, req, now),
{
    let now = crate::runtime::now_millis();
    update_doc_at(store, user_id, doc_id, req, now)
}

} // verus!

verus! {

/// `soft_delete` at time `now`: a document in the trash stays as it is.
pub open spec fn delete_spec(m: StoreModel, owner: Seq<char>, id: Seq<char>, now: Timestamp) -> (
    StoreModel,
    Result<(), Failure>,
) {
    match owned_check(m, owner, id) {
        Err(f) => (m, Err(f)),
        Ok(i) => if m.entries[i].doc.deleted_at is Some {
            (m, Ok(()))
        } else {
            (with_deleted(m, i, Some(now)), Ok(()))
        },
    }
}

/// Moves a document of `user_id` to the trash at time `now`. A document
/// already there keeps the time it was trashed at, and this is no error.
pub fn delete_doc_at(store: &mut DocStore, user_id: &str, doc_id: &str, now: Timestamp) -> (r:
    Result<(), ServiceError>)
    requires
        old(store).wf(),
    ensures
        final(store).wf(),
        (final(store)@, status(r)) == delete_spec(old(store)@, user_id@, doc_id@, now),
{
    let i = match store.locate_owned(user_id, doc_id) {
        Err(e) => {
            return Err(e);
        },
        Ok(i) => i,
    };
    assert(store@.entries[i as int] == store.entries@[i as int]@);
    if store.entries[i].doc.deleted_at.is_none() {
        store.set_deleted(i, Some(now));
    }
    Ok(())
}

/// Moves a document of `user_id` to the trash now; see `delete_doc_at`.
pub fn delete_doc(store: &mut DocStore, user_id: &str, doc_id: &str) -> (r: Result<
    (),
    ServiceError,
>)
    requires
        old(store).wf(),
    ensures
        final(store).wf(),
        exists|now: Timestamp|
            (final(store)@, status(r)) == delete_spec(old(store)@, user_id@, doc_id@, now),
{
    let now = crate::runtime::now_millis();
    delete_doc_at(store, user_id, doc_id, now)
}

} // verus!
