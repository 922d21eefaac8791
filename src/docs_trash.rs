use vstd::prelude::*;
use crate::errors::ServiceError;
use crate::models::{dwts_view, lemma_dwts_insert, DocWithTagsModel, DocumentWithTags};
use crate::order::{insert_by, lemma_insert_by};
use crate::store::{
    lemma_distinct_remove, lemma_entries_remove, owned_check, status, with_deleted, with_tags,
    DocStore, EntryModel, Failure, StoreModel,
};
use crate::text::str_eq;

verus! {

/// The order of the trash: the most recently trashed first.
pub open spec fn trash_le(a: DocWithTagsModel, b: DocWithTagsModel) -> bool {
    a.document.deleted_at.unwrap_or(0) >= b.document.deleted_at.unwrap_or(0)
}

pub open spec fn trash_order() -> spec_fn(DocWithTagsModel, DocWithTagsModel) -> bool {
    |a: DocWithTagsModel, b: DocWithTagsModel| trash_le(a, b)
}

/// A document of `owner` that is in the trash.
pub open spec fn trashed(owner: Seq<char>, e: EntryModel) -> bool {
    e.doc.owner_id == owner && e.doc.deleted_at is Some
}

/// The trashed documents of `es`, ordered by `trash_le`; equal times keep
/// the order of creation.
pub open spec fn trash_of(m: StoreModel, es: Seq<EntryModel>, owner: Seq<char>) -> Seq<
    DocWithTagsModel,
>
    decreases es.len(),
{
    if es.len() == 0 {
        Seq::empty()
    } else {
        let p = trash_of(m, es.drop_last(), owner);
        if trashed(owner, es.last()) {
            insert_by(p, with_tags(m, es.last()), trash_order())
        } else {
            p
        }
    }
}

/// The trash of `owner`.
pub open spec fn trash_spec(m: StoreModel, owner: Seq<char>) -> Seq<DocWithTagsModel> {
    trash_of(m, m.entries, owner)
}

pub fn trash_before(a: &DocumentWithTags, b: &DocumentWithTags) -> (r: bool)
    ensures
        r == trash_le(a@, b@),
{
    let x = match a.document.deleted_at {
        Some(t) => t,
        None => 0,
    };
    let y = match b.document.deleted_at {
        Some(t) => t,
        None => 0,
    };
    x >= y
}

/// Inserts `x` into `v` as `insert_by` does under `trash_order`.
pub fn insert_trashed(v: &mut Vec<DocumentWithTags>, x: DocumentWithTags)
    ensures
        dwts_view(final(v)@) == insert_by(dwts_view(old(v)@), x@, trash_order()),
{
    let mut pos: usize = 0;
    while pos < v.len() && trash_before(&v[pos], &x)
        invariant
            pos <= v.len(),
            forall|k: int| 0 <= k < pos ==> trash_le(#[trigger] dwts_view(v@)[k], x@),
        decreases v.len() - pos,
    {
        pos = pos + 1;
    }
    proof {
        lemma_insert_by(dwts_view(v@), x@, trash_order(), pos as int);
        lemma_dwts_insert(v@, pos as int, x);
    }
    v.insert(pos, x);
}

/// The documents of `user_id` in the trash, the most recently trashed
/// first, each with its tags.
pub fn get_trash(store: &DocStore, user_id: &str) -> (r: Vec<DocumentWithTags>)
    ensures
        dwts_view(r@) == trash_spec(store@, user_id@),
{
    let mut r: Vec<DocumentWithTags> = Vec::new();
    let mut i: usize = 0;
    while i < store.entries.len()
        invariant
            i <= store.entries.len(),
            dwts_view(r@) == trash_of(store@, store@.entries.take(i as int), user_id@),
        decreases store.entries.len() - i,
    {
        assert(store@.entries.take(i + 1).drop_last() =~= store@.entries.take(i as int));
        assert(store@.entries[i as int] == store.entries@[i as int]@);
        let e = &store.entries[i];
        if str_eq(e.doc.owner_id.as_str(), user_id) && e.doc.deleted_at.is_some() {
            let d = store.read_at(i);
            insert_trashed(&mut r, d);
        }
        i = i + 1;
    }
    assert(store@.entries.take(store.entries.len() as int) =~= store@.entries);
    r
}

/// `restore`: the document leaves the trash; one that is not in it stays
/// as it is.
pub open spec fn restore_spec(m: StoreModel, owner: Seq<char>, id: Seq<char>) -> (
    StoreModel,
    Result<(), Failure>,
) {
    match owned_check(m, owner, id) {
        Err(f) => (m, Err(f)),
        Ok(i) => (with_deleted(m, i, None), Ok(())),
    }
}

/// Takes a document of `user_id` out of the trash.
pub fn restore_doc(store: &mut DocStore, user_id: &str, doc_id: &str) -> (r: Result<
    (),
    ServiceError,
>)
    requires
        old(store).wf(),
    ensures
        final(store).wf(),
        (final(store)@, status(r)) == restore_spec(old(store)@, user_id@, doc_id@),
{
    let i = match store.locate_owned(user_id, doc_id) {
        Err(e) => {
            return Err(e);
        },
        Ok(i) => i,
    };
    store.set_deleted(i, None);
    Ok(())
}

/// `hard_delete`: the document and its tag links are gone for good.
/// Documents below it keep their parent reference, which then names no
/// document.
pub open spec fn purge_spec(m: StoreModel, owner: Seq<char>, id: Seq<char>) -> (
    StoreModel,
    Result<(), Failure>,
) {
    match owned_check(m, owner, id) {
        Err(f) => (m, Err(f)),
        Ok(i) => (StoreModel { entries: m.entries.remove(i), tags: m.tags }, Ok(())),
    }
}

/// Deletes a document of `user_id` for good, in the trash or not.
pub fn delete_doc_permanent(store: &mut DocStore, user_id: &str, doc_id: &str) -> (r: Result<
    (),
    ServiceError,
>)
    requires
        old(store).wf(),
    ensures
        final(store).wf(),
        (final(store)@, status(r)) == purge_spec(old(store)@, user_id@, doc_id@),
{
    let i = match store.locate_owned(user_id, doc_id) {
        Err(e) => {
            return Err(e);
        },
        Ok(i) => i,
    };
    let ghost m0 = store@;
    proof {
        lemma_entries_remove(store.entries@, i as int);
        lemma_distinct_remove(m0.entries, i as int);
    }
    store.entries.remove(i);
    Ok(())
}

} // verus!
