use vstd::prelude::*;
use crate::models::{
    lemma_strs_push, lemma_tags_push, strs_view, tags_view, DocModel, DocWithTagsModel, Document,
    DocumentWithTags, Tag, TagModel, Timestamp,
};
use crate::order::sorted_by;
use crate::text::{lex_le, str_eq};

verus! {

/// What the store holds of one document: the row and the ids of its tags.
pub struct EntryModel {
    pub doc: DocModel,
    pub tag_ids: Seq<Seq<char>>,
}

/// What the store holds, as the contracts see it: its documents in order of
/// creation, and its tags ordered by name.
pub struct StoreModel {
    pub entries: Seq<EntryModel>,
    pub tags: Seq<TagModel>,
}

/// The kinds of failure, as the contracts see them.
pub enum Failure {
    Internal,
    BadRequest,
    Unauthorized,
    Forbidden,
    NotFound,
    Conflict,
}

pub open spec fn failure_of(e: crate::errors::ServiceError) -> Failure {
    match e {
        crate::errors::ServiceError::InternalServerError => Failure::Internal,
        crate::errors::ServiceError::BadRequest(_) => Failure::BadRequest,
        crate::errors::ServiceError::Unauthorized(_) => Failure::Unauthorized,
        crate::errors::ServiceError::Forbidden(_) => Failure::Forbidden,
        crate::errors::ServiceError::NotFound(_) => Failure::NotFound,
        crate::errors::ServiceError::Conflict(_) => Failure::Conflict,
    }
}

/// A result as the contracts see it: the view of the value, or the kind of
/// failure.
pub open spec fn outcome<T: View>(r: Result<T, crate::errors::ServiceError>) -> Result<T::V, Failure> {
    match r {
        Ok(v) => Ok(v@),
        Err(e) => Err(failure_of(e)),
    }
}

/// One document of the store, with the ids of its tags.
pub struct Entry {
    pub doc: Document,
    pub tag_ids: Vec<String>,
}

impl View for Entry {
    type V = EntryModel;

    open spec fn view(&self) -> EntryModel {
        EntryModel { doc: self.doc@, tag_ids: strs_view(self.tag_ids@) }
    }
}

/// The document repository: documents, their tag links, and the tags.
pub struct DocStore {
    pub entries: Vec<Entry>,
    pub tags: Vec<Tag>,
}

pub open spec fn entries_view(v: Seq<Entry>) -> Seq<EntryModel> {
    v.map_values(|e: Entry| e@)
}

impl View for DocStore {
    type V = StoreModel;

    open spec fn view(&self) -> StoreModel {
        StoreModel { entries: entries_view(self.entries@), tags: tags_view(self.tags@) }
    }
}

/// No two documents share an id.
pub open spec fn ids_distinct(es: Seq<EntryModel>) -> bool {
    forall|i: int, j: int|
        0 <= i < es.len() && 0 <= j < es.len() && i != j ==> #[trigger] es[i].doc.id
            != #[trigger] es[j].doc.id
}

/// Tags are kept in order of name.
pub open spec fn tag_le(a: TagModel, b: TagModel) -> bool {
    lex_le(a.name, b.name)
}

pub open spec fn tag_order() -> spec_fn(TagModel, TagModel) -> bool {
    |a: TagModel, b: TagModel| tag_le(a, b)
}

/// No two tags share an id.
pub open spec fn tag_ids_distinct(tags: Seq<TagModel>) -> bool {
    forall|i: int, j: int|
        0 <= i < tags.len() && 0 <= j < tags.len() && i != j ==> #[trigger] tags[i].id
            != #[trigger] tags[j].id
}

/// No two tags share a name.
pub open spec fn tag_names_distinct(tags: Seq<TagModel>) -> bool {
    forall|i: int, j: int|
        0 <= i < tags.len() && 0 <= j < tags.len() && i != j ==> #[trigger] tags[i].name
            != #[trigger] tags[j].name
}

impl StoreModel {
    /// Documents have distinct ids; tags have distinct ids and distinct
    /// names, and are ordered by name.
    pub open spec fn wf(self) -> bool {
        &&& ids_distinct(self.entries)
        &&& tag_ids_distinct(self.tags)
        &&& tag_names_distinct(self.tags)
        &&& sorted_by(self.tags, tag_order())
    }
}

impl DocStore {
    pub open spec fn wf(&self) -> bool {
        self@.wf()
    }

    /// An empty store.
    pub fn new() -> (r: DocStore)
        ensures
            r.wf(),
            r@.entries.len() == 0,
            r@.tags.len() == 0,
    {
        let r = DocStore { entries: Vec::new(), tags: Vec::new() };
        assert(r@.entries =~= Seq::<EntryModel>::empty());
        assert(r@.tags =~= Seq::<TagModel>::empty());
        r
    }
}

/// The position of the first document with id `id`, from position `i` on,
/// or -1 where there is none.
pub open spec fn find_from(es: Seq<EntryModel>, id: Seq<char>, i: int) -> int
    decreases es.len() - i,
{
    if i < 0 || i >= es.len() {
        -1
    } else if es[i].doc.id == id {
        i
    } else {
        find_from(es, id, i + 1)
    }
}

/// The position of the document with id `id`, or -1 where there is none.
pub open spec fn find(es: Seq<EntryModel>, id: Seq<char>) -> int {
    find_from(es, id, 0)
}

pub proof fn lemma_find_from(es: Seq<EntryModel>, id: Seq<char>, i: int)
    requires
        0 <= i,
    ensures
        find_from(es, id, i) == -1 || (i <= find_from(es, id, i) < es.len() && es[find_from(
            es,
            id,
            i,
        )].doc.id == id),
        find_from(es, id, i) == -1 ==> forall|k: int| i <= k < es.len() ==> es[k].doc.id != id,
        find_from(es, id, i) != -1 ==> forall|k: int|
            i <= k < find_from(es, id, i) ==> es[k].doc.id != id,
    decreases es.len() - i,
{
    if i < es.len() && es[i].doc.id != id {
        lemma_find_from(es, id, i + 1);
    }
}

/// `find` gives the one position that holds `id`, or -1 where none does.
pub proof fn lemma_find(es: Seq<EntryModel>, id: Seq<char>)
    ensures
        find(es, id) == -1 || (0 <= find(es, id) < es.len() && es[find(es, id)].doc.id == id),
        find(es, id) == -1 <==> forall|k: int| 0 <= k < es.len() ==> es[k].doc.id != id,
        ids_distinct(es) ==> forall|k: int|
            0 <= k < es.len() && es[k].doc.id == id ==> find(es, id) == k,
{
    lemma_find_from(es, id, 0);
}

impl DocStore {
    /// The position of the document with id `id`, if any.
    pub(crate) fn locate(&self, id: &str) -> (r: Option<usize>)
        ensures
            match r {
                Some(i) => i == find(self@.entries, id@) && i < self.entries.len(),
                None => find(self@.entries, id@) == -1,
            },
    {
        let mut i: usize = 0;
        while i < self.entries.len()
            invariant
                i <= self.entries.len(),
                find(self@.entries, id@) == find_from(self@.entries, id@, i as int),
            decreases self.entries.len() - i,
        {
            assert(self@.entries[i as int] == self.entries@[i as int]@);
            if str_eq(self.entries[i].doc.id.as_str(), id) {
                return Some(i);
            }
            i = i + 1;
        }
        None
    }
}

} // verus!

verus! {

/// The tags of `tags`, in their order, whose ids are among `ids`.
pub open spec fn linked_tags(tags: Seq<TagModel>, ids: Seq<Seq<char>>) -> Seq<TagModel>
    decreases tags.len(),
{
    if tags.len() == 0 {
        Seq::empty()
    } else {
        let p = linked_tags(tags.drop_last(), ids);
        if ids.contains(tags.last().id) {
            p.push(tags.last())
        } else {
            p
        }
    }
}

/// A document as read: the row with its tags.
pub open spec fn with_tags(m: StoreModel, e: EntryModel) -> DocWithTagsModel {
    DocWithTagsModel { document: e.doc, tags: linked_tags(m.tags, e.tag_ids) }
}

pub open spec fn known_tag(tags: Seq<TagModel>, id: Seq<char>) -> bool {
    exists|k: int| 0 <= k < tags.len() && #[trigger] tags[k].id == id
}

/// The tag ids that a request links: each id of `req` that names a tag,
/// once, in the order of its first mention. Unknown ids are ignored.
pub open spec fn link_ids(tags: Seq<TagModel>, req: Seq<Seq<char>>) -> Seq<Seq<char>>
    decreases req.len(),
{
    if req.len() == 0 {
        Seq::empty()
    } else {
        let p = link_ids(tags, req.drop_last());
        let x = req.last();
        if known_tag(tags, x) && !p.contains(x) {
            p.push(x)
        } else {
            p
        }
    }
}

/// Whether `v` holds `s`.
pub fn contains_str(v: &Vec<String>, s: &str) -> (r: bool)
    ensures
        r == strs_view(v@).contains(s@),
{
    let mut i: usize = 0;
    while i < v.len()
        invariant
            i <= v.len(),
            forall|k: int| 0 <= k < i ==> strs_view(v@)[k] != s@,
        decreases v.len() - i,
    {
        if str_eq(v[i].as_str(), s) {
            assert(strs_view(v@)[i as int] == s@);
            return true;
        }
        i = i + 1;
    }
    false
}

impl DocStore {
    pub(crate) fn tag_known(&self, id: &str) -> (r: bool)
        ensures
            r == known_tag(self@.tags, id@),
    {
        let mut i: usize = 0;
        while i < self.tags.len()
            invariant
                i <= self.tags.len(),
                forall|k: int| 0 <= k < i ==> self@.tags[k].id != id@,
            decreases self.tags.len() - i,
        {
            assert(self@.tags[i as int] == self.tags@[i as int]@);
            if str_eq(self.tags[i].id.as_str(), id) {
                assert(self@.tags[i as int].id == id@);
                return true;
            }
            i = i + 1;
        }
        false
    }

    /// The ids that `req` links, as `link_ids` states them.
    pub(crate) fn resolve_tag_ids(&self, req: &Vec<String>) -> (r: Vec<String>)
        ensures
            strs_view(r@) == link_ids(self@.tags, strs_view(req@)),
    {
        let mut r: Vec<String> = Vec::new();
        let mut i: usize = 0;
        while i < req.len()
            invariant
                i <= req.len(),
                strs_view(r@) == link_ids(self@.tags, strs_view(req@).take(i as int)),
            decreases req.len() - i,
        {
            assert(strs_view(req@).take(i + 1).drop_last() =~= strs_view(req@).take(i as int));
            let known = self.tag_known(req[i].as_str());
            if known && !contains_str(&r, req[i].as_str()) {
                let s = req[i].clone();
                proof {
                    lemma_strs_push(r@, s);
                }
                r.push(s);
            }
            i = i + 1;
        }
        assert(strs_view(req@).take(req.len() as int) =~= strs_view(req@));
        r
    }

    /// The store's tags whose ids are among `ids`, in the store's order.
    pub(crate) fn tags_for(&self, ids: &Vec<String>) -> (r: Vec<Tag>)
        ensures
            tags_view(r@) == linked_tags(self@.tags, strs_view(ids@)),
    {
        let mut r: Vec<Tag> = Vec::new();
        let mut i: usize = 0;
        while i < self.tags.len()
            invariant
                i <= self.tags.len(),
                tags_view(r@) == linked_tags(self@.tags.take(i as int), strs_view(ids@)),
            decreases self.tags.len() - i,
        {
            assert(self@.tags.take(i + 1).drop_last() =~= self@.tags.take(i as int));
            assert(self@.tags[i as int] == self.tags@[i as int]@);
            if contains_str(ids, self.tags[i].id.as_str()) {
                let t = self.tags[i].copy();
                proof {
                    lemma_tags_push(r@, t);
                }
                r.push(t);
            }
            i = i + 1;
        }
        assert(self@.tags.take(self.tags.len() as int) =~= self@.tags);
        r
    }

    /// The document at position `i`, read with its tags.
    pub(crate) fn read_at(&self, i: usize) -> (r: DocumentWithTags)
        requires
            i < self.entries.len(),
        ensures
            r@ == with_tags(self@, self@.entries[i as int]),
    {
        assert(self@.entries[i as int] == self.entries@[i as int]@);
        DocumentWithTags {
            document: self.entries[i].doc.copy(),
            tags: self.tags_for(&self.entries[i].tag_ids),
        }
    }
}

} // verus!

verus! {

pub proof fn lemma_entries_push(s: Seq<Entry>, x: Entry)
    ensures
        entries_view(s.push(x)) == entries_view(s).push(x@),
{
    assert(entries_view(s.push(x)) =~= entries_view(s).push(x@));
}

pub proof fn lemma_entries_update(s: Seq<Entry>, i: int, x: Entry)
    requires
        0 <= i < s.len(),
    ensures
        entries_view(s.update(i, x)) == entries_view(s).update(i, x@),
{
    assert(entries_view(s.update(i, x)) =~= entries_view(s).update(i, x@));
}

pub proof fn lemma_entries_remove(s: Seq<Entry>, i: int)
    requires
        0 <= i < s.len(),
    ensures
        entries_view(s.remove(i)) == entries_view(s).remove(i),
{
    assert(entries_view(s.remove(i)) =~= entries_view(s).remove(i));
}

/// Replacing a document by one with the same id keeps ids distinct.
pub proof fn lemma_distinct_update(es: Seq<EntryModel>, i: int, e: EntryModel)
    requires
        ids_distinct(es),
        0 <= i < es.len(),
        e.doc.id == es[i].doc.id,
    ensures
        ids_distinct(es.update(i, e)),
{
    let t = es.update(i, e);
    assert forall|a: int, b: int|
        0 <= a < t.len() && 0 <= b < t.len() && a != b implies #[trigger] t[a].doc.id
        != #[trigger] t[b].doc.id by {
        assert(t[a].doc.id == es[a].doc.id);
        assert(t[b].doc.id == es[b].doc.id);
    }
}

/// Adding a document with a fresh id keeps ids distinct.
pub proof fn lemma_distinct_push(es: Seq<EntryModel>, e: EntryModel)
    requires
        ids_distinct(es),
        find(es, e.doc.id) == -1,
    ensures
        ids_distinct(es.push(e)),
{
    lemma_find(es, e.doc.id);
    let t = es.push(e);
    assert forall|a: int, b: int|
        0 <= a < t.len() && 0 <= b < t.len() && a != b implies #[trigger] t[a].doc.id
        != #[trigger] t[b].doc.id by {
        if a < es.len() && b < es.len() {
            assert(t[a] == es[a] && t[b] == es[b]);
        } else if a < es.len() {
            assert(t[a] == es[a]);
        } else {
            assert(t[b] == es[b]);
        }
    }
}

/// Removing a document keeps ids distinct, and no document keeps its id.
pub proof fn lemma_distinct_remove(es: Seq<EntryModel>, i: int)
    requires
        ids_distinct(es),
        0 <= i < es.len(),
    ensures
        ids_distinct(es.remove(i)),
        find(es.remove(i), es[i].doc.id) == -1,
{
    let t = es.remove(i);
    assert forall|a: int, b: int|
        0 <= a < t.len() && 0 <= b < t.len() && a != b implies #[trigger] t[a].doc.id
        != #[trigger] t[b].doc.id by {
        let a2 = if a < i { a } else { a + 1 };
        let b2 = if b < i { b } else { b + 1 };
        assert(t[a] == es[a2] && t[b] == es[b2]);
    }
    assert forall|k: int| 0 <= k < t.len() implies t[k].doc.id != es[i].doc.id by {
        let k2 = if k < i { k } else { k + 1 };
        assert(t[k] == es[k2]);
    }
    lemma_find(t, es[i].doc.id);
}

} // verus!

verus! {

pub open spec fn status(r: Result<(), crate::errors::ServiceError>) -> Result<(), Failure> {
    match r {
        Ok(_) => Ok(()),
        Err(e) => Err(failure_of(e)),
    }
}

/// The outcome of an operation on one document that its owner may apply
/// to a document in the trash too: `NotFound` where no document has the
/// id, `Forbidden` where it is of another user.
pub open spec fn owned_check(m: StoreModel, owner: Seq<char>, id: Seq<char>) -> Result<int, Failure> {
    let i = find(m.entries, id);
    if i < 0 {
        Err(Failure::NotFound)
    } else if m.entries[i].doc.owner_id != owner {
        Err(Failure::Forbidden)
    } else {
        Ok(i)
    }
}

/// The document at `i` with `deleted_at` set to `d`.
pub open spec fn with_deleted(m: StoreModel, i: int, d: Option<Timestamp>) -> StoreModel {
    StoreModel {
        entries: m.entries.update(
            i,
            EntryModel { doc: DocModel { deleted_at: d, ..m.entries[i].doc }, ..m.entries[i] },
        ),
        tags: m.tags,
    }
}

impl DocStore {
    /// Finds the document `doc_id` of `user_id`, in the trash or not.
    pub(crate) fn locate_owned(&self, user_id: &str, doc_id: &str) -> (r: Result<
        usize,
        crate::errors::ServiceError,
    >)
        ensures
            match r {
                Ok(i) => owned_check(self@, user_id@, doc_id@) == Ok::<int, Failure>(i as int)
                    && i < self.entries.len(),
                Err(e) => owned_check(self@, user_id@, doc_id@) == Err::<int, Failure>(
                    failure_of(e),
                ),
            },
    {
        match self.locate(doc_id) {
            None => Err(crate::errors::ServiceError::NotFound(crate::errors::msg("Document not found"))),
            Some(i) => {
                assert(self@.entries[i as int] == self.entries@[i as int]@);
                if str_eq(self.entries[i].doc.owner_id.as_str(), user_id) {
                    Ok(i)
                } else {
                    Err(crate::errors::ServiceError::Forbidden(crate::errors::msg("Permission denied")))
                }
            },
        }
    }

    /// Sets `deleted_at` of the document at `i`.
    pub(crate) fn set_deleted(&mut self, i: usize, d: Option<Timestamp>)
        requires
            old(self).wf(),
            i < old(self).entries.len(),
        ensures
            final(self).wf(),
            final(self)@ == with_deleted(old(self)@, i as int, d),
            final(self).entries.len() == old(self).entries.len(),
    {
        let ghost m0 = self@;
        assert(m0.entries[i as int] == self.entries@[i as int]@);
        let old_doc = &self.entries[i].doc;
        let doc = Document {
            id: old_doc.id.clone(),
            title: old_doc.title.clone(),
            content: crate::models::clone_opt(&old_doc.content),
            parent_id: crate::models::clone_opt(&old_doc.parent_id),
            owner_id: old_doc.owner_id.clone(),
            is_folder: old_doc.is_folder,
            created_at: old_doc.created_at,
            updated_at: old_doc.updated_at,
            deleted_at: d,
        };
        let e = Entry { doc: doc, tag_ids: crate::models::clone_strs(&self.entries[i].tag_ids) };
        assert(e@ == with_deleted(m0, i as int, d).entries[i as int]);
        proof {
            lemma_entries_update(self.entries@, i as int, e);
            lemma_distinct_update(m0.entries, i as int, e@);
        }
        self.entries.set(i, e);
        assert(self@.entries =~= with_deleted(m0, i as int, d).entries);
    }
}

} // verus!
