use vstd::prelude::*;
use crate::errors::{msg, ServiceError};
use crate::models::{lemma_tags_insert, tags_view, CreateTagRequest, Tag, TagModel, Timestamp};
use crate::order::{insert_by, lemma_insert_by, lemma_insert_by_sorted, total};
use crate::store::{known_tag, outcome, tag_le, tag_order, DocStore, Failure, StoreModel};
use crate::text::{lemma_lex_total, str_eq, str_le};

verus! {

pub open spec fn name_taken(tags: Seq<TagModel>, name: Seq<char>) -> bool {
    exists|k: int| 0 <= k < tags.len() && #[trigger] tags[k].name == name
}

/// `create` of a tag with the id `id` at time `now`: a name or an id that is
/// already in use is a `Conflict`.
pub open spec fn create_tag_spec(m: StoreModel, name: Seq<char>, id: Seq<char>, now: Timestamp) -> (
    StoreModel,
    Result<TagModel, Failure>,
) {
    if name_taken(m.tags, name) || known_tag(m.tags, id) {
        (m, Err(Failure::Conflict))
    } else {
        let t = TagModel { id: id, name: name, created_at: now };
        (StoreModel { entries: m.entries, tags: insert_by(m.tags, t, tag_order()) }, Ok(t))
    }
}

/// All tags, ordered by name.
pub fn list_tags(store: &DocStore) -> (r: Vec<Tag>)
    requires
        store.wf(),
    ensures
        tags_view(r@) == store@.tags,
        forall|k: int| 0 <= k < r.len() - 1 ==> tag_le(#[trigger] tags_view(r@)[k], tags_view(r@)[k + 1]),
{
    let mut r: Vec<Tag> = Vec::new();
    let mut i: usize = 0;
    while i < store.tags.len()
        invariant
            i <= store.tags.len(),
            r.len() == i,
            forall|k: int| 0 <= k < i ==> #[trigger] r@[k]@ == store.tags@[k]@,
        decreases store.tags.len() - i,
    {
        r.push(store.tags[i].copy());
        i = i + 1;
    }
    assert(tags_view(r@) =~= store@.tags);
    assert forall|k: int| 0 <= k < r.len() - 1 implies tag_le(#[trigger] tags_view(r@)[k], tags_view(r@)[k + 1]) by {
        assert(tag_order()(store@.tags[k], store@.tags[k + 1]));
    }
    r
}

impl DocStore {
    pub(crate) fn name_in_use(&self, name: &str) -> (r: bool)
        ensures
            r == name_taken(self@.tags, name@),
    {
        let mut i: usize = 0;
        while i < self.tags.len()
            invariant
                i <= self.tags.len(),
                forall|k: int| 0 <= k < i ==> self@.tags[k].name != name@,
            decreases self.tags.len() - i,
        {
            assert(self@.tags[i as int] == self.tags@[i as int]@);
            if str_eq(self.tags[i].name.as_str(), name) {
                assert(self@.tags[i as int].name == name@);
                return true;
            }
            i = i + 1;
        }
        false
    }
}

/// Adds a tag named as `req` asks, with the id `id`, created at `now`.
pub fn create_tag_at(store: &mut DocStore, req: CreateTagRequest, id: String, now: Timestamp) -> (r:
    Result<Tag, ServiceError>)
    requires
        old(store).wf(),
    ensures
        final(store).wf(),
        (final(store)@, outcome(r)) == create_tag_spec(old(store)@, req.name@, id@, now),
{
    if store.name_in_use(req.name.as_str()) || store.tag_known(id.as_str()) {
        return Err(ServiceError::Conflict(msg("Tag already exists")));
    }
    let t = Tag { id: id, name: req.name, created_at: now };
    let mut pos: usize = 0;
    while pos < store.tags.len() && str_le(store.tags[pos].name.as_str(), t.name.as_str())
        invariant
            pos <= store.tags.len(),
            forall|k: int| 0 <= k < pos ==> tag_le(#[trigger] store@.tags[k], t@),
        decreases store.tags.len() - pos,
    {
        assert(store@.tags[pos as int] == store.tags@[pos as int]@);
        pos = pos + 1;
    }
    proof {
        if pos < store.tags.len() {
            assert(store@.tags[pos as int] == store.tags@[pos as int]@);
        }
        lemma_insert_by(store@.tags, t@, tag_order(), pos as int);
        lemma_tags_insert(store.tags@, pos as int, t);
        assert forall|a: TagModel, b: TagModel| #[trigger] tag_order()(a, b) || tag_order()(b, a) by {
            lemma_lex_total(a.name, b.name);
        }
        lemma_insert_by_sorted(store@.tags, t@, tag_order());
        let ts = store@.tags;
        let u = ts.insert(pos as int, t@);
        assert forall|i: int, j: int|
            0 <= i < u.len() && 0 <= j < u.len() && i != j implies #[trigger] u[i].id
            != #[trigger] u[j].id && u[i].name != u[j].name by {
            if i != pos && j != pos {
                let i2 = if i < pos { i } else { i - 1 };
                let j2 = if j < pos { j } else { j - 1 };
                assert(u[i] == ts[i2] && u[j] == ts[j2]);
            } else if i == pos {
                let j2 = if j < pos { j } else { j - 1 };
                assert(u[j] == ts[j2]);
            } else {
                let i2 = if i < pos { i } else { i - 1 };
                assert(u[i] == ts[i2]);
            }
        }
    }
    let r = t.copy();
    store.tags.insert(pos, t);
    Ok(r)
}

/// Adds a tag with a fresh id, created now; see `create_tag_at`.
pub fn create_tag(store: &mut DocStore, req: CreateTagRequest) -> (r: Result<Tag, ServiceError>)
    requires
        old(store).wf(),
    ensures
        final(store).wf(),
        exists|id: Seq<char>, now: Timestamp|
            (final(store)@, outcome(r)) == create_tag_spec(old(store)@, req.name@, id, now),
{
    let id = crate::runtime::new_id();
    let now = crate::runtime::now_millis();
    create_tag_at(store, req, id, now)
}

} // verus!
