use vstd::prelude::*;

verus! {

/// A timestamp, in milliseconds since the Unix epoch (UTC).
pub type Timestamp = i64;

pub open spec fn opt_view(o: Option<String>) -> Option<Seq<char>> {
    match o {
        Some(s) => Some(s@),
        None => None,
    }
}

pub open spec fn strs_view(v: Seq<String>) -> Seq<Seq<char>> {
    v.map_values(|s: String| s@)
}

/// What a document is, as the contracts see it.
pub struct DocModel {
    pub id: Seq<char>,
    pub title: Seq<char>,
    pub content: Option<Seq<char>>,
    pub parent_id: Option<Seq<char>>,
    pub owner_id: Seq<char>,
    pub is_folder: bool,
    pub created_at: Timestamp,
    pub updated_at: Timestamp,
    pub deleted_at: Option<Timestamp>,
}

/// A document or a folder. `deleted_at` is set while it is in the trash.
#[derive(Debug)]
pub struct Document {
    pub id: String,
    pub title: String,
    pub content: Option<String>,
    pub parent_id: Option<String>,
    pub owner_id: String,
    pub is_folder: bool,
    pub created_at: Timestamp,
    pub updated_at: Timestamp,
    pub deleted_at: Option<Timestamp>,
}

impl View for Document {
    type V = DocModel;

    open spec fn view(&self) -> DocModel {
        DocModel {
            id: self.id@,
            title: self.title@,
            content: opt_view(self.content),
            parent_id: opt_view(self.parent_id),
            owner_id: self.owner_id@,
            is_folder: self.is_folder,
            created_at: self.created_at,
            updated_at: self.updated_at,
            deleted_at: self.deleted_at,
        }
    }
}

pub fn clone_opt(o: &Option<String>) -> (r: Option<String>)
    ensures
        opt_view(r) == opt_view(*o),
{
    match o {
        Some(s) => Some(s.clone()),
        None => None,
    }
}

pub fn clone_strs(v: &Vec<String>) -> (r: Vec<String>)
    ensures
        strs_view(r@) == strs_view(v@),
{
    let mut r: Vec<String> = Vec::new();
    let mut i: usize = 0;
    while i < v.len()
        invariant
            i <= v.len(),
            r.len() == i,
            strs_view(r@) == strs_view(v@.take(i as int)),
        decreases v.len() - i,
    {
        let ghost r0 = r@;
        r.push(v[i].clone());
        assert forall|j: int| 0 <= j < i implies #[trigger] r@[j]@ == v@[j]@ by {
            assert(r@[j] == r0[j]);
            assert(strs_view(r0)[j] == strs_view(v@.take(i as int))[j]);
        }
        assert(strs_view(r@) =~= strs_view(v@.take(i + 1)));
        i = i + 1;
    }
    assert(v@.take(v.len() as int) == v@);
    r
}

impl Document {
    pub fn copy(&self) -> (r: Document)
        ensures
            r@ == self@,
    {
        Document {
            id: self.id.clone(),
            title: self.title.clone(),
            content: clone_opt(&self.content),
            parent_id: clone_opt(&self.parent_id),
            owner_id: self.owner_id.clone(),
            is_folder: self.is_folder,
            created_at: self.created_at,
            updated_at: self.updated_at,
            deleted_at: self.deleted_at,
        }
    }
}

/// What a tag is, as the contracts see it.
pub struct TagModel {
    pub id: Seq<char>,
    pub name: Seq<char>,
    pub created_at: Timestamp,
}

/// A label that documents can carry; names are unique.
#[derive(Debug)]
pub struct Tag {
    pub id: String,
    pub name: String,
    pub created_at: Timestamp,
}

impl View for Tag {
    type V = TagModel;

    open spec fn view(&self) -> TagModel {
        TagModel { id: self.id@, name: self.name@, created_at: self.created_at }
    }
}

impl Tag {
    pub fn copy(&self) -> (r: Tag)
        ensures
            r@ == self@,
    {
        Tag { id: self.id.clone(), name: self.name.clone(), created_at: self.created_at }
    }
}

pub open spec fn tags_view(v: Seq<Tag>) -> Seq<TagModel> {
    v.map_values(|t: Tag| t@)
}

/// What a document read with its tags is, as the contracts see it.
pub struct DocWithTagsModel {
    pub document: DocModel,
    pub tags: Seq<TagModel>,
}

/// A document together with its tags, ordered by tag name.
#[derive(Debug)]
pub struct DocumentWithTags {
    pub document: Document,
    pub tags: Vec<Tag>,
}

impl View for DocumentWithTags {
    type V = DocWithTagsModel;

    open spec fn view(&self) -> DocWithTagsModel {
        DocWithTagsModel { document: self.document@, tags: tags_view(self.tags@) }
    }
}

pub open spec fn dwts_view(v: Seq<DocumentWithTags>) -> Seq<DocWithTagsModel> {
    v.map_values(|d: DocumentWithTags| d@)
}

/// The fields of a new document. `tags` holds tag ids.
#[derive(Debug)]
pub struct CreateDocRequest {
    pub title: String,
    pub content: Option<String>,
    pub parent_id: Option<String>,
    pub is_folder: bool,
    pub tags: Option<Vec<String>>,
}

/// A sparse patch: a field that is `None` is left as it is. `tags`, when
/// present, replaces the whole set of the document's tags (by tag id).
#[derive(Debug)]
pub struct UpdateDocRequest {
    pub title: Option<String>,
    pub content: Option<String>,
    pub parent_id: Option<String>,
    pub tags: Option<Vec<String>>,
}

/// The name of a tag to create.
#[derive(Debug)]
pub struct CreateTagRequest {
    pub name: String,
}

/// A full-text query.
#[derive(Debug)]
pub struct SearchQuery {
    pub q: String,
}

/// What a search hit is, as the contracts see it.
pub struct SearchResultModel {
    pub id: Seq<char>,
    pub title: Seq<char>,
    pub headline: Seq<char>,
    pub rank: i64,
}

/// One search hit: `headline` is an excerpt of the document's content with
/// each match wrapped in `<mark>`/`</mark>`; a lower `rank` is a better
/// match.
#[derive(Debug)]
pub struct SearchResult {
    pub id: String,
    pub title: String,
    pub headline: String,
    pub rank: i64,
}

impl View for SearchResult {
    type V = SearchResultModel;

    open spec fn view(&self) -> SearchResultModel {
        SearchResultModel { id: self.id@, title: self.title@, headline: self.headline@, rank: self.rank }
    }
}

pub open spec fn results_view(v: Seq<SearchResult>) -> Seq<SearchResultModel> {
    v.map_values(|r: SearchResult| r@)
}

/// A registration request.
#[derive(Debug)]
pub struct CreateUserRequest {
    pub username: String,
    pub password: String,
}

/// A login request.
#[derive(Debug)]
pub struct LoginRequest {
    pub username: String,
    pub password: String,
}

/// The claims that a session token carries: the user id and, in seconds
/// since the epoch, when it expires and when it was issued.
#[derive(Debug)]
pub struct TokenClaims {
    pub sub: String,
    pub exp: usize,
    pub iat: usize,
}

} // verus!

verus! {

pub proof fn lemma_strs_push(s: Seq<String>, x: String)
    ensures
        strs_view(s.push(x)) == strs_view(s).push(x@),
{
    assert(strs_view(s.push(x)) =~= strs_view(s).push(x@));
}

pub proof fn lemma_tags_push(s: Seq<Tag>, x: Tag)
    ensures
        tags_view(s.push(x)) == tags_view(s).push(x@),
{
    assert(tags_view(s.push(x)) =~= tags_view(s).push(x@));
}

pub proof fn lemma_tags_insert(s: Seq<Tag>, i: int, x: Tag)
    requires
        0 <= i <= s.len(),
    ensures
        tags_view(s.insert(i, x)) == tags_view(s).insert(i, x@),
{
    assert(tags_view(s.insert(i, x)) =~= tags_view(s).insert(i, x@));
}

pub proof fn lemma_dwts_insert(s: Seq<DocumentWithTags>, i: int, x: DocumentWithTags)
    requires
        0 <= i <= s.len(),
    ensures
        dwts_view(s.insert(i, x)) == dwts_view(s).insert(i, x@),
{
    assert(dwts_view(s.insert(i, x)) =~= dwts_view(s).insert(i, x@));
}

pub proof fn lemma_results_insert(s: Seq<SearchResult>, i: int, x: SearchResult)
    requires
        0 <= i <= s.len(),
    ensures
        results_view(s.insert(i, x)) == results_view(s).insert(i, x@),
{
    assert(results_view(s.insert(i, x)) =~= results_view(s).insert(i, x@));
}

} // verus!
