use docstore::docs::{create_doc, create_doc_at, delete_doc_at, get_doc, list_docs, update_doc, update_doc_at};
use docstore::docs_trash::{delete_doc_permanent, get_trash, restore_doc};
use docstore::errors::ServiceError;
use docstore::models::{CreateDocRequest, CreateTagRequest, UpdateDocRequest};
use docstore::search::search_docs;
use docstore::store::DocStore;
use docstore::tags::{create_tag, create_tag_at, list_tags};

fn doc(title: &str, content: Option<&str>, parent: Option<&str>, is_folder: bool, tags: Option<Vec<&str>>) -> CreateDocRequest {
    CreateDocRequest {
        title: title.to_string(),
        content: content.map(|c| c.to_string()),
        parent_id: parent.map(|p| p.to_string()),
        is_folder,
        tags: tags.map(|t| t.into_iter().map(|s| s.to_string()).collect()),
    }
}

fn patch() -> UpdateDocRequest {
    UpdateDocRequest { title: None, content: None, parent_id: None, tags: None }
}

fn tag(store: &mut DocStore, name: &str, id: &str) -> String {
    create_tag_at(store, CreateTagRequest { name: name.to_string() }, id.to_string(), 1).unwrap().id
}

#[test]
fn folder_then_document_scenario() {
    let mut store = DocStore::new();
    let work = tag(&mut store, "work", "t-work");
    let f = create_doc(&mut store, "u1", doc("Projects", None, None, true, None)).unwrap();
    assert!(f.document.is_folder);
    assert_eq!(f.document.content, None);
    let d = create_doc(
        &mut store,
        "u1",
        doc("Notes", Some("meeting about work items"), Some(&f.document.id), false, Some(vec![&work])),
    )
    .unwrap();
    assert_eq!(d.document.parent_id, Some(f.document.id.clone()));
    assert_eq!(d.tags.len(), 1);
    assert_eq!(d.tags[0].name, "work");
    let listed = list_docs(&store, "u1");
    assert_eq!(listed.len(), 2);
    assert_eq!(listed[0].document.id, f.document.id);
    assert_eq!(listed[1].document.id, d.document.id);
    let hits = search_docs(&store, "u1", "work");
    assert_eq!(hits.len(), 1);
    assert_eq!(hits[0].id, d.document.id);
    assert_eq!(hits[0].headline, "meeting about <mark>work</mark> items");
}

#[test]
fn get_visibility_by_owner_and_trash() {
    let mut store = DocStore::new();
    let d = create_doc_at(&mut store, "u1", doc("A", Some("x"), None, false, None), "d1".to_string(), 10).unwrap();
    assert_eq!(d.document.owner_id, "u1");
    assert!(get_doc(&store, "u1", "d1").is_ok());
    assert!(matches!(get_doc(&store, "u2", "d1"), Err(ServiceError::Forbidden(_))));
    assert!(matches!(get_doc(&store, "u1", "nope"), Err(ServiceError::NotFound(_))));
    delete_doc_at(&mut store, "u1", "d1", 20).unwrap();
    assert!(matches!(get_doc(&store, "u1", "d1"), Err(ServiceError::NotFound(_))));
    assert!(matches!(get_doc(&store, "u2", "d1"), Err(ServiceError::Forbidden(_))));
    assert!(matches!(update_doc_at(&mut store, "u2", "d1", patch(), 30), Err(ServiceError::Forbidden(_))));
    assert!(matches!(update_doc_at(&mut store, "u1", "d1", patch(), 30), Err(ServiceError::NotFound(_))));
}

#[test]
fn create_then_get_links_requested_tags_once() {
    let mut store = DocStore::new();
    let a = tag(&mut store, "beta", "t-b");
    let b = tag(&mut store, "alpha", "t-a");
    let created = create_doc_at(
        &mut store,
        "u1",
        doc("T", None, None, false, Some(vec![&a, "missing", &b, &a])),
        "d1".to_string(),
        5,
    )
    .unwrap();
    let names: Vec<String> = created.tags.iter().map(|t| t.name.clone()).collect();
    assert_eq!(names, vec!["alpha".to_string(), "beta".to_string()]);
    let read = get_doc(&store, "u1", "d1").unwrap();
    let read_names: Vec<String> = read.tags.iter().map(|t| t.name.clone()).collect();
    assert_eq!(read_names, names);
    assert_eq!(read.document.created_at, 5);
    assert_eq!(read.document.updated_at, 5);
}

#[test]
fn title_only_update_keeps_other_fields() {
    let mut store = DocStore::new();
    let t = tag(&mut store, "t", "t1");
    create_doc_at(&mut store, "u1", doc("P", None, None, true, None), "p".to_string(), 1).unwrap();
    create_doc_at(&mut store, "u1", doc("Old", Some("body"), Some("p"), false, Some(vec![&t])), "d".to_string(), 100)
        .unwrap();
    let mut req = patch();
    req.title = Some("X".to_string());
    let d = update_doc_at(&mut store, "u1", "d", req, 50).unwrap();
    assert_eq!(d.document.title, "X");
    assert_eq!(d.document.content, Some("body".to_string()));
    assert_eq!(d.document.parent_id, Some("p".to_string()));
    assert_eq!(d.tags.len(), 1);
    assert_eq!(d.document.updated_at, 101);
    let mut req = patch();
    req.title = Some("Y".to_string());
    let d = update_doc_at(&mut store, "u1", "d", req, 500).unwrap();
    assert_eq!(d.document.updated_at, 500);
    assert_eq!(d.document.created_at, 100);
}

#[test]
fn update_with_empty_tags_clears_them() {
    let mut store = DocStore::new();
    let t = tag(&mut store, "t", "t1");
    create_doc_at(&mut store, "u1", doc("D", None, None, false, Some(vec![&t])), "d".to_string(), 1).unwrap();
    let mut req = patch();
    req.tags = Some(vec![]);
    let d = update_doc_at(&mut store, "u1", "d", req, 2).unwrap();
    assert!(d.tags.is_empty());
    let mut req = patch();
    req.tags = Some(vec![]);
    let d = update_doc_at(&mut store, "u1", "d", req, 3).unwrap();
    assert!(d.tags.is_empty());
    assert!(get_doc(&store, "u1", "d").unwrap().tags.is_empty());
}

#[test]
fn trash_round_trip() {
    let mut store = DocStore::new();
    create_doc_at(&mut store, "u1", doc("D", None, None, false, None), "d".to_string(), 1).unwrap();
    delete_doc_at(&mut store, "u1", "d", 7).unwrap();
    assert!(list_docs(&store, "u1").is_empty());
    let trash = get_trash(&store, "u1");
    assert_eq!(trash.len(), 1);
    assert_eq!(trash[0].document.deleted_at, Some(7));
    delete_doc_at(&mut store, "u1", "d", 9).unwrap();
    assert_eq!(get_trash(&store, "u1")[0].document.deleted_at, Some(7));
    restore_doc(&mut store, "u1", "d").unwrap();
    assert_eq!(list_docs(&store, "u1").len(), 1);
    assert!(get_trash(&store, "u1").is_empty());
    assert_eq!(get_doc(&store, "u1", "d").unwrap().document.deleted_at, None);
}

#[test]
fn hard_delete_is_terminal() {
    let mut store = DocStore::new();
    create_doc_at(&mut store, "u1", doc("D", None, None, false, None), "d".to_string(), 1).unwrap();
    delete_doc_at(&mut store, "u1", "d", 2).unwrap();
    assert!(matches!(delete_doc_permanent(&mut store, "u2", "d"), Err(ServiceError::Forbidden(_))));
    delete_doc_permanent(&mut store, "u1", "d").unwrap();
    for user in ["u1", "u2"] {
        assert!(matches!(get_doc(&store, user, "d"), Err(ServiceError::NotFound(_))));
        assert!(matches!(restore_doc(&mut store, user, "d"), Err(ServiceError::NotFound(_))));
        assert!(matches!(delete_doc_at(&mut store, user, "d", 3), Err(ServiceError::NotFound(_))));
        assert!(matches!(delete_doc_permanent(&mut store, user, "d"), Err(ServiceError::NotFound(_))));
    }
    assert!(get_trash(&store, "u1").is_empty());
}

#[test]
fn list_orders_folders_first_then_title() {
    let mut store = DocStore::new();
    create_doc_at(&mut store, "u1", doc("b", None, None, false, None), "1".to_string(), 1).unwrap();
    create_doc_at(&mut store, "u1", doc("z", None, None, true, None), "2".to_string(), 1).unwrap();
    create_doc_at(&mut store, "u1", doc("a", None, None, false, None), "3".to_string(), 1).unwrap();
    create_doc_at(&mut store, "u1", doc("B", None, None, true, None), "4".to_string(), 1).unwrap();
    create_doc_at(&mut store, "u2", doc("0", None, None, true, None), "5".to_string(), 1).unwrap();
    let ids: Vec<String> = list_docs(&store, "u1").into_iter().map(|d| d.document.id).collect();
    assert_eq!(ids, vec!["4", "2", "3", "1"]);
    assert!(list_docs(&store, "nobody").is_empty());
}

#[test]
fn trash_orders_most_recent_first() {
    let mut store = DocStore::new();
    for id in ["a", "b", "c"] {
        create_doc_at(&mut store, "u1", doc(id, None, None, false, None), id.to_string(), 1).unwrap();
    }
    delete_doc_at(&mut store, "u1", "b", 30).unwrap();
    delete_doc_at(&mut store, "u1", "a", 10).unwrap();
    delete_doc_at(&mut store, "u1", "c", 20).unwrap();
    let ids: Vec<String> = get_trash(&store, "u1").into_iter().map(|d| d.document.id).collect();
    assert_eq!(ids, vec!["b", "c", "a"]);
    assert!(get_trash(&store, "u2").is_empty());
}

#[test]
fn parent_must_be_own_and_acyclic() {
    let mut store = DocStore::new();
    create_doc_at(&mut store, "u2", doc("theirs", None, None, true, None), "x".to_string(), 1).unwrap();
    let r = create_doc_at(&mut store, "u1", doc("c", None, Some("x"), false, None), "c".to_string(), 1);
    assert!(matches!(r, Err(ServiceError::BadRequest(_))));
    let r = create_doc_at(&mut store, "u1", doc("c", None, Some("none"), false, None), "c".to_string(), 1);
    assert!(matches!(r, Err(ServiceError::BadRequest(_))));
    create_doc_at(&mut store, "u1", doc("a", None, None, true, None), "a".to_string(), 1).unwrap();
    create_doc_at(&mut store, "u1", doc("b", None, Some("a"), true, None), "b".to_string(), 1).unwrap();
    let mut req = patch();
    req.parent_id = Some("b".to_string());
    assert!(matches!(update_doc_at(&mut store, "u1", "a", req, 2), Err(ServiceError::BadRequest(_))));
    let mut req = patch();
    req.parent_id = Some("a".to_string());
    assert!(matches!(update_doc_at(&mut store, "u1", "a", req, 2), Err(ServiceError::BadRequest(_))));
    let mut req = patch();
    req.parent_id = Some("x".to_string());
    assert!(matches!(update_doc_at(&mut store, "u1", "b", req, 2), Err(ServiceError::BadRequest(_))));
    let mut req = patch();
    req.parent_id = None;
    req.title = Some("b2".to_string());
    assert_eq!(update_doc_at(&mut store, "u1", "b", req, 2).unwrap().document.parent_id, Some("a".to_string()));
}

#[test]
fn create_rejects_an_id_in_use() {
    let mut store = DocStore::new();
    create_doc_at(&mut store, "u1", doc("a", None, None, false, None), "a".to_string(), 1).unwrap();
    let r = create_doc_at(&mut store, "u1", doc("b", None, None, false, None), "a".to_string(), 1);
    assert!(matches!(r, Err(ServiceError::InternalServerError)));
    assert_eq!(list_docs(&store, "u1").len(), 1);
}

#[test]
fn update_of_missing_trashed_or_foreign_document_fails() {
    let mut store = DocStore::new();
    create_doc_at(&mut store, "u1", doc("a", None, None, false, None), "a".to_string(), 1).unwrap();
    assert!(matches!(update_doc_at(&mut store, "u2", "a", patch(), 2), Err(ServiceError::Forbidden(_))));
    assert!(matches!(update_doc_at(&mut store, "u1", "zz", patch(), 2), Err(ServiceError::NotFound(_))));
    assert!(matches!(restore_doc(&mut store, "u2", "a"), Err(ServiceError::Forbidden(_))));
    assert!(matches!(delete_doc_at(&mut store, "u2", "a", 2), Err(ServiceError::Forbidden(_))));
    delete_doc_at(&mut store, "u1", "a", 2).unwrap();
    assert!(matches!(update_doc_at(&mut store, "u1", "a", patch(), 3), Err(ServiceError::NotFound(_))));
}

#[test]
fn fresh_ids_and_times_come_from_outside() {
    let mut store = DocStore::new();
    let a = create_doc(&mut store, "u1", doc("a", None, None, false, None)).unwrap();
    let b = create_doc(&mut store, "u1", doc("b", None, None, false, None)).unwrap();
    assert_eq!(a.document.id.len(), 36);
    assert_ne!(a.document.id, b.document.id);
    assert!(a.document.created_at > 1_600_000_000_000);
    let mut req = patch();
    req.content = Some("new".to_string());
    let u = update_doc(&mut store, "u1", &a.document.id, req).unwrap();
    assert_eq!(u.document.content, Some("new".to_string()));
    assert!(u.document.updated_at > a.document.updated_at || u.document.updated_at == a.document.updated_at + 1);
    let t = create_tag(&mut store, CreateTagRequest { name: "n".to_string() }).unwrap();
    assert_eq!(t.id.len(), 36);
}

#[test]
fn tags_are_listed_by_name_and_unique() {
    let mut store = DocStore::new();
    tag(&mut store, "mid", "1");
    tag(&mut store, "alpha", "2");
    tag(&mut store, "zeta", "3");
    let r = create_tag_at(&mut store, CreateTagRequest { name: "mid".to_string() }, "4".to_string(), 1);
    assert!(matches!(r, Err(ServiceError::Conflict(_))));
    let r = create_tag_at(&mut store, CreateTagRequest { name: "new".to_string() }, "2".to_string(), 1);
    assert!(matches!(r, Err(ServiceError::Conflict(_))));
    let names: Vec<String> = list_tags(&store).into_iter().map(|t| t.name).collect();
    assert_eq!(names, vec!["alpha", "mid", "zeta"]);
}
