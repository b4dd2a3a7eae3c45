use lysand_core::store::PostStore;
use lysand_core::model::{Post, PostPatch, Relation, from_post, to_post_patch};
use lysand_core::objects::User;
use lysand_core::time::format_utc;
use lysand_core::FedError;

fn post(id: &str, reblog: Option<&str>, reply: Option<&str>) -> Post {
    Post {
        id: String::from(id),
        title: None,
        content: String::from("content of ") + id,
        local: true,
        created_at: 1_700_000_000,
        updated_at: None,
        reblog_id: reblog.map(String::from),
        content_type: String::from("text/plain"),
        visibility: String::from("public"),
        reply_id: reply.map(String::from),
        quoting_id: None,
        sensitive: false,
        spoiler_text: None,
        creator: String::from("u1"),
        url: String::from("https://x/") + id,
    }
}

fn store_with_user() -> PostStore {
    let mut s = PostStore::new();
    s.add_user(String::from("u1")).unwrap();
    s
}

#[test]
fn create_and_get() {
    let mut s = store_with_user();
    s.create(post("a", None, None)).unwrap();
    let p = s.get("a").unwrap();
    assert_eq!(p.content, "content of a");
    assert!(s.get("b").is_none());
}

#[test]
fn duplicate_id_is_constraint_violation() {
    let mut s = store_with_user();
    s.create(post("a", None, None)).unwrap();
    assert_eq!(s.create(post("a", None, None)).unwrap_err(), FedError::ConstraintViolation);
}

#[test]
fn unknown_creator_is_constraint_violation() {
    let mut s = PostStore::new();
    assert_eq!(s.create(post("a", None, None)).unwrap_err(), FedError::ConstraintViolation);
}

#[test]
fn referential_rejection_leaves_store_unchanged() {
    let mut s = store_with_user();
    s.create(post("a", None, None)).unwrap();
    let bad = post("b", None, Some("missing"));
    assert_eq!(s.create(bad).unwrap_err(), FedError::ConstraintViolation);
    assert!(s.get("b").is_none());
    assert!(s.get("a").is_some());
}

#[test]
fn bad_timestamps_are_constraint_violation() {
    let mut s = store_with_user();
    let mut p = post("a", None, None);
    p.updated_at = Some(p.created_at - 1);
    assert_eq!(s.create(p).unwrap_err(), FedError::ConstraintViolation);
    let mut q = post("a", None, None);
    q.created_at = -62_167_219_201;
    assert_eq!(s.create(q).unwrap_err(), FedError::ConstraintViolation);
    let mut r = post("a", None, None);
    r.created_at = -1;
    r.updated_at = Some(0);
    s.create(r).unwrap();
}

#[test]
fn update_before_creation_is_constraint_violation() {
    let mut s = store_with_user();
    s.create(post("a", None, None)).unwrap();
    let patch = PostPatch {
        title: None,
        content: Some(String::from("edited")),
        content_type: None,
        visibility: None,
        sensitive: None,
        spoiler_text: None,
        url: None,
    };
    assert_eq!(
        s.update("a", &patch, 1_699_999_999).unwrap_err(),
        FedError::ConstraintViolation
    );
    let p = s.get("a").unwrap();
    assert_eq!(p.content, "content of a");
    assert_eq!(p.updated_at, None);
}

#[test]
fn cascade_removes_both_dependents() {
    let mut s = store_with_user();
    s.create(post("a", None, None)).unwrap();
    s.create(post("b", Some("a"), None)).unwrap();
    s.create(post("c", None, Some("a"))).unwrap();
    s.create(post("d", None, None)).unwrap();
    s.delete("a").unwrap();
    assert!(s.get("a").is_none());
    assert!(s.get("b").is_none());
    assert!(s.get("c").is_none());
    assert!(s.get("d").is_some());
}

#[test]
fn cascade_is_transitive() {
    let mut s = store_with_user();
    s.create(post("a", None, None)).unwrap();
    s.create(post("b", Some("a"), None)).unwrap();
    s.create(post("c", None, Some("b"))).unwrap();
    s.delete("a").unwrap();
    assert!(s.get("a").is_none());
    assert!(s.get("b").is_none());
    assert!(s.get("c").is_none());
}

#[test]
fn deleting_a_user_removes_their_posts_and_dependents() {
    let mut s = store_with_user();
    s.add_user(String::from("u2")).unwrap();
    let mut a = post("a", None, None);
    a.creator = String::from("u2");
    s.create(a).unwrap();
    let mut b = post("b", Some("a"), None);
    b.creator = String::from("u1");
    s.create(b).unwrap();
    s.create(post("c", None, None)).unwrap();
    s.delete_user("u2").unwrap();
    assert!(s.get("a").is_none());
    assert!(s.get("b").is_none());
    assert!(s.get("c").is_some());
    assert_eq!(s.delete_user("u2").unwrap_err(), FedError::NotFound);
    let mut z = post("z", None, None);
    z.creator = String::from("u2");
    assert_eq!(s.create(z).unwrap_err(), FedError::ConstraintViolation);
}

#[test]
fn delete_missing_is_not_found() {
    let mut s = store_with_user();
    assert_eq!(s.delete("nope").unwrap_err(), FedError::NotFound);
}

#[test]
fn update_patches_and_stamps_edit_time() {
    let mut s = store_with_user();
    s.create(post("a", None, None)).unwrap();
    let patch = PostPatch {
        title: Some(String::from("new title")),
        content: Some(String::from("edited")),
        content_type: None,
        visibility: None,
        sensitive: Some(true),
        spoiler_text: None,
        url: None,
    };
    s.update("a", &patch, 1_700_000_500).unwrap();
    let p = s.get("a").unwrap();
    assert_eq!(p.content, "edited");
    assert_eq!(p.title.as_deref(), Some("new title"));
    assert!(p.sensitive);
    assert_eq!(p.updated_at, Some(1_700_000_500));
    assert_eq!(p.visibility, "public");
    assert_eq!(s.update("zz", &patch, 1_700_000_501).unwrap_err(), FedError::NotFound);
}

#[test]
fn resolve_relation_follows_edges() {
    let mut s = store_with_user();
    s.create(post("a", None, None)).unwrap();
    s.create(post("b", Some("a"), None)).unwrap();
    let target = s.resolve_relation("b", Relation::Reblog).unwrap().unwrap();
    assert_eq!(target.id, "a");
    assert!(s.resolve_relation("b", Relation::Reply).unwrap().is_none());
    assert!(s.resolve_relation("b", Relation::Quote).unwrap().is_none());
    assert_eq!(s.resolve_relation("zz", Relation::Reblog).unwrap_err(), FedError::NotFound);
}

#[test]
fn timestamp_formatting_is_fixed_iso8601() {
    assert_eq!(format_utc(0), "1970-01-01T00:00:00Z");
    assert_eq!(format_utc(-1), "1969-12-31T23:59:59Z");
    assert_eq!(format_utc(1_700_000_000), "2023-11-14T22:13:20Z");
    let dt = chrono::DateTime::<chrono::Utc>::from_timestamp(1_700_000_000, 0).unwrap();
    assert_eq!(
        format_utc(1_700_000_000),
        dt.to_rfc3339_opts(chrono::SecondsFormat::Secs, true)
    );
}

#[test]
fn from_post_projects_onto_wire() {
    let p = post("a", Some("r"), None);
    let profile = User {
        id: String::from("u1"),
        username: String::from("alice"),
        url: String::from("https://x/u/alice"),
        display_name: None,
        created_at: None,
    };
    let n = from_post(&p, &profile);
    assert_eq!(n.content, p.content);
    assert_eq!(n.creator, "https://x/u/alice");
    assert_eq!(n.url, p.url);
    assert_eq!(n.reblog_id.as_deref(), Some("r"));
    assert_eq!(n.created_at.as_deref(), Some("2023-11-14T22:13:20Z"));
    assert_eq!(n.updated_at, None);
    let patch = to_post_patch(&n);
    assert_eq!(patch.content.as_deref(), Some(p.content.as_str()));
    assert_eq!(patch.url.as_deref(), Some(p.url.as_str()));
    assert_eq!(patch.sensitive, Some(false));
    assert_eq!(patch.visibility.as_deref(), Some("public"));
}
