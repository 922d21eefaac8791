use docstore::auth::{bearer_token, UserRegistry};
use docstore::errors::ServiceError;

#[test]
fn bearer_token_is_taken_from_the_header() {
    assert_eq!(bearer_token(Some("Bearer abc.def")).unwrap(), "abc.def");
    assert_eq!(bearer_token(Some("Bearer ")).unwrap(), "");
    assert!(matches!(bearer_token(None), Err(ServiceError::Unauthorized(m)) if m == "No token provided"));
    assert!(matches!(bearer_token(Some("Basic abc")), Err(ServiceError::Unauthorized(m)) if m == "Invalid token format"));
    assert!(matches!(bearer_token(Some("Bear")), Err(ServiceError::Unauthorized(_))));
}

#[test]
fn errors_map_to_status_and_message() {
    assert_eq!(ServiceError::InternalServerError.status_code(), 500);
    assert_eq!(ServiceError::InternalServerError.error_message(), "Internal Server Error");
    assert_eq!(ServiceError::BadRequest("b".to_string()).status_code(), 400);
    assert_eq!(ServiceError::Unauthorized("u".to_string()).status_code(), 401);
    assert_eq!(ServiceError::Forbidden("f".to_string()).status_code(), 403);
    assert_eq!(ServiceError::NotFound("n".to_string()).status_code(), 404);
    assert_eq!(ServiceError::Conflict("c".to_string()).status_code(), 400);
    assert_eq!(ServiceError::Conflict("dup".to_string()).error_message(), "dup");
}

#[test]
fn user_names_are_unique() {
    let mut reg = UserRegistry::new();
    reg.register_user("ann", "h1".to_string(), "id1".to_string(), 1).unwrap();
    let r = reg.register_user("ann", "h2".to_string(), "id2".to_string(), 2);
    assert!(matches!(r, Err(ServiceError::BadRequest(m)) if m == "Username already exists"));
    let u = reg.find_by_username("ann").unwrap();
    assert_eq!(u.id, "id1");
    assert_eq!(u.password_hash, "h1");
    assert!(matches!(reg.find_by_username("bob"), Err(ServiceError::BadRequest(m)) if m == "Invalid credentials"));
}
