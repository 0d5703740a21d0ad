use pipeline_service::rpc::{RpcError, RpcServer, UserHandler};
use pipeline_service::users::{ServiceError, UserService};

#[test]
fn test_create_and_get_user() {
    let mut handler = UserHandler::new();
    let user = handler
        .create_user("Alice".to_string(), "alice@example.com".to_string())
        .unwrap();

    assert_eq!(user.name, "Alice");
    assert_eq!(user.email, "alice@example.com");

    let fetched_user = handler.get_user(user.id).unwrap();
    assert_eq!(fetched_user.name, "Alice");
}

#[test]
fn test_list_users() {
    let mut handler = UserHandler::new();
    handler
        .create_user("Alice".to_string(), "alice@example.com".to_string())
        .unwrap();
    handler
        .create_user("Bob".to_string(), "bob@example.com".to_string())
        .unwrap();

    let users = handler.list_users().unwrap();
    assert_eq!(users.len(), 2);
}

#[test]
fn ids_are_handed_out_from_one() {
    let mut service = UserService::new();
    let a = service.create_user("Alice".to_string(), "a@x".to_string()).unwrap();
    let b = service.create_user("Bob".to_string(), "b@x".to_string()).unwrap();
    assert_eq!(a.id, 1);
    assert_eq!(b.id, 2);
    assert_eq!(service.get_user(2).unwrap().name, "Bob");
}

#[test]
fn empty_name_is_invalid_input() {
    let mut service = UserService::new();
    match service.create_user(String::new(), "x@y".to_string()) {
        Err(ServiceError::InvalidInput(m)) => assert_eq!(m, "Name cannot be empty"),
        other => panic!("unexpected {:?}", other),
    }
    assert_eq!(service.list_users().len(), 0);
}

#[test]
fn deleted_user_is_not_found() {
    let mut service = UserService::new();
    let u = service.create_user("Alice".to_string(), "a@x".to_string()).unwrap();
    service.delete_user(u.id).unwrap();
    match service.get_user(u.id) {
        Err(e) => assert_eq!(e.to_display_string(), "Not found: User with id 1 not found"),
        Ok(_) => panic!("user still there"),
    }
    match service.delete_user(7) {
        Err(ServiceError::NotFound(m)) => assert_eq!(m, "User with id 7 not found"),
        other => panic!("unexpected {:?}", other),
    }
}

#[test]
fn handler_errors_carry_service_text() {
    let mut handler = UserHandler::new();
    match handler.create_user(String::new(), "e".to_string()) {
        Err(RpcError::ServiceError(m)) => assert_eq!(m, "Invalid input: Name cannot be empty"),
        other => panic!("unexpected {:?}", other),
    }
    let e = handler.get_user(3).unwrap_err();
    assert_eq!(e.to_display_string(), "Service error: Not found: User with id 3 not found");
}

#[test]
fn server_hands_out_its_user_handler() {
    let mut server = RpcServer::new();
    server
        .user_handler_mut()
        .create_user("Carol".to_string(), "c@x".to_string())
        .unwrap();
    assert_eq!(server.user_handler().list_users().unwrap().len(), 1);
    assert_eq!(server.user_handler().get_user(1).unwrap().email, "c@x");
}

#[test]
fn ids_keep_counting_after_deletes_and_listing_holds_each_user_once() {
    let mut service = UserService::new();
    let a = service.create_user("A".to_string(), "a@x".to_string()).unwrap();
    let b = service.create_user("B".to_string(), "b@x".to_string()).unwrap();
    service.delete_user(b.id).unwrap();
    assert!(service.create_user(String::new(), "e@x".to_string()).is_err());
    let c = service.create_user("C".to_string(), "c@x".to_string()).unwrap();
    assert_eq!((a.id, b.id, c.id), (1, 2, 3));
    let mut ids: Vec<u64> = service.list_users().iter().map(|u| u.id).collect();
    ids.sort();
    assert_eq!(ids, vec![1, 3]);
}
