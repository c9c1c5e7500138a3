use candid::Principal;
use vtk_backend::api::{
    create_user_profile, create_user_with_username, delete_user_profile, get_user_profile,
    get_user_stats, list_users, update_user_profile, update_user_with_username,
    upload_file_atomic, upload_file_continue, UploadFileAtomicRequest,
};
use vtk_backend::text::{is_blank, normalize};
use vtk_backend::{
    get_time, CreateUserRequest, Identity, State, UpdateUserRequest, UploadFileContinueRequest,
    UserListResponse, UserResponse,
};

fn create_test_principal(id: &str) -> Identity {
    Identity::from_slice(id.as_bytes()).unwrap()
}

fn named(username: &str) -> CreateUserRequest {
    CreateUserRequest {
        username: username.to_string(),
        display_name: None,
        email: None,
    }
}

#[test]
fn test_create_user_profile() {
    let mut state = State::default();
    let principal = create_test_principal("2vxsx-fae");

    let request = CreateUserRequest {
        username: "testuser".to_string(),
        display_name: Some("Test User".to_string()),
        email: Some("test@example.com".to_string()),
    };

    let result = create_user_profile(principal, request, get_time(), &mut state);
    assert!(matches!(result, UserResponse::Success(_)));

    if let UserResponse::Success(profile) = result {
        assert_eq!(profile.principal_id, principal);
        assert_eq!(profile.username, "testuser");
        assert_eq!(profile.display_name, Some("Test User".to_string()));
        assert_eq!(profile.email, Some("test@example.com".to_string()));
        assert!(profile.is_active);
    }
}

#[test]
fn test_anonymous_user_cannot_create_profile() {
    let mut state = State::default();
    let request = CreateUserRequest {
        username: "testuser".to_string(),
        display_name: None,
        email: None,
    };

    let result = create_user_profile(Identity::anonymous(), request, get_time(), &mut state);
    assert!(matches!(result, UserResponse::NotAuthenticated));
}

#[test]
fn test_duplicate_username_rejected() {
    let mut state = State::default();
    let principal1 = create_test_principal("2vxsx-fae");
    let principal2 = create_test_principal("3vxsx-fae");

    let request = CreateUserRequest {
        username: "testuser".to_string(),
        display_name: None,
        email: None,
    };

    // Create first user
    let result1 = create_user_profile(principal1, request.clone(), get_time(), &mut state);
    assert!(matches!(result1, UserResponse::Success(_)));

    // Try to create second user with same username
    let result2 = create_user_profile(principal2, request, get_time(), &mut state);
    assert!(matches!(result2, UserResponse::AlreadyExists));
}

#[test]
fn test_update_user_profile() {
    let mut state = State::default();
    let principal = create_test_principal("2vxsx-fae");

    // Create user first
    let create_request = CreateUserRequest {
        username: "testuser".to_string(),
        display_name: Some("Test User".to_string()),
        email: None,
    };
    create_user_profile(principal, create_request, get_time(), &mut state);

    // Update user
    let update_request = UpdateUserRequest {
        username: Some("newusername".to_string()),
        display_name: Some("New Display Name".to_string()),
        email: Some("new@example.com".to_string()),
    };

    let result = update_user_profile(principal, update_request, &mut state);
    assert!(matches!(result, UserResponse::Success(_)));

    if let UserResponse::Success(profile) = result {
        assert_eq!(profile.username, "newusername");
        assert_eq!(profile.display_name, Some("New Display Name".to_string()));
        assert_eq!(profile.email, Some("new@example.com".to_string()));
    }
}

#[test]
fn new_profile_has_the_time_and_no_files() {
    let mut state = State::default();
    let who = create_test_principal("carol");
    let result = create_user_profile(who, named("carol"), 777, &mut state);
    match result {
        UserResponse::Success(profile) => {
            assert_eq!(profile.created_at, 777);
            assert_eq!(profile.last_login, 777);
            assert_eq!(profile.storage_used, 0);
            assert_eq!(profile.file_count, 0);
            assert!(profile.is_active);
            assert_eq!(profile.display_name, None);
            assert_eq!(profile.email, None);
        }
        other => panic!("no profile: {:?}", other),
    }
    assert_eq!(state.user_count, 1);
    let kept = state.user_profiles.get(&who).unwrap().clone();
    assert_eq!(kept.username, "carol");
    assert_eq!(kept.principal_id, who);
    assert_eq!(get_user_profile(who, &state), UserResponse::Success(kept));
}

#[test]
fn username_is_trimmed_and_put_in_lower_case() {
    let mut state = State::default();
    let who = create_test_principal("carol");
    let result = create_user_profile(who, named("  Carol Smith \t"), 1, &mut state);
    match result {
        UserResponse::Success(profile) => assert_eq!(profile.username, "carol smith"),
        other => panic!("no profile: {:?}", other),
    }
    // The same name in another form is taken.
    let other = create_test_principal("dave");
    let result = create_user_profile(other, named("CAROL SMITH"), 2, &mut state);
    assert_eq!(result, UserResponse::AlreadyExists);
    assert_eq!(state.user_count, 1);
    assert!(state.username_to_principal.get(&"carol smith".to_string()).is_some());
    assert!(state.username_to_principal.get(&"  Carol Smith \t".to_string()).is_none());
}

#[test]
fn blank_and_long_usernames_are_invalid() {
    let mut state = State::default();
    let who = create_test_principal("carol");
    assert_eq!(create_user_profile(who, named(""), 1, &mut state), UserResponse::InvalidInput);
    assert_eq!(create_user_profile(who, named("  \n "), 1, &mut state), UserResponse::InvalidInput);
    let fifty = "a".repeat(50);
    let fifty_one = "a".repeat(51);
    assert_eq!(
        create_user_profile(who, named(&fifty_one), 1, &mut state),
        UserResponse::InvalidInput
    );
    // The length that counts is that of the name as it was sent, in bytes.
    let padded = format!(" {} ", "b".repeat(49));
    assert_eq!(create_user_profile(who, named(&padded), 1, &mut state), UserResponse::InvalidInput);
    let two_bytes_each = "é".repeat(26);
    assert_eq!(
        create_user_profile(who, named(&two_bytes_each), 1, &mut state),
        UserResponse::InvalidInput
    );
    assert_eq!(state.user_count, 0);
    assert!(matches!(
        create_user_profile(who, named(&fifty), 1, &mut state),
        UserResponse::Success(_)
    ));
    assert_eq!(state.user_count, 1);
}

#[test]
fn second_profile_of_one_caller_is_refused() {
    let mut state = State::default();
    let who = create_test_principal("carol");
    assert!(matches!(
        create_user_profile(who, named("carol"), 1, &mut state),
        UserResponse::Success(_)
    ));
    assert_eq!(create_user_profile(who, named("other"), 2, &mut state), UserResponse::AlreadyExists);
    assert_eq!(state.user_count, 1);
    assert!(state.username_to_principal.get(&"other".to_string()).is_none());
}

#[test]
fn profile_of_a_stranger_is_not_found() {
    let mut state = State::default();
    let who = create_test_principal("carol");
    assert_eq!(get_user_profile(who, &state), UserResponse::NotFound);
    assert_eq!(get_user_profile(Identity::anonymous(), &state), UserResponse::NotAuthenticated);
    let update = UpdateUserRequest { username: None, display_name: None, email: None };
    assert_eq!(update_user_profile(who, update.clone(), &mut state), UserResponse::NotFound);
    assert_eq!(
        update_user_profile(Identity::anonymous(), update, &mut state),
        UserResponse::NotAuthenticated
    );
    assert_eq!(delete_user_profile(who, &mut state), UserResponse::NotFound);
    assert_eq!(
        delete_user_profile(Identity::anonymous(), &mut state),
        UserResponse::NotAuthenticated
    );
    assert_eq!(get_user_stats(who, 5, &state), UserResponse::NotFound);
    assert_eq!(get_user_stats(Identity::anonymous(), 5, &state), UserResponse::NotAuthenticated);
}

#[test]
fn update_keeps_what_is_not_given() {
    let mut state = State::default();
    let who = create_test_principal("carol");
    let request = CreateUserRequest {
        username: "carol".to_string(),
        display_name: Some("Carol".to_string()),
        email: Some("carol@example.com".to_string()),
    };
    create_user_profile(who, request, 1, &mut state);
    let update = UpdateUserRequest {
        username: None,
        display_name: None,
        email: Some("c@example.com".to_string()),
    };
    match update_user_profile(who, update, &mut state) {
        UserResponse::Success(profile) => {
            assert_eq!(profile.username, "carol");
            assert_eq!(profile.display_name, Some("Carol".to_string()));
            assert_eq!(profile.email, Some("c@example.com".to_string()));
            assert_eq!(profile.created_at, 1);
        }
        other => panic!("no profile: {:?}", other),
    }
    assert_eq!(state.username_to_principal.get(&"carol".to_string()), Some(&who));
}

#[test]
fn update_moves_the_username() {
    let mut state = State::default();
    let carol = create_test_principal("carol");
    let dave = create_test_principal("dave");
    create_user_profile(carol, named("carol"), 1, &mut state);
    create_user_profile(dave, named("dave"), 1, &mut state);

    // A name that another user has is refused, and nothing changes.
    let taken = UpdateUserRequest {
        username: Some(" Dave ".to_string()),
        display_name: Some("x".to_string()),
        email: None,
    };
    assert_eq!(update_user_profile(carol, taken, &mut state), UserResponse::AlreadyExists);
    assert_eq!(state.user_profiles.get(&carol).unwrap().display_name, None);

    // A blank name, or one that is too long, is invalid.
    let blank = UpdateUserRequest { username: Some("   ".to_string()), display_name: None, email: None };
    assert_eq!(update_user_profile(carol, blank, &mut state), UserResponse::InvalidInput);
    let long = UpdateUserRequest { username: Some("c".repeat(51)), display_name: None, email: None };
    assert_eq!(update_user_profile(carol, long, &mut state), UserResponse::InvalidInput);
    // Here the length that counts is that of the name without the blanks.
    let padded = UpdateUserRequest {
        username: Some(format!("  {}  ", "C".repeat(50))),
        display_name: None,
        email: None,
    };
    match update_user_profile(carol, padded, &mut state) {
        UserResponse::Success(profile) => assert_eq!(profile.username, "c".repeat(50)),
        other => panic!("no profile: {:?}", other),
    }
    assert!(state.username_to_principal.get(&"carol".to_string()).is_none());
    assert_eq!(state.username_to_principal.get(&"c".repeat(50)), Some(&carol));

    // The old name is free again.
    let back = UpdateUserRequest { username: Some("carol".to_string()), display_name: None, email: None };
    assert!(matches!(update_user_profile(dave, back, &mut state), UserResponse::Success(_)));
    assert_eq!(state.username_to_principal.get(&"carol".to_string()), Some(&dave));
    assert!(state.username_to_principal.get(&"dave".to_string()).is_none());

    // One's own name can be asked for again.
    let same = UpdateUserRequest { username: Some("CAROL".to_string()), display_name: None, email: None };
    assert!(matches!(update_user_profile(dave, same, &mut state), UserResponse::Success(_)));
    assert_eq!(state.user_count, 2);
}

#[test]
fn deleted_profile_frees_the_username() {
    let mut state = State::default();
    let carol = create_test_principal("carol");
    let dave = create_test_principal("dave");
    create_user_profile(carol, named("carol"), 1, &mut state);
    match delete_user_profile(carol, &mut state) {
        UserResponse::Success(profile) => assert_eq!(profile.username, "carol"),
        other => panic!("no profile: {:?}", other),
    }
    assert_eq!(state.user_count, 0);
    assert_eq!(get_user_profile(carol, &state), UserResponse::NotFound);
    assert!(matches!(
        create_user_profile(dave, named("carol"), 2, &mut state),
        UserResponse::Success(_)
    ));
    assert_eq!(state.user_count, 1);
}

#[test]
fn users_are_listed_in_the_order_of_their_identities() {
    let mut state = State::default();
    assert_eq!(list_users(Identity::anonymous(), &state), UserListResponse::NotAuthenticated);
    let long = Identity::from_slice(&[1, 1, 1]).unwrap();
    let short_high = Identity::from_slice(&[9]).unwrap();
    let short_low = Identity::from_slice(&[2]).unwrap();
    let middle = Identity::from_slice(&[0, 200]).unwrap();
    let empty = Identity::from_slice(&[]).unwrap();
    create_user_profile(long, named("long"), 1, &mut state);
    create_user_profile(short_high, named("high"), 1, &mut state);
    create_user_profile(middle, named("middle"), 1, &mut state);
    create_user_profile(short_low, named("low"), 1, &mut state);
    create_user_profile(empty, named("empty"), 1, &mut state);
    match list_users(long, &state) {
        UserListResponse::Success(profiles) => {
            let names: Vec<&str> = profiles.iter().map(|p| p.username.as_str()).collect();
            assert_eq!(names, vec!["empty", "low", "high", "middle", "long"]);
            let ids: Vec<Identity> = profiles.iter().map(|p| p.principal_id).collect();
            assert_eq!(ids, vec![empty, short_low, short_high, middle, long]);
        }
        other => panic!("no listing: {:?}", other),
    }
    delete_user_profile(short_high, &mut state);
    match list_users(long, &state) {
        UserListResponse::Success(profiles) => {
            let names: Vec<&str> = profiles.iter().map(|p| p.username.as_str()).collect();
            assert_eq!(names, vec!["empty", "low", "middle", "long"]);
        }
        other => panic!("no listing: {:?}", other),
    }
}

#[test]
fn identities_are_ordered_as_principals_are() {
    let blobs: Vec<Vec<u8>> = vec![
        vec![],
        vec![0],
        vec![4],
        vec![255],
        vec![0, 0],
        vec![0, 255],
        vec![1, 0],
        vec![1, 2, 3],
        vec![1, 2, 4],
        vec![7; 29],
    ];
    let mut state = State::default();
    for (i, blob) in blobs.iter().enumerate().rev() {
        let who = Identity::from_slice(blob).unwrap();
        if !who.is_anonymous() {
            create_user_profile(who, named(&format!("user{}", i)), 1, &mut state);
        }
    }
    let mut principals: Vec<Principal> = blobs
        .iter()
        .map(|blob| Principal::from_slice(blob))
        .filter(|p| *p != Principal::anonymous())
        .collect();
    principals.sort();
    match list_users(Identity::from_slice(&[1]).unwrap(), &state) {
        UserListResponse::Success(profiles) => {
            let listed: Vec<Vec<u8>> = profiles.iter().map(|p| p.principal_id.to_vec()).collect();
            let sorted: Vec<Vec<u8>> = principals.iter().map(|p| p.as_slice().to_vec()).collect();
            assert_eq!(listed, sorted);
        }
        other => panic!("no listing: {:?}", other),
    }
}

#[test]
fn stats_count_the_bytes_of_the_stored_chunks() {
    let mut state = State::default();
    let carol = create_test_principal("carol");
    let dave = create_test_principal("dave");
    create_user_profile(carol, named("carol"), 1, &mut state);
    match get_user_stats(carol, 50, &state) {
        UserResponse::Success(profile) => {
            assert_eq!(profile.storage_used, 0);
            assert_eq!(profile.file_count, 0);
            assert_eq!(profile.last_login, 50);
            assert_eq!(profile.created_at, 1);
        }
        other => panic!("no profile: {:?}", other),
    }
    let upload = |content: Vec<u8>, num_chunks: u64| UploadFileAtomicRequest {
        name: "f".to_string(),
        content,
        file_type: "bin".to_string(),
        num_chunks,
    };
    // 3 bytes, complete.
    upload_file_atomic(carol, upload(vec![1, 2, 3], 1), 2, &mut state).unwrap();
    // 4 + 5 bytes of 3 chunks.
    let partial = upload_file_atomic(carol, upload(vec![0; 4], 3), 2, &mut state).unwrap();
    upload_file_continue(
        carol,
        UploadFileContinueRequest { file_id: partial, chunk_id: 2, contents: vec![0; 5] },
        &mut state,
    )
    .unwrap();
    // Someone else's file does not count.
    upload_file_atomic(dave, upload(vec![0; 100], 1), 2, &mut state).unwrap();
    match get_user_stats(carol, 60, &state) {
        UserResponse::Success(profile) => {
            assert_eq!(profile.storage_used, 12);
            assert_eq!(profile.file_count, 2);
            assert_eq!(profile.last_login, 60);
        }
        other => panic!("no profile: {:?}", other),
    }
    // Nothing was recorded.
    assert_eq!(state.user_profiles.get(&carol).unwrap().storage_used, 0);
    assert_eq!(state.user_profiles.get(&carol).unwrap().last_login, 1);
}

#[test]
fn text_is_normalized() {
    assert!(is_blank(""));
    assert!(is_blank(" \t\r\n"));
    assert!(!is_blank(" a "));
    assert_eq!(normalize("  Hello World  "), "hello world");
    assert_eq!(normalize("ÄÖ\u{a0}"), "äö");
    assert_eq!(normalize("x"), "x");
    assert_eq!(normalize("   "), "");
}

#[test]
fn profile_is_made_under_the_username_that_is_given() {
    let mut state = State::default();
    let carol = create_test_principal("carol");
    let dave = create_test_principal("dave");
    // The username is taken as it is given; the name asked for only has to be short enough.
    let result = create_user_with_username(carol, named("Carol"), false, "CAROL".to_string(), 3, &mut state);
    match result {
        UserResponse::Success(profile) => {
            assert_eq!(profile.username, "CAROL");
            assert_eq!(profile.principal_id, carol);
        }
        other => panic!("no profile: {:?}", other),
    }
    assert_eq!(
        create_user_with_username(dave, named("dave"), true, "dave".to_string(), 3, &mut state),
        UserResponse::InvalidInput
    );
    assert_eq!(
        create_user_with_username(dave, named(&"d".repeat(51)), false, "dave".to_string(), 3, &mut state),
        UserResponse::InvalidInput
    );
    assert_eq!(
        create_user_with_username(dave, named("dave"), false, "CAROL".to_string(), 3, &mut state),
        UserResponse::AlreadyExists
    );
    assert_eq!(
        create_user_with_username(
            Identity::anonymous(),
            named("dave"),
            false,
            "dave".to_string(),
            3,
            &mut state
        ),
        UserResponse::NotAuthenticated
    );
    assert_eq!(state.user_count, 1);

    let result =
        update_user_with_username(carol, Some("c2".to_string()), None, Some("c@x".to_string()), &mut state);
    match result {
        UserResponse::Success(profile) => {
            assert_eq!(profile.username, "c2");
            assert_eq!(profile.email, Some("c@x".to_string()));
            assert_eq!(profile.display_name, None);
        }
        other => panic!("no profile: {:?}", other),
    }
    assert_eq!(
        update_user_with_username(carol, Some(String::new()), None, None, &mut state),
        UserResponse::InvalidInput
    );
    assert_eq!(state.username_to_principal.get(&"c2".to_string()), Some(&carol));
    assert!(state.username_to_principal.get(&"CAROL".to_string()).is_none());
}
