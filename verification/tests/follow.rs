use feedcore::errors::FollowServiceError;
use feedcore::errors::UserServiceError;
use feedcore::follow::FollowService;
use feedcore::users::UserService;

#[test]
fn self_follow_always_fails() {
    let mut svc = FollowService::new();
    for a in [1, 2, -5, 0, i32::MAX] {
        assert_eq!(svc.follow(a, a).unwrap_err(), FollowServiceError::CannotFollowSelf);
    }
    assert!(!svc.is_following(1, 1));
}

#[test]
fn duplicate_follow_is_rejected_not_absorbed() {
    let mut svc = FollowService::new();
    assert!(svc.follow(1, 2).is_ok());
    assert_eq!(svc.follow(1, 2).unwrap_err(), FollowServiceError::AlreadyFollowing);
    assert!(svc.is_following(1, 2));
}

#[test]
fn edges_are_directed() {
    let mut svc = FollowService::new();
    assert!(svc.follow(1, 2).is_ok());
    assert!(!svc.is_following(2, 1));
    assert!(svc.follow(2, 1).is_ok());
    assert!(svc.is_following(2, 1));
}

#[test]
fn unfollow_without_follow_fails() {
    let mut svc = FollowService::new();
    assert_eq!(svc.unfollow(1, 2).unwrap_err(), FollowServiceError::NotFollowing);
}

#[test]
fn follow_unfollow_follow_walks_the_pair_state_machine() {
    // Absent -> Present -> Absent -> Present.
    let mut svc = FollowService::new();
    assert!(svc.follow(1, 2).is_ok());
    assert!(svc.is_following(1, 2));
    assert!(svc.unfollow(1, 2).is_ok());
    assert!(!svc.is_following(1, 2));
    assert!(svc.follow(1, 2).is_ok());
    assert!(svc.is_following(1, 2));
}

#[test]
fn unfollow_removes_only_the_named_edge() {
    let mut svc = FollowService::new();
    assert!(svc.follow(1, 2).is_ok());
    assert!(svc.follow(1, 3).is_ok());
    assert!(svc.follow(4, 2).is_ok());
    assert!(svc.unfollow(1, 2).is_ok());
    assert!(!svc.is_following(1, 2));
    assert!(svc.is_following(1, 3));
    assert!(svc.is_following(4, 2));
}

#[test]
fn users_register_with_increasing_ids() {
    let mut svc = UserService::new();
    let a = svc.create_user("alice".to_string()).unwrap();
    let b = svc.create_user("bob".to_string()).unwrap();
    assert_eq!(a.id, 1);
    assert_eq!(b.id, 2);
    assert_eq!(a.username, "alice");
    let found = svc.find_by_id(2).unwrap();
    assert_eq!(found.username, "bob");
    assert!(svc.find_by_id(3).is_none());
}

#[test]
fn username_stays_untrimmed_in_the_record() {
    let mut svc = UserService::new();
    let u = svc.create_user(" carol ".to_string()).unwrap();
    assert_eq!(u.username, " carol ");
}

#[test]
fn exhausted_user_id_space_is_a_storage_failure() {
    let mut svc = UserService::new();
    svc.next_id = i32::MAX;
    assert_eq!(
        svc.create_user("dave".to_string()).unwrap_err(),
        UserServiceError::DatabaseError
    );
}

#[test]
fn blank_username_is_rejected() {
    let mut svc = UserService::new();
    assert_eq!(
        svc.create_user("  \n".to_string()).unwrap_err(),
        UserServiceError::EmptyUsername
    );
    assert!(svc.find_by_id(1).is_none());
}
