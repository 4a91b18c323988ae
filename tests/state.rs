use vault_auth::state::{LoggedInState, Login, Profile, SignUp, TabsState, UserMode};
use vault_auth::status::{Response, Status};

#[test]
fn tabs_wrap_forward_and_back() {
    let mut t = TabsState::new(vec!["Welcome", "Sign Up", "Login"]);
    assert_eq!(t.index, 0);
    t.next();
    t.next();
    assert_eq!(t.index, 2);
    t.next();
    assert_eq!(t.index, 0);
    t.previous();
    assert_eq!(t.index, 2);
    t.previous();
    assert_eq!(t.index, 1);
    assert_eq!(t.titles[t.index], "Sign Up");
}

#[test]
fn single_tab_stays() {
    let mut t = TabsState::new(vec!["Welcome"]);
    t.next();
    assert_eq!(t.index, 0);
    t.previous();
    assert_eq!(t.index, 0);
}

#[test]
fn member_tabs_wrap() {
    let mut t = LoggedInState::new(vec!["Welcome", "Notepad", "Credential Manager"]);
    t.previous();
    assert_eq!(t.index, 2);
    t.next();
    assert_eq!(t.index, 0);
    t.next();
    assert_eq!(t.index, 1);
}

#[test]
fn next_from_out_of_range_index_wraps() {
    let mut t = LoggedInState::new(vec!["a", "b", "c"]);
    t.index = usize::MAX;
    t.next();
    assert_eq!(t.index, (usize::MAX % 3 + 1) % 3);
}

#[test]
fn modes_compare() {
    assert_eq!(SignUp::Username, SignUp::Username.clone());
    assert_ne!(Login::Username, Login::Password);
    assert_ne!(Profile::OldPassword, Profile::NewPassword);
    assert_eq!(UserMode::Normal, UserMode::Normal);
}

#[test]
fn responses_follow_status() {
    let r = Response::from_status(Status::AccountCreated);
    assert!(r.validity);
    assert_eq!(r.message, "account created");
    let r = Response::from_status(Status::UsernameTaken);
    assert!(!r.validity);
    assert_eq!(r.message, "username already in use");
    let r = Response::from_status(Status::StorageUnavailable);
    assert!(!r.validity);
    assert_eq!(r.message, "Internal error, try again later");
    assert!(Status::LoginSucceeded.is_accepted());
    assert!(!Status::AuthenticationFailed.is_accepted());
}
