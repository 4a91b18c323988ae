use vstd::prelude::*;

verus! {

/// Every outcome that a validation or an account operation can report.
#[derive(Clone, Copy, Debug, PartialEq, Eq, Structural)]
pub enum Status {
    UsernameValid,
    UsernameCharacters,
    UsernameInappropriate,
    PasswordSecure,
    PasswordLength,
    PasswordBreached,
    PasswordWeak,
    AccountCreated,
    UsernameTaken,
    LoginSucceeded,
    AuthenticationFailed,
    PasswordChanged,
    StorageUnavailable,
    InvariantViolation,
}

impl Status {
    /// Whether the outcome is an acceptance.
    pub open spec fn accepted(self) -> bool {
        match self {
            Status::UsernameValid | Status::PasswordSecure | Status::AccountCreated
            | Status::LoginSucceeded | Status::PasswordChanged => true,
            _ => false,
        }
    }

    /// The user-facing text of the outcome.
    pub open spec fn text(self) -> Seq<char> {
        match self {
            Status::UsernameValid => "Username is valid"@,
            Status::UsernameCharacters => "Invalid username, characters not usable"@,
            Status::UsernameInappropriate => "Inappropriate username, not allowed"@,
            Status::PasswordSecure => "Password is secure"@,
            Status::PasswordLength => "Password length is not acceptable"@,
            Status::PasswordBreached => "Password compromised, found online"@,
            Status::PasswordWeak => "Password is weak, use another"@,
            Status::AccountCreated => "account created"@,
            Status::UsernameTaken => "username already in use"@,
            Status::LoginSucceeded => "login succeeded"@,
            Status::AuthenticationFailed => "Invalid credentials, try again"@,
            Status::PasswordChanged => "Password changed"@,
            Status::StorageUnavailable => "Internal error, try again later"@,
            Status::InvariantViolation => "Stored credentials are unreadable"@,
        }
    }

    pub fn is_accepted(&self) -> (r: bool)
        ensures
            r == self.accepted(),
    {
        match self {
            Status::UsernameValid | Status::PasswordSecure | Status::AccountCreated
            | Status::LoginSucceeded | Status::PasswordChanged => true,
            _ => false,
        }
    }

    pub fn message(&self) -> (r: String)
        ensures
            r@ == self.text(),
    {
        match self {
            Status::UsernameValid => "Username is valid".to_owned(),
            Status::UsernameCharacters => "Invalid username, characters not usable".to_owned(),
            Status::UsernameInappropriate => "Inappropriate username, not allowed".to_owned(),
            Status::PasswordSecure => "Password is secure".to_owned(),
            Status::PasswordLength => "Password length is not acceptable".to_owned(),
            Status::PasswordBreached => "Password compromised, found online".to_owned(),
            Status::PasswordWeak => "Password is weak, use another".to_owned(),
            Status::AccountCreated => "account created".to_owned(),
            Status::UsernameTaken => "username already in use".to_owned(),
            Status::LoginSucceeded => "login succeeded".to_owned(),
            Status::AuthenticationFailed => "Invalid credentials, try again".to_owned(),
            Status::PasswordChanged => "Password changed".to_owned(),
            Status::StorageUnavailable => "Internal error, try again later".to_owned(),
            Status::InvariantViolation => "Stored credentials are unreadable".to_owned(),
        }
    }
}

/// Result of a validation or an account operation, as shown to the user.
pub struct Response {
    pub validity: bool,
    pub message: String,
}

impl Response {
    /// The response reports exactly the outcome `s`.
    pub open spec fn reports(&self, s: Status) -> bool {
        self.validity == s.accepted() && self.message@ == s.text()
    }

    pub fn from_status(s: Status) -> (r: Response)
        ensures
            r.reports(s),
    {
        Response { validity: s.is_accepted(), message: s.message() }
    }
}

/// Credentials as collected from a user, with the salt they were hashed with.
pub struct Request {
    pub username: String,
    pub password: String,
    pub salt: String,
}

} // verus!
