use vstd::prelude::*;
use rustrict::CensorStr;
use unicode_normalization::UnicodeNormalization;

use crate::status::{Response, Status};
use crate::text::{count_chars, is_word, matches_word};

verus! {

/// Shortest accepted password, in characters.
pub const MIN_PASSWORD_CHARS: usize = 8;

/// Longest accepted password, in characters.
pub const MAX_PASSWORD_CHARS: usize = 64;

/// What `nfkd` of unicode-normalization makes of a text.
pub uninterp spec fn nfkd_of(s: Seq<char>) -> Seq<char>;

/// What `nfkc` of unicode-normalization makes of a text.
pub uninterp spec fn nfkc_of(s: Seq<char>) -> Seq<char>;

/// What `nfd` of unicode-normalization makes of a text.
pub uninterp spec fn nfd_of(s: Seq<char>) -> Seq<char>;

/// Whether rustrict's default filter classifies a text as inappropriate.
pub uninterp spec fn inappropriate_of(s: Seq<char>) -> bool;

pub open spec fn ascii_lower_char(c: char) -> char {
    if 'A' <= c && c <= 'Z' {
        ((c as u8) + 32u8) as char
    } else {
        c
    }
}

pub open spec fn ascii_lower(s: Seq<char>) -> Seq<char> {
    s.map_values(|c: char| ascii_lower_char(c))
}

/// The canonical, comparable form of a username: ASCII letters folded to
/// lower case, then compatibility decomposition, compatibility composition
/// and canonical decomposition.
pub open spec fn normal_username(raw: Seq<char>) -> Seq<char> {
    nfd_of(nfkc_of(nfkd_of(ascii_lower(raw))))
}

/// The verdict on a username.
pub open spec fn username_status(raw: Seq<char>) -> Status {
    let n = normal_username(raw);
    if !is_word(n) {
        Status::UsernameCharacters
    } else if inappropriate_of(n) {
        Status::UsernameInappropriate
    } else {
        Status::UsernameValid
    }
}

/// Whether `p` is, character for character, one of the texts of `list`.
pub open spec fn listed(list: Seq<String>, p: Seq<char>) -> bool {
    exists|i: int| 0 <= i < list.len() && (#[trigger] list[i])@ == p
}

/// Whether a password's length in characters lies in the accepted range.
pub open spec fn length_ok(p: Seq<char>) -> bool {
    MIN_PASSWORD_CHARS <= p.len() && p.len() <= MAX_PASSWORD_CHARS
}

/// Relies on str::to_ascii_lowercase: letters `A` to `Z` become `a` to `z`,
/// every other character stays.
#[verifier::external_body]
fn to_ascii_lower(s: &str) -> (r: String)
    ensures
        r@ == ascii_lower(s@),
{
    s.to_ascii_lowercase()
}

/// Relies on unicode-normalization's `nfkd`, collected into a string.
#[verifier::external_body]
fn nfkd(s: &str) -> (r: String)
    ensures
        r@ == nfkd_of(s@),
{
    s.nfkd().collect()
}

/// Relies on unicode-normalization's `nfkc`, collected into a string.
#[verifier::external_body]
fn nfkc(s: &str) -> (r: String)
    ensures
        r@ == nfkc_of(s@),
{
    s.nfkc().collect()
}

/// Relies on unicode-normalization's `nfd`, collected into a string.
#[verifier::external_body]
fn nfd(s: &str) -> (r: String)
    ensures
        r@ == nfd_of(s@),
{
    s.nfd().collect()
}

/// Relies on rustrict's `CensorStr::is_inappropriate` with its built-in word
/// list, which also catches digit-for-letter substitutions.
#[verifier::external_body]
fn is_inappropriate(s: &str) -> (r: bool)
    ensures
        r == inappropriate_of(s@),
{
    s.is_inappropriate()
}

/// Brings a username to its canonical, comparable form.
pub fn normalize_username(raw: &str) -> (r: String)
    ensures
        r@ == normal_username(raw@),
{
    let lower = to_ascii_lower(raw);
    let a = nfkd(lower.as_str());
    let b = nfkc(a.as_str());
    nfd(b.as_str())
}

/// Whether `p` equals one of the texts of `list`.
pub fn list_contains(list: &Vec<String>, p: &str) -> (r: bool)
    ensures
        r == listed(list@, p@),
{
    let wanted = p.to_owned();
    let mut i: usize = 0;
    while i < list.len()
        invariant
            i <= list.len(),
            wanted@ == p@,
            forall|j: int| 0 <= j < i ==> (#[trigger] list@[j])@ != p@,
        decreases list.len() - i,
    {
        if list[i] == wanted {
            assert(list@[i as int]@ == p@);
            return true;
        }
        i = i + 1;
    }
    false
}

/// Username and password policy, with the weak and breached password lists
/// that it was given once at start-up.
pub struct Verifier {
    weak: Vec<String>,
    breached: Vec<String>,
}

impl Verifier {
    /// The known-weak passwords.
    pub closed spec fn weak_list(&self) -> Seq<String> {
        self.weak@
    }

    /// The passwords known to have been breached.
    pub closed spec fn breached_list(&self) -> Seq<String> {
        self.breached@
    }

    /// The verdict on a password.
    pub open spec fn password_status(&self, p: Seq<char>) -> Status {
        if !length_ok(p) {
            Status::PasswordLength
        } else if listed(self.breached_list(), p) {
            Status::PasswordBreached
        } else if listed(self.weak_list(), p) {
            Status::PasswordWeak
        } else {
            Status::PasswordSecure
        }
    }

    /// The verdict on a username and password pair: the username's rejection
    /// comes first.
    pub open spec fn account_status(&self, u: Seq<char>, p: Seq<char>) -> Status {
        if !username_status(u).accepted() {
            username_status(u)
        } else {
            self.password_status(p)
        }
    }

    pub fn new(weak: Vec<String>, breached: Vec<String>) -> (r: Verifier)
        ensures
            r.weak_list() == weak@,
            r.breached_list() == breached@,
    {
        Verifier { weak, breached }
    }

    /// Accepts a username whose canonical form is made of `[a-zA-Z0-9_]` and
    /// is not classified as inappropriate.
    pub fn validate_username(&self, username: &str) -> (r: Response)
        ensures
            r.reports(username_status(username@)),
            !is_word(normal_username(username@)) ==> !r.validity,
    {
        let n = normalize_username(username);
        if !matches_word(n.as_str()) {
            Response::from_status(Status::UsernameCharacters)
        } else if is_inappropriate(n.as_str()) {
            Response::from_status(Status::UsernameInappropriate)
        } else {
            Response::from_status(Status::UsernameValid)
        }
    }

    /// Accepts a password of 8 to 64 characters that is on neither list.
    pub fn validate_password(&self, password: &str) -> (r: Response)
        ensures
            r.reports(self.password_status(password@)),
            !length_ok(password@) ==> !r.validity,
    {
        let n = count_chars(password, MAX_PASSWORD_CHARS + 1);
        if n < MIN_PASSWORD_CHARS || n > MAX_PASSWORD_CHARS {
            Response::from_status(Status::PasswordLength)
        } else if list_contains(&self.breached, password) {
            Response::from_status(Status::PasswordBreached)
        } else if list_contains(&self.weak, password) {
            Response::from_status(Status::PasswordWeak)
        } else {
            Response::from_status(Status::PasswordSecure)
        }
    }

    /// Both the username and the password are acceptable.
    pub fn validate_account(&self, username: &str, password: &str) -> (r: bool)
        ensures
            r == self.account_status(username@, password@).accepted(),
            r == (username_status(username@).accepted() && self.password_status(password@).accepted()),
    {
        self.validate_username(username).validity && self.validate_password(password).validity
    }
}

} // verus!
