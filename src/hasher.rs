use vstd::prelude::*;
use rand::Rng;

use crate::status::Status;

verus! {

#[verifier::external_type_specification]
#[verifier::external_body]
pub struct ExBcryptError(bcrypt::BcryptError);

/// bcrypt work factor: bcrypt's own default.
pub const HASH_COST: u32 = 12;

/// Secret appended to every password before hashing; built into the binary,
/// never stored.
pub const PEPPER: &'static str = "PkCt&farjdWL2&WTaoddA2u7S4hfxDkbtNFxxU92";

/// The text of `bcrypt::hash_with_salt(input, cost, salt)`.
pub uninterp spec fn bcrypt_hash_of(input: Seq<char>, cost: u32, salt: Seq<u8>) -> Seq<char>;

/// What `bcrypt::verify(input, hash)` answers when it can read `hash`.
pub uninterp spec fn bcrypt_verify_of(input: Seq<char>, hash: Seq<char>) -> bool;

/// A password followed by the pepper.
pub open spec fn peppered(p: Seq<char>) -> Seq<char> {
    p + PEPPER@
}

/// A bcrypt work factor that bcrypt accepts.
pub open spec fn valid_cost(cost: u32) -> bool {
    4 <= cost <= 31
}

/// The hash stored for password `p` hashed at `cost` with `salt`.
pub open spec fn stored_hash(p: Seq<char>, cost: u32, salt: Seq<u8>) -> Seq<char> {
    bcrypt_hash_of(peppered(p), cost, salt)
}

/// Whether `h` is the stored hash of `p` under some valid cost and salt.
pub open spec fn hashes_to(p: Seq<char>, h: Seq<char>) -> bool {
    exists|c: u32, s: Seq<u8>| valid_cost(c) && s.len() == 16 && h == #[trigger] stored_hash(p, c, s)
}

/// Relies on rand's `thread_rng`, a cryptographically secure generator,
/// filling 16 bytes.
#[verifier::external_body]
pub(crate) fn random_bytes() -> (r: [u8; 16]) {
    let mut b = [0u8; 16];
    rand::thread_rng().fill(&mut b);
    b
}

/// Relies on `bcrypt::hash_with_salt`, formatted by `HashParts::to_string`:
/// it fails only for a cost outside 4 to 31.
#[verifier::external_body]
fn bcrypt_hash(input: &str, cost: u32, salt: [u8; 16]) -> (r: Result<String, bcrypt::BcryptError>)
    ensures
        r is Ok <==> 4 <= cost <= 31,
        r is Ok ==> r->Ok_0@ == bcrypt_hash_of(input@, cost, salt@),
{
    bcrypt::hash_with_salt(input.as_bytes(), cost, salt).map(|h| h.to_string())
}

/// Relies on `bcrypt::verify`: it reads the cost and salt from `hash`,
/// hashes `input` again with them and compares in constant time. It reads
/// every hash that `hash_with_salt` made, from any input, and confirms one
/// made from `input`.
#[verifier::external_body]
fn bcrypt_verify(input: &str, hash: &str) -> (r: Result<bool, bcrypt::BcryptError>)
    ensures
        r is Ok ==> r->Ok_0 == bcrypt_verify_of(input@, hash@),
        (exists|c: u32, s: Seq<u8>|
            4 <= c <= 31 && s.len() == 16 && hash@ == #[trigger] bcrypt_hash_of(input@, c, s))
            ==> r matches Ok(true),
        (exists|other: Seq<char>, c: u32, s: Seq<u8>|
            4 <= c <= 31 && s.len() == 16 && hash@ == #[trigger] bcrypt_hash_of(other, c, s)) ==> r is Ok,
{
    bcrypt::verify(input.as_bytes(), hash)
}

/// Whether `h` is a hash that bcrypt made, from any input, at a valid cost
/// and with a 16-byte salt.
pub open spec fn bcrypt_made(h: Seq<char>) -> bool {
    exists|x: Seq<char>, c: u32, s: Seq<u8>| valid_cost(c) && s.len() == 16 && h == #[trigger] bcrypt_hash_of(x, c, s)
}

/// Salting, peppering and hashing of passwords.
pub struct Password;

impl Password {
    /// Sixteen fresh random bytes.
    pub fn generate_salt() -> (r: [u8; 16]) {
        random_bytes()
    }

    /// The password followed by the pepper.
    pub fn generate_password(password: &str) -> (r: String)
        ensures
            r@ == peppered(password@),
    {
        let mut s = password.to_owned();
        s.append(PEPPER);
        s
    }

    /// bcrypt of the peppered password, at the given cost and salt.
    pub fn hash_password(password: &str, cost: u32, salt: [u8; 16]) -> (r: String)
        requires
            valid_cost(cost),
        ensures
            r@ == stored_hash(password@, cost, salt@),
    {
        let input = Password::generate_password(password);
        match bcrypt_hash(input.as_str(), cost, salt) {
            Ok(h) => h,
            Err(_) => String::new(),
        }
    }

    /// Checks a password against a stored hash. A hash that cannot be read
    /// is reported as an invariant violation, never as a mismatch.
    pub fn compare_password(password: &str, hash: &str) -> (r: Result<bool, Status>)
        ensures
            r is Ok ==> r->Ok_0 == bcrypt_verify_of(peppered(password@), hash@),
            r is Err ==> r->Err_0 == Status::InvariantViolation,
            hashes_to(password@, hash@) ==> r == Ok::<bool, Status>(true),
            bcrypt_made(hash@) ==> r is Ok,
    {
        let input = Password::generate_password(password);
        proof {
            if hashes_to(password@, hash@) {
                let (c, s) = choose|c: u32, s: Seq<u8>|
                    valid_cost(c) && s.len() == 16 && hash@ == #[trigger] stored_hash(password@, c, s);
                assert(4 <= c <= 31 && s.len() == 16 && hash@ == bcrypt_hash_of(input@, c, s));
            }
            if bcrypt_made(hash@) {
                let (x, c, s) = choose|x: Seq<char>, c: u32, s: Seq<u8>|
                    valid_cost(c) && s.len() == 16 && hash@ == #[trigger] bcrypt_hash_of(x, c, s);
                assert(4 <= c <= 31 && s.len() == 16 && hash@ == bcrypt_hash_of(x, c, s));
            }
        }
        match bcrypt_verify(input.as_str(), hash) {
            Ok(b) => Ok(b),
            Err(_) => Err(Status::InvariantViolation),
        }
    }
}

} // verus!
