use vstd::prelude::*;

use crate::account::{login_status, new_record, sign_up_status, signed_up};
use crate::hasher::{hashes_to, stored_hash, valid_cost};
use crate::policy::{normal_username, username_status, Verifier};
use crate::status::{Response, Status};
use crate::store::RecordView;

verus! {

/// Validation is a function of its input: two responses that both report
/// the verdict on the same username, or on the same password under the same
/// lists, are equal in validity and in message.
pub proof fn lemma_validation_idempotent(v: Verifier, input: Seq<char>, r1: Response, r2: Response)
    ensures
        r1.reports(username_status(input)) && r2.reports(username_status(input)) ==> r1.validity
            == r2.validity && r1.message@ == r2.message@,
        r1.reports(v.password_status(input)) && r2.reports(v.password_status(input)) ==> r1.validity
            == r2.validity && r1.message@ == r2.message@,
{
}

/// A hash made from a password at a valid cost, with any 16-byte salt, is
/// one that the same password is confirmed against.
pub proof fn lemma_hash_round_trip(p: Seq<char>, cost: u32, salt: Seq<u8>)
    requires
        valid_cost(cost),
        salt.len() == 16,
    ensures
        hashes_to(p, stored_hash(p, cost, salt)),
{
    assert(valid_cost(cost) && salt.len() == 16 && stored_hash(p, cost, salt) == stored_hash(
        p,
        cost,
        salt,
    ));
}

/// Once `u` has signed up, signing up `u` again with any acceptable password
/// is refused as a taken username and leaves the accounts, and so the stored
/// hash, as they were.
pub proof fn lemma_sign_up_unique(
    v: Verifier,
    accounts: Map<Seq<char>, RecordView>,
    u: Seq<char>,
    first: Seq<char>,
    second: Seq<char>,
    cost: u32,
    first_salt: Seq<u8>,
    first_id: Seq<u8>,
    second_salt: Seq<u8>,
    second_id: Seq<u8>,
)
    requires
        sign_up_status(v, accounts, u, first, first_id) == Status::AccountCreated,
        v.password_status(second).accepted(),
    ensures
        ({
            let after = signed_up(v, accounts, u, first, cost, first_salt, first_id);
            &&& sign_up_status(v, after, u, second, second_id) == Status::UsernameTaken
            &&& signed_up(v, after, u, second, cost, second_salt, second_id) == after
            &&& after[normal_username(u)] == new_record(u, first, cost, first_salt, first_id)
        }),
{
    let after = signed_up(v, accounts, u, first, cost, first_salt, first_id);
    assert(after.contains_key(normal_username(u)));
}

/// Every failed login reads the same, whether the user is unknown or the
/// password is wrong; logging in as an unknown user always fails.
pub proof fn lemma_login_secrecy(
    accounts: Map<Seq<char>, RecordView>,
    u: Seq<char>,
    p: Seq<char>,
    other_u: Seq<char>,
    other_p: Seq<char>,
)
    ensures
        !accounts.contains_key(normal_username(u)) ==> login_status(accounts, u, p)
            == Status::AuthenticationFailed,
        login_status(accounts, u, p) != Status::LoginSucceeded && login_status(accounts, other_u, other_p)
            != Status::LoginSucceeded ==> login_status(accounts, u, p) == login_status(
            accounts,
            other_u,
            other_p,
        ) && login_status(accounts, u, p).text() == login_status(accounts, other_u, other_p).text(),
{
}

} // verus!
