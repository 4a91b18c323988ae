use vstd::prelude::*;

use crate::hasher::{
    bcrypt_made, bcrypt_verify_of, hashes_to, peppered, random_bytes, stored_hash, valid_cost, Password,
    HASH_COST,
};
use crate::policy::{normal_username, normalize_username, Verifier};
use crate::status::{Response, Status};
use crate::store::{
    id_in_use, ids_unique, uuid_string, uuid_text, AccountStore, Record, RecordView, StoreError,
};
use crate::vault::{
    derivable, derive_vault_key, open_credential, opens, reseal_all, sealable, resealed, reseals, seal_credential, sealed_as,
    sealed_view_of, vault_key, Credential, CredentialView, SealedCredential, SealedView, Vault,
};

verus! {

/// The outcome of signing up `u` with password `p` under the identifier
/// bytes `id`. An identifier already in use is refused as an internal error.
pub open spec fn sign_up_status(
    v: Verifier,
    accounts: Map<Seq<char>, RecordView>,
    u: Seq<char>,
    p: Seq<char>,
    id: Seq<u8>,
) -> Status {
    let verdict = v.account_status(u, p);
    if !verdict.accepted() {
        verdict
    } else if accounts.contains_key(normal_username(u)) {
        Status::UsernameTaken
    } else if id_in_use(accounts, uuid_text(id)) {
        Status::StorageUnavailable
    } else {
        Status::AccountCreated
    }
}

/// The record that signing up `u` with `p` stores, hashed at `cost` with
/// `salt`, under the identifier bytes `id`.
pub open spec fn new_record(u: Seq<char>, p: Seq<char>, cost: u32, salt: Seq<u8>, id: Seq<u8>) -> RecordView {
    RecordView {
        id: uuid_text(id),
        username: normal_username(u),
        password: stored_hash(p, cost, salt),
        salt,
    }
}

/// The accounts after signing up `u` with `p`.
pub open spec fn signed_up(
    v: Verifier,
    accounts: Map<Seq<char>, RecordView>,
    u: Seq<char>,
    p: Seq<char>,
    cost: u32,
    salt: Seq<u8>,
    id: Seq<u8>,
) -> Map<Seq<char>, RecordView> {
    if sign_up_status(v, accounts, u, p, id) == Status::AccountCreated {
        accounts.insert(normal_username(u), new_record(u, p, cost, salt, id))
    } else {
        accounts
    }
}

/// The outcome of logging in as `u` with `p`, when the stored hash is
/// readable: an unknown user and a wrong password read the same.
pub open spec fn login_status(accounts: Map<Seq<char>, RecordView>, u: Seq<char>, p: Seq<char>) -> Status {
    let n = normal_username(u);
    if !accounts.contains_key(n) {
        Status::AuthenticationFailed
    } else if !bcrypt_verify_of(peppered(p), accounts[n].password) {
        Status::AuthenticationFailed
    } else {
        Status::LoginSucceeded
    }
}

/// The outcome of changing the password of `u` from `old_p` to `new_p`, when
/// the stored hash is readable.
pub open spec fn change_status(
    v: Verifier,
    accounts: Map<Seq<char>, RecordView>,
    u: Seq<char>,
    old_p: Seq<char>,
    new_p: Seq<char>,
) -> Status {
    if login_status(accounts, u, old_p) != Status::LoginSucceeded {
        Status::AuthenticationFailed
    } else if !v.password_status(new_p).accepted() {
        v.password_status(new_p)
    } else {
        Status::PasswordChanged
    }
}

/// The accounts after a password change that succeeded.
pub open spec fn password_changed(
    accounts: Map<Seq<char>, RecordView>,
    u: Seq<char>,
    new_p: Seq<char>,
    cost: u32,
    salt: Seq<u8>,
) -> Map<Seq<char>, RecordView> {
    let n = normal_username(u);
    accounts.insert(n, RecordView { password: stored_hash(new_p, cost, salt), salt, ..accounts[n] })
}

/// Every credential that `owner` keeps opens with the vault key derived from
/// `password`.
pub open spec fn readable(
    held: Map<(Seq<char>, Seq<char>), SealedView>,
    owner: Seq<char>,
    password: Seq<char>,
) -> bool {
    forall|a: Seq<char>|
        #[trigger] held.contains_key((owner, a)) ==> opens(vault_key(password, owner), held[(owner, a)])
}

/// `u` names an account whose stored hash is one that bcrypt made, so that
/// it can be read.
pub open spec fn hash_readable(accounts: Map<Seq<char>, RecordView>, u: Seq<char>) -> bool {
    accounts.contains_key(normal_username(u)) && bcrypt_made(accounts[normal_username(u)].password)
}

/// `owner` keeps at least one credential.
pub open spec fn keeps_any(held: Map<(Seq<char>, Seq<char>), SealedView>, owner: Seq<char>) -> bool {
    exists|a: Seq<char>| #[trigger] held.contains_key((owner, a))
}

/// Twelve fresh random bytes.
fn fresh_nonce() -> [u8; 12] {
    let b = random_bytes();
    [b[0], b[1], b[2], b[3], b[4], b[5], b[6], b[7], b[8], b[9], b[10], b[11]]
}

/// The account service: sign-up, login and password change over the account
/// table, under the username and password policy, and the vault of
/// credentials that each account keeps, open only to its password.
pub struct Account {
    policy: Verifier,
    store: AccountStore,
    vault: Vault,
    cost: u32,
}

impl Account {
    pub closed spec fn policy(&self) -> Verifier {
        self.policy
    }

    pub closed spec fn accounts(&self) -> Map<Seq<char>, RecordView> {
        self.store.accounts()
    }

    /// The bcrypt work factor of new hashes.
    pub closed spec fn cost(&self) -> u32 {
        self.cost
    }

    /// The vault's credentials, keyed by owner identifier and application.
    pub closed spec fn credentials_held(&self) -> Map<(Seq<char>, Seq<char>), SealedView> {
        self.vault.contents()
    }

    pub closed spec fn wf(&self) -> bool {
        self.store.wf() && self.vault.wf() && valid_cost(self.cost)
    }

    /// A service with no accounts yet, hashing at bcrypt's default cost.
    pub fn new(policy: Verifier) -> (r: Account)
        ensures
            r.wf(),
            r.policy() == policy,
            r.cost() == HASH_COST,
            r.accounts() == Map::<Seq<char>, RecordView>::empty(),
            r.credentials_held() == Map::<(Seq<char>, Seq<char>), SealedView>::empty(),
    {
        Account { policy, store: AccountStore::new(), vault: Vault::new(), cost: HASH_COST }
    }

    /// A service with no accounts yet, hashing at the given cost.
    pub fn with_cost(policy: Verifier, cost: u32) -> (r: Account)
        requires
            valid_cost(cost),
        ensures
            r.wf(),
            r.policy() == policy,
            r.cost() == cost,
            r.accounts() == Map::<Seq<char>, RecordView>::empty(),
            r.credentials_held() == Map::<(Seq<char>, Seq<char>), SealedView>::empty(),
    {
        Account { policy, store: AccountStore::new(), vault: Vault::new(), cost }
    }

    /// Takes back a record read from durable storage.
    pub fn restore(&mut self, record: Record) -> (r: Result<(), StoreError>)
        requires
            old(self).wf(),
        ensures
            final(self).wf(),
            final(self).policy() == old(self).policy(),
            final(self).cost() == old(self).cost(),
            final(self).credentials_held() == old(self).credentials_held(),
            ids_unique(final(self).accounts()),
            r is Err <==> old(self).accounts().contains_key(record@.username) || id_in_use(
                old(self).accounts(),
                record@.id,
            ),
            r is Ok ==> final(self).accounts() == old(self).accounts().insert(
                record@.username,
                record@,
            ),
            r is Err ==> final(self).accounts() == old(self).accounts(),
    {
        let r = self.store.create(record);
        proof {
            self.store.lemma_ids_unique();
        }
        r
    }

    /// Takes back a sealed credential read from durable storage.
    pub fn restore_credential(&mut self, owner: &str, sealed: SealedCredential)
        requires
            old(self).wf(),
        ensures
            final(self).wf(),
            final(self).policy() == old(self).policy(),
            final(self).cost() == old(self).cost(),
            final(self).accounts() == old(self).accounts(),
            final(self).credentials_held() == old(self).credentials_held().insert(
                (owner@, sealed@.app),
                sealed@,
            ),
    {
        self.vault.put(owner, sealed);
    }

    /// The sealed credentials that the account with identifier `owner`
    /// keeps, as they are stored.
    pub fn sealed_credentials(&self, owner: &str) -> (r: Vec<SealedCredential>)
        requires
            self.wf(),
        ensures
            forall|k: int|
                0 <= k < r.len() ==> {
                    &&& self.credentials_held().contains_key((owner@, (#[trigger] r@[k])@.app))
                    &&& self.credentials_held()[(owner@, r@[k]@.app)] == r@[k]@
                },
            forall|a: Seq<char>|
                #[trigger] self.credentials_held().contains_key((owner@, a)) ==> exists|k: int|
                    0 <= k < r.len() && (#[trigger] r@[k])@.app == a,
    {
        self.vault.get_all(owner)
    }

    /// The stored record of `username`, if there is one.
    pub fn find(&self, username: &str) -> (r: Option<Record>)
        requires
            self.wf(),
        ensures
            r is None <==> !self.accounts().contains_key(normal_username(username@)),
            r matches Some(rec) ==> rec@ == self.accounts()[normal_username(username@)],
    {
        let n = normalize_username(username);
        match self.store.find_by_username(n.as_str()) {
            Ok(rec) => Some(rec),
            Err(_) => None,
        }
    }

    pub fn validate_username(&self, username: &str) -> (r: Response)
        ensures
            r.reports(crate::policy::username_status(username@)),
            !crate::text::is_word(normal_username(username@)) ==> !r.validity,
    {
        self.policy.validate_username(username)
    }

    pub fn validate_password(&self, password: &str) -> (r: Response)
        ensures
            r.reports(self.policy().password_status(password@)),
            !crate::policy::length_ok(password@) ==> !r.validity,
    {
        self.policy.validate_password(password)
    }

    pub fn validate_account(&self, username: &str, password: &str) -> (r: bool)
        ensures
            r == self.policy().account_status(username@, password@).accepted(),
    {
        self.policy.validate_account(username, password)
    }

    /// Signs up `username` with `password`, hashing with `salt` and naming
    /// the account by the identifier bytes `id`.
    pub fn sign_up_with(&mut self, username: &str, password: &str, salt: [u8; 16], id: [u8; 16]) -> (r:
        Response)
        requires
            old(self).wf(),
        ensures
            final(self).wf(),
            final(self).policy() == old(self).policy(),
            final(self).cost() == old(self).cost(),
            final(self).credentials_held() == old(self).credentials_held(),
            ids_unique(final(self).accounts()),
            r.reports(sign_up_status(old(self).policy(), old(self).accounts(), username@, password@, id@)),
            r.validity ==> hashes_to(password@, final(self).accounts()[normal_username(username@)].password),
            final(self).accounts() == signed_up(
                old(self).policy(),
                old(self).accounts(),
                username@,
                password@,
                old(self).cost(),
                salt@,
                id@,
            ),
    {
        proof {
            self.store.lemma_ids_unique();
        }
        let ur = self.policy.validate_username(username);
        if !ur.validity {
            return ur;
        }
        let pr = self.policy.validate_password(password);
        if !pr.validity {
            return pr;
        }
        let name = normalize_username(username);
        let hash = Password::hash_password(password, self.cost, salt);
        let record = Record::new(uuid_string(id), name, hash, salt);
        let created = self.store.create(record);
        proof {
            self.store.lemma_ids_unique();
        }
        match created {
            Ok(()) => Response::from_status(Status::AccountCreated),
            Err(StoreError::DuplicateUsername) => Response::from_status(Status::UsernameTaken),
            Err(_) => Response::from_status(Status::StorageUnavailable),
        }
    }

    /// Signs up `username` with `password`, under a fresh salt and a fresh
    /// random identifier.
    pub fn sign_up(&mut self, username: &str, password: &str) -> (r: Response)
        requires
            old(self).wf(),
        ensures
            final(self).wf(),
            final(self).policy() == old(self).policy(),
            final(self).cost() == old(self).cost(),
            final(self).credentials_held() == old(self).credentials_held(),
            ids_unique(final(self).accounts()),
            r.validity ==> hashes_to(password@, final(self).accounts()[normal_username(username@)].password),
            exists|salt: Seq<u8>, id: Seq<u8>|
                {
                    &&& salt.len() == 16
                    &&& id.len() == 16
                    &&& r.reports(
                        sign_up_status(old(self).policy(), old(self).accounts(), username@, password@, id),
                    )
                    &&& final(self).accounts() == #[trigger] signed_up(
                        old(self).policy(),
                        old(self).accounts(),
                        username@,
                        password@,
                        old(self).cost(),
                        salt,
                        id,
                    )
                },
    {
        let salt = Password::generate_salt();
        let id = random_bytes();
        let r = self.sign_up_with(username, password, salt, id);
        assert(salt@.len() == 16 && id@.len() == 16);
        r
    }

    /// Logs in as `username` with `password`. An unknown user and a wrong
    /// password give the same response; a stored hash that cannot be read
    /// is reported as such.
    pub fn login(&self, username: &str, password: &str) -> (r: Response)
        requires
            self.wf(),
        ensures
            r.reports(login_status(self.accounts(), username@, password@)) || r.reports(
                Status::InvariantViolation,
            ),
            !self.accounts().contains_key(normal_username(username@)) ==> r.reports(
                Status::AuthenticationFailed,
            ),
            self.accounts().contains_key(normal_username(username@)) && hashes_to(
                password@,
                self.accounts()[normal_username(username@)].password,
            ) ==> r.reports(Status::LoginSucceeded),
            hash_readable(self.accounts(), username@) ==> r.reports(
                login_status(self.accounts(), username@, password@),
            ),
    {
        match self.authenticate(username, password) {
            Ok(_) => Response::from_status(Status::LoginSucceeded),
            Err(e) => Response::from_status(e),
        }
    }

    /// The record of `username` when `password` is its password.
    pub fn authenticate(&self, username: &str, password: &str) -> (r: Result<Record, Status>)
        requires
            self.wf(),
        ensures
            r matches Ok(rec) ==> {
                &&& self.accounts().contains_key(normal_username(username@))
                &&& rec@ == self.accounts()[normal_username(username@)]
                &&& login_status(self.accounts(), username@, password@) == Status::LoginSucceeded
            },
            r matches Err(e) ==> (e == Status::AuthenticationFailed && login_status(
                self.accounts(),
                username@,
                password@,
            ) == Status::AuthenticationFailed) || e == Status::InvariantViolation,
            !self.accounts().contains_key(normal_username(username@)) ==> r
                == Err::<Record, Status>(Status::AuthenticationFailed),
            self.accounts().contains_key(normal_username(username@)) && hashes_to(
                password@,
                self.accounts()[normal_username(username@)].password,
            ) ==> r is Ok,
            hash_readable(self.accounts(), username@) && r is Err ==> r->Err_0
                == Status::AuthenticationFailed,
    {
        match self.find(username) {
            None => Err(Status::AuthenticationFailed),
            Some(rec) => match Password::compare_password(password, rec.password().as_str()) {
                Ok(true) => Ok(rec),
                Ok(false) => Err(Status::AuthenticationFailed),
                Err(_) => Err(Status::InvariantViolation),
            },
        }
    }

    /// Keeps `credential` for the account of `username`, once `password`
    /// authenticates it, sealed under the account's vault key with the given
    /// nonces; replaces the one kept for the same application.
    pub fn save_credential_with(
        &mut self,
        username: &str,
        password: &str,
        credential: &Credential,
        user_nonce: [u8; 12],
        secret_nonce: [u8; 12],
    ) -> (r: Result<(), Status>)
        requires
            old(self).wf(),
        ensures
            final(self).wf(),
            final(self).policy() == old(self).policy(),
            final(self).cost() == old(self).cost(),
            final(self).accounts() == old(self).accounts(),
            r is Ok ==> {
                let id = old(self).accounts()[normal_username(username@)].id;
                &&& login_status(old(self).accounts(), username@, password@) == Status::LoginSucceeded
                &&& final(self).credentials_held() == old(self).credentials_held().insert(
                    (id, credential@.app),
                    sealed_view_of(vault_key(password@, id), user_nonce@, secret_nonce@, credential@),
                )
            },
            r is Err ==> final(self).credentials_held() == old(self).credentials_held(),
            r is Err ==> r->Err_0 == Status::AuthenticationFailed || r->Err_0 == Status::InvariantViolation
                || r->Err_0 == Status::StorageUnavailable,
            r is Err && r->Err_0 == Status::AuthenticationFailed ==> login_status(
                old(self).accounts(),
                username@,
                password@,
            ) == Status::AuthenticationFailed,
            !old(self).accounts().contains_key(normal_username(username@)) ==> r == Err::<(), Status>(
                Status::AuthenticationFailed,
            ),
            hash_readable(old(self).accounts(), username@) ==> (r is Ok <==> {
                &&& login_status(old(self).accounts(), username@, password@) == Status::LoginSucceeded
                &&& derivable(password@, old(self).accounts()[normal_username(username@)].id)
                &&& sealable(credential@)
            }),
            ({
                let n = normal_username(username@);
                &&& old(self).accounts().contains_key(n)
                &&& hashes_to(password@, old(self).accounts()[n].password)
                &&& derivable(password@, old(self).accounts()[n].id)
                &&& sealable(credential@)
            }) ==> r is Ok,
    {
        let rec = match self.authenticate(username, password) {
            Ok(rec) => rec,
            Err(e) => {
                return Err(e);
            },
        };
        let key = match derive_vault_key(password, rec.id().as_str()) {
            Ok(k) => k,
            Err(e) => {
                return Err(e);
            },
        };
        let sealed = match seal_credential(&key, user_nonce, secret_nonce, credential) {
            Ok(s) => s,
            Err(e) => {
                return Err(e);
            },
        };
        self.vault.put(rec.id().as_str(), sealed);
        Ok(())
    }

    /// Keeps `credential` for the account of `username`, once `password`
    /// authenticates it, sealed under fresh random nonces.
    pub fn save_credential(&mut self, username: &str, password: &str, credential: Credential) -> (r:
        Result<(), Status>)
        requires
            old(self).wf(),
        ensures
            final(self).wf(),
            final(self).policy() == old(self).policy(),
            final(self).cost() == old(self).cost(),
            final(self).accounts() == old(self).accounts(),
            r is Ok ==> {
                let id = old(self).accounts()[normal_username(username@)].id;
                &&& login_status(old(self).accounts(), username@, password@) == Status::LoginSucceeded
                &&& exists|n1: Seq<u8>, n2: Seq<u8>|
                    final(self).credentials_held() == old(self).credentials_held().insert(
                        (id, credential@.app),
                        #[trigger] sealed_view_of(vault_key(password@, id), n1, n2, credential@),
                    )
            },
            r is Err ==> final(self).credentials_held() == old(self).credentials_held(),
            r is Err ==> r->Err_0 == Status::AuthenticationFailed || r->Err_0 == Status::InvariantViolation
                || r->Err_0 == Status::StorageUnavailable,
            r is Err && r->Err_0 == Status::AuthenticationFailed ==> login_status(
                old(self).accounts(),
                username@,
                password@,
            ) == Status::AuthenticationFailed,
            !old(self).accounts().contains_key(normal_username(username@)) ==> r == Err::<(), Status>(
                Status::AuthenticationFailed,
            ),
            hash_readable(old(self).accounts(), username@) ==> (r is Ok <==> {
                &&& login_status(old(self).accounts(), username@, password@) == Status::LoginSucceeded
                &&& derivable(password@, old(self).accounts()[normal_username(username@)].id)
                &&& sealable(credential@)
            }),
            ({
                let n = normal_username(username@);
                &&& old(self).accounts().contains_key(n)
                &&& hashes_to(password@, old(self).accounts()[n].password)
                &&& derivable(password@, old(self).accounts()[n].id)
                &&& sealable(credential@)
            }) ==> r is Ok,
    {
        let user_nonce = fresh_nonce();
        let secret_nonce = fresh_nonce();
        self.save_credential_with(username, password, &credential, user_nonce, secret_nonce)
    }

    /// The credentials kept for the account of `username`, once `password`
    /// authenticates it, opened with the account's vault key.
    pub fn credentials(&self, username: &str, password: &str) -> (r: Result<Vec<Credential>, Status>)
        requires
            self.wf(),
        ensures
            r is Ok ==> {
                let id = self.accounts()[normal_username(username@)].id;
                let list = r->Ok_0;
                &&& login_status(self.accounts(), username@, password@) == Status::LoginSucceeded
                &&& forall|k: int|
                    0 <= k < list.len() ==> {
                        &&& self.credentials_held().contains_key((id, (#[trigger] list@[k])@.app))
                        &&& sealed_as(
                            vault_key(password@, id),
                            self.credentials_held()[(id, list@[k]@.app)],
                            list@[k]@,
                        )
                    }
                &&& forall|a: Seq<char>|
                    #[trigger] self.credentials_held().contains_key((id, a)) ==> exists|k: int|
                        0 <= k < list.len() && (#[trigger] list@[k])@.app == a
                &&& forall|k1: int, k2: int|
                    0 <= k1 < k2 < list.len() ==> (#[trigger] list@[k1])@.app != (
                    #[trigger] list@[k2])@.app
                &&& forall|k: int, c: CredentialView|
                    0 <= k < list.len() && #[trigger] sealed_as(
                        vault_key(password@, id),
                        self.credentials_held()[(id, list@[k]@.app)],
                        c,
                    ) ==> #[trigger] list@[k]@ == c
            },
            r is Err ==> r->Err_0 == Status::AuthenticationFailed || r->Err_0 == Status::InvariantViolation
                || r->Err_0 == Status::StorageUnavailable,
            r is Err && r->Err_0 == Status::AuthenticationFailed ==> login_status(
                self.accounts(),
                username@,
                password@,
            ) == Status::AuthenticationFailed,
            !self.accounts().contains_key(normal_username(username@)) ==> r is Err && r->Err_0
                == Status::AuthenticationFailed,
            ({
                let id = self.accounts()[normal_username(username@)].id;
                &&& hash_readable(self.accounts(), username@)
                &&& login_status(self.accounts(), username@, password@) == Status::LoginSucceeded
                &&& (!keeps_any(self.credentials_held(), id) || (readable(
                    self.credentials_held(),
                    id,
                    password@,
                ) && derivable(password@, id)))
            }) ==> r is Ok,
            ({
                let n = normal_username(username@);
                let id = self.accounts()[n].id;
                &&& self.accounts().contains_key(n)
                &&& hashes_to(password@, self.accounts()[n].password)
                &&& (!keeps_any(self.credentials_held(), id) || (readable(
                    self.credentials_held(),
                    id,
                    password@,
                ) && derivable(password@, id)))
            }) ==> r is Ok,
    {
        let rec = match self.authenticate(username, password) {
            Ok(rec) => rec,
            Err(e) => {
                return Err(e);
            },
        };
        let ghost id = rec@.id;
        let sealed = self.vault.get_all(rec.id().as_str());
        let mut out: Vec<Credential> = Vec::new();
        if sealed.len() == 0 {
            proof {
                assert forall|a: Seq<char>| #[trigger]
                    self.credentials_held().contains_key((id, a)) implies exists|k: int|
                    0 <= k < out.len() && (#[trigger] out@[k])@.app == a by {
                    let k = choose|k: int| 0 <= k < sealed.len() && (#[trigger] sealed@[k])@.app == a;
                }
            }
            return Ok(out);
        }
        assert(self.credentials_held().contains_key((id, sealed@[0]@.app)));
        let key = match derive_vault_key(password, rec.id().as_str()) {
            Ok(k) => k,
            Err(e) => {
                return Err(e);
            },
        };
        let ghost kv = vault_key(password@, id);
        let mut i: usize = 0;
        while i < sealed.len()
            invariant
                self.wf(),
                key@ == kv,
                kv == vault_key(password@, id),
                i <= sealed.len(),
                out.len() == i,
                forall|k: int| 0 <= k < i ==> sealed_as(kv, sealed@[k]@, (#[trigger] out@[k])@),
                forall|k: int| 0 <= k < i ==> (#[trigger] out@[k])@.app == sealed@[k]@.app,
                forall|k: int, c: CredentialView|
                    0 <= k < i && #[trigger] sealed_as(kv, sealed@[k]@, c) ==> #[trigger] out@[k]@ == c,
                self.accounts().contains_key(normal_username(username@)),
                id == self.accounts()[normal_username(username@)].id,
                forall|k: int|
                    0 <= k < sealed.len() ==> {
                        &&& self.credentials_held().contains_key((id, (#[trigger] sealed@[k])@.app))
                        &&& self.credentials_held()[(id, sealed@[k]@.app)] == sealed@[k]@
                    },
                forall|a: Seq<char>|
                    #[trigger] self.credentials_held().contains_key((id, a)) ==> exists|k: int|
                        0 <= k < sealed.len() && (#[trigger] sealed@[k])@.app == a,
                forall|k1: int, k2: int|
                    0 <= k1 < k2 < sealed.len() ==> (#[trigger] sealed@[k1])@.app != (
                    #[trigger] sealed@[k2])@.app,
            decreases sealed.len() - i,
        {
            match open_credential(&key, &sealed[i]) {
                Ok(c) => {
                    out.push(c);
                },
                Err(e) => {
                    proof {
                        if readable(self.credentials_held(), id, password@) {
                            let a = sealed@[i as int]@.app;
                            assert(self.credentials_held().contains_key((id, a)));
                            assert(opens(kv, self.credentials_held()[(id, a)]));
                            let c = choose|c: CredentialView|
                                sealed_as(kv, self.credentials_held()[(id, a)], c);
                            assert(sealed_as(kv, sealed@[i as int]@, c));
                        }
                    }
                    return Err(e);
                },
            }
            i = i + 1;
        }
        proof {
            assert forall|a: Seq<char>| #[trigger]
                self.credentials_held().contains_key((id, a)) implies exists|k: int|
                0 <= k < out.len() && (#[trigger] out@[k])@.app == a by {
                let k = choose|k: int| 0 <= k < sealed.len() && (#[trigger] sealed@[k])@.app == a;
                assert(out@[k]@.app == a);
            }
            assert forall|k1: int, k2: int| 0 <= k1 < k2 < out.len() implies (#[trigger] out@[k1])@.app
                != (#[trigger] out@[k2])@.app by {
                assert(sealed@[k1]@.app != sealed@[k2]@.app);
            }
        }
        Ok(out)
    }

    /// Removes the credential kept for `app` by the account of `username`,
    /// once `password` authenticates it; tells whether there was one.
    pub fn delete_credential(&mut self, username: &str, password: &str, app: &str) -> (r: Result<
        bool,
        Status,
    >)
        requires
            old(self).wf(),
        ensures
            final(self).wf(),
            final(self).policy() == old(self).policy(),
            final(self).cost() == old(self).cost(),
            final(self).accounts() == old(self).accounts(),
            r matches Ok(found) ==> {
                let key = (old(self).accounts()[normal_username(username@)].id, app@);
                &&& login_status(old(self).accounts(), username@, password@)
                    == Status::LoginSucceeded
                &&& found == old(self).credentials_held().contains_key(key)
                &&& final(self).credentials_held() == old(self).credentials_held().remove(key)
            },
            r matches Err(e) ==> final(self).credentials_held() == old(self).credentials_held() && (
            e == Status::AuthenticationFailed || e == Status::InvariantViolation),
            r matches Err(e) && e == Status::AuthenticationFailed ==> login_status(
                old(self).accounts(),
                username@,
                password@,
            ) == Status::AuthenticationFailed,
            !old(self).accounts().contains_key(normal_username(username@)) ==> r == Err::<bool, Status>(
                Status::AuthenticationFailed,
            ),
            hash_readable(old(self).accounts(), username@) ==> (r is Ok <==> login_status(
                old(self).accounts(),
                username@,
                password@,
            ) == Status::LoginSucceeded),
            old(self).accounts().contains_key(normal_username(username@)) && hashes_to(
                password@,
                old(self).accounts()[normal_username(username@)].password,
            ) ==> r is Ok,
    {
        match self.authenticate(username, password) {
            Ok(rec) => Ok(self.vault.delete(rec.id().as_str(), app)),
            Err(e) => Err(e),
        }
    }

    /// Changes the password of `username` from `old_password` to
    /// `new_password`, hashing the new one with `salt`. The credentials that
    /// the account keeps are sealed again under the new password's key; the
    /// change happens whole or not at all.
    pub fn change_password_with(
        &mut self,
        username: &str,
        old_password: &str,
        new_password: &str,
        salt: [u8; 16],
    ) -> (r: Response)
        requires
            old(self).wf(),
        ensures
            final(self).wf(),
            final(self).policy() == old(self).policy(),
            final(self).cost() == old(self).cost(),
            r.reports(
                change_status(
                    old(self).policy(),
                    old(self).accounts(),
                    username@,
                    old_password@,
                    new_password@,
                ),
            ) || r.reports(Status::InvariantViolation) || r.reports(Status::StorageUnavailable),
            !old(self).accounts().contains_key(normal_username(username@)) ==> r.reports(
                Status::AuthenticationFailed,
            ),
            hash_readable(old(self).accounts(), username@) && change_status(
                old(self).policy(),
                old(self).accounts(),
                username@,
                old_password@,
                new_password@,
            ) != Status::PasswordChanged ==> r.reports(
                change_status(
                    old(self).policy(),
                    old(self).accounts(),
                    username@,
                    old_password@,
                    new_password@,
                ),
            ),
            ({
                let id = old(self).accounts()[normal_username(username@)].id;
                let held = old(self).credentials_held();
                &&& hash_readable(old(self).accounts(), username@)
                &&& change_status(
                    old(self).policy(),
                    old(self).accounts(),
                    username@,
                    old_password@,
                    new_password@,
                ) == Status::PasswordChanged
                &&& (!keeps_any(held, id) || (readable(held, id, old_password@) && derivable(
                    old_password@,
                    id,
                ) && derivable(new_password@, id)))
            }) ==> r.reports(Status::PasswordChanged),
            ({
                let n = normal_username(username@);
                let id = old(self).accounts()[n].id;
                let held = old(self).credentials_held();
                &&& old(self).accounts().contains_key(n)
                &&& hashes_to(old_password@, old(self).accounts()[n].password)
                &&& old(self).policy().password_status(new_password@).accepted()
                &&& (!keeps_any(held, id) || (readable(held, id, old_password@) && derivable(
                    old_password@,
                    id,
                ) && derivable(new_password@, id)))
            }) ==> r.reports(Status::PasswordChanged),
            r.validity ==> resealed(
                old(self).credentials_held(),
                final(self).credentials_held(),
                old(self).accounts()[normal_username(username@)].id,
                old_password@,
                new_password@,
            ),
            !r.validity ==> final(self).credentials_held() == old(self).credentials_held(),
            r.validity ==> hashes_to(
                new_password@,
                final(self).accounts()[normal_username(username@)].password,
            ),
            final(self).accounts() == if r.validity {
                password_changed(old(self).accounts(), username@, new_password@, old(self).cost(), salt@)
            } else {
                old(self).accounts()
            },
    {
        let n = normalize_username(username);
        let rec = match self.store.find_by_username(n.as_str()) {
            Ok(rec) => rec,
            Err(_) => {
                return Response::from_status(Status::AuthenticationFailed);
            },
        };
        match Password::compare_password(old_password, rec.password().as_str()) {
            Ok(true) => {},
            Ok(false) => {
                return Response::from_status(Status::AuthenticationFailed);
            },
            Err(_) => {
                return Response::from_status(Status::InvariantViolation);
            },
        }
        let pr = self.policy.validate_password(new_password);
        if !pr.validity {
            return pr;
        }
        let ghost id = rec@.id;
        let ghost held = self.vault.contents();
        let sealed = self.vault.get_all(rec.id().as_str());
        let items = if sealed.len() == 0 {
            Vec::new()
        } else {
            assert(held.contains_key((id, sealed@[0]@.app)));
            let old_key = match derive_vault_key(old_password, rec.id().as_str()) {
                Ok(k) => k,
                Err(e) => {
                    return Response::from_status(e);
                },
            };
            let new_key = match derive_vault_key(new_password, rec.id().as_str()) {
                Ok(k) => k,
                Err(e) => {
                    return Response::from_status(e);
                },
            };
            match reseal_all(&sealed, &old_key, &new_key) {
                Ok(v) => v,
                Err(e) => {
                    proof {
                        if readable(held, id, old_password@) {
                            assert forall|k: int| 0 <= k < sealed.len() implies opens(
                                old_key@,
                                #[trigger] sealed@[k]@,
                            ) by {
                                let a = sealed@[k]@.app;
                                assert(held.contains_key((id, a)));
                                assert(held[(id, a)] == sealed@[k]@);
                            }
                        }
                    }
                    return Response::from_status(e);
                },
            }
        };
        let ghost oldk = vault_key(old_password@, id);
        let ghost newk = vault_key(new_password@, id);
        assert(items.len() == sealed.len());
        assert forall|k: int| 0 <= k < items.len() implies reseals(
            oldk,
            newk,
            #[trigger] sealed@[k]@,
            items@[k]@,
        ) && items@[k]@.app == sealed@[k]@.app by {
            let c = choose|c: CredentialView|
                sealed_as(oldk, sealed@[k]@, c) && items@[k]@ == #[trigger] sealed_view_of(
                    newk,
                    sealed@[k]@.user_nonce,
                    sealed@[k]@.secret_nonce,
                    c,
                );
        }
        assert forall|k1: int, k2: int| 0 <= k1 < k2 < items.len() implies (#[trigger] items@[k1])@.app
            != (#[trigger] items@[k2])@.app by {
            assert(sealed@[k1]@.app != sealed@[k2]@.app);
        }
        let hash = Password::hash_password(new_password, self.cost, salt);
        match self.store.update_password_hash(n.as_str(), hash, salt) {
            Ok(()) => {
                self.vault.put_all(rec.id().as_str(), items);
                proof {
                    let after = self.vault.contents();
                    assert forall|key: (Seq<char>, Seq<char>)| #[trigger]
                        after.contains_key(key) <==> held.contains_key(key) by {
                        if key.0 == id && exists|k: int|
                            0 <= k < items.len() && (#[trigger] items@[k])@.app == key.1 {
                            let k = choose|k: int|
                                0 <= k < items.len() && (#[trigger] items@[k])@.app == key.1;
                            assert(sealed@[k]@.app == key.1);
                        }
                    }
                    assert forall|a: Seq<char>| #[trigger] held.contains_key((id, a)) implies reseals(
                        oldk,
                        newk,
                        held[(id, a)],
                        after[(id, a)],
                    ) by {
                        let k = choose|k: int| 0 <= k < sealed.len() && (#[trigger] sealed@[k])@.app == a;
                        assert(items@[k]@.app == a);
                        assert(after[(id, items@[k]@.app)] == items@[k]@);
                    }
                }
                Response::from_status(Status::PasswordChanged)
            },
            Err(_) => Response::from_status(Status::AuthenticationFailed),
        }
    }

    /// Changes the password of `username`, hashing the new one under a fresh
    /// salt.
    pub fn change_password(&mut self, username: &str, old_password: &str, new_password: &str) -> (r:
        Response)
        requires
            old(self).wf(),
        ensures
            final(self).wf(),
            final(self).policy() == old(self).policy(),
            final(self).cost() == old(self).cost(),
            r.reports(
                change_status(
                    old(self).policy(),
                    old(self).accounts(),
                    username@,
                    old_password@,
                    new_password@,
                ),
            ) || r.reports(Status::InvariantViolation) || r.reports(Status::StorageUnavailable),
            !old(self).accounts().contains_key(normal_username(username@)) ==> r.reports(
                Status::AuthenticationFailed,
            ),
            hash_readable(old(self).accounts(), username@) && change_status(
                old(self).policy(),
                old(self).accounts(),
                username@,
                old_password@,
                new_password@,
            ) != Status::PasswordChanged ==> r.reports(
                change_status(
                    old(self).policy(),
                    old(self).accounts(),
                    username@,
                    old_password@,
                    new_password@,
                ),
            ),
            ({
                let id = old(self).accounts()[normal_username(username@)].id;
                let held = old(self).credentials_held();
                &&& hash_readable(old(self).accounts(), username@)
                &&& change_status(
                    old(self).policy(),
                    old(self).accounts(),
                    username@,
                    old_password@,
                    new_password@,
                ) == Status::PasswordChanged
                &&& (!keeps_any(held, id) || (readable(held, id, old_password@) && derivable(
                    old_password@,
                    id,
                ) && derivable(new_password@, id)))
            }) ==> r.reports(Status::PasswordChanged),
            ({
                let n = normal_username(username@);
                let id = old(self).accounts()[n].id;
                let held = old(self).credentials_held();
                &&& old(self).accounts().contains_key(n)
                &&& hashes_to(old_password@, old(self).accounts()[n].password)
                &&& old(self).policy().password_status(new_password@).accepted()
                &&& (!keeps_any(held, id) || (readable(held, id, old_password@) && derivable(
                    old_password@,
                    id,
                ) && derivable(new_password@, id)))
            }) ==> r.reports(Status::PasswordChanged),
            r.validity ==> resealed(
                old(self).credentials_held(),
                final(self).credentials_held(),
                old(self).accounts()[normal_username(username@)].id,
                old_password@,
                new_password@,
            ),
            !r.validity ==> final(self).credentials_held() == old(self).credentials_held(),
            !r.validity ==> final(self).accounts() == old(self).accounts(),
            r.validity ==> hashes_to(
                new_password@,
                final(self).accounts()[normal_username(username@)].password,
            ),
            r.validity ==> exists|salt: Seq<u8>|
                salt.len() == 16 && final(self).accounts() == #[trigger] password_changed(
                    old(self).accounts(),
                    username@,
                    new_password@,
                    old(self).cost(),
                    salt,
                ),
    {
        let salt = Password::generate_salt();
        let r = self.change_password_with(username, old_password, new_password, salt);
        assert(salt@.len() == 16);
        r
    }
}

} // verus!
