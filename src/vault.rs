use vstd::prelude::*;
use vstd::utf8::{decode_utf8_encode_utf8, encode_utf8, encode_utf8_decode_utf8, encode_utf8_valid_utf8};

use crate::cipher::{
    aes_gcm_open, aes_gcm_seal, aes_gcm_seal_of, argon2_key, argon2_key_of, utf8_string, AES_GCM_MAX_PLAIN,
    ARGON2_MAX_INPUT, ARGON2_MIN_SALT,
};
use crate::status::Status;

verus! {

broadcast use {decode_utf8_encode_utf8, encode_utf8_decode_utf8, encode_utf8_valid_utf8};

/// A credential kept on a user's behalf: an application, the username on
/// it and the password for it.
pub struct Credential {
    app: String,
    username: String,
    password: String,
}

/// The contents of a `Credential`.
pub struct CredentialView {
    pub app: Seq<char>,
    pub username: Seq<char>,
    pub password: Seq<char>,
}

impl View for Credential {
    type V = CredentialView;

    closed spec fn view(&self) -> CredentialView {
        CredentialView { app: self.app@, username: self.username@, password: self.password@ }
    }
}

impl Credential {
    /// An empty credential.
    pub fn new() -> (r: Credential)
        ensures
            r@ == (CredentialView { app: Seq::empty(), username: Seq::empty(), password: Seq::empty() }),
    {
        Credential { app: String::new(), username: String::new(), password: String::new() }
    }

    /// Replaces all three parts.
    pub fn new_credential(&mut self, app: String, username: String, password: String)
        ensures
            final(self)@ == (CredentialView { app: app@, username: username@, password: password@ }),
    {
        self.app = app;
        self.username = username;
        self.password = password;
    }

    pub fn set_app(&mut self, app: String)
        ensures
            final(self)@ == (CredentialView { app: app@, ..old(self)@ }),
    {
        self.app = app;
    }

    pub fn set_username(&mut self, username: String)
        ensures
            final(self)@ == (CredentialView { username: username@, ..old(self)@ }),
    {
        self.username = username;
    }

    pub fn set_password(&mut self, password: String)
        ensures
            final(self)@ == (CredentialView { password: password@, ..old(self)@ }),
    {
        self.password = password;
    }

    pub fn get_app(&self) -> (r: String)
        ensures
            r@ == self@.app,
    {
        self.app.clone()
    }

    pub fn get_username(&self) -> (r: String)
        ensures
            r@ == self@.username,
    {
        self.username.clone()
    }

    pub fn get_password(&self) -> (r: String)
        ensures
            r@ == self@.password,
    {
        self.password.clone()
    }

    pub fn duplicate(&self) -> (r: Credential)
        ensures
            r@ == self@,
    {
        Credential {
            app: self.app.clone(),
            username: self.username.clone(),
            password: self.password.clone(),
        }
    }
}

/// A credential as the vault keeps it: the application in clear, the
/// username and the password each sealed under its own nonce.
pub struct SealedCredential {
    app: String,
    user_nonce: [u8; 12],
    username: Vec<u8>,
    secret_nonce: [u8; 12],
    secret: Vec<u8>,
}

/// The contents of a `SealedCredential`.
pub struct SealedView {
    pub app: Seq<char>,
    pub user_nonce: Seq<u8>,
    pub username: Seq<u8>,
    pub secret_nonce: Seq<u8>,
    pub secret: Seq<u8>,
}

impl View for SealedCredential {
    type V = SealedView;

    closed spec fn view(&self) -> SealedView {
        SealedView {
            app: self.app@,
            user_nonce: self.user_nonce@,
            username: self.username@,
            secret_nonce: self.secret_nonce@,
            secret: self.secret@,
        }
    }
}

impl SealedCredential {
    pub fn new(
        app: String,
        user_nonce: [u8; 12],
        username: Vec<u8>,
        secret_nonce: [u8; 12],
        secret: Vec<u8>,
    ) -> (r: SealedCredential)
        ensures
            r@ == (SealedView {
                app: app@,
                user_nonce: user_nonce@,
                username: username@,
                secret_nonce: secret_nonce@,
                secret: secret@,
            }),
    {
        SealedCredential { app, user_nonce, username, secret_nonce, secret }
    }

    pub fn app(&self) -> (r: &String)
        ensures
            r@ == self@.app,
    {
        &self.app
    }

    pub fn user_nonce(&self) -> (r: [u8; 12])
        ensures
            r@ == self@.user_nonce,
    {
        self.user_nonce
    }

    pub fn username(&self) -> (r: &Vec<u8>)
        ensures
            r@ == self@.username,
    {
        &self.username
    }

    pub fn secret_nonce(&self) -> (r: [u8; 12])
        ensures
            r@ == self@.secret_nonce,
    {
        self.secret_nonce
    }

    pub fn secret(&self) -> (r: &Vec<u8>)
        ensures
            r@ == self@.secret,
    {
        &self.secret
    }

    pub fn duplicate(&self) -> (r: SealedCredential)
        ensures
            r@ == self@,
    {
        SealedCredential {
            app: self.app.clone(),
            user_nonce: self.user_nonce,
            username: self.username.clone(),
            secret_nonce: self.secret_nonce,
            secret: self.secret.clone(),
        }
    }
}

/// The key that seals the vault of the account with identifier `id`, for
/// the account's password.
pub open spec fn vault_key(password: Seq<char>, id: Seq<char>) -> Seq<u8> {
    argon2_key_of(password, encode_utf8(id))
}

/// `c` sealed under `key`, its username with `user_nonce` and its password
/// with `secret_nonce`.
pub open spec fn sealed_view_of(
    key: Seq<u8>,
    user_nonce: Seq<u8>,
    secret_nonce: Seq<u8>,
    c: CredentialView,
) -> SealedView {
    SealedView {
        app: c.app,
        user_nonce,
        username: aes_gcm_seal_of(key, user_nonce, encode_utf8(c.username)),
        secret_nonce,
        secret: aes_gcm_seal_of(key, secret_nonce, encode_utf8(c.password)),
    }
}

/// `s` is `c` sealed under `key`.
pub open spec fn sealed_as(key: Seq<u8>, s: SealedView, c: CredentialView) -> bool {
    s == sealed_view_of(key, s.user_nonce, s.secret_nonce, c)
}

/// The username and password of `c` are within what AES-GCM seals.
pub open spec fn sealable(c: CredentialView) -> bool {
    encode_utf8(c.username).len() <= AES_GCM_MAX_PLAIN && encode_utf8(c.password).len()
        <= AES_GCM_MAX_PLAIN
}

/// Whether the vault key of a password can be derived for the account `id`:
/// argon2 takes the password and the id's bytes as salt.
pub open spec fn derivable(password: Seq<char>, id: Seq<char>) -> bool {
    encode_utf8(password).len() <= ARGON2_MAX_INPUT && ARGON2_MIN_SALT <= encode_utf8(id).len()
        <= ARGON2_MAX_INPUT
}

/// `s` opens with `key` to a credential that can be sealed again.
pub open spec fn opens(key: Seq<u8>, s: SealedView) -> bool {
    exists|c: CredentialView| #[trigger] sealed_as(key, s, c) && sealable(c)
}

/// Derives the vault key of the account `id` from its password.
pub fn derive_vault_key(password: &str, id: &str) -> (r: Result<[u8; 32], Status>)
    ensures
        r is Ok ==> r->Ok_0@ == vault_key(password@, id@),
        r is Err ==> r->Err_0 == Status::StorageUnavailable,
        r is Ok <==> derivable(password@, id@),
{
    match argon2_key(password, id.as_bytes()) {
        Ok(k) => Ok(k),
        Err(_) => Err(Status::StorageUnavailable),
    }
}

/// Seals the username and password of `c` under `key`.
pub fn seal_credential(key: &[u8; 32], user_nonce: [u8; 12], secret_nonce: [u8; 12], c: &Credential) -> (r:
    Result<SealedCredential, Status>)
    ensures
        r is Ok ==> r->Ok_0@ == sealed_view_of(key@, user_nonce@, secret_nonce@, c@),
        r is Err ==> r->Err_0 == Status::StorageUnavailable,
        r is Ok <==> sealable(c@),
{
    let username = match aes_gcm_seal(key, &user_nonce, c.username.as_str().as_bytes()) {
        Ok(b) => b,
        Err(_) => {
            return Err(Status::StorageUnavailable);
        },
    };
    let secret = match aes_gcm_seal(key, &secret_nonce, c.password.as_str().as_bytes()) {
        Ok(b) => b,
        Err(_) => {
            return Err(Status::StorageUnavailable);
        },
    };
    Ok(SealedCredential::new(c.app.clone(), user_nonce, username, secret_nonce, secret))
}

/// Opens a sealed credential with `key`. What `seal_credential` made under
/// the same key comes back unchanged; anything else is refused as corrupt.
pub fn open_credential(key: &[u8; 32], s: &SealedCredential) -> (r: Result<Credential, Status>)
    ensures
        r is Ok ==> sealed_as(key@, s@, r->Ok_0@),
        r is Err ==> r->Err_0 == Status::InvariantViolation,
        forall|c: CredentialView| #[trigger] sealed_as(key@, s@, c) ==> r is Ok && r->Ok_0@ == c,
{
    let ub = match aes_gcm_open(key, &s.user_nonce, s.username.as_slice()) {
        Ok(b) => b,
        Err(_) => {
            return Err(Status::InvariantViolation);
        },
    };
    let sb = match aes_gcm_open(key, &s.secret_nonce, s.secret.as_slice()) {
        Ok(b) => b,
        Err(_) => {
            return Err(Status::InvariantViolation);
        },
    };
    let ghost ubv = ub@;
    let ghost sbv = sb@;
    let username = match utf8_string(ub) {
        Some(t) => t,
        None => {
            return Err(Status::InvariantViolation);
        },
    };
    let password = match utf8_string(sb) {
        Some(t) => t,
        None => {
            return Err(Status::InvariantViolation);
        },
    };
    let mut c = Credential::new();
    c.new_credential(s.app.clone(), username, password);
    proof {
        assert(encode_utf8(c@.username) == ubv);
        assert(encode_utf8(c@.password) == sbv);
    }
    Ok(c)
}

/// `after` is `before` opened with `old_key` and sealed again, under the
/// same nonces, with `new_key`.
pub open spec fn reseals(old_key: Seq<u8>, new_key: Seq<u8>, before: SealedView, after: SealedView) -> bool {
    exists|c: CredentialView|
        sealed_as(old_key, before, c) && after == #[trigger] sealed_view_of(
            new_key,
            before.user_nonce,
            before.secret_nonce,
            c,
        )
}

/// `after` is `before` with every credential that `owner` keeps opened
/// with the vault key of `old_p` and sealed again, under the same nonces,
/// with the vault key of `new_p`.
pub open spec fn resealed(
    before: Map<(Seq<char>, Seq<char>), SealedView>,
    after: Map<(Seq<char>, Seq<char>), SealedView>,
    owner: Seq<char>,
    old_p: Seq<char>,
    new_p: Seq<char>,
) -> bool {
    &&& forall|key: (Seq<char>, Seq<char>)|
        #[trigger] after.contains_key(key) <==> before.contains_key(key)
    &&& forall|key: (Seq<char>, Seq<char>)|
        #[trigger] before.contains_key(key) && key.0 != owner ==> after[key] == before[key]
    &&& forall|a: Seq<char>|
        #[trigger] before.contains_key((owner, a)) ==> reseals(
            vault_key(old_p, owner),
            vault_key(new_p, owner),
            before[(owner, a)],
            after[(owner, a)],
        )
}

/// Opens each of `items` with `old_key` and seals it again with `new_key`,
/// under the same nonces.
pub fn reseal_all(items: &Vec<SealedCredential>, old_key: &[u8; 32], new_key: &[u8; 32]) -> (r: Result<Vec<SealedCredential>, Status>)
    ensures
        r is Ok ==> r->Ok_0.len() == items.len(),
        r is Ok ==> forall|k: int|
            0 <= k < items.len() ==> reseals(old_key@, new_key@, #[trigger] items@[k]@, r->Ok_0@[k]@),
        r is Err ==> r->Err_0 == Status::InvariantViolation || r->Err_0 == Status::StorageUnavailable,
        (forall|k: int| 0 <= k < items.len() ==> opens(old_key@, #[trigger] items@[k]@)) ==> r is Ok,
{
    let mut out: Vec<SealedCredential> = Vec::new();
    let ghost mut plain: Seq<CredentialView> = Seq::empty();
    let mut i: usize = 0;
    while i < items.len()
        invariant
            i <= items.len(),
            out.len() == i,
            plain.len() == i,
            forall|k: int|
                0 <= k < i ==> {
                    &&& sealed_as(old_key@, items@[k]@, #[trigger] plain[k])
                    &&& out@[k]@ == sealed_view_of(
                        new_key@,
                        items@[k]@.user_nonce,
                        items@[k]@.secret_nonce,
                        plain[k],
                    )
                },
        decreases items.len() - i,
    {
        let c = match open_credential(old_key, &items[i]) {
            Ok(c) => c,
            Err(e) => {
                proof {
                    if forall|k: int| 0 <= k < items.len() ==> opens(old_key@, #[trigger] items@[k]@) {
                        assert(opens(old_key@, items@[i as int]@));
                        let w = choose|w: CredentialView|
                            #[trigger] sealed_as(old_key@, items@[i as int]@, w) && sealable(w);
                        assert(sealed_as(old_key@, items@[i as int]@, w));
                    }
                }
                return Err(e);
            },
        };
        let again = match seal_credential(new_key, items[i].user_nonce, items[i].secret_nonce, &c) {
            Ok(s) => s,
            Err(e) => {
                proof {
                    if forall|k: int| 0 <= k < items.len() ==> opens(old_key@, #[trigger] items@[k]@) {
                        assert(opens(old_key@, items@[i as int]@));
                        let w = choose|w: CredentialView|
                            #[trigger] sealed_as(old_key@, items@[i as int]@, w) && sealable(w);
                        assert(sealed_as(old_key@, items@[i as int]@, w));
                    }
                }
                return Err(e);
            },
        };
        out.push(again);
        proof {
            plain = plain.push(c@);
        }
        i = i + 1;
    }
    proof {
        assert forall|k: int| 0 <= k < items.len() implies reseals(
            old_key@,
            new_key@,
            #[trigger] items@[k]@,
            out@[k]@,
        ) by {
            assert(sealed_as(old_key@, items@[k]@, plain[k]));
        }
    }
    Ok(out)
}

struct VaultEntry {
    owner: String,
    credential: SealedCredential,
}

impl VaultEntry {
    closed spec fn key(&self) -> (Seq<char>, Seq<char>) {
        (self.owner@, self.credential@.app)
    }
}

/// The sealed credentials of every account, at most one per owner and
/// application.
pub struct Vault {
    entries: Vec<VaultEntry>,
    model: Ghost<Map<(Seq<char>, Seq<char>), SealedView>>,
}

impl Vault {
    /// The stored credentials, keyed by owner identifier and application.
    pub closed spec fn contents(&self) -> Map<(Seq<char>, Seq<char>), SealedView> {
        self.model@
    }

    pub closed spec fn wf(&self) -> bool {
        &&& forall|i: int, j: int|
            0 <= i < j < self.entries.len() ==> (#[trigger] self.entries@[i]).key()
                != (#[trigger] self.entries@[j]).key()
        &&& forall|i: int|
            0 <= i < self.entries.len() ==> {
                &&& self.model@.contains_key((#[trigger] self.entries@[i]).key())
                &&& self.model@[self.entries@[i].key()] == self.entries@[i].credential@
            }
        &&& forall|k: (Seq<char>, Seq<char>)|
            #[trigger] self.model@.contains_key(k) ==> exists|i: int|
                0 <= i < self.entries.len() && (#[trigger] self.entries@[i]).key() == k
    }

    pub fn new() -> (r: Vault)
        ensures
            r.wf(),
            r.contents() == Map::<(Seq<char>, Seq<char>), SealedView>::empty(),
    {
        Vault { entries: Vec::new(), model: Ghost(Map::empty()) }
    }

    fn position(&self, owner: &str, app: &str) -> (r: Option<usize>)
        requires
            self.wf(),
        ensures
            r is None <==> !self.contents().contains_key((owner@, app@)),
            r matches Some(i) ==> i < self.entries.len() && self.entries@[i as int].key() == (
            owner@,
            app@,
            ),
    {
        let o = owner.to_owned();
        let a = app.to_owned();
        let mut i: usize = 0;
        while i < self.entries.len()
            invariant
                self.wf(),
                o@ == owner@,
                a@ == app@,
                i <= self.entries.len(),
                forall|j: int| 0 <= j < i ==> (#[trigger] self.entries@[j]).key() != (owner@, app@),
            decreases self.entries.len() - i,
        {
            if self.entries[i].owner == o && self.entries[i].credential.app == a {
                return Some(i);
            }
            i = i + 1;
        }
        proof {
            if self.contents().contains_key((owner@, app@)) {
                let k = choose|k: int|
                    0 <= k < self.entries.len() && (#[trigger] self.entries@[k]).key() == (
                    owner@,
                    app@,
                    );
                assert(self.entries@[k].key() != (owner@, app@));
            }
        }
        None
    }

    /// Stores `credential` for `owner`, replacing the one kept for the same
    /// application.
    pub fn put(&mut self, owner: &str, credential: SealedCredential)
        requires
            old(self).wf(),
        ensures
            final(self).wf(),
            final(self).contents() == old(self).contents().insert(
                (owner@, credential@.app),
                credential@,
            ),
    {
        let ghost old_entries = self.entries@;
        let ghost cv = credential@;
        let ghost key = (owner@, cv.app);
        let found = self.position(owner, credential.app.as_str());
        let entry = VaultEntry { owner: owner.to_owned(), credential };
        assert(entry.key() == key);
        self.model = Ghost(self.model@.insert(key, cv));
        match found {
            Some(i) => {
                self.entries[i] = entry;
                proof {
                    assert forall|j: int| 0 <= j < old_entries.len() && j != i implies self.entries@[j]
                        == old_entries[j] by {}
                    assert(self.entries@[i as int].key() == key);
                    assert forall|k: (Seq<char>, Seq<char>)| #[trigger]
                        self.model@.contains_key(k) implies exists|j: int|
                        0 <= j < self.entries.len() && (#[trigger] self.entries@[j]).key() == k by {
                        if k != key {
                            let m = choose|m: int|
                                0 <= m < old_entries.len() && (#[trigger] old_entries[m]).key() == k;
                            assert(self.entries@[m].key() == k);
                        }
                    }
                }
            },
            None => {
                self.entries.push(entry);
                proof {
                    let n = old_entries.len() as int;
                    assert forall|j: int| 0 <= j < n implies self.entries@[j] == old_entries[j] by {}
                    assert(self.entries@[n].key() == key);
                    assert forall|k: (Seq<char>, Seq<char>)| #[trigger]
                        self.model@.contains_key(k) implies exists|j: int|
                        0 <= j < self.entries.len() && (#[trigger] self.entries@[j]).key() == k by {
                        if k != key {
                            let m = choose|m: int|
                                0 <= m < old_entries.len() && (#[trigger] old_entries[m]).key() == k;
                            assert(self.entries@[m].key() == k);
                        }
                    }
                }
            },
        }
    }

    /// Stores every credential of `items` for `owner`, each replacing the one
    /// kept for its application.
    pub fn put_all(&mut self, owner: &str, items: Vec<SealedCredential>)
        requires
            old(self).wf(),
            forall|k1: int, k2: int|
                0 <= k1 < k2 < items.len() ==> (#[trigger] items@[k1])@.app != (
                #[trigger] items@[k2])@.app,
        ensures
            final(self).wf(),
            forall|key: (Seq<char>, Seq<char>)|
                #[trigger] final(self).contents().contains_key(key) <==> (old(self).contents().contains_key(
                    key,
                ) || (key.0 == owner@ && exists|k: int|
                    0 <= k < items.len() && (#[trigger] items@[k])@.app == key.1)),
            forall|key: (Seq<char>, Seq<char>)|
                #[trigger] old(self).contents().contains_key(key) && !(key.0 == owner@ && exists|k: int|
                    0 <= k < items.len() && (#[trigger] items@[k])@.app == key.1) ==> final(self).contents()[key] == old(self).contents()[key],
            forall|k: int|
                0 <= k < items.len() ==> final(self).contents()[(owner@, (#[trigger] items@[k])@.app)]
                    == items@[k]@,
    {
        let ghost start = self.contents();
        let ghost all = items@;
        let mut done: usize = 0;
        while done < items.len()
            invariant
                self.wf(),
                all == items@,
                done <= all.len(),
                forall|k1: int, k2: int|
                    0 <= k1 < k2 < all.len() ==> (#[trigger] all[k1])@.app != (#[trigger] all[k2])@.app,
                forall|key: (Seq<char>, Seq<char>)|
                    #[trigger] self.contents().contains_key(key) <==> (start.contains_key(key) || (key.0
                        == owner@ && exists|k: int| 0 <= k < done && (#[trigger] all[k])@.app == key.1)),
                forall|key: (Seq<char>, Seq<char>)|
                    #[trigger] start.contains_key(key) && !(key.0 == owner@ && exists|k: int|
                        0 <= k < done && (#[trigger] all[k])@.app == key.1) ==> self.contents()[key]
                        == start[key],
                forall|k: int| 0 <= k < done ==> self.contents()[(owner@, (#[trigger] all[k])@.app)] == all[k]@,
            decreases all.len() - done,
        {
            let item = items[done].duplicate();
            let ghost iv = item@;
            self.put(owner, item);
            done = done + 1;
            proof {
                assert forall|key: (Seq<char>, Seq<char>)| #[trigger]
                    self.contents().contains_key(key) <==> (start.contains_key(key) || (key.0 == owner@
                        && exists|k: int| 0 <= k < done && (#[trigger] all[k])@.app == key.1)) by {
                    if key == (owner@, iv.app) {
                        assert(all[done - 1]@.app == key.1);
                    } else if key.0 == owner@ && exists|k: int|
                        0 <= k < done && (#[trigger] all[k])@.app == key.1 {
                        let k = choose|k: int| 0 <= k < done && (#[trigger] all[k])@.app == key.1;
                        assert(k != done - 1);
                    }
                }
                assert forall|key: (Seq<char>, Seq<char>)| #[trigger]
                    start.contains_key(key) && !(key.0 == owner@ && exists|k: int|
                        0 <= k < done && (#[trigger] all[k])@.app == key.1) implies self.contents()[key]
                    == start[key] by {
                    assert(key != (owner@, all[done - 1]@.app));
                }
                assert forall|k: int| 0 <= k < done implies self.contents()[(
                owner@,
                (#[trigger] all[k])@.app,
                )] == all[k]@ by {
                    if k < done - 1 {
                        assert(all[k]@.app != all[done - 1]@.app);
                    }
                }
            }
        }
    }

    /// Removes the credential that `owner` keeps for `app`; tells whether
    /// there was one.
    pub fn delete(&mut self, owner: &str, app: &str) -> (r: bool)
        requires
            old(self).wf(),
        ensures
            final(self).wf(),
            r == old(self).contents().contains_key((owner@, app@)),
            final(self).contents() == old(self).contents().remove((owner@, app@)),
    {
        let ghost old_entries = self.entries@;
        let ghost key = (owner@, app@);
        match self.position(owner, app) {
            None => {
                assert(self.model@.remove(key) =~= self.model@);
                false
            },
            Some(i) => {
                self.entries.remove(i);
                self.model = Ghost(self.model@.remove(key));
                proof {
                    assert forall|j: int| 0 <= j < self.entries.len() implies #[trigger] self.entries@[j]
                        == old_entries[if j < i { j } else { j + 1 }] by {}
                    assert forall|j: int| 0 <= j < self.entries.len() implies (
                    #[trigger] self.entries@[j]).key() != key by {
                        let oj = if j < i { j } else { j + 1 };
                        assert(old_entries[oj].key() != old_entries[i as int].key());
                    }
                    assert forall|a: int, b: int|
                        0 <= a < b < self.entries.len() implies (#[trigger] self.entries@[a]).key()
                        != (#[trigger] self.entries@[b]).key() by {
                        let oa = if a < i { a } else { a + 1 };
                        let ob = if b < i { b } else { b + 1 };
                        assert(old_entries[oa].key() != old_entries[ob].key());
                    }
                    assert forall|k: (Seq<char>, Seq<char>)| #[trigger]
                        self.model@.contains_key(k) implies exists|j: int|
                        0 <= j < self.entries.len() && (#[trigger] self.entries@[j]).key() == k by {
                        let m = choose|m: int|
                            0 <= m < old_entries.len() && (#[trigger] old_entries[m]).key() == k;
                        assert(m != i);
                        let j = if m < i { m } else { m - 1 };
                        assert(self.entries@[j] == old_entries[m]);
                    }
                }
                true
            },
        }
    }

    /// The credentials that `owner` keeps, one per application.
    pub fn get_all(&self, owner: &str) -> (r: Vec<SealedCredential>)
        requires
            self.wf(),
        ensures
            forall|k: int|
                0 <= k < r.len() ==> {
                    &&& self.contents().contains_key((owner@, (#[trigger] r@[k])@.app))
                    &&& self.contents()[(owner@, r@[k]@.app)] == r@[k]@
                },
            forall|a: Seq<char>|
                #[trigger] self.contents().contains_key((owner@, a)) ==> exists|k: int|
                    0 <= k < r.len() && (#[trigger] r@[k])@.app == a,
            forall|k1: int, k2: int|
                0 <= k1 < k2 < r.len() ==> (#[trigger] r@[k1])@.app != (#[trigger] r@[k2])@.app,
    {
        let o = owner.to_owned();
        let mut out: Vec<SealedCredential> = Vec::new();
        let ghost mut idx: Seq<int> = Seq::empty();
        let mut i: usize = 0;
        while i < self.entries.len()
            invariant
                self.wf(),
                o@ == owner@,
                i <= self.entries.len(),
                idx.len() == out.len(),
                forall|k: int|
                    0 <= k < out.len() ==> {
                        &&& 0 <= #[trigger] idx[k] < i
                        &&& self.entries@[idx[k]].owner@ == owner@
                        &&& self.entries@[idx[k]].credential@ == out@[k]@
                    },
                forall|k1: int, k2: int| 0 <= k1 < k2 < out.len() ==> #[trigger] idx[k1] < #[trigger] idx[k2],
                forall|j: int|
                    0 <= j < i && (#[trigger] self.entries@[j]).owner@ == owner@ ==> exists|k: int|
                        0 <= k < out.len() && idx[k] == j,
            decreases self.entries.len() - i,
        {
            let ghost old_idx = idx;
            let ghost old_len = out.len();
            if self.entries[i].owner == o {
                out.push(self.entries[i].credential.duplicate());
                proof {
                    idx = idx.push(i as int);
                }
            }
            i = i + 1;
            proof {
                assert forall|j: int|
                    0 <= j < i && (#[trigger] self.entries@[j]).owner@ == owner@ implies exists|k: int|
                    0 <= k < out.len() && idx[k] == j by {
                    if j < i - 1 {
                        let k = choose|k: int| 0 <= k < old_len && old_idx[k] == j;
                        assert(idx[k] == j);
                    } else {
                        assert(idx[out.len() - 1] == j);
                    }
                }
            }
        }
        proof {
            assert forall|k: int| 0 <= k < out.len() implies {
                &&& self.contents().contains_key((owner@, (#[trigger] out@[k])@.app))
                &&& self.contents()[(owner@, out@[k]@.app)] == out@[k]@
            } by {
                assert(self.entries@[idx[k]].key() == (owner@, out@[k]@.app));
            }
            assert forall|a: Seq<char>| #[trigger] self.contents().contains_key((owner@, a)) implies exists|
                k: int,
            | 0 <= k < out.len() && (#[trigger] out@[k])@.app == a by {
                let m = choose|m: int|
                    0 <= m < self.entries.len() && (#[trigger] self.entries@[m]).key() == (owner@, a);
                let k = choose|k: int| 0 <= k < out.len() && idx[k] == m;
                assert(out@[k]@.app == a);
            }
            assert forall|k1: int, k2: int| 0 <= k1 < k2 < out.len() implies (#[trigger] out@[k1])@.app
                != (#[trigger] out@[k2])@.app by {
                assert(idx[k1] < idx[k2]);
                assert(self.entries@[idx[k1]].key() != self.entries@[idx[k2]].key());
            }
        }
        out
    }
}

} // verus!
