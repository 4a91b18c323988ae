use vstd::prelude::*;

verus! {

/// Lower-case hexadecimal digit of a value below 16.
pub open spec fn hex_digit(n: int) -> char {
    seq!['0', '1', '2', '3', '4', '5', '6', '7', '8', '9', 'a', 'b', 'c', 'd', 'e', 'f'][n]
}

/// The hyphenated lower-case text of a 16-byte identifier, as in
/// `67e55044-10b1-426f-9247-bb680e5fe0c8`: the bytes in order, each as two
/// hex digits, high half first, with hyphens at positions 8, 13, 18 and 23.
pub open spec fn uuid_text(b: Seq<u8>) -> Seq<char> {
    Seq::new(
        36,
        |i: int|
            if i == 8 || i == 13 || i == 18 || i == 23 {
                '-'
            } else {
                let k = if i < 8 {
                    i
                } else if i < 13 {
                    i - 1
                } else if i < 18 {
                    i - 2
                } else if i < 23 {
                    i - 3
                } else {
                    i - 4
                };
                let byte = b[k / 2];
                hex_digit(if k % 2 == 0 { byte / 16 } else { byte % 16 } as int)
            },
    )
}

/// Relies on uuid's `Builder::from_bytes(..).into_uuid()` and its `Display`,
/// which writes the bytes unchanged in hyphenated lower-case hex.
#[verifier::external_body]
pub(crate) fn uuid_string(b: [u8; 16]) -> (r: String)
    ensures
        r@ == uuid_text(b@),
{
    uuid::Builder::from_bytes(b).into_uuid().to_string()
}

/// Why a store operation was refused.
#[derive(Clone, Copy, Debug, PartialEq, Eq, Structural)]
pub enum StoreError {
    DuplicateUsername,
    DuplicateId,
    NotFound,
}

/// Whether some account has identifier `id`.
pub open spec fn id_in_use(accounts: Map<Seq<char>, RecordView>, id: Seq<char>) -> bool {
    exists|u: Seq<char>| #[trigger] accounts.contains_key(u) && accounts[u].id == id
}

/// No two accounts share an identifier.
pub open spec fn ids_unique(accounts: Map<Seq<char>, RecordView>) -> bool {
    forall|u: Seq<char>, v: Seq<char>|
        #[trigger] accounts.contains_key(u) && #[trigger] accounts.contains_key(v) && u != v
            ==> accounts[u].id != accounts[v].id
}

/// A stored account: identifier, canonical username, password hash and the
/// salt that the hash was made with.
pub struct Record {
    id: String,
    pub username: String,
    pub password: String,
    salt: [u8; 16],
}

/// The contents of a `Record`.
pub struct RecordView {
    pub id: Seq<char>,
    pub username: Seq<char>,
    pub password: Seq<char>,
    pub salt: Seq<u8>,
}

impl View for Record {
    type V = RecordView;

    closed spec fn view(&self) -> RecordView {
        RecordView {
            id: self.id@,
            username: self.username@,
            password: self.password@,
            salt: self.salt@,
        }
    }
}

impl Record {
    pub fn new(id: String, username: String, password: String, salt: [u8; 16]) -> (r: Record)
        ensures
            r@ == (RecordView { id: id@, username: username@, password: password@, salt: salt@ }),
    {
        Record { id, username, password, salt }
    }

    pub fn id(&self) -> (r: &String)
        ensures
            r@ == self@.id,
    {
        &self.id
    }

    pub fn username(&self) -> (r: &String)
        ensures
            r@ == self@.username,
    {
        &self.username
    }

    pub fn password(&self) -> (r: &String)
        ensures
            r@ == self@.password,
    {
        &self.password
    }

    pub fn salt(&self) -> (r: [u8; 16])
        ensures
            r@ == self@.salt,
    {
        self.salt
    }

    pub fn duplicate(&self) -> (r: Record)
        ensures
            r@ == self@,
    {
        Record {
            id: self.id.clone(),
            username: self.username.clone(),
            password: self.password.clone(),
            salt: self.salt,
        }
    }
}

/// The account table: at most one record per username.
pub struct AccountStore {
    records: Vec<Record>,
    model: Ghost<Map<Seq<char>, RecordView>>,
}

impl AccountStore {
    /// The accounts, keyed by username.
    pub closed spec fn accounts(&self) -> Map<Seq<char>, RecordView> {
        self.model@
    }

    pub closed spec fn wf(&self) -> bool {
        &&& forall|i: int, j: int|
            0 <= i < j < self.records.len() ==> (#[trigger] self.records@[i])@.username
                != (#[trigger] self.records@[j])@.username
        &&& forall|i: int, j: int|
            0 <= i < j < self.records.len() ==> (#[trigger] self.records@[i])@.id
                != (#[trigger] self.records@[j])@.id
        &&& forall|i: int|
            0 <= i < self.records.len() ==> {
                &&& self.model@.contains_key((#[trigger] self.records@[i])@.username)
                &&& self.model@[self.records@[i]@.username] == self.records@[i]@
            }
        &&& forall|u: Seq<char>|
            #[trigger] self.model@.contains_key(u) ==> exists|i: int|
                0 <= i < self.records.len() && (#[trigger] self.records@[i])@.username == u
    }

    pub fn new() -> (r: AccountStore)
        ensures
            r.wf(),
            r.accounts() == Map::<Seq<char>, RecordView>::empty(),
    {
        AccountStore { records: Vec::new(), model: Ghost(Map::empty()) }
    }

    /// The position of the record of `username`, if there is one.
    fn position(&self, username: &str) -> (r: Option<usize>)
        requires
            self.wf(),
        ensures
            r is None <==> !self.accounts().contains_key(username@),
            r matches Some(i) ==> i < self.records.len() && self.records@[i as int]@.username
                == username@,
    {
        let wanted = username.to_owned();
        let mut i: usize = 0;
        while i < self.records.len()
            invariant
                self.wf(),
                wanted@ == username@,
                i <= self.records.len(),
                forall|j: int| 0 <= j < i ==> (#[trigger] self.records@[j])@.username != username@,
            decreases self.records.len() - i,
        {
            if self.records[i].username == wanted {
                return Some(i);
            }
            i = i + 1;
        }
        proof {
            if self.accounts().contains_key(username@) {
                let k = choose|k: int|
                    0 <= k < self.records.len() && (#[trigger] self.records@[k])@.username
                        == username@;
                assert(self.records@[k]@.username != username@);
            }
        }
        None
    }

    /// Identifiers stay unique.
    pub proof fn lemma_ids_unique(&self)
        requires
            self.wf(),
        ensures
            ids_unique(self.accounts()),
    {
        assert forall|u: Seq<char>, v: Seq<char>|
            #[trigger] self.accounts().contains_key(u) && #[trigger] self.accounts().contains_key(v) && u
                != v implies self.accounts()[u].id != self.accounts()[v].id by {
            let i = choose|i: int| 0 <= i < self.records.len() && (#[trigger] self.records@[i])@.username == u;
            let j = choose|j: int| 0 <= j < self.records.len() && (#[trigger] self.records@[j])@.username == v;
            if i < j {
                assert(self.records@[i]@.id != self.records@[j]@.id);
            } else {
                assert(self.records@[j]@.id != self.records@[i]@.id);
            }
        }
    }

    /// Whether some record has identifier `id`.
    fn has_id(&self, id: &str) -> (r: bool)
        requires
            self.wf(),
        ensures
            r == id_in_use(self.accounts(), id@),
    {
        let wanted = id.to_owned();
        let mut i: usize = 0;
        while i < self.records.len()
            invariant
                self.wf(),
                wanted@ == id@,
                i <= self.records.len(),
                forall|j: int| 0 <= j < i ==> (#[trigger] self.records@[j])@.id != id@,
            decreases self.records.len() - i,
        {
            if self.records[i].id == wanted {
                assert(self.accounts().contains_key(self.records@[i as int]@.username));
                return true;
            }
            i = i + 1;
        }
        proof {
            if id_in_use(self.accounts(), id@) {
                let u = choose|u: Seq<char>| #[trigger] self.accounts().contains_key(u) && self.accounts()[u].id == id@;
                let k = choose|k: int| 0 <= k < self.records.len() && (#[trigger] self.records@[k])@.username == u;
                assert(self.records@[k]@.id != id@);
            }
        }
        false
    }

    /// Adds a record; refused when its username or its identifier is taken.
    pub fn create(&mut self, record: Record) -> (r: Result<(), StoreError>)
        requires
            old(self).wf(),
        ensures
            final(self).wf(),
            r is Err <==> old(self).accounts().contains_key(record@.username) || id_in_use(
                old(self).accounts(),
                record@.id,
            ),
            r is Err ==> final(self).accounts() == old(self).accounts(),
            old(self).accounts().contains_key(record@.username) ==> r
                == Err::<(), StoreError>(StoreError::DuplicateUsername),
            !old(self).accounts().contains_key(record@.username) && id_in_use(
                old(self).accounts(),
                record@.id,
            ) ==> r == Err::<(), StoreError>(StoreError::DuplicateId),
            r is Ok ==> final(self).accounts() == old(self).accounts().insert(
                record@.username,
                record@,
            ),
    {
        if self.has_id(record.id.as_str()) {
            return match self.position(record.username.as_str()) {
                Some(_) => Err(StoreError::DuplicateUsername),
                None => Err(StoreError::DuplicateId),
            };
        }
        match self.position(record.username.as_str()) {
            Some(_) => Err(StoreError::DuplicateUsername),
            None => {
                let ghost old_records = self.records@;
                let ghost rv = record@;
                self.model = Ghost(self.model@.insert(rv.username, rv));
                self.records.push(record);
                proof {
                    assert(self.records@[old_records.len() as int]@ == rv);
                    assert forall|i: int| 0 <= i < old_records.len() implies self.records@[i]
                        == old_records[i] by {}
                    assert forall|u: Seq<char>| #[trigger]
                        self.model@.contains_key(u) implies exists|i: int|
                        0 <= i < self.records.len() && (#[trigger] self.records@[i])@.username
                            == u by {
                        if u != rv.username {
                            let k = choose|k: int|
                                0 <= k < old_records.len() && (#[trigger] old_records[k])@.username
                                    == u;
                            assert(self.records@[k]@.username == u);
                        } else {
                            assert(self.records@[old_records.len() as int]@.username == u);
                        }
                    }
                }
                Ok(())
            },
        }
    }

    /// A copy of the record of `username`.
    pub fn find_by_username(&self, username: &str) -> (r: Result<Record, StoreError>)
        requires
            self.wf(),
        ensures
            r is Err <==> !self.accounts().contains_key(username@),
            r is Err ==> r->Err_0 == StoreError::NotFound,
            r is Ok ==> r->Ok_0@ == self.accounts()[username@],
    {
        match self.position(username) {
            Some(i) => Ok(self.records[i].duplicate()),
            None => Err(StoreError::NotFound),
        }
    }

    /// Replaces the password hash and salt of the record of `username`.
    pub fn update_password_hash(&mut self, username: &str, password: String, salt: [u8; 16]) -> (r:
        Result<(), StoreError>)
        requires
            old(self).wf(),
        ensures
            final(self).wf(),
            r is Err <==> !old(self).accounts().contains_key(username@),
            r is Err ==> r->Err_0 == StoreError::NotFound && final(self).accounts()
                == old(self).accounts(),
            r is Ok ==> final(self).accounts() == old(self).accounts().insert(
                username@,
                RecordView { password: password@, salt: salt@, ..old(self).accounts()[username@] },
            ),
    {
        match self.position(username) {
            None => Err(StoreError::NotFound),
            Some(i) => {
                let ghost old_records = self.records@;
                let id = self.records[i].id.clone();
                let name = self.records[i].username.clone();
                let record = Record::new(id, name, password, salt);
                let ghost rv = record@;
                self.model = Ghost(self.model@.insert(rv.username, rv));
                self.records[i] = record;
                proof {
                    assert(self.records@[i as int]@ == rv);
                    assert forall|j: int| 0 <= j < old_records.len() && j != i implies self.records@[j]
                        == old_records[j] by {}
                    assert forall|u: Seq<char>| #[trigger]
                        self.model@.contains_key(u) implies exists|j: int|
                        0 <= j < self.records.len() && (#[trigger] self.records@[j])@.username
                            == u by {
                        if u != rv.username {
                            let k = choose|k: int|
                                0 <= k < old_records.len() && (#[trigger] old_records[k])@.username
                                    == u;
                            assert(self.records@[k]@.username == u);
                        } else {
                            assert(self.records@[i as int]@.username == u);
                        }
                    }
                }
                Ok(())
            },
        }
    }
}

} // verus!
