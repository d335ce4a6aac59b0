use crate::container::{container_bytes, decode_container, encode_container, HEADER_LEN};
use crate::crypto::{
    aes_cbc_encrypt_of, aes_decrypt, cbc_encrypt, derived_key, padded_len, generate_encryption_key,
    generate_random_iv, generate_random_salt, IV_LEN, KEY_LEN, SALT_LEN,
};
use crate::errors::PasswordError;
use crate::schema::{
    decode_payload, payload_text, valid_records, views, Password,
    RecordView, Schema,
};
use vstd::prelude::*;
use vstd::utf8::{decode_utf8, encode_utf8, valid_utf8};

verus! {

/// Whether some record of `rs` carries the name `name`.
pub open spec fn has_name(rs: Seq<RecordView>, name: Seq<char>) -> bool {
    exists|i: int| 0 <= i < rs.len() && (#[trigger] rs[i]).0 == name
}

/// The container that saving the collection `rs` under `key` and `salt`, with the IV
/// `iv`, produces.
pub open spec fn sealed_bytes(key: Seq<u8>, salt: Seq<u8>, iv: Seq<u8>, rs: Seq<RecordView>) -> Seq<u8> {
    container_bytes(salt, iv, aes_cbc_encrypt_of(key, iv, encode_utf8(payload_text(rs))))
}

/// What loading `data` with passphrase `pw` yields: the key, the salt and the records,
/// or the error.
pub open spec fn load_outcome(pw: Seq<char>, data: Seq<u8>) -> Result<
    (Seq<u8>, Seq<u8>, Seq<RecordView>),
    PasswordError,
> {
    if data.len() < 48 {
        Err(PasswordError::InvalidFormat)
    } else {
        let salt = data.subrange(0, 32);
        let iv = data.subrange(32, 48);
        let ct = data.subrange(48, data.len() as int);
        let key = derived_key(pw, salt);
        match crate::crypto::aes_cbc_decrypt_of(key, iv, ct) {
            None => Err(PasswordError::DecryptionError),
            Some(plain) => {
                if !valid_utf8(plain) {
                    Err(PasswordError::InvalidFormat)
                } else {
                    match decode_payload(decode_utf8(plain)) {
                        None => Err(PasswordError::InvalidFormat),
                        Some(rs) => Ok((key, salt, rs)),
                    }
                }
            },
        }
    }
}

/// `r` with its value replaced by `value` where its name is `name`.
pub open spec fn replaced(r: RecordView, name: Seq<char>, value: Seq<char>) -> RecordView {
    if r.0 == name {
        (name, value)
    } else {
        r
    }
}

/// Once a record is in a collection its name is taken: by the contract of
/// `add_password`, adding that name again fails with `ConflictError` and leaves the
/// records as they were.
pub proof fn lemma_added_name_is_taken(rs: Seq<RecordView>, r: RecordView)
    ensures
        has_name(rs.push(r), r.0),
{
    assert(rs.push(r)[rs.len() as int] == r);
}

/// Relies on `String::from_utf8`: succeeds exactly on valid UTF-8, and the string then
/// holds the decoded characters.
#[verifier::external_body]
fn utf8_to_string(bytes: Vec<u8>) -> (r: Option<String>)
    ensures
        r is Some <==> valid_utf8(bytes@),
        r matches Some(s) ==> s@ == decode_utf8(bytes@),
{
    String::from_utf8(bytes).ok()
}

/// An open vault: the derived key, the vault's salt and the decrypted records.
pub struct PasswordStore {
    key: Vec<u8>,
    salt: Vec<u8>,
    schema: Schema,
}

impl PasswordStore {
    /// The records, in insertion order.
    pub closed spec fn records(&self) -> Seq<RecordView> {
        self.schema.records()
    }

    /// The vault's salt.
    pub closed spec fn salt_bytes(&self) -> Seq<u8> {
        self.salt@
    }

    /// The key that the records are encrypted under.
    pub closed spec fn key_bytes(&self) -> Seq<u8> {
        self.key@
    }

    /// Key and salt have their fixed lengths and the records form a valid collection.
    pub closed spec fn wf(&self) -> bool {
        &&& self.key@.len() == KEY_LEN
        &&& self.salt@.len() == SALT_LEN
        &&& valid_records(self.schema.records())
    }

    /// A well-formed store has a 32-byte key, a 32-byte salt and a valid collection
    /// (names unique and non-empty, values non-empty).
    pub proof fn lemma_wf(&self)
        requires
            self.wf(),
        ensures
            self.key_bytes().len() == KEY_LEN,
            self.salt_bytes().len() == SALT_LEN,
            valid_records(self.records()),
    {
    }

    /// An empty vault for the passphrase with the given salt.
    pub fn with_salt(master_password: &str, salt: Vec<u8>) -> (r: PasswordStore)
        requires
            salt@.len() == SALT_LEN,
        ensures
            r.wf(),
            r.records() == Seq::<RecordView>::empty(),
            r.salt_bytes() == salt@,
            r.key_bytes() == derived_key(master_password@, salt@),
    {
        let key = generate_encryption_key(master_password, salt.as_slice());
        PasswordStore { key: key, salt: salt, schema: Schema::new() }
    }

    /// An empty vault for the passphrase with a fresh random salt; `Io` where the
    /// operating system supplies no random bytes.
    pub fn new(master_password: &str) -> (r: Result<PasswordStore, PasswordError>)
        ensures
            match r {
                Ok(s) => s.wf() && s.records() == Seq::<RecordView>::empty() && s.salt_bytes().len()
                    == SALT_LEN && s.key_bytes() == derived_key(master_password@, s.salt_bytes()),
                Err(e) => e == PasswordError::Io,
            },
    {
        let salt = generate_random_salt()?;
        Ok(PasswordStore::with_salt(master_password, salt))
    }

    /// The container of the records encrypted under the vault's key with the given IV.
    pub fn seal(&self, iv: &Vec<u8>) -> (r: Vec<u8>)
        requires
            self.wf(),
            iv@.len() == IV_LEN,
        ensures
            r@ == sealed_bytes(self.key_bytes(), self.salt_bytes(), iv@, self.records()),
            r@.len() == HEADER_LEN + padded_len(encode_utf8(payload_text(self.records())).len()),
            r@.subrange(0, SALT_LEN as int) == self.salt_bytes(),
    {
        let text = self.schema.to_text();
        let encrypted = cbc_encrypt(self.key.as_slice(), iv.as_slice(), text.as_str().as_bytes());
        let r = encode_container(self.salt.as_slice(), iv.as_slice(), encrypted.as_slice());
        assert(r@.subrange(0, SALT_LEN as int) =~= self.salt@);
        r
    }

    /// The vault as container bytes, encrypted with a fresh random IV; `Io` where the
    /// operating system supplies no random bytes.
    pub fn save_store(&self) -> (r: Result<Vec<u8>, PasswordError>)
        requires
            self.wf(),
        ensures
            match r {
                Ok(b) => (exists|iv: Seq<u8>|
                    iv.len() == IV_LEN && b@ == sealed_bytes(
                        self.key_bytes(),
                        self.salt_bytes(),
                        iv,
                        self.records(),
                    )) && b@.len() == HEADER_LEN + padded_len(
                    encode_utf8(payload_text(self.records())).len(),
                ) && b@.subrange(0, SALT_LEN as int) == self.salt_bytes(),
                Err(e) => e == PasswordError::Io,
            },
    {
        let iv = generate_random_iv()?;
        Ok(self.seal(&iv))
    }

    /// Opens a container with a passphrase. Fails with `InvalidFormat` where the
    /// container is shorter than its header or the decrypted payload is not the text of
    /// a valid collection, and with `DecryptionError` where the ciphertext does not
    /// decrypt. A container saved from a store whose key came from the same passphrase
    /// opens to the same records, salt and key.
    pub fn load_store(master_password: String, data: &Vec<u8>) -> (r: Result<PasswordStore, PasswordError>)
        ensures
            match r {
                Ok(s) => s.wf() && load_outcome(master_password@, data@) == Ok::<
                    (Seq<u8>, Seq<u8>, Seq<RecordView>),
                    PasswordError,
                >((s.key_bytes(), s.salt_bytes(), s.records())),
                Err(e) => load_outcome(master_password@, data@) == Err::<
                    (Seq<u8>, Seq<u8>, Seq<RecordView>),
                    PasswordError,
                >(e),
            },
            data@.len() < HEADER_LEN ==> r == Err::<PasswordStore, PasswordError>(
                PasswordError::InvalidFormat,
            ),
            data@.len() >= HEADER_LEN && (data@.len() - HEADER_LEN) % 16 != 0 ==> r == Err::<
                PasswordStore,
                PasswordError,
            >(PasswordError::DecryptionError),
            forall|salt: Seq<u8>, iv: Seq<u8>, rs: Seq<RecordView>|
                salt.len() == SALT_LEN && iv.len() == IV_LEN && valid_records(rs) && #[trigger] sealed_bytes(
                    derived_key(master_password@, salt),
                    salt,
                    iv,
                    rs,
                ) == data@ ==> (r matches Ok(s) && s.records() == rs && s.salt_bytes() == salt
                    && s.key_bytes() == derived_key(master_password@, salt)),
    {
        let (salt, iv, ct) = match decode_container(data.as_slice()) {
            Ok(x) => x,
            Err(e) => {
                return Err(e);
            },
        };
        let key = generate_encryption_key(master_password.as_str(), salt.as_slice());
        let decrypted = aes_decrypt(ct.as_slice(), key.as_slice(), iv.as_slice());
        proof {
            assert forall|s0: Seq<u8>, iv0: Seq<u8>, rs: Seq<RecordView>|
                s0.len() == SALT_LEN && iv0.len() == IV_LEN && valid_records(rs) && #[trigger] sealed_bytes(
                    derived_key(master_password@, s0),
                    s0,
                    iv0,
                    rs,
                ) == data@ implies s0 == salt@ && iv0 == iv@ && ct@ == aes_cbc_encrypt_of(
                key@,
                iv0,
                encode_utf8(payload_text(rs)),
            ) by {
                let c = aes_cbc_encrypt_of(derived_key(master_password@, s0), iv0, encode_utf8(payload_text(rs)));
                assert(data@.subrange(0, 32) =~= s0);
                assert(data@.subrange(32, 48) =~= iv0);
                assert(data@.subrange(48, data@.len() as int) =~= c);
            }
        }
        let plain = match decrypted {
            Ok(p) => p,
            Err(e) => {
                return Err(e);
            },
        };
        proof {
            assert forall|s0: Seq<u8>, iv0: Seq<u8>, rs: Seq<RecordView>|
                s0.len() == SALT_LEN && iv0.len() == IV_LEN && valid_records(rs) && #[trigger] sealed_bytes(
                    derived_key(master_password@, s0),
                    s0,
                    iv0,
                    rs,
                ) == data@ implies valid_utf8(plain@) && decode_utf8(plain@) == payload_text(rs) by {
                vstd::utf8::encode_utf8_valid_utf8(payload_text(rs));
                vstd::utf8::encode_utf8_decode_utf8(payload_text(rs));
            }
        }
        let text = match utf8_to_string(plain) {
            Some(t) => t,
            None => {
                return Err(PasswordError::InvalidFormat);
            },
        };
        let schema = match Schema::from_text(text.as_str()) {
            Some(s) => s,
            None => {
                return Err(PasswordError::InvalidFormat);
            },
        };
        Ok(PasswordStore { key: key, salt: salt, schema: schema })
    }
}

impl PasswordStore {
    /// Position of the record named `name`, if any.
    fn position(&self, name: &str) -> (r: Option<usize>)
        requires
            self.wf(),
        ensures
            r matches Some(i) ==> i < self.records().len() && self.records()[i as int].0 == name@
                && forall|j: int| 0 <= j < i ==> (#[trigger] self.records()[j]).0 != name@,
            r is None <==> !has_name(self.records(), name@),
    {
        let key = name.to_owned();
        let n = self.schema.passwords.len();
        let mut i: usize = 0;
        while i < n
            invariant
                n == self.schema.passwords.len(),
                i <= n,
                key@ == name@,
                forall|j: int| 0 <= j < i ==> (#[trigger] self.records()[j]).0 != name@,
            decreases n - i,
        {
            if self.schema.passwords[i].name == key {
                assert(self.records()[i as int] == self.schema.passwords@[i as int]@);
                assert((self.records()[i as int]).0 == name@);
                return Some(i);
            }
            i = i + 1;
        }
        None
    }

    /// Adds a record at the end. Fails with `EmptyValueError` where its name or value
    /// is empty, and with `ConflictError` where a record of that name exists; the
    /// records are then unchanged.
    pub fn add_password(&mut self, password: Password) -> (r: Result<(), PasswordError>)
        requires
            old(self).wf(),
        ensures
            final(self).wf(),
            final(self).salt_bytes() == old(self).salt_bytes(),
            final(self).key_bytes() == old(self).key_bytes(),
            password.name@.len() == 0 || password.password@.len() == 0 ==> r == Err::<
                (),
                PasswordError,
            >(PasswordError::EmptyValueError),
            password.name@.len() > 0 && password.password@.len() > 0 && has_name(
                old(self).records(),
                password.name@,
            ) ==> r == Err::<(), PasswordError>(PasswordError::ConflictError),
            r is Ok <==> password.name@.len() > 0 && password.password@.len() > 0 && !has_name(
                old(self).records(),
                password.name@,
            ),
            r is Ok ==> final(self).records() == old(self).records().push(password@),
            r is Err ==> final(self).records() == old(self).records(),
    {
        if password.name.as_str().is_empty() || password.password.as_str().is_empty() {
            return Err(PasswordError::EmptyValueError);
        }
        if self.position(password.name.as_str()).is_some() {
            return Err(PasswordError::ConflictError);
        }
        let ghost before = self.records();
        let ghost rec = password@;
        self.schema.passwords.push(password);
        proof {
            assert(self.records() =~= before.push(rec));
            assert forall|i: int, j: int| 0 <= i < j < self.records().len() implies (
            #[trigger] self.records()[i]).0 != (#[trigger] self.records()[j]).0 by {
                if j == before.len() {
                    assert(before[i] == self.records()[i]);
                }
            }
        }
        Ok(())
    }

    /// Whether a record named `name` exists.
    pub fn has_password(&self, name: &str) -> (r: bool)
        requires
            self.wf(),
        ensures
            r == has_name(self.records(), name@),
    {
        self.position(name).is_some()
    }

    /// A copy of the record named `name`, or `None` where there is none.
    pub fn get_password(&self, name: &str) -> (r: Option<Password>)
        requires
            self.wf(),
        ensures
            r is None <==> !has_name(self.records(), name@),
            r matches Some(p) ==> p.name@ == name@ && exists|i: int|
                0 <= i < self.records().len() && self.records()[i] == p@ && forall|j: int|
                    0 <= j < i ==> (#[trigger] self.records()[j]).0 != name@,
    {
        match self.position(name) {
            Some(i) => {
                let p = self.schema.passwords[i].duplicate();
                assert(self.records()[i as int] == p@);
                Some(p)
            },
            None => None,
        }
    }

    /// All records, in insertion order.
    pub fn get_all_passwords(&self) -> (r: Vec<&Password>)
        ensures
            r@.len() == self.records().len(),
            forall|i: int| 0 <= i < r@.len() ==> (#[trigger] r@[i])@ == self.records()[i],
    {
        let mut r: Vec<&Password> = Vec::new();
        let n = self.schema.passwords.len();
        let mut i: usize = 0;
        while i < n
            invariant
                n == self.schema.passwords.len(),
                i <= n,
                r@.len() == i,
                forall|j: int| 0 <= j < i ==> (#[trigger] r@[j])@ == self.records()[j],
            decreases n - i,
        {
            r.push(&self.schema.passwords[i]);
            i = i + 1;
        }
        r
    }

    /// Replaces the value of the record named `name`, keeping its place. Fails with
    /// `EmptyValueError` where the new value is empty and with `NotFoundError` where no
    /// record has that name; the records are then unchanged.
    pub fn change_password(&mut self, name: &str, new_value: String) -> (r: Result<(), PasswordError>)
        requires
            old(self).wf(),
        ensures
            final(self).wf(),
            final(self).salt_bytes() == old(self).salt_bytes(),
            final(self).key_bytes() == old(self).key_bytes(),
            new_value@.len() == 0 ==> r == Err::<(), PasswordError>(PasswordError::EmptyValueError),
            new_value@.len() > 0 && !has_name(old(self).records(), name@) ==> r == Err::<
                (),
                PasswordError,
            >(PasswordError::NotFoundError),
            r is Ok <==> new_value@.len() > 0 && has_name(old(self).records(), name@),
            r is Err ==> final(self).records() == old(self).records(),
            r is Ok ==> final(self).records().len() == old(self).records().len(),
            r is Ok ==> forall|j: int|
                0 <= j < old(self).records().len() ==> #[trigger] final(self).records()[j]
                    == replaced(old(self).records()[j], name@, new_value@),
    {
        if new_value.as_str().is_empty() {
            return Err(PasswordError::EmptyValueError);
        }
        match self.position(name) {
            None => Err(PasswordError::NotFoundError),
            Some(i) => {
                let ghost before = self.records();
                let old_name = self.schema.passwords[i].name.clone();
                self.schema.passwords[i] = Password::new(old_name, new_value);
                proof {
                    assert forall|j: int| 0 <= j < before.len() implies #[trigger] self.records()[j]
                        == replaced(before[j], name@, new_value@) by {
                        if j != i {
                            assert(before[j].0 != before[i as int].0);
                        }
                    }
                    assert forall|a: int, b: int| 0 <= a < b < self.records().len() implies (
                    #[trigger] self.records()[a]).0 != (#[trigger] self.records()[b]).0 by {
                        assert(self.records()[a].0 == before[a].0);
                        assert(self.records()[b].0 == before[b].0);
                    }
                }
                Ok(())
            },
        }
    }

    /// Removes the record named `name`, keeping the order of the others. Fails with
    /// `NotFoundError` where no record has that name; the records are then unchanged.
    pub fn delete_password(&mut self, name: &str) -> (r: Result<(), PasswordError>)
        requires
            old(self).wf(),
        ensures
            final(self).wf(),
            final(self).salt_bytes() == old(self).salt_bytes(),
            final(self).key_bytes() == old(self).key_bytes(),
            r is Ok <==> has_name(old(self).records(), name@),
            r matches Err(e) ==> e == PasswordError::NotFoundError,
            r is Err ==> final(self).records() == old(self).records(),
            r is Ok ==> exists|i: int|
                0 <= i < old(self).records().len() && old(self).records()[i].0 == name@
                    && final(self).records() == old(self).records().remove(i),
            !has_name(final(self).records(), name@),
    {
        match self.position(name) {
            None => Err(PasswordError::NotFoundError),
            Some(i) => {
                let ghost before = self.records();
                let ghost before_ps = self.schema.passwords@;
                self.schema.passwords.remove(i);
                proof {
                    assert(self.records() =~= before.remove(i as int));
                    assert forall|a: int, b: int| 0 <= a < b < self.records().len() implies (
                    #[trigger] self.records()[a]).0 != (#[trigger] self.records()[b]).0 by {
                        let a0 = if a < i { a } else { a + 1 };
                        let b0 = if b < i { b } else { b + 1 };
                        assert(self.records()[a] == before[a0]);
                        assert(self.records()[b] == before[b0]);
                    }
                    assert forall|k: int| 0 <= k < self.records().len() implies (
                    #[trigger] self.records()[k]).0 != name@ by {
                        let k0 = if k < i { k } else { k + 1 };
                        assert(self.records()[k] == before[k0]);
                    }
                }
                Ok(())
            },
        }
    }
}

} // verus!
