//! Fixed-width identifiers for clients, vaults and records, and symmetric
//! keys.  Identifiers are derived from byte paths through a one-way digest;
//! keys and fresh identifiers come from the system's randomness source.

use vstd::prelude::*;

use crate::bytes::bytes_eq;
use crate::{ID_LEN, KEY_LEN};

use blake2::{Blake2b, Digest};
use blake2::digest::consts::U24;
use rand::Rng;

verus! {

/// The 24-byte BLAKE2b digest of the input; it depends on the input alone.
pub uninterp spec fn digest24_of(input: Seq<u8>) -> Seq<u8>;

/// Relies on blake2::Blake2b with a 24-byte output: the digest is a pure
/// function of the input bytes and is always 24 bytes long.
#[verifier::external_body]
fn blake2b24(input: &Vec<u8>) -> (r: Vec<u8>)
    ensures
        r@ == digest24_of(input@),
        r@.len() == ID_LEN as nat,
{
    let mut hasher = Blake2b::<U24>::new();
    hasher.update(input.as_slice());
    hasher.finalize().to_vec()
}

/// Relies on rand's thread-local generator: fills a buffer of the requested
/// length with random bytes; nothing is promised of their values.
#[verifier::external_body]
fn random_bytes(n: usize) -> (r: Vec<u8>)
    ensures
        r@.len() == n as nat,
{
    let mut buf = vec![0u8; n];
    rand::rng().fill_bytes(&mut buf);
    buf
}

/// Identifier of one logical secret-owning principal.
#[derive(Clone, Debug, PartialEq, Eq)]
pub struct ClientId {
    pub bytes: Vec<u8>,
}

/// Identifier of one vault of a client.
#[derive(Clone, Debug, PartialEq, Eq)]
pub struct VaultId {
    pub bytes: Vec<u8>,
}

/// Identifier of one record within a vault.
#[derive(Clone, Debug, PartialEq, Eq)]
pub struct RecordId {
    pub bytes: Vec<u8>,
}

/// A symmetric key, for a vault or for a snapshot file.
#[derive(Clone, Debug, PartialEq, Eq)]
pub struct Key {
    pub bytes: Vec<u8>,
}

impl View for ClientId {
    type V = Seq<u8>;

    open spec fn view(&self) -> Seq<u8> {
        self.bytes@
    }
}

impl View for VaultId {
    type V = Seq<u8>;

    open spec fn view(&self) -> Seq<u8> {
        self.bytes@
    }
}

impl View for RecordId {
    type V = Seq<u8>;

    open spec fn view(&self) -> Seq<u8> {
        self.bytes@
    }
}

impl View for Key {
    type V = Seq<u8>;

    open spec fn view(&self) -> Seq<u8> {
        self.bytes@
    }
}

impl ClientId {
    /// A well-formed client id is exactly `ID_LEN` bytes.
    pub open spec fn wf(&self) -> bool {
        self@.len() == ID_LEN as nat
    }

    /// A fresh random client id.
    pub fn random() -> (r: Self)
        ensures
            r.wf(),
    {
        ClientId { bytes: random_bytes(ID_LEN) }
    }

    /// An owned copy of this id.
    pub fn duplicate(&self) -> (r: Self)
        ensures
            r@ == self@,
    {
        ClientId { bytes: crate::bytes::copy_bytes(&self.bytes) }
    }

    /// Byte-for-byte equality.
    pub fn equals(&self, other: &Self) -> (r: bool)
        ensures
            r == (self@ == other@),
    {
        bytes_eq(&self.bytes, &other.bytes)
    }
}

impl VaultId {
    /// A well-formed vault id is exactly `ID_LEN` bytes.
    pub open spec fn wf(&self) -> bool {
        self@.len() == ID_LEN as nat
    }

    /// A fresh random vault id, for vaults that use no path scheme.
    pub fn random() -> (r: Self)
        ensures
            r.wf(),
    {
        VaultId { bytes: random_bytes(ID_LEN) }
    }

    /// An owned copy of this id.
    pub fn duplicate(&self) -> (r: Self)
        ensures
            r@ == self@,
    {
        VaultId { bytes: crate::bytes::copy_bytes(&self.bytes) }
    }

    /// Byte-for-byte equality.
    pub fn equals(&self, other: &Self) -> (r: bool)
        ensures
            r == (self@ == other@),
    {
        bytes_eq(&self.bytes, &other.bytes)
    }
}

impl RecordId {
    /// A well-formed record id is exactly `ID_LEN` bytes.
    pub open spec fn wf(&self) -> bool {
        self@.len() == ID_LEN as nat
    }

    /// An owned copy of this id.
    pub fn duplicate(&self) -> (r: Self)
        ensures
            r@ == self@,
    {
        RecordId { bytes: crate::bytes::copy_bytes(&self.bytes) }
    }

    /// Byte-for-byte equality.
    pub fn equals(&self, other: &Self) -> (r: bool)
        ensures
            r == (self@ == other@),
    {
        bytes_eq(&self.bytes, &other.bytes)
    }
}

impl Key {
    /// A well-formed key is exactly `KEY_LEN` bytes.
    pub open spec fn wf(&self) -> bool {
        self@.len() == KEY_LEN as nat
    }

    /// A fresh random symmetric key.
    pub fn random() -> (r: Self)
        ensures
            r.wf(),
    {
        Key { bytes: random_bytes(KEY_LEN) }
    }

    /// An owned copy of this key.
    pub fn duplicate(&self) -> (r: Self)
        ensures
            r@ == self@,
    {
        Key { bytes: crate::bytes::copy_bytes(&self.bytes) }
    }
}

/// The digest of `data` followed by `path`: the shared shape of every
/// identifier derivation.
pub open spec fn id_from_path(data: Seq<u8>, path: Seq<u8>) -> Seq<u8> {
    digest24_of(data + path)
}

/// Derives identifier bytes from a data part and a path part.
pub fn load_id_from_path(data: &Vec<u8>, path: &Vec<u8>) -> (r: Vec<u8>)
    ensures
        r@ == id_from_path(data@, path@),
        r@.len() == ID_LEN as nat,
{
    let joined = crate::bytes::concat_bytes(data, path);
    blake2b24(&joined)
}

} // verus!
