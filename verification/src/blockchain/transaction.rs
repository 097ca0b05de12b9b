//! Signed transfers between addresses.

use vstd::prelude::*;
use vstd::string::StringExecFns;
use vstd::utf8::encode_utf8;

use crate::clock::current_timestamp;
use crate::crypto::hash::{sha256_str, spec_sha256_hex};
use crate::crypto::hex::{
    hex_decode, hex_encode, lemma_hex_roundtrip, spec_hex_decode, spec_hex_decodes,
    spec_hex_encode,
};
use crate::crypto::signature::{
    ed25519_key_valid, ed25519_public_key, ed25519_signature, ed25519_verifies, key_is_valid,
    public_key_of, sign, verify,
};
use crate::text::{push_decimal, spec_decimal};

verus! {

/// The fee charged on a transfer of `amount`: one percent, rounded down.
pub open spec fn spec_fee(amount: u64) -> u64 {
    amount / 100
}

/// The text that a transaction's hash covers: sender, receiver, amount and
/// timestamp, written one after another with the numbers in decimal.
pub open spec fn spec_tx_preimage(from: Seq<char>, to: Seq<char>, amount: u64, timestamp: u64) -> Seq<
    char,
> {
    from + to + spec_decimal(amount as nat) + spec_decimal(timestamp as nat)
}

/// The hash of a transaction: the SHA-256 hex of the UTF-8 bytes of its preimage.
pub open spec fn spec_tx_hash(from: Seq<char>, to: Seq<char>, amount: u64, timestamp: u64) -> Seq<
    char,
> {
    spec_sha256_hex(encode_utf8(spec_tx_preimage(from, to, amount, timestamp)))
}

/// The public key that a sender address stands for: its hex, decoded.
pub open spec fn spec_sender_key(from: Seq<char>) -> Seq<u8> {
    spec_hex_decode(encode_utf8(from))
}

/// Whether a sender address is the hex of 32 bytes that form an Ed25519 public
/// key. Checking a signature needs such an address.
pub open spec fn spec_sender_key_ok(from: Seq<char>) -> bool {
    &&& spec_hex_decodes(encode_utf8(from))
    &&& spec_sender_key(from).len() == 32
    &&& ed25519_key_valid(spec_sender_key(from))
}

/// Whether the signature of `tx` verifies, under the sender's key, on the bytes
/// of the hash recomputed from the transaction's fields.
pub open spec fn spec_signature_ok(tx: Transaction) -> bool {
    ed25519_verifies(
        spec_sender_key(tx.from@),
        encode_utf8(spec_tx_hash(tx.from@, tx.to@, tx.amount, tx.timestamp)),
        tx.signature@,
    )
}

/// A transfer of `amount` from `from` to `to`, paying `fee` to the miner.
#[derive(Clone, Debug)]
pub struct Transaction {
    /// The sender's address: the hex of its Ed25519 public key.
    pub from: String,
    /// The receiver's address.
    pub to: String,
    /// The amount moved.
    pub amount: u64,
    /// Seconds since the Unix epoch when the transaction was made.
    pub timestamp: u64,
    /// The fee that goes to the miner.
    pub fee: u64,
    /// The sender's Ed25519 signature on the bytes of the hash.
    pub signature: [u8; 64],
    /// The transaction's hash (see `calculate_hash`).
    pub hash: String,
}

impl Transaction {
    /// The hash that a transaction with these fields is signed on.
    pub fn calculate_hash(from: &str, to: &str, amount: u64, timestamp: u64) -> (res: String)
        ensures
            res@ == spec_tx_hash(from@, to@, amount, timestamp),
            res@.len() == 64,
    {
        let mut input = from.to_owned();
        input.append(to);
        push_decimal(&mut input, amount);
        push_decimal(&mut input, timestamp);
        assert(input@ =~= spec_tx_preimage(from@, to@, amount, timestamp));
        sha256_str(input.as_str())
    }

    /// A transaction of `amount` to `to` made at `timestamp`, signed with the
    /// Ed25519 secret key `signing_key`. The sender is the hex of the key's
    /// public half, and the fee is one percent of the amount.
    pub fn new_at(signing_key: &[u8; 32], to: &str, amount: u64, timestamp: u64) -> (res: Self)
        ensures
            res.from@ == spec_hex_encode(ed25519_public_key(signing_key@)),
            res.to@ == to@,
            res.amount == amount,
            res.timestamp == timestamp,
            res.fee == spec_fee(amount),
            res.hash@ == spec_tx_hash(res.from@, to@, amount, timestamp),
            res.signature@ == ed25519_signature(signing_key@, encode_utf8(res.hash@)),
            spec_sender_key_ok(res.from@),
            spec_signature_ok(res),
    {
        let public = public_key_of(signing_key);
        let from = hex_encode(public.as_slice());
        let fee = amount / 100;
        let hash = Self::calculate_hash(from.as_str(), to, amount, timestamp);
        let signature = sign(signing_key, hash.as_str().as_bytes());
        proof {
            lemma_hex_roundtrip(public@);
        }
        Transaction { from, to: to.to_owned(), amount, timestamp, fee, signature, hash }
    }

    /// A transaction of `amount` to `to`, signed with the Ed25519 secret key
    /// `signing_key`, made at what the clock answered: where the reading is a
    /// time, `new_at` at exactly that time, so the hash covers it; where the
    /// reading failed, `None`.
    pub fn new_from_clock(signing_key: &[u8; 32], to: &str, amount: u64, reading: Option<u64>) -> (res:
        Option<Self>)
        ensures
            res is Some <==> reading is Some,
            res matches Some(tx) ==> {
                &&& tx.timestamp == reading->0
                &&& tx.from@ == spec_hex_encode(ed25519_public_key(signing_key@))
                &&& tx.to@ == to@
                &&& tx.amount == amount
                &&& tx.fee == spec_fee(amount)
                &&& tx.hash@ == spec_tx_hash(tx.from@, to@, amount, reading->0)
                &&& tx.signature@ == ed25519_signature(signing_key@, encode_utf8(tx.hash@))
                &&& spec_sender_key_ok(tx.from@)
                &&& spec_signature_ok(tx)
            },
    {
        match reading {
            Some(timestamp) => Some(Self::new_at(signing_key, to, amount, timestamp)),
            None => None,
        }
    }

    /// A transaction of `amount` to `to`, made now and signed with the Ed25519
    /// secret key `signing_key`: `new_from_clock` with the clock's reading, so
    /// `None` where the clock reads earlier than the Unix epoch.
    pub fn new(signing_key: &[u8; 32], to: &str, amount: u64) -> (res: Option<Self>)
        ensures
            res matches Some(tx) ==> {
                &&& tx.from@ == spec_hex_encode(ed25519_public_key(signing_key@))
                &&& tx.to@ == to@
                &&& tx.amount == amount
                &&& tx.fee == spec_fee(amount)
                &&& tx.hash@ == spec_tx_hash(tx.from@, to@, amount, tx.timestamp)
                &&& tx.signature@ == ed25519_signature(signing_key@, encode_utf8(tx.hash@))
                &&& spec_sender_key_ok(tx.from@)
                &&& spec_signature_ok(tx)
            },
    {
        Self::new_from_clock(signing_key, to, amount, current_timestamp())
    }

    /// The 32 bytes that the sender address decodes to, if it is the hex of 32
    /// bytes.
    fn sender_key_bytes(&self) -> (res: Option<[u8; 32]>)
        ensures
            res is Some <==> (spec_hex_decodes(encode_utf8(self.from@)) && spec_sender_key(
                self.from@,
            ).len() == 32),
            res matches Some(key) ==> key@ == spec_sender_key(self.from@),
    {
        match hex_decode(self.from.as_str()) {
            None => None,
            Some(bytes) => {
                if bytes.len() != 32 {
                    return None;
                }
                let mut key = [0u8; 32];
                let mut i: usize = 0;
                while i < 32
                    invariant
                        i <= 32,
                        bytes@.len() == 32,
                        forall|j: int| 0 <= j < i ==> key@[j] == bytes@[j],
                    decreases 32 - i,
                {
                    key[i] = bytes[i];
                    i = i + 1;
                }
                assert(key@ =~= bytes@);
                Some(key)
            },
        }
    }

    /// Whether the sender address is the hex of a valid Ed25519 public key, so
    /// that `verify_signature` can decode it.
    pub fn has_valid_sender(&self) -> (res: bool)
        ensures
            res == spec_sender_key_ok(self.from@),
    {
        match self.sender_key_bytes() {
            None => false,
            Some(key) => key_is_valid(&key),
        }
    }

    /// Whether the signature verifies under the sender's public key on the hash
    /// recomputed from the fields (the stored `hash` field is not consulted).
    pub fn verify_signature(&self) -> (res: bool)
        requires
            spec_sender_key_ok(self.from@),
        ensures
            res == spec_signature_ok(*self),
    {
        let key = match self.sender_key_bytes() {
            Some(key) => key,
            None => {
                assert(false);
                return false;
            },
        };
        let hash = Self::calculate_hash(
            self.from.as_str(),
            self.to.as_str(),
            self.amount,
            self.timestamp,
        );
        verify(&key, hash.as_str().as_bytes(), &self.signature)
    }

    /// `verify_signature` where the sender address can be decoded, and `None`
    /// where it cannot.
    pub fn verify_signature_checked(&self) -> (res: Option<bool>)
        ensures
            res is None <==> !spec_sender_key_ok(self.from@),
            res matches Some(ok) ==> ok == spec_signature_ok(*self),
    {
        if self.has_valid_sender() {
            Some(self.verify_signature())
        } else {
            None
        }
    }
}

} // verus!
