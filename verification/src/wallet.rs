//! A wallet holding one secp256k1 secret key: its public key, address,
//! signatures and balance.
use vstd::prelude::*;
use vstd::utf8::{encode_utf8, is_ascii_chars, is_ascii_chars_encode_utf8};
use crate::bytes::string_of_chars;
use crate::crypto::{random_bytes, sha256, spec_public_key, spec_secret_key_valid, spec_sha256};
use crate::keys::SecretKey;
use crate::transaction::{spec_is_coinbase, spec_signed_input, spec_signed_prefix, Transaction, TransactionModel};
use crate::utxo::{Utxo, UtxoSet};

verus! {

pub const SECRET_KEY_SIZE: usize = 32;

pub const ADDRESS_VERSION: u8 = 1;

/// Lower-case hexadecimal digit of a value below 16.
pub open spec fn hex_digit(n: u8) -> char {
    if n < 10 {
        ((n + 48) as u8) as char
    } else {
        ((n + 87) as u8) as char
    }
}

/// Lower-case hexadecimal of a byte string, two digits per byte.
pub open spec fn hex_chars(d: Seq<u8>) -> Seq<char>
    decreases d.len(),
{
    if d.len() == 0 {
        Seq::empty()
    } else {
        hex_chars(d.drop_last()) + seq![hex_digit(d.last() / 16), hex_digit(d.last() % 16)]
    }
}

/// The address of a public key: "NIO1" and the hexadecimal SHA-256 of the
/// version byte followed by the key.
pub open spec fn spec_address(public_key: Seq<u8>) -> Seq<char> {
    seq!['N', 'I', 'O', '1'] + hex_chars(spec_sha256(seq![ADDRESS_VERSION] + public_key))
}

/// Sum of the amounts paid to `recipient`.
pub open spec fn owned_total(s: Seq<Utxo>, recipient: Seq<u8>) -> int
    decreases s.len(),
{
    if s.len() == 0 {
        0
    } else {
        owned_total(s.drop_last(), recipient) + if s.last().recipient@ == recipient {
            s.last().amount as int
        } else {
            0
        }
    }
}

/// ASCII codes of a sequence of characters.
pub open spec fn ascii_codes(chars: Seq<char>) -> Seq<u8> {
    Seq::new(chars.len(), |i: int| chars[i] as u8)
}

/// Appends the lower-case hexadecimal digits of `data` to ASCII text.
fn push_hex_digits(out: &mut Vec<u8>, data: &[u8], Ghost(text): Ghost<Seq<char>>)
    requires
        old(out)@ == ascii_codes(text),
        is_ascii_chars(text),
    ensures
        final(out)@ == ascii_codes(text + hex_chars(data@)),
        is_ascii_chars(text + hex_chars(data@)),
{
    let n = data.len();
    assert(data@.take(0) =~= Seq::<u8>::empty());
    assert(text + hex_chars(data@.take(0)) =~= text);
    for i in 0..n
        invariant
            n == data@.len(),
            out@ == ascii_codes(text + hex_chars(data@.take(i as int))),
            is_ascii_chars(text + hex_chars(data@.take(i as int))),
    {
        let b = data[i];
        let hi = b / 16;
        let lo = b % 16;
        let ghost before = text + hex_chars(data@.take(i as int));
        out.push(if hi < 10 { hi + 48 } else { hi + 87 });
        out.push(if lo < 10 { lo + 48 } else { lo + 87 });
        proof {
            assert(data@.take(i + 1).drop_last() =~= data@.take(i as int));
            assert(data@.take(i + 1).last() == b);
            let after = text + hex_chars(data@.take(i + 1));
            assert(after =~= before + seq![hex_digit(hi), hex_digit(lo)]);
            assert(out@ =~= ascii_codes(after));
        }
    }
    assert(data@.take(n as int) =~= data@);
}

/// The string of ASCII text given by its codes.
fn ascii_string(bytes: Vec<u8>, Ghost(text): Ghost<Seq<char>>) -> (r: String)
    requires
        bytes@ == ascii_codes(text),
        is_ascii_chars(text),
    ensures
        r@ == text,
{
    proof {
        is_ascii_chars_encode_utf8(text);
        assert(bytes@ =~= encode_utf8(text));
    }
    string_of_chars(bytes, Ghost(text))
}

/// Lower-case hexadecimal text of a byte string, two digits per byte.
pub fn to_lower_hex(data: &[u8]) -> (r: String)
    ensures
        r@ == hex_chars(data@),
{
    let mut bytes: Vec<u8> = Vec::new();
    let ghost empty = Seq::<char>::empty();
    assert(bytes@ =~= ascii_codes(empty));
    push_hex_digits(&mut bytes, data, Ghost(empty));
    assert(empty + hex_chars(data@) =~= hex_chars(data@));
    ascii_string(bytes, Ghost(hex_chars(data@)))
}

pub struct Wallet {
    secret_key: SecretKey,
}

impl Wallet {
    /// The secret bytes of the wallet's key.
    pub closed spec fn key_bytes(&self) -> Seq<u8> {
        self.secret_key.spec_bytes()
    }

    /// A wallet with a fresh key from the operating system's random source;
    /// fails when the source fails or gives bytes that are not a valid key.
    pub fn new() -> (r: Result<Self, String>)
        ensures
            r matches Ok(w) ==> w.key_bytes().len() == 32 && spec_secret_key_valid(w.key_bytes()),
    {
        let random = match random_bytes(32) {
            Some(b) => b,
            None => return Err(String::from_str("failed to obtain secure random bytes")),
        };
        let bytes = crate::bytes::read_array_32(random.as_slice(), 0);
        let secret_key = match SecretKey::from_slice(&bytes) {
            Ok(k) => k,
            Err(_) => return Err(String::from_str("generated invalid secret key")),
        };
        Ok(Wallet { secret_key })
    }

    pub fn from_secret_key(secret_key: SecretKey) -> (r: Self)
        ensures
            r.key_bytes() == secret_key.spec_bytes(),
    {
        Wallet { secret_key }
    }

    pub fn secret_key(&self) -> (r: &SecretKey)
        ensures
            r.spec_bytes() == self.key_bytes(),
    {
        &self.secret_key
    }

    /// The 33-byte compressed public key.
    pub fn public_key(&self) -> (r: [u8; 33])
        ensures
            r@ == spec_public_key(self.key_bytes()),
    {
        self.secret_key.public_key_bytes()
    }

    pub fn public_key_bytes(&self) -> (r: Vec<u8>)
        ensures
            r@ == spec_public_key(self.key_bytes()),
    {
        let key = self.public_key();
        crate::bytes::bytes_to_vec(&key)
    }

    /// "NIO1" followed by the lower-case hexadecimal SHA-256 of the address
    /// version byte and the public key.
    pub fn address(&self) -> (r: String)
        ensures
            r@ == spec_address(spec_public_key(self.key_bytes())),
    {
        let public_key = self.public_key_bytes();
        let mut preimage: Vec<u8> = Vec::new();
        preimage.push(ADDRESS_VERSION);
        crate::bytes::push_bytes(&mut preimage, public_key.as_slice());
        assert(preimage@ =~= seq![ADDRESS_VERSION] + public_key@);
        let digest = sha256(preimage.as_slice());
        let mut bytes: Vec<u8> = Vec::new();
        bytes.push(0x4eu8);
        bytes.push(0x49u8);
        bytes.push(0x4fu8);
        bytes.push(0x31u8);
        let ghost prefix = seq!['N', 'I', 'O', '1'];
        assert(bytes@ =~= ascii_codes(prefix));
        push_hex_digits(&mut bytes, &digest, Ghost(prefix));
        ascii_string(bytes, Ghost(spec_address(public_key@)))
    }

    /// Signs one input of the transaction with the wallet's key.
    pub fn sign_transaction(&self, transaction: &mut Transaction, input_index: usize) -> (r: Result<(), String>)
        ensures
            r is Ok <==> (!spec_is_coinbase(old(transaction)@) && input_index < old(transaction)@.inputs.len()),
            r is Err ==> final(transaction)@ == old(transaction)@,
            r is Ok ==> final(transaction)@ == spec_signed_input(old(transaction)@, input_index as int, self.key_bytes()),
    {
        transaction.sign_input(input_index, &self.secret_key)
    }

    /// Signs every input in order.
    pub fn sign_transaction_all(&self, transaction: &mut Transaction) -> (r: Result<(), String>)
        ensures
            r is Ok,
            final(transaction)@ == spec_signed_prefix(
                old(transaction)@,
                self.key_bytes(),
                old(transaction)@.inputs.len(),
            ),
    {
        let n = transaction.inputs.len();
        if n == 0 {
            return Ok(());
        }
        for index in 0..n
            invariant
                n == old(transaction)@.inputs.len(),
                n > 0,
                transaction@ == spec_signed_prefix(old(transaction)@, self.key_bytes(), index as nat),
                transaction@.inputs.len() == n,
        {
            match self.sign_transaction(transaction, index) {
                Ok(()) => {},
                Err(e) => return Err(e),
            }
        }
        Ok(())
    }

    /// Total paid to the wallet's public key, saturating at `u64::MAX`.
    pub fn balance(&self, utxo_set: &UtxoSet) -> (r: u64)
        ensures
            r == if owned_total(utxo_set.entries(), spec_public_key(self.key_bytes())) > u64::MAX {
                u64::MAX as int
            } else {
                owned_total(utxo_set.entries(), spec_public_key(self.key_bytes()))
            },
    {
        let public_key = self.public_key_bytes();
        let entries = utxo_set.as_slice();
        let ghost s = entries@;
        let ghost pk = public_key@;
        let mut total: u64 = 0;
        let n = entries.len();
        for i in 0..n
            invariant
                n == s.len(),
                s == entries@,
                pk == public_key@,
                total == if owned_total(s.take(i as int), pk) > u64::MAX {
                    u64::MAX as int
                } else {
                    owned_total(s.take(i as int), pk)
                },
                owned_total(s.take(i as int), pk) >= 0,
        {
            proof {
                assert(s.take(i + 1).drop_last() =~= s.take(i as int));
            }
            let utxo = &entries[i];
            if crate::bytes::bytes_eq(utxo.recipient.as_slice(), public_key.as_slice()) {
                total = total.saturating_add(utxo.amount);
            }
        }
        assert(s.take(n as int) =~= s);
        total
    }
}

/// A single unspent output counts its whole amount towards a recipient it
/// pays, whatever its identifier and output index, and nothing otherwise.
pub proof fn lemma_owned_total_single(u: Utxo, recipient: Seq<u8>)
    ensures
        owned_total(seq![u], recipient) == if u.recipient@ == recipient {
            u.amount as int
        } else {
            0
        },
{
    assert(seq![u].drop_last() =~= Seq::<Utxo>::empty());
    assert(owned_total(Seq::<Utxo>::empty(), recipient) == 0);
    assert(seq![u].last() == u);
}

/// The total paid to a recipient adds up over a split of the outputs.
pub proof fn lemma_owned_total_concat(a: Seq<Utxo>, b: Seq<Utxo>, recipient: Seq<u8>)
    ensures
        owned_total(a + b, recipient) == owned_total(a, recipient) + owned_total(b, recipient),
    decreases b.len(),
{
    if b.len() == 0 {
        assert(a + b =~= a);
    } else {
        lemma_owned_total_concat(a, b.drop_last(), recipient);
        assert((a + b).drop_last() =~= a + b.drop_last());
        assert((a + b).last() == b.last());
    }
}

/// Identifiers play no part: outputs with the same recipients and amounts,
/// in the same order, give the same total.
pub proof fn lemma_owned_total_ignores_ids(a: Seq<Utxo>, b: Seq<Utxo>, recipient: Seq<u8>)
    requires
        a.len() == b.len(),
        forall|i: int| 0 <= i < a.len() ==> (#[trigger] a[i]).recipient@ == b[i].recipient@ && a[i].amount == b[i].amount,
    ensures
        owned_total(a, recipient) == owned_total(b, recipient),
    decreases a.len(),
{
    if a.len() > 0 {
        lemma_owned_total_ignores_ids(a.drop_last(), b.drop_last(), recipient);
        assert(a.last() == a[a.len() - 1]);
    }
}

} // verus!
