//! Transactions: structure checks, coinbase rules, identifiers and ECDSA
//! signing of inputs.
use vstd::prelude::*;
use crate::bytes::{bytes_to_vec, hash_eq, push_bytes, push_u32_le, push_u64_le, spec_u32_le, spec_u64_le};
use crate::crypto::{ecdsa_verify, sha256, spec_ecdsa_sign, spec_ecdsa_verify, spec_public_key, spec_sha256};
use crate::keys::SecretKey;

verus! {

pub type TransactionId = [u8; 32];

#[derive(Debug, PartialEq, Eq)]
pub struct TransactionInput {
    pub previous_output: TransactionId,
    pub output_index: u32,
    pub public_key: Vec<u8>,
    pub signature: Vec<u8>,
}

#[derive(Debug, PartialEq, Eq)]
pub struct TransactionOutput {
    pub amount: u64,
    pub recipient: Vec<u8>,
}

#[derive(Debug, PartialEq, Eq)]
pub struct Transaction {
    pub version: u32,
    pub inputs: Vec<TransactionInput>,
    pub outputs: Vec<TransactionOutput>,
    pub fee: u64,
}

/// Mathematical value of a transaction input.
pub struct InputModel {
    pub previous_output: Seq<u8>,
    pub output_index: u32,
    pub public_key: Seq<u8>,
    pub signature: Seq<u8>,
}

/// Mathematical value of a transaction output.
pub struct OutputModel {
    pub amount: u64,
    pub recipient: Seq<u8>,
}

/// Mathematical value of a transaction.
pub struct TransactionModel {
    pub version: u32,
    pub inputs: Seq<InputModel>,
    pub outputs: Seq<OutputModel>,
    pub fee: u64,
}

impl View for TransactionInput {
    type V = InputModel;

    open spec fn view(&self) -> InputModel {
        InputModel {
            previous_output: self.previous_output@,
            output_index: self.output_index,
            public_key: self.public_key@,
            signature: self.signature@,
        }
    }
}

impl View for TransactionOutput {
    type V = OutputModel;

    open spec fn view(&self) -> OutputModel {
        OutputModel { amount: self.amount, recipient: self.recipient@ }
    }
}

pub open spec fn inputs_model(v: Seq<TransactionInput>) -> Seq<InputModel> {
    v.map_values(|x: TransactionInput| x@)
}

pub open spec fn outputs_model(v: Seq<TransactionOutput>) -> Seq<OutputModel> {
    v.map_values(|x: TransactionOutput| x@)
}

impl View for Transaction {
    type V = TransactionModel;

    open spec fn view(&self) -> TransactionModel {
        TransactionModel {
            version: self.version,
            inputs: inputs_model(self.inputs@),
            outputs: outputs_model(self.outputs@),
            fee: self.fee,
        }
    }
}

/// Copies a byte vector.
pub fn clone_bytes(v: &Vec<u8>) -> (r: Vec<u8>)
    ensures
        r@ == v@,
{
    bytes_to_vec(v.as_slice())
}

impl Clone for TransactionInput {
    fn clone(&self) -> (r: Self)
        ensures
            r@ == self@,
    {
        TransactionInput {
            previous_output: self.previous_output,
            output_index: self.output_index,
            public_key: clone_bytes(&self.public_key),
            signature: clone_bytes(&self.signature),
        }
    }
}

impl Clone for TransactionOutput {
    fn clone(&self) -> (r: Self)
        ensures
            r@ == self@,
    {
        TransactionOutput { amount: self.amount, recipient: clone_bytes(&self.recipient) }
    }
}

impl Clone for Transaction {
    fn clone(&self) -> (r: Self)
        ensures
            r@ == self@,
    {
        let mut inputs: Vec<TransactionInput> = Vec::new();
        let n = self.inputs.len();
        for i in 0..n
            invariant
                n == self.inputs@.len(),
                inputs@.len() == i,
                forall|j: int| 0 <= j < i ==> #[trigger] inputs@[j]@ == self.inputs@[j]@,
        {
            inputs.push(self.inputs[i].clone());
        }
        let mut outputs: Vec<TransactionOutput> = Vec::new();
        let m = self.outputs.len();
        for i in 0..m
            invariant
                m == self.outputs@.len(),
                outputs@.len() == i,
                forall|j: int| 0 <= j < i ==> #[trigger] outputs@[j]@ == self.outputs@[j]@,
        {
            outputs.push(self.outputs[i].clone());
        }
        let r = Transaction { version: self.version, inputs, outputs, fee: self.fee };
        assert(inputs_model(r.inputs@) =~= inputs_model(self.inputs@));
        assert(outputs_model(r.outputs@) =~= outputs_model(self.outputs@));
        r
    }
}

/// Concatenation of `f(i, s[i])` over the positions of `s`.
pub open spec fn flatten_indexed<A>(s: Seq<A>, f: spec_fn(int, A) -> Seq<u8>) -> Seq<u8>
    decreases s.len(),
{
    if s.len() == 0 {
        Seq::empty()
    } else {
        flatten_indexed(s.drop_last(), f) + f(s.len() - 1, s.last())
    }
}

/// One step of `flatten_indexed` over a growing prefix.
pub proof fn lemma_flatten_step<A>(s: Seq<A>, f: spec_fn(int, A) -> Seq<u8>, i: int)
    requires
        0 <= i < s.len(),
    ensures
        flatten_indexed(s.take(i + 1), f) == flatten_indexed(s.take(i), f) + f(i, s[i]),
{
    assert(s.take(i + 1).drop_last() =~= s.take(i));
}

/// Two sequences that agree position by position under `f` flatten alike.
pub proof fn lemma_flatten_congruent<A, B>(
    s: Seq<A>,
    t: Seq<B>,
    f: spec_fn(int, A) -> Seq<u8>,
    g: spec_fn(int, B) -> Seq<u8>,
)
    requires
        s.len() == t.len(),
        forall|i: int| 0 <= i < s.len() ==> f(i, s[i]) == g(i, t[i]),
    ensures
        flatten_indexed(s, f) == flatten_indexed(t, g),
    decreases s.len(),
{
    if s.len() > 0 {
        lemma_flatten_congruent(s.drop_last(), t.drop_last(), f, g);
    }
}

/// Bytes of an input as they enter the transaction identifier.
pub open spec fn input_id_bytes(input: InputModel) -> Seq<u8> {
    input.previous_output + spec_u32_le(input.output_index) + spec_u64_le(
        input.public_key.len() as u64,
    ) + input.public_key + spec_u64_le(input.signature.len() as u64) + input.signature
}

/// Bytes of an output as they enter identifiers and signing hashes.
pub open spec fn output_bytes(output: OutputModel) -> Seq<u8> {
    spec_u64_le(output.amount) + spec_u64_le(output.recipient.len() as u64) + output.recipient
}

pub open spec fn input_id_fn() -> spec_fn(int, InputModel) -> Seq<u8> {
    |i: int, x: InputModel| input_id_bytes(x)
}

pub open spec fn output_fn() -> spec_fn(int, OutputModel) -> Seq<u8> {
    |i: int, x: OutputModel| output_bytes(x)
}

/// Bytes of an input as they enter the signing hash of input `target`, which
/// is signed together with the public key `public_key`.
pub open spec fn input_signing_bytes(
    index: int,
    input: InputModel,
    target: int,
    public_key: Seq<u8>,
) -> Seq<u8> {
    input.previous_output + spec_u32_le(input.output_index) + if index == target {
        spec_u64_le(public_key.len() as u64) + public_key
    } else {
        Seq::empty()
    }
}

pub open spec fn input_signing_fn(target: int, public_key: Seq<u8>) -> spec_fn(int, InputModel) -> Seq<u8> {
    |i: int, x: InputModel| input_signing_bytes(i, x, target, public_key)
}

/// The byte string whose SHA-256 digest identifies a transaction.
pub open spec fn spec_id_preimage(t: TransactionModel) -> Seq<u8> {
    spec_u32_le(t.version) + spec_u64_le(t.inputs.len() as u64) + flatten_indexed(
        t.inputs,
        input_id_fn(),
    ) + spec_u64_le(t.outputs.len() as u64) + flatten_indexed(t.outputs, output_fn()) + spec_u64_le(
        t.fee,
    )
}

/// Transaction identifier: SHA-256 of the identifier preimage.
pub open spec fn spec_tx_id(t: TransactionModel) -> Seq<u8> {
    spec_sha256(spec_id_preimage(t))
}

/// The byte string whose SHA-256 digest input `target` signs: everything but
/// the signatures and the other inputs' public keys.
pub open spec fn spec_signing_preimage(t: TransactionModel, target: int, public_key: Seq<u8>) -> Seq<u8> {
    spec_u32_le(t.version) + spec_u64_le(t.inputs.len() as u64) + flatten_indexed(
        t.inputs,
        input_signing_fn(target, public_key),
    ) + spec_u64_le(t.outputs.len() as u64) + flatten_indexed(t.outputs, output_fn()) + spec_u64_le(
        t.fee,
    )
}

pub open spec fn spec_signing_hash(t: TransactionModel, target: int, public_key: Seq<u8>) -> Seq<u8> {
    spec_sha256(spec_signing_preimage(t, target, public_key))
}

/// Whether two inputs spend the same output.
pub open spec fn same_outpoint(a: InputModel, b: InputModel) -> bool {
    a.previous_output == b.previous_output && a.output_index == b.output_index
}

/// No two inputs spend the same output.
pub open spec fn no_duplicate_inputs(inputs: Seq<InputModel>) -> bool {
    forall|i: int, j: int|
        0 <= i < j < inputs.len() ==> !same_outpoint(#[trigger] inputs[i], #[trigger] inputs[j])
}

/// An output carries a nonzero amount to a 33-byte recipient.
pub open spec fn output_well_formed(o: OutputModel) -> bool {
    o.amount != 0 && o.recipient.len() == 33
}

/// Structural validity of a normal transaction.
pub open spec fn spec_validate_basic(t: TransactionModel) -> bool {
    &&& t.inputs.len() > 0
    &&& t.outputs.len() > 0
    &&& forall|k: int| 0 <= k < t.outputs.len() ==> output_well_formed(#[trigger] t.outputs[k])
    &&& no_duplicate_inputs(t.inputs)
}

pub open spec fn spec_is_coinbase(t: TransactionModel) -> bool {
    t.inputs.len() == 0
}

/// The transaction after input `i` is signed with `secret`: that input holds
/// the key's public key and the signature of its signing hash, and nothing
/// else changes.
pub open spec fn spec_signed_input(t: TransactionModel, i: int, secret: Seq<u8>) -> TransactionModel {
    let pk = spec_public_key(secret);
    TransactionModel {
        inputs: t.inputs.update(
            i,
            InputModel { public_key: pk, signature: spec_ecdsa_sign(secret, spec_signing_hash(t, i, pk)), ..t.inputs[i] },
        ),
        ..t
    }
}

/// The transaction after its first `n` inputs are signed with `secret`, in
/// order.
pub open spec fn spec_signed_prefix(t: TransactionModel, secret: Seq<u8>, n: nat) -> TransactionModel
    decreases n,
{
    if n == 0 {
        t
    } else {
        spec_signed_input(spec_signed_prefix(t, secret, (n - 1) as nat), n - 1, secret)
    }
}

/// A coinbase pays one nonzero output to a nonempty recipient and no fee.
pub open spec fn spec_validate_coinbase(t: TransactionModel) -> bool {
    &&& spec_is_coinbase(t)
    &&& t.outputs.len() == 1
    &&& t.outputs[0].amount != 0
    &&& t.outputs[0].recipient.len() != 0
    &&& t.fee == 0
}

/// Whether input `index` carries a 33-byte public key and a 64-byte
/// signature that verifies for its signing hash.
pub open spec fn spec_input_verifies(t: TransactionModel, index: int) -> bool {
    let input = t.inputs[index];
    &&& input.public_key.len() == 33
    &&& input.signature.len() == 64
    &&& spec_ecdsa_verify(
        spec_signing_hash(t, index, input.public_key),
        input.signature,
        input.public_key,
    )
}

pub open spec fn spec_all_inputs_verify(t: TransactionModel) -> bool {
    forall|k: int| 0 <= k < t.inputs.len() ==> #[trigger] spec_input_verifies(t, k)
}

/// A normal transaction that is structurally valid and fully signed.
pub open spec fn spec_validate_signatures(t: TransactionModel) -> bool {
    !spec_is_coinbase(t) && spec_validate_basic(t) && spec_all_inputs_verify(t)
}

/// Whether two inputs agree on what they spend.
pub open spec fn inputs_agree_on_outpoints(a: Seq<InputModel>, b: Seq<InputModel>) -> bool {
    a.len() == b.len() && forall|k: int| 0 <= k < a.len() ==> same_outpoint(#[trigger] a[k], b[k])
}

/// The signing hash reads only the outpoints of the inputs, never their keys
/// or signatures.
pub proof fn lemma_signing_preimage_reads_outpoints(
    t1: TransactionModel,
    t2: TransactionModel,
    target: int,
    public_key: Seq<u8>,
)
    requires
        t1.version == t2.version,
        t1.outputs == t2.outputs,
        t1.fee == t2.fee,
        inputs_agree_on_outpoints(t1.inputs, t2.inputs),
    ensures
        spec_signing_preimage(t1, target, public_key) == spec_signing_preimage(t2, target, public_key),
{
    let f = input_signing_fn(target, public_key);
    assert forall|i: int| 0 <= i < t1.inputs.len() implies f(i, t1.inputs[i]) == f(i, t2.inputs[i]) by {
        assert(same_outpoint(t1.inputs[i], t2.inputs[i]));
    }
    lemma_flatten_congruent(t1.inputs, t2.inputs, f, f);
}

impl Transaction {
    pub fn new(
        version: u32,
        inputs: Vec<TransactionInput>,
        outputs: Vec<TransactionOutput>,
        fee: u64,
    ) -> (r: Self)
        ensures
            r.version == version,
            r.inputs == inputs,
            r.outputs == outputs,
            r.fee == fee,
    {
        Transaction { version, inputs, outputs, fee }
    }

    /// Structural validity of a normal transaction: inputs and outputs
    /// present, every output nonzero to a 33-byte recipient, no input spent
    /// twice.
    pub fn validate_basic(&self) -> (r: bool)
        ensures
            r == spec_validate_basic(self@),
    {
        let ghost t = self@;
        if self.inputs.len() == 0 {
            return false;
        }
        if self.outputs.len() == 0 {
            return false;
        }
        let m = self.outputs.len();
        for k in 0..m
            invariant
                m == self.outputs@.len(),
                t == self@,
                forall|j: int| 0 <= j < k ==> output_well_formed(#[trigger] t.outputs[j]),
        {
            let output = &self.outputs[k];
            if output.amount == 0 || output.recipient.len() != 33 {
                assert(!output_well_formed(t.outputs[k as int]));
                return false;
            }
        }
        let n = self.inputs.len();
        for i in 0..n
            invariant
                n == self.inputs@.len(),
                t == self@,
                forall|a: int, b: int|
                    0 <= a < i && a < b < n ==> !same_outpoint(
                        #[trigger] t.inputs[a],
                        #[trigger] t.inputs[b],
                    ),
        {
            for j in (i + 1)..n
                invariant
                    n == self.inputs@.len(),
                    t == self@,
                    i < n,
                    forall|a: int, b: int|
                        0 <= a < i && a < b < n ==> !same_outpoint(
                            #[trigger] t.inputs[a],
                            #[trigger] t.inputs[b],
                        ),
                    forall|b: int| i < b < j ==> !same_outpoint(t.inputs[i as int], #[trigger] t.inputs[b]),
            {
                let a = &self.inputs[i];
                let b = &self.inputs[j];
                if hash_eq(&a.previous_output, &b.previous_output) && a.output_index
                    == b.output_index {
                    assert(same_outpoint(t.inputs[i as int], t.inputs[j as int]));
                    return false;
                }
            }
        }
        true
    }

    /// A coinbase transaction paying `reward` to `recipient`.
    pub fn coinbase(reward: u64, recipient: Vec<u8>) -> (r: Result<Self, String>)
        ensures
            r is Ok <==> (reward != 0 && recipient@.len() != 0),
            r matches Ok(t) ==> {
                &&& t.version == 1
                &&& t.inputs@.len() == 0
                &&& t.outputs@.len() == 1
                &&& t.outputs@[0].amount == reward
                &&& t.outputs@[0].recipient@ == recipient@
                &&& t.fee == 0
            },
    {
        if reward == 0 {
            return Err(String::from_str("coinbase reward cannot be zero"));
        }
        if recipient.len() == 0 {
            return Err(String::from_str("coinbase recipient cannot be empty"));
        }
        let mut outputs: Vec<TransactionOutput> = Vec::new();
        outputs.push(TransactionOutput { amount: reward, recipient });
        Ok(Transaction { version: 1, inputs: Vec::new(), outputs, fee: 0 })
    }

    pub fn is_coinbase(&self) -> (r: bool)
        ensures
            r == spec_is_coinbase(self@),
    {
        self.inputs.len() == 0
    }

    /// Coinbase validity: no inputs, exactly one nonzero output to a
    /// nonempty recipient, zero fee.
    pub fn validate_coinbase(&self) -> (r: bool)
        ensures
            r == spec_validate_coinbase(self@),
    {
        if !self.is_coinbase() {
            return false;
        }
        if self.outputs.len() != 1 {
            return false;
        }
        if self.outputs[0].amount == 0 {
            return false;
        }
        if self.outputs[0].recipient.len() == 0 {
            return false;
        }
        if self.fee != 0 {
            return false;
        }
        true
    }

    fn append_outputs_and_fee(&self, out: &mut Vec<u8>)
        ensures
            final(out)@ == old(out)@ + spec_u64_le(self@.outputs.len() as u64) + flatten_indexed(
                self@.outputs,
                output_fn(),
            ) + spec_u64_le(self.fee),
    {
        let ghost t = self@;
        let ghost start = out@;
        push_u64_le(out, self.outputs.len() as u64);
        let ghost mid = out@;
        let m = self.outputs.len();
        for k in 0..m
            invariant
                m == self.outputs@.len(),
                t == self@,
                out@ == mid + flatten_indexed(t.outputs.take(k as int), output_fn()),
        {
            let output = &self.outputs[k];
            proof {
                lemma_flatten_step(t.outputs, output_fn(), k as int);
            }
            push_u64_le(out, output.amount);
            push_u64_le(out, output.recipient.len() as u64);
            push_bytes(out, output.recipient.as_slice());
            assert(out@ =~= mid + flatten_indexed(t.outputs.take(k + 1), output_fn()));
        }
        assert(t.outputs.take(m as int) =~= t.outputs);
        push_u64_le(out, self.fee);
        assert(out@ =~= start + spec_u64_le(t.outputs.len() as u64) + flatten_indexed(
            t.outputs,
            output_fn(),
        ) + spec_u64_le(self.fee));
    }

    /// The identifier preimage of this transaction.
    pub fn id_preimage(&self) -> (r: Vec<u8>)
        ensures
            r@ == spec_id_preimage(self@),
    {
        let ghost t = self@;
        let mut out: Vec<u8> = Vec::new();
        push_u32_le(&mut out, self.version);
        push_u64_le(&mut out, self.inputs.len() as u64);
        let ghost mid = out@;
        let n = self.inputs.len();
        for i in 0..n
            invariant
                n == self.inputs@.len(),
                t == self@,
                out@ == mid + flatten_indexed(t.inputs.take(i as int), input_id_fn()),
        {
            let input = &self.inputs[i];
            proof {
                lemma_flatten_step(t.inputs, input_id_fn(), i as int);
            }
            push_bytes(&mut out, &input.previous_output);
            push_u32_le(&mut out, input.output_index);
            push_u64_le(&mut out, input.public_key.len() as u64);
            push_bytes(&mut out, input.public_key.as_slice());
            push_u64_le(&mut out, input.signature.len() as u64);
            push_bytes(&mut out, input.signature.as_slice());
            assert(out@ =~= mid + flatten_indexed(t.inputs.take(i + 1), input_id_fn()));
        }
        assert(t.inputs.take(n as int) =~= t.inputs);
        self.append_outputs_and_fee(&mut out);
        assert(out@ =~= spec_id_preimage(t));
        out
    }

    /// Transaction identifier: SHA-256 over version, inputs (with keys and
    /// signatures), outputs and fee.
    pub fn id(&self) -> (r: TransactionId)
        ensures
            r@ == spec_tx_id(self@),
    {
        let preimage = self.id_preimage();
        sha256(preimage.as_slice())
    }

    /// The digest that input `input_index` signs together with `public_key`;
    /// fails for an index past the inputs.
    pub fn signing_hash(&self, input_index: usize, public_key: &[u8]) -> (r: Result<TransactionId, String>)
        ensures
            r is Ok <==> input_index < self@.inputs.len(),
            r matches Ok(h) ==> h@ == spec_signing_hash(self@, input_index as int, public_key@),
    {
        let ghost t = self@;
        if input_index >= self.inputs.len() {
            return Err(String::from_str("invalid input index"));
        }
        let ghost f = input_signing_fn(input_index as int, public_key@);
        let mut out: Vec<u8> = Vec::new();
        push_u32_le(&mut out, self.version);
        push_u64_le(&mut out, self.inputs.len() as u64);
        let ghost mid = out@;
        let n = self.inputs.len();
        for i in 0..n
            invariant
                n == self.inputs@.len(),
                t == self@,
                f == input_signing_fn(input_index as int, public_key@),
                out@ == mid + flatten_indexed(t.inputs.take(i as int), f),
        {
            let input = &self.inputs[i];
            proof {
                lemma_flatten_step(t.inputs, f, i as int);
            }
            push_bytes(&mut out, &input.previous_output);
            push_u32_le(&mut out, input.output_index);
            if i == input_index {
                push_u64_le(&mut out, public_key.len() as u64);
                push_bytes(&mut out, public_key);
            }
            assert(out@ =~= mid + flatten_indexed(t.inputs.take(i + 1), f));
        }
        assert(t.inputs.take(n as int) =~= t.inputs);
        self.append_outputs_and_fee(&mut out);
        assert(out@ =~= spec_signing_preimage(t, input_index as int, public_key@));
        Ok(sha256(out.as_slice()))
    }

    /// Signs input `input_index` with `secret_key`: stores the key's public
    /// key and the signature of the signing hash in that input.
    pub fn sign_input(&mut self, input_index: usize, secret_key: &SecretKey) -> (r: Result<(), String>)
        ensures
            r is Ok <==> (!spec_is_coinbase(old(self)@) && input_index < old(self)@.inputs.len()),
            r is Err ==> final(self)@ == old(self)@,
            r is Ok ==> final(self)@ == spec_signed_input(old(self)@, input_index as int, secret_key.spec_bytes()),
    {
        if self.is_coinbase() {
            return Err(String::from_str("coinbase transaction cannot be signed"));
        }
        if input_index >= self.inputs.len() {
            return Err(String::from_str("invalid input index"));
        }
        let public_key = secret_key.public_key_bytes();
        let hash = match self.signing_hash(input_index, &public_key) {
            Ok(h) => h,
            Err(e) => return Err(e),
        };
        let signature = secret_key.sign_digest(&hash);
        let old_input = &self.inputs[input_index];
        let new_input = TransactionInput {
            previous_output: old_input.previous_output,
            output_index: old_input.output_index,
            public_key: bytes_to_vec(&public_key),
            signature: bytes_to_vec(&signature),
        };
        self.inputs.set(input_index, new_input);
        assert(inputs_model(self.inputs@) =~= inputs_model(old(self).inputs@).update(
            input_index as int,
            new_input@,
        ));
        Ok(())
    }

    /// Whether input `input_index` carries a well-sized public key and a
    /// signature that verifies; fails for an index past the inputs.
    pub fn verify_input(&self, input_index: usize) -> (r: Result<bool, String>)
        ensures
            r is Ok <==> input_index < self@.inputs.len(),
            r matches Ok(b) ==> b == spec_input_verifies(self@, input_index as int),
    {
        if input_index >= self.inputs.len() {
            return Err(String::from_str("invalid input index"));
        }
        let input = &self.inputs[input_index];
        if input.public_key.len() != 33 {
            return Ok(false);
        }
        if input.signature.len() != 64 {
            return Ok(false);
        }
        let hash = match self.signing_hash(input_index, input.public_key.as_slice()) {
            Ok(h) => h,
            Err(e) => return Err(e),
        };
        Ok(ecdsa_verify(&hash, input.signature.as_slice(), input.public_key.as_slice()))
    }

    /// Checks every input signature; fails for a coinbase or at the first
    /// input that does not verify.
    pub fn verify_signatures(&self) -> (r: Result<(), String>)
        ensures
            r is Ok <==> (!spec_is_coinbase(self@) && spec_all_inputs_verify(self@)),
    {
        if self.is_coinbase() {
            return Err(String::from_str("coinbase transaction has no signatures"));
        }
        let n = self.inputs.len();
        for index in 0..n
            invariant
                n == self@.inputs.len(),
                forall|k: int| 0 <= k < index ==> #[trigger] spec_input_verifies(self@, k),
        {
            match self.verify_input(index) {
                Ok(true) => {},
                Ok(false) => {
                    return Err(String::from_str("invalid signature at input"));
                },
                Err(e) => {
                    return Err(e);
                },
            }
        }
        Ok(())
    }

    /// Complete signature validation of a normal transaction.
    pub fn validate_signatures(&self) -> (r: bool)
        ensures
            r == spec_validate_signatures(self@),
    {
        if self.is_coinbase() {
            return false;
        }
        if !self.validate_basic() {
            return false;
        }
        self.verify_signatures().is_ok()
    }
}

/// Signing an input makes that input verify, and leaves the signatures of
/// the other inputs as valid as they were: the signing hash never reads
/// public keys or signatures of the inputs.
pub proof fn lemma_signed_input_verifies(
    before: TransactionModel,
    after: TransactionModel,
    index: int,
    secret: Seq<u8>,
)
    requires
        0 <= index < before.inputs.len(),
        spec_public_key(secret).len() == 33,
        spec_ecdsa_sign(secret, spec_signing_hash(before, index, spec_public_key(secret))).len() == 64,
        spec_ecdsa_verify(
            spec_signing_hash(before, index, spec_public_key(secret)),
            spec_ecdsa_sign(secret, spec_signing_hash(before, index, spec_public_key(secret))),
            spec_public_key(secret),
        ),
        after == (TransactionModel {
            inputs: before.inputs.update(
                index,
                InputModel {
                    public_key: spec_public_key(secret),
                    signature: spec_ecdsa_sign(
                        secret,
                        spec_signing_hash(before, index, spec_public_key(secret)),
                    ),
                    ..before.inputs[index]
                },
            ),
            ..before
        }),
    ensures
        spec_input_verifies(after, index),
        forall|k: int|
            0 <= k < before.inputs.len() && k != index ==> spec_input_verifies(before, k)
                == spec_input_verifies(after, k),
{
    assert(inputs_agree_on_outpoints(before.inputs, after.inputs));
    lemma_signing_preimage_reads_outpoints(before, after, index, spec_public_key(secret));
    assert forall|k: int|
        0 <= k < before.inputs.len() && k != index implies spec_input_verifies(before, k)
        == spec_input_verifies(after, k) by {
        lemma_signing_preimage_reads_outpoints(before, after, k, before.inputs[k].public_key);
        assert(after.inputs[k] == before.inputs[k]);
    }
}

} // verus!
