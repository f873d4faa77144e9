//! The set of unspent transaction outputs and the state transition that a
//! transaction makes on it.
use vstd::prelude::*;
use vstd::std_specs::slice::into_iter_elts;
use crate::bytes::{
    bytes_eq, compare_hashes, lemma_lex_asymmetric, lemma_lex_irreflexive,
    lemma_lex_transitive, lex_lt, push_bytes, push_u32_le, push_u64_le, spec_u32_le, spec_u64_le,
};
use crate::crypto::{sha256, spec_sha256};
use crate::transaction::{
    clone_bytes, flatten_indexed, lemma_flatten_step, same_outpoint, spec_is_coinbase,
    spec_validate_basic, spec_validate_signatures, spec_tx_id, InputModel, OutputModel, Transaction,
    TransactionId, TransactionModel,
};

verus! {

#[derive(Debug, Clone, Copy, PartialEq, Eq, Hash)]
pub struct UtxoId {
    pub transaction_id: TransactionId,
    pub output_index: u32,
}

#[derive(Debug, PartialEq, Eq)]
pub struct Utxo {
    pub id: UtxoId,
    pub amount: u64,
    pub recipient: Vec<u8>,
}

/// What the set records for an unspent output.
pub struct UtxoModel {
    pub amount: u64,
    pub recipient: Seq<u8>,
}

/// Outputs are addressed by the identifier of the creating transaction and
/// the output's position in it.
pub type UtxoKey = (Seq<u8>, u32);

pub open spec fn id_key(id: UtxoId) -> UtxoKey {
    (id.transaction_id@, id.output_index)
}

pub open spec fn utxo_key(u: Utxo) -> UtxoKey {
    id_key(u.id)
}

pub open spec fn utxo_value(u: Utxo) -> UtxoModel {
    UtxoModel { amount: u.amount, recipient: u.recipient@ }
}

/// The output an input spends.
pub open spec fn input_key(i: InputModel) -> UtxoKey {
    (i.previous_output, i.output_index)
}

/// Order of keys: by transaction identifier bytes, then by output index.
pub open spec fn key_lt(a: UtxoKey, b: UtxoKey) -> bool {
    lex_lt(a.0, b.0) || (a.0 == b.0 && a.1 < b.1)
}

proof fn lemma_key_lt_irreflexive(a: UtxoKey)
    ensures
        !key_lt(a, a),
{
    lemma_lex_irreflexive(a.0);
}

proof fn lemma_key_lt_transitive(a: UtxoKey, b: UtxoKey, c: UtxoKey)
    requires
        key_lt(a, b),
        key_lt(b, c),
    ensures
        key_lt(a, c),
{
    if lex_lt(a.0, b.0) && lex_lt(b.0, c.0) {
        lemma_lex_transitive(a.0, b.0, c.0);
    }
}

proof fn lemma_key_lt_asymmetric(a: UtxoKey, b: UtxoKey)
    requires
        key_lt(a, b),
    ensures
        !key_lt(b, a),
{
    if lex_lt(a.0, b.0) {
        lemma_lex_asymmetric(a.0, b.0);
    } else {
        lemma_lex_irreflexive(a.0);
    }
}

/// Whether some entry of `s` has key `k`.
pub open spec fn has_key(s: Seq<Utxo>, k: UtxoKey) -> bool {
    exists|i: int| 0 <= i < s.len() && #[trigger] utxo_key(s[i]) == k
}

/// The map from keys to recorded outputs that a sequence of entries holds.
pub open spec fn seq_view(s: Seq<Utxo>) -> Map<UtxoKey, UtxoModel> {
    Map::new(
        |k: UtxoKey| has_key(s, k),
        |k: UtxoKey| utxo_value(s[choose|i: int| 0 <= i < s.len() && #[trigger] utxo_key(s[i]) == k]),
    )
}

/// Entries in strictly increasing key order, each a nonzero amount to a
/// 33-byte recipient.
pub open spec fn entries_wf(s: Seq<Utxo>) -> bool {
    &&& forall|i: int, j: int| 0 <= i < j < s.len() ==> key_lt(utxo_key(#[trigger] s[i]), utxo_key(#[trigger] s[j]))
    &&& forall|i: int| 0 <= i < s.len() ==> (#[trigger] s[i]).amount != 0 && s[i].recipient@.len() == 33
}

proof fn lemma_unique_keys(s: Seq<Utxo>, i: int, j: int)
    requires
        entries_wf(s),
        0 <= i < s.len(),
        0 <= j < s.len(),
        utxo_key(s[i]) == utxo_key(s[j]),
    ensures
        i == j,
{
    if i < j {
        lemma_key_lt_irreflexive(utxo_key(s[i]));
    } else if j < i {
        lemma_key_lt_irreflexive(utxo_key(s[i]));
    }
}

proof fn lemma_view_at(s: Seq<Utxo>, i: int)
    requires
        entries_wf(s),
        0 <= i < s.len(),
    ensures
        seq_view(s).contains_key(utxo_key(s[i])),
        seq_view(s)[utxo_key(s[i])] == utxo_value(s[i]),
{
    let k = utxo_key(s[i]);
    assert(has_key(s, k));
    let j = choose|j: int| 0 <= j < s.len() && #[trigger] utxo_key(s[j]) == k;
    lemma_unique_keys(s, i, j);
}

proof fn lemma_view_insert(s: Seq<Utxo>, p: int, u: Utxo)
    requires
        entries_wf(s),
        entries_wf(s.insert(p, u)),
        0 <= p <= s.len(),
    ensures
        seq_view(s.insert(p, u)) == seq_view(s).insert(utxo_key(u), utxo_value(u)),
{
    let t = s.insert(p, u);
    let m = seq_view(s).insert(utxo_key(u), utxo_value(u));
    assert forall|k: UtxoKey| #[trigger] seq_view(t).contains_key(k) <==> m.contains_key(k) by {
        if has_key(t, k) {
            let i = choose|i: int| 0 <= i < t.len() && #[trigger] utxo_key(t[i]) == k;
            if i < p {
                assert(utxo_key(s[i]) == k);
            } else if i > p {
                assert(utxo_key(s[i - 1]) == k);
            }
        }
        if has_key(s, k) {
            let i = choose|i: int| 0 <= i < s.len() && #[trigger] utxo_key(s[i]) == k;
            if i < p {
                assert(utxo_key(t[i]) == k);
            } else {
                assert(utxo_key(t[i + 1]) == k);
            }
        }
        if k == utxo_key(u) {
            assert(utxo_key(t[p]) == k);
        }
    }
    assert forall|k: UtxoKey| #[trigger] seq_view(t).contains_key(k) implies seq_view(t)[k] == m[k] by {
        let i = choose|i: int| 0 <= i < t.len() && #[trigger] utxo_key(t[i]) == k;
        lemma_view_at(t, i);
        if i < p {
            lemma_view_at(s, i);
            assert(s[i] == t[i]);
            if k == utxo_key(u) {
                lemma_unique_keys(t, i, p);
            }
        } else if i > p {
            lemma_view_at(s, i - 1);
            assert(s[i - 1] == t[i]);
            if k == utxo_key(u) {
                lemma_unique_keys(t, i, p);
            }
        }
    }
    assert(seq_view(t) =~= m);
}

proof fn lemma_view_remove(s: Seq<Utxo>, p: int)
    requires
        entries_wf(s),
        0 <= p < s.len(),
    ensures
        entries_wf(s.remove(p)),
        seq_view(s.remove(p)) == seq_view(s).remove(utxo_key(s[p])),
{
    let t = s.remove(p);
    assert forall|i: int, j: int| 0 <= i < j < t.len() implies key_lt(utxo_key(#[trigger] t[i]), utxo_key(#[trigger] t[j])) by {
        let a = if i < p { i } else { i + 1 };
        let b = if j < p { j } else { j + 1 };
        assert(t[i] == s[a]);
        assert(t[j] == s[b]);
    }
    assert forall|i: int| 0 <= i < t.len() implies (#[trigger] t[i]).amount != 0 && t[i].recipient@.len() == 33 by {
        if i < p {
            assert(t[i] == s[i]);
        } else {
            assert(t[i] == s[i + 1]);
        }
    }
    let kp = utxo_key(s[p]);
    let m = seq_view(s).remove(kp);
    assert forall|k: UtxoKey| #[trigger] seq_view(t).contains_key(k) <==> m.contains_key(k) by {
        if has_key(t, k) {
            let i = choose|i: int| 0 <= i < t.len() && #[trigger] utxo_key(t[i]) == k;
            let a = if i < p { i } else { i + 1 };
            assert(utxo_key(s[a]) == k);
            if k == kp {
                lemma_unique_keys(s, a, p);
            }
        }
        if has_key(s, k) && k != kp {
            let i = choose|i: int| 0 <= i < s.len() && #[trigger] utxo_key(s[i]) == k;
            if i < p {
                assert(utxo_key(t[i]) == k);
            } else if i > p {
                assert(utxo_key(t[i - 1]) == k);
            }
        }
    }
    assert forall|k: UtxoKey| #[trigger] seq_view(t).contains_key(k) implies seq_view(t)[k] == m[k] by {
        let i = choose|i: int| 0 <= i < t.len() && #[trigger] utxo_key(t[i]) == k;
        lemma_view_at(t, i);
        let a = if i < p { i } else { i + 1 };
        assert(t[i] == s[a]);
        lemma_view_at(s, a);
    }
    assert(seq_view(t) =~= m);
}

/// Two well-formed entry sequences that hold the same map are the same
/// sequence: the sorted representation is canonical.
proof fn lemma_canonical(s: Seq<Utxo>, t: Seq<Utxo>)
    requires
        entries_wf(s),
        entries_wf(t),
        seq_view(s) == seq_view(t),
    ensures
        s.len() == t.len(),
        forall|i: int| 0 <= i < s.len() ==> utxo_key(#[trigger] s[i]) == utxo_key(t[i]) && utxo_value(
            s[i],
        ) == utxo_value(t[i]),
    decreases s.len() + t.len(),
{
    if s.len() == 0 {
        if t.len() > 0 {
            lemma_view_at(t, 0);
        }
    } else if t.len() == 0 {
        lemma_view_at(s, 0);
    } else {
        let ks = utxo_key(s[0]);
        let kt = utxo_key(t[0]);
        lemma_view_at(s, 0);
        lemma_view_at(t, 0);
        let i = choose|i: int| 0 <= i < t.len() && #[trigger] utxo_key(t[i]) == ks;
        let j = choose|j: int| 0 <= j < s.len() && #[trigger] utxo_key(s[j]) == kt;
        if ks != kt {
            assert(i > 0);
            assert(j > 0);
            assert(key_lt(kt, ks));
            assert(key_lt(ks, kt));
            lemma_key_lt_asymmetric(ks, kt);
        }
        lemma_view_remove(s, 0);
        lemma_view_remove(t, 0);
        lemma_canonical(s.remove(0), t.remove(0));
        assert forall|k: int| 0 <= k < s.len() implies utxo_key(#[trigger] s[k]) == utxo_key(t[k])
            && utxo_value(s[k]) == utxo_value(t[k]) by {
            if k > 0 {
                assert(s[k] == s.remove(0)[k - 1]);
                assert(t[k] == t.remove(0)[k - 1]);
            }
        }
    }
}

/// Bytes of one entry in the state-hash preimage.
pub open spec fn state_entry_bytes(u: Utxo) -> Seq<u8> {
    u.id.transaction_id@ + spec_u32_le(u.id.output_index) + spec_u64_le(u.amount) + spec_u64_le(
        u.recipient@.len() as u64,
    ) + u.recipient@
}

pub open spec fn state_entry_fn() -> spec_fn(int, Utxo) -> Seq<u8> {
    |i: int, u: Utxo| state_entry_bytes(u)
}

/// Domain tag that opens the state-hash preimage.
pub open spec fn state_tag() -> Seq<u8> {
    seq![78u8, 73, 79, 45, 85, 84, 88, 79, 45, 83, 84, 65, 84, 69, 45, 86, 49]
}

/// Preimage of the state hash: the tag, the entry count and every entry in
/// key order.
pub open spec fn spec_state_preimage(s: Seq<Utxo>) -> Seq<u8> {
    state_tag() + spec_u64_le(s.len() as u64) + flatten_indexed(s, state_entry_fn())
}

/// Sum of the amounts of the outputs that `inputs` spend.
pub open spec fn spec_input_sum(m: Map<UtxoKey, UtxoModel>, inputs: Seq<InputModel>) -> int
    decreases inputs.len(),
{
    if inputs.len() == 0 {
        0
    } else {
        spec_input_sum(m, inputs.drop_last()) + m[input_key(inputs.last())].amount
    }
}

/// Sum of output amounts.
pub open spec fn spec_output_sum(outputs: Seq<OutputModel>) -> int
    decreases outputs.len(),
{
    if outputs.len() == 0 {
        0
    } else {
        spec_output_sum(outputs.drop_last()) + outputs.last().amount
    }
}

/// Every input spends an output that the map holds.
pub open spec fn inputs_exist(m: Map<UtxoKey, UtxoModel>, inputs: Seq<InputModel>) -> bool {
    forall|k: int| 0 <= k < inputs.len() ==> m.contains_key(input_key(#[trigger] inputs[k]))
}

/// Every input is signed by the recipient of the output it spends.
pub open spec fn inputs_owned(m: Map<UtxoKey, UtxoModel>, inputs: Seq<InputModel>) -> bool {
    forall|k: int| 0 <= k < inputs.len() ==> m[input_key(#[trigger] inputs[k])].recipient == inputs[k].public_key
}

/// Every output has a nonzero amount and a nonempty recipient.
pub open spec fn outputs_valued(outputs: Seq<OutputModel>) -> bool {
    forall|k: int| 0 <= k < outputs.len() ==> (#[trigger] outputs[k]).amount != 0 && outputs[k].recipient.len() != 0
}

/// Result of summing input values: the sum when no input repeats, every
/// input exists and the sum fits a `u64`.
pub open spec fn spec_input_value_ok(m: Map<UtxoKey, UtxoModel>, t: TransactionModel) -> bool {
    &&& crate::transaction::no_duplicate_inputs(t.inputs)
    &&& inputs_exist(m, t.inputs)
    &&& spec_input_sum(m, t.inputs) <= u64::MAX
}

pub open spec fn spec_output_value_ok(t: TransactionModel) -> bool {
    outputs_valued(t.outputs) && spec_output_sum(t.outputs) <= u64::MAX
}

/// Whether the actual fee (inputs minus outputs) can be computed.
pub open spec fn spec_fee_computable(m: Map<UtxoKey, UtxoModel>, t: TransactionModel) -> bool {
    &&& !spec_is_coinbase(t)
    &&& spec_input_value_ok(m, t)
    &&& spec_output_value_ok(t)
    &&& spec_input_sum(m, t.inputs) >= spec_output_sum(t.outputs)
}

pub open spec fn spec_actual_fee(m: Map<UtxoKey, UtxoModel>, t: TransactionModel) -> int {
    spec_input_sum(m, t.inputs) - spec_output_sum(t.outputs)
}

/// Whether the declared fee is exactly the actual fee.
pub open spec fn spec_fee_valid(m: Map<UtxoKey, UtxoModel>, t: TransactionModel) -> bool {
    spec_fee_computable(m, t) && spec_actual_fee(m, t) == t.fee
}

/// Full validity of a normal transaction against the set: structure,
/// existing and owned inputs, signatures and exact fee.
pub open spec fn spec_transaction_valid(m: Map<UtxoKey, UtxoModel>, t: TransactionModel) -> bool {
    &&& !spec_is_coinbase(t)
    &&& spec_validate_basic(t)
    &&& inputs_exist(m, t.inputs)
    &&& inputs_owned(m, t.inputs)
    &&& spec_validate_signatures(t)
    &&& spec_fee_valid(m, t)
}

/// Keys of the outputs a transaction spends.
pub open spec fn spent_keys(t: TransactionModel) -> Set<UtxoKey> {
    Set::new(|k: UtxoKey| exists|j: int| 0 <= j < t.inputs.len() && input_key(#[trigger] t.inputs[j]) == k)
}

/// The entries a transaction with identifier `id` creates.
pub open spec fn created_outputs(id: Seq<u8>, t: TransactionModel) -> Map<UtxoKey, UtxoModel> {
    Map::new(
        |k: UtxoKey| k.0 == id && k.1 < t.outputs.len(),
        |k: UtxoKey| UtxoModel { amount: t.outputs[k.1 as int].amount, recipient: t.outputs[k.1 as int].recipient },
    )
}

/// Whether a transaction's outputs can be added: their indexes fit a `u32`
/// and none of their keys is taken.
pub open spec fn spec_outputs_fresh(m: Map<UtxoKey, UtxoModel>, t: TransactionModel) -> bool {
    &&& t.outputs.len() <= u32::MAX + 1
    &&& forall|k: int| 0 <= k < t.outputs.len() ==> !m.contains_key(#[trigger] output_key(spec_tx_id(t), k))
}

/// Key of output `k` of the transaction with identifier `id`.
pub open spec fn output_key(id: Seq<u8>, k: int) -> UtxoKey {
    (id, k as u32)
}

/// The set after a transaction: spent outputs removed, created outputs added.
pub open spec fn spec_apply(m: Map<UtxoKey, UtxoModel>, t: TransactionModel) -> Map<UtxoKey, UtxoModel> {
    m.remove_keys(spent_keys(t)).union_prefer_right(created_outputs(spec_tx_id(t), t))
}

#[derive(Debug, PartialEq, Eq)]
pub struct UtxoSet {
    entries: Vec<Utxo>,
}

impl View for UtxoSet {
    type V = Map<UtxoKey, UtxoModel>;

    closed spec fn view(&self) -> Map<UtxoKey, UtxoModel> {
        seq_view(self.entries@)
    }
}

impl Clone for Utxo {
    fn clone(&self) -> (r: Self)
        ensures
            utxo_key(r) == utxo_key(*self),
            utxo_value(r) == utxo_value(*self),
    {
        Utxo { id: self.id, amount: self.amount, recipient: clone_bytes(&self.recipient) }
    }
}

/// Three-way order of two output identifiers.
fn compare_ids(a: &UtxoId, b: &UtxoId) -> (r: i8)
    ensures
        r == -1 <==> key_lt(id_key(*a), id_key(*b)),
        r == 0 <==> id_key(*a) == id_key(*b),
        r == 1 <==> key_lt(id_key(*b), id_key(*a)),
        r == -1 || r == 0 || r == 1,
{
    let c = compare_hashes(&a.transaction_id, &b.transaction_id);
    proof {
        lemma_lex_irreflexive(a.transaction_id@);
        if c == -1 {
            lemma_lex_asymmetric(a.transaction_id@, b.transaction_id@);
        }
        if c == 1 {
            lemma_lex_asymmetric(b.transaction_id@, a.transaction_id@);
        }
    }
    if c != 0 {
        c
    } else if a.output_index < b.output_index {
        -1
    } else if a.output_index > b.output_index {
        1
    } else {
        0
    }
}

impl UtxoSet {
    /// The entries in key order.
    pub closed spec fn entries(&self) -> Seq<Utxo> {
        self.entries@
    }

    /// Well-formedness: entries strictly ordered by key, every entry a
    /// nonzero amount to a 33-byte recipient.
    pub closed spec fn wf(&self) -> bool {
        entries_wf(self.entries@)
    }

    /// The state hash: SHA-256 over the tagged, key-ordered entries.
    pub closed spec fn spec_state_hash(&self) -> Seq<u8> {
        spec_sha256(spec_state_preimage(self.entries@))
    }

    pub fn new() -> (r: Self)
        ensures
            r.wf(),
            r@ == Map::<UtxoKey, UtxoModel>::empty(),
    {
        let r = UtxoSet { entries: Vec::new() };
        assert(r@ =~= Map::<UtxoKey, UtxoModel>::empty());
        r
    }

    pub fn len(&self) -> (r: usize)
        requires
            self.wf(),
        ensures
            r == self@.len(),
    {
        proof {
            self.lemma_len();
        }
        self.entries.len()
    }

    proof fn lemma_len(&self)
        requires
            self.wf(),
        ensures
            self@.dom().finite(),
            self@.len() == self.entries@.len(),
        decreases self.entries@.len(),
    {
        let s = self.entries@;
        let keys = Seq::new(s.len(), |i: int| utxo_key(s[i]));
        assert forall|i: int, j: int| 0 <= i < keys.len() && 0 <= j < keys.len() && i != j implies keys[i] != keys[j] by {
            if keys[i] == keys[j] {
                lemma_unique_keys(s, i, j);
            }
        }
        assert(keys.no_duplicates());
        assert(self@.dom() =~= keys.to_set()) by {
            assert forall|k: UtxoKey| #[trigger] self@.dom().contains(k) <==> keys.to_set().contains(k) by {
                if self@.dom().contains(k) {
                    let i = choose|i: int| 0 <= i < s.len() && #[trigger] utxo_key(s[i]) == k;
                    assert(keys[i] == k);
                }
                if keys.to_set().contains(k) {
                    let i = choose|i: int| 0 <= i < keys.len() && keys[i] == k;
                    assert(utxo_key(s[i]) == k);
                }
            }
        }
        keys.unique_seq_to_set();
    }

    pub fn is_empty(&self) -> (r: bool)
        requires
            self.wf(),
        ensures
            r == (self@.len() == 0),
    {
        self.len() == 0
    }

    /// The entries, in key order.
    pub fn iter(&self) -> (r: std::slice::Iter<'_, Utxo>)
        ensures
            into_iter_elts(r) == self.entries(),
    {
        proof {
            broadcast use vstd::std_specs::slice::axiom_spec_slice_iter;
        }
        let r = self.entries.iter();
        assert(into_iter_elts(r) =~= self.entries());
        r
    }

    /// The entries, in key order.
    pub fn as_slice(&self) -> (r: &[Utxo])
        ensures
            r@ == self.entries(),
    {
        self.entries.as_slice()
    }

    /// Position of the entry with identifier `id`, if any.
    fn find(&self, id: &UtxoId) -> (r: Option<usize>)
        requires
            self.wf(),
        ensures
            r is Some <==> self@.contains_key(id_key(*id)),
            r matches Some(i) ==> i < self.entries@.len() && utxo_key(self.entries@[i as int]) == id_key(
                *id,
            ),
    {
        let n = self.entries.len();
        for i in 0..n
            invariant
                n == self.entries@.len(),
                self.wf(),
                forall|j: int| 0 <= j < i ==> utxo_key(#[trigger] self.entries@[j]) != id_key(*id),
        {
            if compare_ids(&self.entries[i].id, id) == 0 {
                proof {
                    lemma_view_at(self.entries@, i as int);
                }
                return Some(i);
            }
        }
        assert(!has_key(self.entries@, id_key(*id)));
        None
    }

    /// The recorded output with identifier `id`, if unspent.
    pub fn get(&self, id: &UtxoId) -> (r: Option<&Utxo>)
        requires
            self.wf(),
        ensures
            r is Some <==> self@.contains_key(id_key(*id)),
            r matches Some(u) ==> utxo_key(*u) == id_key(*id) && utxo_value(*u) == self@[id_key(*id)],
    {
        match self.find(id) {
            Some(i) => {
                proof {
                    lemma_view_at(self.entries@, i as int);
                }
                Some(&self.entries[i])
            },
            None => None,
        }
    }

    /// Whether the output with identifier `id` is unspent.
    pub fn contains(&self, id: &UtxoId) -> (r: bool)
        requires
            self.wf(),
        ensures
            r == self@.contains_key(id_key(*id)),
    {
        self.find(id).is_some()
    }

    /// Whether some unspent output pays `amount` to `recipient`.
    pub fn has_output(&self, amount: u64, recipient: &[u8]) -> (r: bool)
        requires
            self.wf(),
        ensures
            r == exists|k: UtxoKey| #[trigger] self@.contains_key(k) && self@[k] == (UtxoModel { amount, recipient: recipient@ }),
    {
        let n = self.entries.len();
        for i in 0..n
            invariant
                n == self.entries@.len(),
                self.wf(),
                forall|j: int| 0 <= j < i ==> #[trigger] utxo_value(self.entries@[j]) != (UtxoModel { amount, recipient: recipient@ }),
        {
            let u = &self.entries[i];
            if u.amount == amount && bytes_eq(u.recipient.as_slice(), recipient) {
                proof {
                    lemma_view_at(self.entries@, i as int);
                    let k = utxo_key(self.entries@[i as int]);
                    assert(self@.contains_key(k));
                    assert(self@[k] == (UtxoModel { amount, recipient: recipient@ }));
                }
                return true;
            }
        }
        proof {
            assert forall|k: UtxoKey| #[trigger] self@.contains_key(k) implies self@[k] != (UtxoModel { amount, recipient: recipient@ }) by {
                let i = choose|i: int| 0 <= i < n && #[trigger] utxo_key(self.entries@[i]) == k;
                lemma_view_at(self.entries@, i);
            }
        }
        false
    }

    /// Canonical state hash: SHA-256 over a domain tag, the entry count and
    /// the entries in key order.
    pub fn state_hash(&self) -> (r: [u8; 32])
        ensures
            r@ == self.spec_state_hash(),
    {
        let ghost s = self.entries@;
        let mut out: Vec<u8> = Vec::new();
        let tag: [u8; 17] = [78u8, 73, 79, 45, 85, 84, 88, 79, 45, 83, 84, 65, 84, 69, 45, 86, 49];
        push_bytes(&mut out, &tag);
        assert(tag@ =~= state_tag());
        push_u64_le(&mut out, self.entries.len() as u64);
        let ghost mid = out@;
        let n = self.entries.len();
        for i in 0..n
            invariant
                n == s.len(),
                s == self.entries@,
                out@ == mid + flatten_indexed(s.take(i as int), state_entry_fn()),
        {
            let u = &self.entries[i];
            proof {
                lemma_flatten_step(s, state_entry_fn(), i as int);
            }
            push_bytes(&mut out, &u.id.transaction_id);
            push_u32_le(&mut out, u.id.output_index);
            push_u64_le(&mut out, u.amount);
            push_u64_le(&mut out, u.recipient.len() as u64);
            push_bytes(&mut out, u.recipient.as_slice());
            assert(out@ =~= mid + flatten_indexed(s.take(i + 1), state_entry_fn()));
        }
        assert(s.take(n as int) =~= s);
        assert(out@ =~= spec_state_preimage(s));
        sha256(out.as_slice())
    }

    /// Whether two sets hold the same unspent outputs.
    pub fn state_equals(&self, other: &UtxoSet) -> (r: bool)
        requires
            self.wf(),
            other.wf(),
        ensures
            r == (self@ == other@),
    {
        let n = self.entries.len();
        if n != other.entries.len() {
            proof {
                if self@ == other@ {
                    lemma_canonical(self.entries@, other.entries@);
                }
            }
            return false;
        }
        for i in 0..n
            invariant
                n == self.entries@.len(),
                n == other.entries@.len(),
                self.wf(),
                other.wf(),
                forall|j: int| 0 <= j < i ==> utxo_key(#[trigger] self.entries@[j]) == utxo_key(
                    other.entries@[j],
                ) && utxo_value(self.entries@[j]) == utxo_value(other.entries@[j]),
        {
            let a = &self.entries[i];
            let b = &other.entries[i];
            if compare_ids(&a.id, &b.id) != 0 || a.amount != b.amount || !bytes_eq(
                a.recipient.as_slice(),
                b.recipient.as_slice(),
            ) {
                proof {
                    if self@ == other@ {
                        lemma_canonical(self.entries@, other.entries@);
                    }
                }
                return false;
            }
        }
        proof {
            assert forall|k: UtxoKey| #[trigger] self@.contains_key(k) <==> other@.contains_key(k) by {
                if has_key(self.entries@, k) {
                    let i = choose|i: int| 0 <= i < n && #[trigger] utxo_key(self.entries@[i]) == k;
                    assert(utxo_key(other.entries@[i]) == k);
                }
                if has_key(other.entries@, k) {
                    let i = choose|i: int| 0 <= i < n && #[trigger] utxo_key(other.entries@[i]) == k;
                    assert(utxo_key(self.entries@[i]) == k);
                }
            }
            assert forall|k: UtxoKey| #[trigger] self@.contains_key(k) implies self@[k] == other@[k] by {
                let i = choose|i: int| 0 <= i < n && #[trigger] utxo_key(self.entries@[i]) == k;
                lemma_view_at(self.entries@, i);
                lemma_view_at(other.entries@, i);
            }
            assert(self@ =~= other@);
        }
        true
    }

    /// Whether the state hash equals `expected`.
    pub fn has_state_hash(&self, expected: [u8; 32]) -> (r: bool)
        ensures
            r == (self.spec_state_hash() == expected@),
    {
        let h = self.state_hash();
        crate::bytes::hash_eq(&h, &expected)
    }

    /// Adds an unspent output; fails for a zero amount, a recipient that is
    /// not 33 bytes, or an identifier already present.
    pub fn insert(&mut self, utxo: Utxo) -> (r: Result<(), String>)
        requires
            old(self).wf(),
        ensures
            final(self).wf(),
            r is Ok <==> (utxo.amount != 0 && utxo.recipient@.len() == 33 && !old(self)@.contains_key(
                utxo_key(utxo),
            )),
            r is Ok ==> final(self)@ == old(self)@.insert(utxo_key(utxo), utxo_value(utxo)),
            r is Err ==> final(self)@ == old(self)@,
    {
        if utxo.amount == 0 {
            return Err(String::from_str("UTXO amount cannot be zero"));
        }
        if utxo.recipient.len() != 33 {
            return Err(String::from_str("UTXO recipient must be exactly 33 bytes"));
        }
        let ghost s = self.entries@;
        let n = self.entries.len();
        let mut p: usize = 0;
        while p < n && compare_ids(&self.entries[p].id, &utxo.id) == -1
            invariant
                n == s.len(),
                s == self.entries@,
                entries_wf(s),
                p <= n,
                forall|j: int| 0 <= j < p ==> key_lt(utxo_key(#[trigger] s[j]), utxo_key(utxo)),
            decreases n - p,
        {
            p = p + 1;
        }
        if p < n && compare_ids(&self.entries[p].id, &utxo.id) == 0 {
            proof {
                lemma_view_at(s, p as int);
            }
            return Err(String::from_str("UTXO already exists"));
        }
        proof {
            assert forall|j: int| p <= j < n implies key_lt(utxo_key(utxo), utxo_key(#[trigger] s[j])) by {
                if j > p {
                    lemma_key_lt_transitive(utxo_key(utxo), utxo_key(s[p as int]), utxo_key(s[j]));
                }
            }
            assert forall|j: int| 0 <= j < n implies utxo_key(#[trigger] s[j]) != utxo_key(utxo) by {
                lemma_key_lt_irreflexive(utxo_key(utxo));
            }
            assert(!has_key(s, utxo_key(utxo)));
        }
        let ghost u = utxo;
        self.entries.insert(p, utxo);
        proof {
            let t = s.insert(p as int, u);
            assert(self.entries@ == t);
            assert forall|i: int, j: int| 0 <= i < j < t.len() implies key_lt(utxo_key(#[trigger] t[i]), utxo_key(#[trigger] t[j])) by {
                if j < p {
                } else if j == p {
                } else if i < p {
                    assert(t[j] == s[j - 1]);
                    if i < p {
                        assert(t[i] == s[i]);
                    }
                } else if i == p {
                    assert(t[j] == s[j - 1]);
                } else {
                    assert(t[i] == s[i - 1]);
                    assert(t[j] == s[j - 1]);
                }
            }
            assert forall|i: int| 0 <= i < t.len() implies (#[trigger] t[i]).amount != 0 && t[i].recipient@.len() == 33 by {
                if i < p {
                    assert(t[i] == s[i]);
                } else if i > p {
                    assert(t[i] == s[i - 1]);
                }
            }
            lemma_view_insert(s, p as int, u);
        }
        Ok(())
    }

    /// Removes and returns the output with identifier `id`; fails when it is
    /// not (or no longer) in the set.
    pub fn spend(&mut self, id: &UtxoId) -> (r: Result<Utxo, String>)
        requires
            old(self).wf(),
        ensures
            final(self).wf(),
            r is Ok <==> old(self)@.contains_key(id_key(*id)),
            r matches Ok(u) ==> utxo_key(u) == id_key(*id) && utxo_value(u) == old(self)@[id_key(*id)]
                && final(self)@ == old(self)@.remove(id_key(*id)),
            r is Err ==> final(self)@ == old(self)@,
    {
        match self.find(id) {
            Some(i) => {
                let ghost s = self.entries@;
                proof {
                    lemma_view_at(s, i as int);
                    lemma_view_remove(s, i as int);
                }
                let u = self.entries.remove(i);
                Ok(u)
            },
            None => Err(String::from_str("UTXO does not exist or was already spent")),
        }
    }
}


proof fn lemma_input_sum_step(m: Map<UtxoKey, UtxoModel>, s: Seq<InputModel>, i: int)
    requires
        0 <= i < s.len(),
    ensures
        spec_input_sum(m, s.take(i + 1)) == spec_input_sum(m, s.take(i)) + m[input_key(s[i])].amount,
{
    assert(s.take(i + 1).drop_last() =~= s.take(i));
}

proof fn lemma_input_sum_prefix(m: Map<UtxoKey, UtxoModel>, s: Seq<InputModel>, i: int)
    requires
        0 <= i <= s.len(),
    ensures
        spec_input_sum(m, s.take(i)) <= spec_input_sum(m, s),
    decreases s.len(),
{
    if i == s.len() {
        assert(s.take(i) =~= s);
    } else {
        lemma_input_sum_prefix(m, s.drop_last(), i);
        assert(s.drop_last().take(i) =~= s.take(i));
    }
}

proof fn lemma_output_sum_step(s: Seq<OutputModel>, i: int)
    requires
        0 <= i < s.len(),
    ensures
        spec_output_sum(s.take(i + 1)) == spec_output_sum(s.take(i)) + s[i].amount,
{
    assert(s.take(i + 1).drop_last() =~= s.take(i));
}

proof fn lemma_output_sum_prefix(s: Seq<OutputModel>, i: int)
    requires
        0 <= i <= s.len(),
    ensures
        spec_output_sum(s.take(i)) <= spec_output_sum(s),
    decreases s.len(),
{
    if i == s.len() {
        assert(s.take(i) =~= s);
    } else {
        lemma_output_sum_prefix(s.drop_last(), i);
        assert(s.drop_last().take(i) =~= s.take(i));
    }
}

/// Whether input `i` repeats an outpoint of an earlier input.
fn repeats_earlier_input(t: &Transaction, i: usize) -> (r: bool)
    requires
        i < t@.inputs.len(),
    ensures
        r == exists|j: int| 0 <= j < i && same_outpoint(#[trigger] t@.inputs[j], t@.inputs[i as int]),
{
    for j in 0..i
        invariant
            i < t@.inputs.len(),
            forall|k: int| 0 <= k < j ==> !same_outpoint(#[trigger] t@.inputs[k], t@.inputs[i as int]),
    {
        let a = &t.inputs[j];
        let b = &t.inputs[i];
        if crate::bytes::hash_eq(&a.previous_output, &b.previous_output) && a.output_index
            == b.output_index {
            assert(same_outpoint(t@.inputs[j as int], t@.inputs[i as int]));
            return true;
        }
    }
    false
}

/// Whether input `i` repeats an outpoint of an earlier input.
pub fn repeats_earlier_input_pub(t: &Transaction, i: usize) -> (r: bool)
    requires
        i < t@.inputs.len(),
    ensures
        r == exists|j: int| 0 <= j < i && same_outpoint(#[trigger] t@.inputs[j], t@.inputs[i as int]),
{
    repeats_earlier_input(t, i)
}

/// The identifier of the output an input spends.
pub fn input_outpoint(t: &Transaction, i: usize) -> (r: UtxoId)
    requires
        i < t@.inputs.len(),
    ensures
        id_key(r) == input_key(t@.inputs[i as int]),
{
    UtxoId { transaction_id: t.inputs[i].previous_output, output_index: t.inputs[i].output_index }
}

impl Clone for UtxoSet {
    fn clone(&self) -> (r: Self)
        ensures
            r.entries().len() == self.entries().len(),
            forall|i: int| 0 <= i < self.entries().len() ==> utxo_key(#[trigger] r.entries()[i]) == utxo_key(self.entries()[i]) && utxo_value(r.entries()[i]) == utxo_value(self.entries()[i]),
            self.wf() ==> r.wf() && r@ == self@,
    {
        let mut entries: Vec<Utxo> = Vec::new();
        let n = self.entries.len();
        for i in 0..n
            invariant
                n == self.entries@.len(),
                entries@.len() == i,
                forall|j: int| 0 <= j < i ==> utxo_key(#[trigger] entries@[j]) == utxo_key(self.entries@[j]) && utxo_value(entries@[j]) == utxo_value(self.entries@[j]),
        {
            entries.push(self.entries[i].clone());
        }
        let r = UtxoSet { entries };
        proof {
            if self.wf() {
                let s = self.entries@;
                let t = r.entries@;
                assert(entries_wf(t)) by {
                    assert forall|i: int, j: int| 0 <= i < j < t.len() implies key_lt(utxo_key(#[trigger] t[i]), utxo_key(#[trigger] t[j])) by {
                        assert(key_lt(utxo_key(s[i]), utxo_key(s[j])));
                    }
                    assert forall|i: int| 0 <= i < t.len() implies (#[trigger] t[i]).amount != 0 && t[i].recipient@.len() == 33 by {
                        assert(utxo_value(t[i]) == utxo_value(s[i]));
                        assert(s[i].amount != 0);
                    }
                }
                assert forall|k: UtxoKey| #[trigger] r@.contains_key(k) <==> self@.contains_key(k) by {
                    if has_key(t, k) {
                        let i = choose|i: int| 0 <= i < t.len() && #[trigger] utxo_key(t[i]) == k;
                        assert(utxo_key(s[i]) == k);
                    }
                    if has_key(s, k) {
                        let i = choose|i: int| 0 <= i < s.len() && #[trigger] utxo_key(s[i]) == k;
                        assert(utxo_key(t[i]) == k);
                    }
                }
                assert forall|k: UtxoKey| #[trigger] r@.contains_key(k) implies r@[k] == self@[k] by {
                    let i = choose|i: int| 0 <= i < t.len() && #[trigger] utxo_key(t[i]) == k;
                    lemma_view_at(t, i);
                    lemma_view_at(s, i);
                }
                assert(r@ =~= self@);
            }
        }
        r
    }
}

impl Default for UtxoSet {
    fn default() -> (r: Self)
        ensures
            r.wf(),
            r@ == Map::<UtxoKey, UtxoModel>::empty(),
    {
        UtxoSet::new()
    }
}

impl UtxoSet {
    /// Sum of the amounts of the outputs a transaction spends; fails when an
    /// input repeats, an input's output is missing, or the sum overflows.
    pub fn input_value(&self, transaction: &Transaction) -> (r: Result<u64, String>)
        requires
            self.wf(),
        ensures
            r is Ok <==> spec_input_value_ok(self@, transaction@),
            r matches Ok(v) ==> v == spec_input_sum(self@, transaction@.inputs),
    {
        let ghost t = transaction@;
        let ghost m = self@;
        let mut total: u64 = 0;
        let n = transaction.inputs.len();
        for i in 0..n
            invariant
                n == t.inputs.len(),
                t == transaction@,
                m == self@,
                self.wf(),
                forall|a: int, b: int| 0 <= a < b < i ==> !same_outpoint(#[trigger] t.inputs[a], #[trigger] t.inputs[b]),
                forall|k: int| 0 <= k < i ==> m.contains_key(input_key(#[trigger] t.inputs[k])),
                total == spec_input_sum(m, t.inputs.take(i as int)),
        {
            if repeats_earlier_input(transaction, i) {
                assert(!crate::transaction::no_duplicate_inputs(t.inputs));
                return Err(String::from_str("duplicate input detected"));
            }
            let id = input_outpoint(transaction, i);
            let utxo = match self.get(&id) {
                Some(u) => u,
                None => {
                    assert(!inputs_exist(m, t.inputs));
                    return Err(String::from_str("input UTXO does not exist"));
                },
            };
            proof {
                lemma_input_sum_step(m, t.inputs, i as int);
            }
            match total.checked_add(utxo.amount) {
                Some(v) => {
                    total = v;
                },
                None => {
                    proof {
                        lemma_input_sum_prefix(m, t.inputs, i + 1);
                    }
                    return Err(String::from_str("input value overflow"));
                },
            }
        }
        assert(t.inputs.take(n as int) =~= t.inputs);
        Ok(total)
    }

    /// Sum of output amounts; fails for a zero amount, an empty recipient or
    /// an overflowing sum.
    pub fn output_value(transaction: &Transaction) -> (r: Result<u64, String>)
        ensures
            r is Ok <==> spec_output_value_ok(transaction@),
            r matches Ok(v) ==> v == spec_output_sum(transaction@.outputs),
    {
        let ghost t = transaction@;
        let mut total: u64 = 0;
        let n = transaction.outputs.len();
        for i in 0..n
            invariant
                n == t.outputs.len(),
                t == transaction@,
                forall|k: int| 0 <= k < i ==> (#[trigger] t.outputs[k]).amount != 0 && t.outputs[k].recipient.len() != 0,
                total == spec_output_sum(t.outputs.take(i as int)),
        {
            let output = &transaction.outputs[i];
            assert(t.outputs[i as int] == transaction.outputs@[i as int]@);
            if output.amount == 0 {
                assert(t.outputs[i as int].amount == 0);
                assert(!outputs_valued(t.outputs));
                return Err(String::from_str("output amount cannot be zero"));
            }
            if output.recipient.len() == 0 {
                assert(t.outputs[i as int].recipient.len() == 0);
                assert(!outputs_valued(t.outputs));
                return Err(String::from_str("output recipient cannot be empty"));
            }
            proof {
                lemma_output_sum_step(t.outputs, i as int);
            }
            match total.checked_add(output.amount) {
                Some(v) => {
                    total = v;
                },
                None => {
                    proof {
                        lemma_output_sum_prefix(t.outputs, i + 1);
                    }
                    return Err(String::from_str("output value overflow"));
                },
            }
        }
        assert(t.outputs.take(n as int) =~= t.outputs);
        Ok(total)
    }

    /// The actual fee, inputs minus outputs; fails for a coinbase, for the
    /// failures of the two sums, and when outputs exceed inputs.
    pub fn calculate_fee(&self, transaction: &Transaction) -> (r: Result<u64, String>)
        requires
            self.wf(),
        ensures
            r is Ok <==> spec_fee_computable(self@, transaction@),
            r matches Ok(v) ==> v == spec_actual_fee(self@, transaction@),
    {
        if transaction.is_coinbase() {
            return Err(String::from_str("coinbase has no transaction fee"));
        }
        let input_total = match self.input_value(transaction) {
            Ok(v) => v,
            Err(e) => return Err(e),
        };
        let output_total = match Self::output_value(transaction) {
            Ok(v) => v,
            Err(e) => return Err(e),
        };
        if input_total < output_total {
            return Err(String::from_str("outputs exceed inputs"));
        }
        Ok(input_total - output_total)
    }

    /// The actual fee, required to equal the declared fee.
    pub fn validate_fee(&self, transaction: &Transaction) -> (r: Result<u64, String>)
        requires
            self.wf(),
        ensures
            r is Ok <==> spec_fee_valid(self@, transaction@),
            r matches Ok(v) ==> v == transaction.fee,
    {
        if transaction.is_coinbase() {
            return Err(String::from_str("coinbase cannot use normal transaction fee validation"));
        }
        let actual_fee = match self.calculate_fee(transaction) {
            Ok(v) => v,
            Err(e) => return Err(e),
        };
        if actual_fee != transaction.fee {
            return Err(String::from_str("invalid transaction fee"));
        }
        Ok(actual_fee)
    }

    /// Full validation of a normal transaction: structure, existing inputs
    /// owned by their signers, valid signatures and exact fee.
    pub fn validate_transaction(&self, transaction: &Transaction) -> (r: Result<(), String>)
        requires
            self.wf(),
        ensures
            r is Ok <==> spec_transaction_valid(self@, transaction@),
    {
        let ghost t = transaction@;
        let ghost m = self@;
        if transaction.is_coinbase() {
            return Err(String::from_str("coinbase must be validated separately"));
        }
        if !transaction.validate_basic() {
            return Err(String::from_str("basic transaction validation failed"));
        }
        if transaction.inputs.len() == 0 {
            return Err(String::from_str("transaction must contain inputs"));
        }
        if transaction.outputs.len() == 0 {
            return Err(String::from_str("transaction must contain outputs"));
        }
        let n = transaction.inputs.len();
        for i in 0..n
            invariant
                n == t.inputs.len(),
                t == transaction@,
                m == self@,
                self.wf(),
                spec_validate_basic(t),
                forall|k: int| 0 <= k < i ==> m.contains_key(input_key(#[trigger] t.inputs[k])),
                forall|k: int| 0 <= k < i ==> m[input_key(#[trigger] t.inputs[k])].recipient == t.inputs[k].public_key,
        {
            if repeats_earlier_input(transaction, i) {
                return Err(String::from_str("duplicate input detected"));
            }
            let id = input_outpoint(transaction, i);
            let utxo = match self.get(&id) {
                Some(u) => u,
                None => {
                    assert(!inputs_exist(m, t.inputs));
                    return Err(String::from_str("input UTXO does not exist"));
                },
            };
            if !bytes_eq(utxo.recipient.as_slice(), transaction.inputs[i].public_key.as_slice()) {
                assert(!inputs_owned(m, t.inputs));
                return Err(String::from_str("input public key does not own UTXO"));
            }
        }
        if !transaction.validate_signatures() {
            return Err(String::from_str("invalid transaction signatures"));
        }
        match self.validate_fee(transaction) {
            Ok(_) => Ok(()),
            Err(e) => Err(e),
        }
    }

    /// Applies a transaction atomically: validates it, spends its inputs,
    /// adds its outputs under its identifier and returns its fee. On any
    /// failure the set is left unchanged.
    #[verifier::spinoff_prover]
    pub fn apply_transaction(&mut self, transaction: &Transaction) -> (r: Result<u64, String>)
        requires
            old(self).wf(),
        ensures
            final(self).wf(),
            r is Ok <==> (spec_transaction_valid(old(self)@, transaction@) && spec_outputs_fresh(
                old(self)@,
                transaction@,
            )),
            r matches Ok(fee) ==> fee == transaction.fee && fee == spec_actual_fee(old(self)@, transaction@)
                && final(self)@ == spec_apply(old(self)@, transaction@),
            r is Ok ==> final(self)@.len() == old(self)@.len() - transaction@.inputs.len()
                + transaction@.outputs.len(),
            r is Err ==> final(self)@ == old(self)@,
    {
        let ghost t = transaction@;
        let ghost m = self@;
        match self.validate_transaction(transaction) {
            Ok(()) => {},
            Err(e) => return Err(e),
        }
        let fee = match self.validate_fee(transaction) {
            Ok(v) => v,
            Err(e) => return Err(e),
        };
        let transaction_id = transaction.id();
        let ghost txid = transaction_id@;
        let mut new_utxos: Vec<Utxo> = Vec::new();
        let n_out = transaction.outputs.len();
        for index in 0..n_out
            invariant
                n_out == t.outputs.len(),
                t == transaction@,
                m == self@,
                self.wf(),
                txid == spec_tx_id(t),
                transaction_id@ == txid,
                spec_validate_basic(t),
                new_utxos@.len() == index,
                index <= u32::MAX + 1,
                forall|j: int| 0 <= j < index ==> utxo_key(#[trigger] new_utxos@[j]) == output_key(txid, j)
                    && utxo_value(new_utxos@[j]) == (UtxoModel { amount: t.outputs[j].amount, recipient: t.outputs[j].recipient })
                    && !m.contains_key(output_key(txid, j)),
        {
            let output = &transaction.outputs[index];
            assert(crate::transaction::output_well_formed(t.outputs[index as int]));
            if output.amount == 0 {
                return Err(String::from_str("output amount cannot be zero"));
            }
            if output.recipient.len() == 0 {
                return Err(String::from_str("output recipient cannot be empty"));
            }
            if index > 4294967295usize {
                return Err(String::from_str("too many transaction outputs"));
            }
            let id = UtxoId { transaction_id, output_index: index as u32 };
            assert(id.transaction_id@ == txid);
            assert(id.output_index == index as u32);
            assert(id_key(id) == output_key(txid, index as int));
            if self.contains(&id) {
                assert(m.contains_key(output_key(spec_tx_id(t), index as int)));
                return Err(String::from_str("transaction output UTXO already exists"));
            }
            let new_utxo = Utxo { id, amount: output.amount, recipient: clone_bytes(&output.recipient) };
            assert(t.outputs[index as int] == transaction.outputs@[index as int]@);
            assert(utxo_value(new_utxo) == (UtxoModel { amount: t.outputs[index as int].amount, recipient: t.outputs[index as int].recipient }));
            let ghost before_push = new_utxos@;
            new_utxos.push(new_utxo);
            assert forall|j: int| 0 <= j < index + 1 implies utxo_key(#[trigger] new_utxos@[j]) == output_key(txid, j)
                && utxo_value(new_utxos@[j]) == (UtxoModel { amount: t.outputs[j].amount, recipient: t.outputs[j].recipient })
                && !m.contains_key(output_key(txid, j)) by {
                if j < index {
                    assert(new_utxos@[j] == before_push[j]);
                }
            }
        }
        assert forall|j: int| 0 <= j < t.outputs.len() implies !m.contains_key(#[trigger] output_key(spec_tx_id(t), j)) by {
            assert(utxo_key(new_utxos@[j]) == output_key(txid, j));
        }
        assert(spec_outputs_fresh(m, t));
        // Spend every input.
        let n_in = transaction.inputs.len();
        for i in 0..n_in
            invariant
                n_in == t.inputs.len(),
                t == transaction@,
                self.wf(),
                spec_transaction_valid(m, t),
                self@ == m.remove_keys(Set::new(|k: UtxoKey| exists|j: int| 0 <= j < i && input_key(#[trigger] t.inputs[j]) == k)),
        {
            let id = input_outpoint(transaction, i);
            let ghost before = self@;
            proof {
                assert(m.contains_key(input_key(t.inputs[i as int])));
                assert forall|j: int| 0 <= j < i implies input_key(#[trigger] t.inputs[j]) != input_key(t.inputs[i as int]) by {
                    assert(!same_outpoint(t.inputs[j], t.inputs[i as int]));
                }
            }
            let spent = self.spend(&id);
            assert(spent is Ok);
            assert(self@ =~= m.remove_keys(Set::new(|k: UtxoKey| exists|j: int| 0 <= j < i + 1 && input_key(#[trigger] t.inputs[j]) == k))) by {
                assert forall|k: UtxoKey| #[trigger] self@.contains_key(k) <==> m.remove_keys(Set::new(|k: UtxoKey| exists|j: int| 0 <= j < i + 1 && input_key(#[trigger] t.inputs[j]) == k)).contains_key(k) by {
                    if k == input_key(t.inputs[i as int]) {
                    }
                }
            }
        }
        let ghost spent_state = self@;
        assert(spent_state =~= m.remove_keys(spent_keys(t)));
        // Add every created output.
        let n_new = new_utxos.len();
        let ghost orig = new_utxos@;
        let mut k: usize = 0;
        while k < n_new
            invariant
                n_new == orig.len(),
                new_utxos@ == orig.skip(k as int),
                n_new == t.outputs.len(),
                k <= n_new,
                self.wf(),
                spent_state == m.remove_keys(spent_keys(t)),
                spec_transaction_valid(m, t),
                n_new <= u32::MAX + 1,
                forall|j: int| 0 <= j < n_new ==> utxo_key(#[trigger] orig[j]) == output_key(txid, j)
                    && utxo_value(orig[j]) == (UtxoModel { amount: t.outputs[j].amount, recipient: t.outputs[j].recipient })
                    && !m.contains_key(output_key(txid, j)),
                self@ == spent_state.union_prefer_right(Map::new(
                    |key: UtxoKey| key.0 == txid && key.1 < k,
                    |key: UtxoKey| UtxoModel { amount: t.outputs[key.1 as int].amount, recipient: t.outputs[key.1 as int].recipient },
                )),
            decreases n_new - k,
        {
            let utxo = new_utxos.remove(0);
            let ghost u = utxo;
            proof {
                assert(u == orig[k as int]);
                assert(new_utxos@ =~= orig.skip(k + 1));
                assert(utxo_key(u) == output_key(txid, k as int));
                assert(crate::transaction::output_well_formed(t.outputs[k as int]));
                let key = utxo_key(u);
                assert(!self@.contains_key(key)) by {
                    assert(!m.contains_key(key));
                    if key.0 == txid && key.1 < k {
                        assert(key.1 == k as u32);
                    }
                }
            }
            let ins = self.insert(utxo);
            assert(ins is Ok);
            proof {
                assert(self@ =~= spent_state.union_prefer_right(Map::new(
                    |key: UtxoKey| key.0 == txid && key.1 < k + 1,
                    |key: UtxoKey| UtxoModel { amount: t.outputs[key.1 as int].amount, recipient: t.outputs[key.1 as int].recipient },
                )));
            }
            k = k + 1;
        }
        assert(self@ =~= spec_apply(m, t));
        proof {
            old(self).lemma_len();
            lemma_apply_len(m, t);
        }
        Ok(fee)
    }
}

/// A valid transaction cannot be applied twice: once applied, the outputs it
/// spends are gone.
pub proof fn lemma_no_double_spend(m: Map<UtxoKey, UtxoModel>, t: TransactionModel)
    requires
        spec_transaction_valid(m, t),
        spec_outputs_fresh(m, t),
    ensures
        !spec_transaction_valid(spec_apply(m, t), t),
{
    let k0 = input_key(t.inputs[0]);
    assert(spent_keys(t).contains(k0));
    assert(m.contains_key(k0));
    if created_outputs(spec_tx_id(t), t).contains_key(k0) {
        assert(!m.contains_key(output_key(spec_tx_id(t), k0.1 as int)));
    }
    assert(!spec_apply(m, t).contains_key(k0));
}

/// Two well-formed sets holding the same outputs have the same state hash,
/// whatever order the outputs were inserted in.
pub proof fn lemma_state_hash_canonical(a: UtxoSet, b: UtxoSet)
    requires
        a.wf(),
        b.wf(),
        a@ == b@,
    ensures
        a.spec_state_hash() == b.spec_state_hash(),
{
    lemma_canonical(a.entries@, b.entries@);
    let f = state_entry_fn();
    assert forall|i: int| 0 <= i < a.entries@.len() implies f(i, a.entries@[i]) == f(i, b.entries@[i]) by {
        assert(utxo_key(a.entries@[i]) == utxo_key(b.entries@[i]));
        assert(utxo_value(a.entries@[i]) == utxo_value(b.entries@[i]));
    }
    crate::transaction::lemma_flatten_congruent(a.entries@, b.entries@, f, f);
}

/// The state hash of the well-formed set that holds `m` (the same for
/// every such set, by `lemma_state_hash_canonical`).
pub open spec fn map_state_hash(m: Map<UtxoKey, UtxoModel>) -> Seq<u8> {
    choose|h: Seq<u8>| #[trigger] is_state_hash_of(m, h)
}

/// Whether some well-formed set holding `m` has state hash `h`.
pub open spec fn is_state_hash_of(m: Map<UtxoKey, UtxoModel>, h: Seq<u8>) -> bool {
    exists|u: UtxoSet| u.wf() && u@ == m && #[trigger] u.spec_state_hash() == h
}

/// A well-formed set's state hash is the state hash of its contents.
pub proof fn lemma_map_state_hash(u: UtxoSet)
    requires
        u.wf(),
    ensures
        u.spec_state_hash() == map_state_hash(u@),
{
    let m = u@;
    assert(is_state_hash_of(m, u.spec_state_hash()));
    let h = map_state_hash(m);
    let v = choose|v: UtxoSet| v.wf() && v@ == m && #[trigger] v.spec_state_hash() == h;
    lemma_state_hash_canonical(u, v);
}

/// A transaction that applies removes one entry per input and adds one per
/// output.
pub proof fn lemma_apply_len(m: Map<UtxoKey, UtxoModel>, t: TransactionModel)
    requires
        m.dom().finite(),
        spec_transaction_valid(m, t),
        spec_outputs_fresh(m, t),
    ensures
        spec_apply(m, t).dom().finite(),
        spec_apply(m, t).len() == m.len() - t.inputs.len() + t.outputs.len(),
{
    let spent = spent_keys(t);
    let sk = t.inputs.map_values(|i: InputModel| input_key(i));
    assert(sk.no_duplicates()) by {
        assert forall|a: int, b: int| 0 <= a < sk.len() && 0 <= b < sk.len() && a != b implies sk[a] != sk[b] by {
            if a < b {
                assert(!same_outpoint(t.inputs[a], t.inputs[b]));
            } else {
                assert(!same_outpoint(t.inputs[b], t.inputs[a]));
            }
        }
    }
    sk.unique_seq_to_set();
    assert(spent =~= sk.to_set()) by {
        assert forall|k: UtxoKey| spent.contains(k) <==> sk.to_set().contains(k) by {
            if spent.contains(k) {
                let j = choose|j: int| 0 <= j < t.inputs.len() && input_key(#[trigger] t.inputs[j]) == k;
                assert(sk[j] == k);
            }
            if sk.to_set().contains(k) {
                let j = choose|j: int| 0 <= j < sk.len() && sk[j] == k;
                assert(input_key(t.inputs[j]) == k);
            }
        }
    }
    assert(m.dom().intersect(spent) =~= spent) by {
        assert forall|k: UtxoKey| spent.contains(k) implies m.dom().contains(k) by {
            let j = choose|j: int| 0 <= j < t.inputs.len() && input_key(#[trigger] t.inputs[j]) == k;
        }
    }
    let kept = m.dom().difference(spent);
    vstd::set_lib::lemma_set_difference_len(m.dom(), spent);
    let id = spec_tx_id(t);
    let created = created_outputs(id, t);
    let ck = Seq::new(t.outputs.len(), |i: int| output_key(id, i));
    assert(ck.no_duplicates());
    ck.unique_seq_to_set();
    assert(created.dom() =~= ck.to_set()) by {
        assert forall|k: UtxoKey| created.dom().contains(k) <==> ck.to_set().contains(k) by {
            if created.dom().contains(k) {
                assert(ck[k.1 as int] == k);
            }
        }
    }
    assert(kept.disjoint(created.dom())) by {
        assert forall|k: UtxoKey| created.dom().contains(k) implies !kept.contains(k) by {
            assert(!m.contains_key(#[trigger] output_key(id, k.1 as int)));
        }
    }
    vstd::set_lib::lemma_set_disjoint_lens(kept, created.dom());
    assert(spec_apply(m, t).dom() =~= kept + created.dom());
}

} // verus!
