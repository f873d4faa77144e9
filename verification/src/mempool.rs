//! The mempool: pending transactions keyed by identifier, with the outputs
//! they spend reserved against double spends, and fee-ordered selection.
use vstd::prelude::*;
use vstd::std_specs::slice::into_iter_elts;
use crate::assoc::{assoc_map, distinct, key_in, lemma_assoc_at, lemma_assoc_empty, lemma_assoc_len, lemma_assoc_push, lemma_assoc_remove};
use crate::bytes::{compare_hashes, hash_eq, lemma_lex_asymmetric, lemma_lex_irreflexive, lemma_lex_total, lemma_lex_transitive, lex_lt};
use crate::transaction::{spec_tx_id, spec_validate_basic, spec_validate_signatures, InputModel, Transaction, TransactionId, TransactionModel};
use crate::utxo::{id_key, input_key, input_outpoint, spec_fee_valid, spec_input_sum, spec_input_value_ok, spec_output_sum, spec_output_value_ok, spec_transaction_valid, UtxoId, UtxoKey, UtxoModel, UtxoSet};

verus! {

const DEFAULT_MAX_TRANSACTIONS: usize = 5_000;

#[derive(Debug, Clone, Copy, PartialEq, Eq)]
pub struct MempoolConfig {
    pub max_transactions: usize,
    pub min_fee: u64,
}

impl Default for MempoolConfig {
    fn default() -> (r: Self)
        ensures
            r == (MempoolConfig { max_transactions: 5_000, min_fee: 0 }),
    {
        MempoolConfig { max_transactions: DEFAULT_MAX_TRANSACTIONS, min_fee: 0 }
    }
}

#[derive(Debug, Clone, Copy, PartialEq, Eq)]
pub enum MempoolError {
    TransactionAlreadyExists,
    MempoolFull,
    FeeTooLow,
    InvalidTransaction,
    InvalidSignature,
    MissingUtxo,
    InsufficientFunds,
    DuplicateInput,
    DoubleSpend,
}

pub open spec fn id_seq(v: Seq<TransactionId>) -> Seq<Seq<u8>> {
    v.map_values(|a: TransactionId| a@)
}

pub open spec fn utxo_key_seq(v: Seq<UtxoId>) -> Seq<UtxoKey> {
    v.map_values(|a: UtxoId| id_key(a))
}

pub open spec fn tx_seq(v: Seq<Transaction>) -> Seq<TransactionModel> {
    v.map_values(|t: Transaction| t@)
}

/// Pending transactions, the identifiers they are kept under, and the
/// outputs reserved by admitted transactions.
#[derive(Debug)]
pub struct Mempool {
    ids: Vec<TransactionId>,
    transactions: Vec<Transaction>,
    reserved_ids: Vec<UtxoId>,
    reserved_by: Vec<TransactionId>,
    config: MempoolConfig,
}

impl Mempool {
    /// Pending transactions by identifier.
    pub closed spec fn pool(&self) -> Map<Seq<u8>, TransactionModel> {
        assoc_map(id_seq(self.ids@), tx_seq(self.transactions@))
    }

    /// Reserved outputs and the identifier of the transaction reserving each.
    pub closed spec fn reservations(&self) -> Map<UtxoKey, Seq<u8>> {
        assoc_map(utxo_key_seq(self.reserved_ids@), id_seq(self.reserved_by@))
    }

    pub closed spec fn spec_config(&self) -> MempoolConfig {
        self.config
    }

    /// Well-formedness: every pending transaction is kept under its own
    /// identifier, identifiers and reserved outputs are distinct.
    pub closed spec fn wf(&self) -> bool {
        &&& self.ids@.len() == self.transactions@.len()
        &&& distinct(id_seq(self.ids@))
        &&& forall|i: int| 0 <= i < self.ids@.len() ==> #[trigger] self.ids@[i]@ == spec_tx_id(self.transactions@[i]@)
        &&& self.reserved_ids@.len() == self.reserved_by@.len()
        &&& distinct(utxo_key_seq(self.reserved_ids@))
    }

    /// Every key of the pool is the identifier of the transaction under it.
    pub proof fn lemma_pool_keys(&self)
        requires
            self.wf(),
        ensures
            forall|k: Seq<u8>| #[trigger] self.pool().contains_key(k) ==> k == spec_tx_id(self.pool()[k]),
            self.pool().dom().finite(),
    {
        assert forall|k: Seq<u8>| #[trigger] self.pool().contains_key(k) implies k == spec_tx_id(self.pool()[k]) by {
            let i = choose|i: int| 0 <= i < id_seq(self.ids@).len() && #[trigger] id_seq(self.ids@)[i] == k;
            lemma_assoc_at(id_seq(self.ids@), tx_seq(self.transactions@), i);
        }
        lemma_assoc_len(id_seq(self.ids@), tx_seq(self.transactions@));
    }

    pub fn new() -> (r: Self)
        ensures
            r.wf(),
            r.pool() == Map::<Seq<u8>, TransactionModel>::empty(),
            r.reservations() == Map::<UtxoKey, Seq<u8>>::empty(),
            r.spec_config() == (MempoolConfig { max_transactions: 5_000, min_fee: 0 }),
            reservations_sound(r.pool(), r.reservations()),
    {
        Self::with_config(MempoolConfig::default())
    }

    pub fn with_config(config: MempoolConfig) -> (r: Self)
        ensures
            r.wf(),
            r.pool() == Map::<Seq<u8>, TransactionModel>::empty(),
            r.reservations() == Map::<UtxoKey, Seq<u8>>::empty(),
            r.spec_config() == config,
            reservations_sound(r.pool(), r.reservations()),
    {
        let r = Mempool {
            ids: Vec::new(),
            transactions: Vec::new(),
            reserved_ids: Vec::new(),
            reserved_by: Vec::new(),
            config,
        };
        proof {
            assert(id_seq(r.ids@) =~= Seq::<Seq<u8>>::empty());
            assert(tx_seq(r.transactions@) =~= Seq::<TransactionModel>::empty());
            assert(utxo_key_seq(r.reserved_ids@) =~= Seq::<UtxoKey>::empty());
            assert(id_seq(r.reserved_by@) =~= Seq::<Seq<u8>>::empty());
            lemma_assoc_empty::<Seq<u8>, TransactionModel>();
            lemma_assoc_empty::<UtxoKey, Seq<u8>>();
        }
        r
    }

    pub fn len(&self) -> (r: usize)
        requires
            self.wf(),
        ensures
            r == self.pool().len(),
    {
        proof {
            lemma_assoc_len(id_seq(self.ids@), tx_seq(self.transactions@));
        }
        self.ids.len()
    }

    pub fn is_empty(&self) -> (r: bool)
        requires
            self.wf(),
        ensures
            r == (self.pool().len() == 0),
    {
        self.len() == 0
    }

    pub fn capacity(&self) -> (r: usize)
        ensures
            r == self.spec_config().max_transactions,
    {
        self.config.max_transactions
    }

    pub fn min_fee(&self) -> (r: u64)
        ensures
            r == self.spec_config().min_fee,
    {
        self.config.min_fee
    }

    fn find_transaction(&self, id: &TransactionId) -> (r: Option<usize>)
        requires
            self.wf(),
        ensures
            r is Some <==> self.pool().contains_key(id@),
            r matches Some(i) ==> i < self.ids@.len() && self.ids@[i as int]@ == id@,
    {
        let n = self.ids.len();
        for i in 0..n
            invariant
                n == self.ids@.len(),
                self.wf(),
                forall|j: int| 0 <= j < i ==> (#[trigger] self.ids@[j])@ != id@,
        {
            if hash_eq(&self.ids[i], id) {
                proof {
                    assert(id_seq(self.ids@)[i as int] == id@);
                    lemma_assoc_at(id_seq(self.ids@), tx_seq(self.transactions@), i as int);
                }
                return Some(i);
            }
        }
        proof {
            if key_in(id_seq(self.ids@), id@) {
                let j = choose|j: int| 0 <= j < id_seq(self.ids@).len() && #[trigger] id_seq(self.ids@)[j] == id@;
                assert(self.ids@[j]@ == id@);
            }
        }
        None
    }

    fn find_reservation(&self, id: &UtxoId) -> (r: Option<usize>)
        requires
            self.wf(),
        ensures
            r is Some <==> self.reservations().contains_key(id_key(*id)),
            r matches Some(i) ==> i < self.reserved_ids@.len() && id_key(self.reserved_ids@[i as int]) == id_key(*id),
    {
        let n = self.reserved_ids.len();
        for i in 0..n
            invariant
                n == self.reserved_ids@.len(),
                self.wf(),
                forall|j: int| 0 <= j < i ==> id_key(#[trigger] self.reserved_ids@[j]) != id_key(*id),
        {
            let r = &self.reserved_ids[i];
            if hash_eq(&r.transaction_id, &id.transaction_id) && r.output_index == id.output_index {
                proof {
                    assert(utxo_key_seq(self.reserved_ids@)[i as int] == id_key(*id));
                    lemma_assoc_at(utxo_key_seq(self.reserved_ids@), id_seq(self.reserved_by@), i as int);
                }
                return Some(i);
            }
        }
        proof {
            if key_in(utxo_key_seq(self.reserved_ids@), id_key(*id)) {
                let j = choose|j: int| 0 <= j < utxo_key_seq(self.reserved_ids@).len() && #[trigger] utxo_key_seq(self.reserved_ids@)[j] == id_key(*id);
                assert(id_key(self.reserved_ids@[j]) == id_key(*id));
            }
        }
        None
    }

    pub fn contains(&self, id: &TransactionId) -> (r: bool)
        requires
            self.wf(),
        ensures
            r == self.pool().contains_key(id@),
    {
        self.find_transaction(id).is_some()
    }

    pub fn get(&self, id: &TransactionId) -> (r: Option<&Transaction>)
        requires
            self.wf(),
        ensures
            r is Some <==> self.pool().contains_key(id@),
            r matches Some(t) ==> t@ == self.pool()[id@],
    {
        match self.find_transaction(id) {
            Some(i) => {
                proof {
                    lemma_assoc_at(id_seq(self.ids@), tx_seq(self.transactions@), i as int);
                }
                Some(&self.transactions[i])
            },
            None => None,
        }
    }

    /// The pending transactions, in admission order: each transaction of the
    /// pool exactly once.
    pub fn iter(&self) -> (r: std::slice::Iter<'_, Transaction>)
        requires
            self.wf(),
        ensures
            into_iter_elts(r).len() == self.pool().len(),
            forall|i: int|
                0 <= i < into_iter_elts(r).len() ==> self.pool().contains_key(spec_tx_id((#[trigger] into_iter_elts(r)[i])@))
                    && self.pool()[spec_tx_id(into_iter_elts(r)[i]@)] == into_iter_elts(r)[i]@,
            forall|i: int, j: int|
                0 <= i < j < into_iter_elts(r).len() ==> spec_tx_id((#[trigger] into_iter_elts(r)[i])@) != spec_tx_id(
                    (#[trigger] into_iter_elts(r)[j])@,
                ),
    {
        proof {
            broadcast use vstd::std_specs::slice::axiom_spec_slice_iter;
            lemma_assoc_len(id_seq(self.ids@), tx_seq(self.transactions@));
        }
        let r = self.transactions.iter();
        assert(into_iter_elts(r) =~= self.transactions@);
        proof {
            assert forall|i: int| 0 <= i < self.transactions@.len() implies self.pool().contains_key(
                spec_tx_id(self.transactions@[i]@),
            ) && self.pool()[spec_tx_id(self.transactions@[i]@)] == self.transactions@[i]@ by {
                assert(id_seq(self.ids@)[i] == self.ids@[i]@);
                lemma_assoc_at(id_seq(self.ids@), tx_seq(self.transactions@), i);
            }
            assert forall|i: int, j: int| 0 <= i < j < self.transactions@.len() implies spec_tx_id(
                self.transactions@[i]@,
            ) != spec_tx_id(self.transactions@[j]@) by {
                assert(id_seq(self.ids@)[i] == self.ids@[i]@);
                assert(id_seq(self.ids@)[j] == self.ids@[j]@);
            }
        }
        r
    }

    /// Stores a transaction under its identifier.
    fn store(&mut self, id: TransactionId, transaction: Transaction)
        requires
            old(self).wf(),
            id@ == spec_tx_id(transaction@),
            !old(self).pool().contains_key(id@),
        ensures
            final(self).wf(),
            final(self).pool() == old(self).pool().insert(id@, transaction@),
            final(self).reservations() == old(self).reservations(),
            final(self).spec_config() == old(self).spec_config(),
    {
        let ghost t = transaction@;
        proof {
            lemma_assoc_push(id_seq(self.ids@), tx_seq(self.transactions@), id@, t);
        }
        self.ids.push(id);
        self.transactions.push(transaction);
        assert(id_seq(self.ids@) =~= id_seq(old(self).ids@).push(id@));
        assert(tx_seq(self.transactions@) =~= tx_seq(old(self).transactions@).push(t));
    }

    /// Admits a structurally valid transaction paying at least the minimum
    /// fee, not yet pending, while there is room. Nothing is checked against
    /// the UTXO set and no output is reserved.
    pub fn add(&mut self, transaction: Transaction) -> (r: Result<TransactionId, MempoolError>)
        requires
            old(self).wf(),
        ensures
            final(self).wf(),
            final(self).reservations() == old(self).reservations(),
            final(self).spec_config() == old(self).spec_config(),
            r is Ok <==> spec_add_result(old(self).pool(), old(self).spec_config(), transaction@) is Ok,
            r matches Err(e) ==> spec_add_result(old(self).pool(), old(self).spec_config(), transaction@) == Err::<(), MempoolError>(e),
            r matches Ok(id) ==> id@ == spec_tx_id(transaction@) && final(self).pool() == old(self).pool().insert(id@, transaction@),
            r is Err ==> final(self).pool() == old(self).pool(),
            reservations_sound(old(self).pool(), old(self).reservations()) ==> reservations_sound(
                final(self).pool(),
                final(self).reservations(),
            ),
    {
        if !transaction.validate_basic() {
            return Err(MempoolError::InvalidTransaction);
        }
        if transaction.fee < self.config.min_fee {
            return Err(MempoolError::FeeTooLow);
        }
        let id = transaction.id();
        if self.contains(&id) {
            return Err(MempoolError::TransactionAlreadyExists);
        }
        if self.len() >= self.config.max_transactions {
            return Err(MempoolError::MempoolFull);
        }
        let ghost t = transaction@;
        self.store(id, transaction);
        proof {
            if reservations_sound(old(self).pool(), old(self).reservations()) {
                lemma_admit_sound(old(self).pool(), old(self).reservations(), t, id@);
            }
        }
        Ok(id)
    }

    /// Removes the entries of `transaction`'s inputs that this transaction
    /// reserved.
    fn release_inputs(&mut self, transaction: &Transaction, transaction_id: &TransactionId)
        requires
            old(self).wf(),
        ensures
            final(self).wf(),
            final(self).pool() == old(self).pool(),
            final(self).spec_config() == old(self).spec_config(),
            final(self).reservations() == released(old(self).reservations(), transaction@, transaction_id@),
    {
        let ghost t = transaction@;
        let ghost res0 = self.reservations();
        let n = transaction.inputs.len();
        for i in 0..n
            invariant
                n == t.inputs.len(),
                t == transaction@,
                res0 == old(self).reservations(),
                self.wf(),
                self.pool() == old(self).pool(),
                self.spec_config() == old(self).spec_config(),
                self.reservations() == res0.remove_keys(released_keys(res0, t.inputs.take(i as int), transaction_id@)),
        {
            let utxo_id = input_outpoint(transaction, i);
            let ghost before = self.reservations();
            let ghost k = input_key(t.inputs[i as int]);
            let ghost s_i = released_keys(res0, t.inputs.take(i as int), transaction_id@);
            let ghost s_n = released_keys(res0, t.inputs.take(i + 1), transaction_id@);
            assert(t.inputs.take(i + 1) =~= t.inputs.take(i as int).push(t.inputs[i as int]));
            assert(forall|j: int| 0 <= j < i ==> t.inputs.take(i + 1)[j] == #[trigger] t.inputs.take(i as int)[j]);
            assert(t.inputs.take(i + 1)[i as int] == t.inputs[i as int]);
            assert(s_n =~= if res0.contains_key(k) && res0[k] == transaction_id@ { s_i.insert(k) } else { s_i }) by {
                assert forall|x: UtxoKey| #[trigger] s_n.contains(x) <==> (if res0.contains_key(k) && res0[k] == transaction_id@ { s_i.insert(k) } else { s_i }).contains(x) by {
                    if s_n.contains(x) {
                        let j = choose|j: int| 0 <= j < i + 1 && input_key(#[trigger] t.inputs.take(i + 1)[j]) == x;
                        if j < i {
                            assert(input_key(t.inputs.take(i as int)[j]) == x);
                        }
                    }
                    if s_i.contains(x) {
                        let j = choose|j: int| 0 <= j < i && input_key(#[trigger] t.inputs.take(i as int)[j]) == x;
                        assert(input_key(t.inputs.take(i + 1)[j]) == x);
                    }
                }
            }
            match self.find_reservation(&utxo_id) {
                Some(p) => {
                    proof {
                        lemma_assoc_at(utxo_key_seq(self.reserved_ids@), id_seq(self.reserved_by@), p as int);
                    }
                    if hash_eq(&self.reserved_by[p], transaction_id) {
                        proof {
                            lemma_assoc_remove(utxo_key_seq(self.reserved_ids@), id_seq(self.reserved_by@), p as int);
                        }
                        let ghost ri = self.reserved_ids@;
                        let ghost rb = self.reserved_by@;
                        self.reserved_ids.remove(p);
                        self.reserved_by.remove(p);
                        assert(utxo_key_seq(self.reserved_ids@) =~= utxo_key_seq(ri).remove(p as int));
                        assert(id_seq(self.reserved_by@) =~= id_seq(rb).remove(p as int));
                        assert(self.reservations() =~= res0.remove_keys(s_n));
                    } else {
                        assert(self.reservations() =~= res0.remove_keys(s_n));
                    }
                },
                None => {
                    assert(self.reservations() =~= res0.remove_keys(s_n));
                },
            }
        }
        assert(t.inputs.take(n as int) =~= t.inputs);
    }
}

impl Mempool {
    /// Removes a pending transaction and releases the outputs it reserved.
    pub fn remove(&mut self, id: &TransactionId) -> (r: Option<Transaction>)
        requires
            old(self).wf(),
        ensures
            final(self).wf(),
            final(self).spec_config() == old(self).spec_config(),
            r is Some <==> old(self).pool().contains_key(id@),
            r matches Some(t) ==> t@ == old(self).pool()[id@] && final(self).pool() == old(self).pool().remove(id@)
                && final(self).reservations() == released(old(self).reservations(), t@, id@),
            r is None ==> final(self).pool() == old(self).pool() && final(self).reservations() == old(self).reservations(),
            reservations_sound(old(self).pool(), old(self).reservations()) ==> reservations_sound(
                final(self).pool(),
                final(self).reservations(),
            ),
            r is Some && reservations_sound(old(self).pool(), old(self).reservations()) ==> final(self).reservations()
                == without_holder(old(self).reservations(), id@),
            r is Some ==> final(self).pool().len() == old(self).pool().len() - 1,
    {
        match self.find_transaction(id) {
            Some(i) => {
                proof {
                    lemma_assoc_at(id_seq(self.ids@), tx_seq(self.transactions@), i as int);
                    lemma_assoc_remove(id_seq(self.ids@), tx_seq(self.transactions@), i as int);
                }
                let ghost ids0 = self.ids@;
                let ghost txs0 = self.transactions@;
                self.ids.remove(i);
                let transaction = self.transactions.remove(i);
                assert(id_seq(self.ids@) =~= id_seq(ids0).remove(i as int));
                assert(tx_seq(self.transactions@) =~= tx_seq(txs0).remove(i as int));
                assert forall|j: int| 0 <= j < self.ids@.len() implies #[trigger] self.ids@[j]@ == spec_tx_id(self.transactions@[j]@) by {
                    if j < i {
                        assert(self.ids@[j] == ids0[j]);
                        assert(self.transactions@[j] == txs0[j]);
                    } else {
                        assert(self.ids@[j] == ids0[j + 1]);
                        assert(self.transactions@[j] == txs0[j + 1]);
                    }
                }
                self.release_inputs(&transaction, id);
                proof {
                    old(self).lemma_pool_keys();
                    if reservations_sound(old(self).pool(), old(self).reservations()) {
                        lemma_release_all(old(self).pool(), old(self).reservations(), id@);
                    }
                }
                Some(transaction)
            },
            None => None,
        }
    }

    pub fn is_input_reserved(&self, id: &UtxoId) -> (r: bool)
        requires
            self.wf(),
        ensures
            r == self.reservations().contains_key(id_key(*id)),
    {
        self.find_reservation(id).is_some()
    }

    /// Identifier of the transaction that reserved an output, if any.
    pub fn reserved_by(&self, id: &UtxoId) -> (r: Option<&TransactionId>)
        requires
            self.wf(),
        ensures
            r is Some <==> self.reservations().contains_key(id_key(*id)),
            r matches Some(t) ==> t@ == self.reservations()[id_key(*id)],
    {
        match self.find_reservation(id) {
            Some(p) => {
                proof {
                    lemma_assoc_at(utxo_key_seq(self.reserved_ids@), id_seq(self.reserved_by@), p as int);
                }
                Some(&self.reserved_by[p])
            },
            None => None,
        }
    }

    pub fn reserved_input_count(&self) -> (r: usize)
        requires
            self.wf(),
        ensures
            r == self.reservations().len(),
    {
        proof {
            lemma_assoc_len(utxo_key_seq(self.reserved_ids@), id_seq(self.reserved_by@));
        }
        self.reserved_ids.len()
    }

    /// Drops every pending transaction and every reservation.
    pub fn clear(&mut self)
        requires
            old(self).wf(),
        ensures
            final(self).wf(),
            final(self).pool() == Map::<Seq<u8>, TransactionModel>::empty(),
            final(self).reservations() == Map::<UtxoKey, Seq<u8>>::empty(),
            final(self).spec_config() == old(self).spec_config(),
            reservations_sound(final(self).pool(), final(self).reservations()),
    {
        self.ids.clear();
        self.transactions.clear();
        self.reserved_ids.clear();
        self.reserved_by.clear();
        proof {
            assert(id_seq(self.ids@) =~= Seq::<Seq<u8>>::empty());
            assert(tx_seq(self.transactions@) =~= Seq::<TransactionModel>::empty());
            assert(utxo_key_seq(self.reserved_ids@) =~= Seq::<UtxoKey>::empty());
            assert(id_seq(self.reserved_by@) =~= Seq::<Seq<u8>>::empty());
            lemma_assoc_empty::<Seq<u8>, TransactionModel>();
            lemma_assoc_empty::<UtxoKey, Seq<u8>>();
        }
    }

    /// Removes every listed transaction that is pending, in order,
    /// releasing what each reserved; returns how many were removed.
    pub fn remove_many(&mut self, ids: &[TransactionId]) -> (r: usize)
        requires
            old(self).wf(),
        ensures
            final(self).wf(),
            final(self).spec_config() == old(self).spec_config(),
            (final(self).pool(), final(self).reservations()) == remove_ids_state(old(self).pool(), old(self).reservations(), id_seq(ids@)),
            r == old(self).pool().dom().intersect(id_seq(ids@).to_set()).len(),
            final(self).pool() == old(self).pool().remove_keys(id_seq(ids@).to_set()),
            final(self).pool().len() == old(self).pool().len() - r,
            reservations_sound(old(self).pool(), old(self).reservations()) ==> reservations_sound(
                final(self).pool(),
                final(self).reservations(),
            ),
    {
        let ghost p0 = self.pool();
        let ghost r0 = self.reservations();
        let mut removed: usize = 0;
        let n = ids.len();
        proof {
            self.lemma_pool_keys();
            assert(id_seq(ids@).take(0).to_set() =~= Set::<Seq<u8>>::empty());
            assert(p0.dom().intersect(Set::<Seq<u8>>::empty()) =~= Set::<Seq<u8>>::empty());
            assert(id_seq(ids@).take(0) =~= Seq::<Seq<u8>>::empty());
        }
        for i in 0..n
            invariant
                n == ids@.len(),
                self.wf(),
                self.spec_config() == old(self).spec_config(),
                p0 == old(self).pool(),
                r0 == old(self).reservations(),
                p0.dom().finite(),
                self.pool() == p0.remove_keys(id_seq(ids@).take(i as int).to_set()),
                (self.pool(), self.reservations()) == remove_ids_state(p0, r0, id_seq(ids@).take(i as int)),
                removed == p0.dom().intersect(id_seq(ids@).take(i as int).to_set()).len(),
                removed <= i,
        {
            let ghost a = id_seq(ids@).take(i as int).to_set();
            let ghost b = id_seq(ids@).take(i + 1).to_set();
            let ghost x = ids@[i as int]@;
            assert(id_seq(ids@).take(i + 1) =~= id_seq(ids@).take(i as int).push(x));
            assert(id_seq(ids@).take(i + 1).drop_last() =~= id_seq(ids@).take(i as int));
            assert(b =~= a.insert(x)) by {
                id_seq(ids@).take(i as int).lemma_push_to_set_commute(x);
            }
            if self.remove(&ids[i]).is_some() {
                assert(!a.contains(x));
                assert(p0.dom().contains(x));
                assert(p0.dom().intersect(b) =~= p0.dom().intersect(a).insert(x));
                removed = removed + 1;
            } else {
                assert(p0.dom().intersect(b) =~= p0.dom().intersect(a)) by {
                    if p0.dom().contains(x) {
                        assert(a.contains(x));
                    }
                }
            }
            assert(self.pool() =~= p0.remove_keys(b));
        }
        assert(id_seq(ids@).take(n as int) =~= id_seq(ids@));
        proof {
            let ids_set = id_seq(ids@).to_set();
            assert(self.pool().dom() =~= p0.dom().difference(ids_set));
            vstd::set_lib::lemma_set_difference_len(p0.dom(), ids_set);
            if reservations_sound(p0, r0) {
                lemma_remove_ids_sound(p0, r0, id_seq(ids@));
            }
        }
        removed
    }

    /// Full admission: basic checks, signatures, every input an existing
    /// output not reserved by a pending transaction, then complete
    /// validation against the set; on success the inputs are reserved for
    /// this transaction.
    pub fn add_with_utxo(&mut self, transaction: Transaction, utxos: &UtxoSet) -> (r: Result<TransactionId, MempoolError>)
        requires
            old(self).wf(),
            utxos.wf(),
        ensures
            final(self).wf(),
            final(self).spec_config() == old(self).spec_config(),
            r is Ok <==> spec_admission(old(self).pool(), old(self).reservations(), old(self).spec_config(), utxos@, transaction@) is Ok,
            r matches Err(e) ==> spec_admission(old(self).pool(), old(self).reservations(), old(self).spec_config(), utxos@, transaction@) == Err::<(), MempoolError>(e),
            r matches Ok(id) ==> id@ == spec_tx_id(transaction@) && final(self).pool() == old(self).pool().insert(id@, transaction@)
                && final(self).reservations() == old(self).reservations().union_prefer_right(reserve_map(transaction@, id@)),
            r is Err ==> final(self).pool() == old(self).pool() && final(self).reservations() == old(self).reservations(),
            reservations_sound(old(self).pool(), old(self).reservations()) ==> reservations_sound(
                final(self).pool(),
                final(self).reservations(),
            ),
    {
        let ghost t = transaction@;
        let ghost m = utxos@;
        let ghost res0 = self.reservations();
        if !transaction.validate_basic() {
            return Err(MempoolError::InvalidTransaction);
        }
        if transaction.fee < self.config.min_fee {
            return Err(MempoolError::FeeTooLow);
        }
        let id = transaction.id();
        if self.contains(&id) {
            return Err(MempoolError::TransactionAlreadyExists);
        }
        if self.len() >= self.config.max_transactions {
            return Err(MempoolError::MempoolFull);
        }
        if !transaction.validate_signatures() {
            return Err(MempoolError::InvalidSignature);
        }
        let mut input_ids: Vec<UtxoId> = Vec::new();
        let n = transaction.inputs.len();
        for i in 0..n
            invariant
                n == t.inputs.len(),
                t == transaction@,
                m == utxos@,
                res0 == self.reservations(),
                res0 == old(self).reservations(),
                self.pool() == old(self).pool(),
                self.spec_config() == old(self).spec_config(),
                spec_add_result(old(self).pool(), old(self).spec_config(), t) is Ok,
                spec_validate_signatures(t),
                self.wf(),
                utxos.wf(),
                spec_validate_basic(t),
                input_ids@.len() == i,
                forall|j: int| 0 <= j < i ==> id_key(#[trigger] input_ids@[j]) == input_key(t.inputs[j]),
                forall|j: int| 0 <= j < i ==> m.contains_key(input_key(#[trigger] t.inputs[j])) && !res0.contains_key(input_key(t.inputs[j])),
                scan_inputs(m, res0, t.inputs, 0) == scan_inputs(m, res0, t.inputs, i as int),
        {
            let utxo_id = input_outpoint(&transaction, i);
            if crate::utxo::repeats_earlier_input_pub(&transaction, i) {
                proof {
                    let j = choose|j: int| 0 <= j < i && crate::transaction::same_outpoint(#[trigger] t.inputs[j], t.inputs[i as int]);
                    assert(!crate::transaction::same_outpoint(t.inputs[j], t.inputs[i as int]));
                }
                return Err(MempoolError::DuplicateInput);
            }
            if !utxos.contains(&utxo_id) {
                assert(scan_inputs(m, res0, t.inputs, i as int) == Some(MempoolError::MissingUtxo));
                return Err(MempoolError::MissingUtxo);
            }
            if self.is_input_reserved(&utxo_id) {
                assert(scan_inputs(m, res0, t.inputs, i as int) == Some(MempoolError::DoubleSpend));
                return Err(MempoolError::DoubleSpend);
            }
            assert(scan_inputs(m, res0, t.inputs, i as int) == scan_inputs(m, res0, t.inputs, i + 1));
            input_ids.push(utxo_id);
        }
        assert(scan_inputs(m, res0, t.inputs, n as int) is None);
        match utxos.validate_transaction(&transaction) {
            Ok(()) => {},
            Err(_) => {
                match utxos.input_value(&transaction) {
                    Ok(input_total) => match UtxoSet::output_value(&transaction) {
                        Ok(output_total) => match output_total.checked_add(transaction.fee) {
                            Some(required) => {
                                if input_total >= required {
                                    return Err(MempoolError::InvalidTransaction);
                                } else {
                                    return Err(MempoolError::InsufficientFunds);
                                }
                            },
                            None => {
                                return Err(MempoolError::InsufficientFunds);
                            },
                        },
                        Err(_) => {
                            return Err(MempoolError::InvalidTransaction);
                        },
                    },
                    Err(_) => {
                        return Err(MempoolError::MissingUtxo);
                    },
                }
            },
        }
        let ghost ks = utxo_key_seq(self.reserved_ids@);
        for i in 0..n
            invariant
                n == t.inputs.len(),
                n == input_ids@.len(),
                t == transaction@,
                id@ == spec_tx_id(t),
                self.wf(),
                spec_validate_basic(t),
                forall|j: int| 0 <= j < n ==> id_key(#[trigger] input_ids@[j]) == input_key(t.inputs[j]),
                forall|j: int| 0 <= j < n ==> !res0.contains_key(input_key(#[trigger] t.inputs[j])),
                self.pool() == old(self).pool(),
                self.spec_config() == old(self).spec_config(),
                self.reservations() == res0.union_prefer_right(Map::new(
                    |k: UtxoKey| exists|j: int| 0 <= j < i && input_key(#[trigger] t.inputs[j]) == k,
                    |k: UtxoKey| id@,
                )),
        {
            let utxo_id = input_ids[i];
            proof {
                assert(!self.reservations().contains_key(id_key(utxo_id))) by {
                    if self.reservations().contains_key(id_key(utxo_id)) {
                        let j = choose|j: int| 0 <= j < i && input_key(#[trigger] t.inputs[j]) == id_key(utxo_id);
                        assert(!crate::transaction::same_outpoint(t.inputs[j], t.inputs[i as int]));
                    }
                }
                assert(!key_in(utxo_key_seq(self.reserved_ids@), id_key(utxo_id)));
                lemma_assoc_push(utxo_key_seq(self.reserved_ids@), id_seq(self.reserved_by@), id_key(utxo_id), id@);
            }
            let ghost ri = self.reserved_ids@;
            let ghost rb = self.reserved_by@;
            self.reserved_ids.push(utxo_id);
            self.reserved_by.push(id);
            assert(utxo_key_seq(self.reserved_ids@) =~= utxo_key_seq(ri).push(id_key(utxo_id)));
            assert(id_seq(self.reserved_by@) =~= id_seq(rb).push(id@));
            assert(self.reservations() =~= res0.union_prefer_right(Map::new(
                |k: UtxoKey| exists|j: int| 0 <= j < i + 1 && input_key(#[trigger] t.inputs[j]) == k,
                |k: UtxoKey| id@,
            )));
        }
        assert(Map::new(
            |k: UtxoKey| exists|j: int| 0 <= j < n && input_key(#[trigger] t.inputs[j]) == k,
            |k: UtxoKey| id@,
        ) =~= reserve_map(t, id@));
        self.store(id, transaction);
        proof {
            if reservations_sound(old(self).pool(), res0) {
                lemma_admit_sound(old(self).pool(), res0, t, id@);
            }
        }
        Ok(id)
    }
}

impl Default for Mempool {
    fn default() -> (r: Self)
        ensures
            r.wf(),
            r.pool() == Map::<Seq<u8>, TransactionModel>::empty(),
            r.reservations() == Map::<UtxoKey, Seq<u8>>::empty(),
            r.spec_config() == (MempoolConfig { max_transactions: 5_000, min_fee: 0 }),
    {
        Self::new()
    }
}

impl Mempool {
    /// Whether pending transaction `i` ranks before pending transaction `j`.
    fn ranks_before_at(&self, i: usize, j: usize) -> (r: bool)
        requires
            self.wf(),
            i < self.ids@.len(),
            j < self.ids@.len(),
        ensures
            r == ranks_before(self.transactions@[i as int]@, self.transactions@[j as int]@),
    {
        let fi = self.transactions[i].fee;
        let fj = self.transactions[j].fee;
        if fi > fj {
            return true;
        }
        if fi < fj {
            return false;
        }
        assert(self.ids@[i as int]@ == spec_tx_id(self.transactions@[i as int]@));
        assert(self.ids@[j as int]@ == spec_tx_id(self.transactions@[j as int]@));
        compare_hashes(&self.ids[j], &self.ids[i]) == -1
    }

    /// Positions of the pending transactions in fee order.
    fn fee_order(&self) -> (r: Vec<usize>)
        requires
            self.wf(),
        ensures
            r@.len() == self.ids@.len(),
            forall|x: int| 0 <= x < r@.len() ==> #[trigger] r@[x] < self.ids@.len(),
            forall|x: int, y: int| 0 <= x < y < r@.len() ==> ranks_before(
                self.transactions@[#[trigger] r@[x] as int]@,
                self.transactions@[#[trigger] r@[y] as int]@,
            ),
    {
        let n = self.ids.len();
        let mut order: Vec<usize> = Vec::new();
        for i in 0..n
            invariant
                n == self.ids@.len(),
                self.wf(),
                order@.len() == i,
                forall|x: int| 0 <= x < order@.len() ==> #[trigger] order@[x] < i,
                forall|x: int, y: int| 0 <= x < y < order@.len() ==> ranks_before(
                    self.transactions@[#[trigger] order@[x] as int]@,
                    self.transactions@[#[trigger] order@[y] as int]@,
                ),
        {
            let mut p: usize = 0;
            while p < order.len() && self.ranks_before_at(order[p], i)
                invariant
                    n == self.ids@.len(),
                    self.wf(),
                    i < n,
                    order@.len() == i,
                    p <= order@.len(),
                    forall|x: int| 0 <= x < order@.len() ==> #[trigger] order@[x] < i,
                    forall|x: int| 0 <= x < p ==> ranks_before(self.transactions@[#[trigger] order@[x] as int]@, self.transactions@[i as int]@),
                decreases order@.len() - p,
            {
                p = p + 1;
            }
            let ghost old_order = order@;
            proof {
                if p < old_order.len() {
                    let q = old_order[p as int];
                    self.lemma_ranks_total(q as int, i as int);
                    assert forall|y: int| p <= y < old_order.len() implies ranks_before(self.transactions@[i as int]@, self.transactions@[#[trigger] old_order[y] as int]@) by {
                        if y > p {
                            lemma_ranks_transitive(self.transactions@[i as int]@, self.transactions@[q as int]@, self.transactions@[old_order[y] as int]@);
                        }
                    }
                }
            }
            order.insert(p, i);
            assert forall|x: int, y: int| 0 <= x < y < order@.len() implies ranks_before(
                self.transactions@[#[trigger] order@[x] as int]@,
                self.transactions@[#[trigger] order@[y] as int]@,
            ) by {
                if y < p {
                    assert(order@[x] == old_order[x]);
                    assert(order@[y] == old_order[y]);
                } else if y == p {
                    assert(order@[x] == old_order[x]);
                } else if x < p {
                    assert(order@[x] == old_order[x]);
                    assert(order@[y] == old_order[y - 1]);
                    lemma_ranks_transitive(self.transactions@[old_order[x] as int]@, self.transactions@[i as int]@, self.transactions@[old_order[y - 1] as int]@);
                } else if x == p {
                    assert(order@[y] == old_order[y - 1]);
                } else {
                    assert(order@[x] == old_order[x - 1]);
                    assert(order@[y] == old_order[y - 1]);
                }
            }
        }
        order
    }

    proof fn lemma_ranks_total(&self, i: int, j: int)
        requires
            self.wf(),
            0 <= i < self.ids@.len(),
            0 <= j < self.ids@.len(),
            i != j,
        ensures
            ranks_before(self.transactions@[i]@, self.transactions@[j]@) || ranks_before(self.transactions@[j]@, self.transactions@[i]@),
            !(ranks_before(self.transactions@[i]@, self.transactions@[j]@) && ranks_before(self.transactions@[j]@, self.transactions@[i]@)),
    {
        let a = self.transactions@[i]@;
        let b = self.transactions@[j]@;
        assert(self.ids@[i]@ == spec_tx_id(a));
        assert(self.ids@[j]@ == spec_tx_id(b));
        assert(id_seq(self.ids@)[i] != id_seq(self.ids@)[j]);
        if a.fee == b.fee {
            lemma_lex_total(spec_tx_id(a), spec_tx_id(b));
            if lex_lt(spec_tx_id(a), spec_tx_id(b)) {
                lemma_lex_asymmetric(spec_tx_id(a), spec_tx_id(b));
            }
        }
    }

    /// Pending transactions with the highest fee first; equal fees ordered by
    /// descending identifier.
    pub fn transactions_by_fee_desc(&self) -> (r: Vec<&Transaction>)
        requires
            self.wf(),
        ensures
            is_fee_order(self.pool(), r@.map_values(|t: &Transaction| t@)),
            r@.map_values(|t: &Transaction| t@) == fee_order_of(self.pool()),
    {
        let order = self.fee_order();
        let mut out: Vec<&Transaction> = Vec::new();
        let n = order.len();
        for k in 0..n
            invariant
                n == order@.len(),
                self.wf(),
                order@.len() == self.ids@.len(),
                forall|x: int| 0 <= x < order@.len() ==> #[trigger] order@[x] < self.ids@.len(),
                out@.len() == k,
                forall|x: int| 0 <= x < k ==> (#[trigger] out@[x])@ == self.transactions@[order@[x] as int]@,
        {
            out.push(&self.transactions[order[k]]);
        }
        proof {
            let s = out@.map_values(|t: &Transaction| t@);
            lemma_assoc_len(id_seq(self.ids@), tx_seq(self.transactions@));
            assert forall|x: int| 0 <= x < s.len() implies self.pool().contains_key(spec_tx_id(#[trigger] s[x])) && self.pool()[spec_tx_id(s[x])] == s[x] by {
                let q = order@[x] as int;
                assert(s[x] == self.transactions@[q]@);
                lemma_assoc_at(id_seq(self.ids@), tx_seq(self.transactions@), q);
                assert(self.ids@[q]@ == spec_tx_id(self.transactions@[q]@));
            }
            assert forall|x: int, y: int| 0 <= x < y < s.len() implies ranks_before(#[trigger] s[x], #[trigger] s[y]) by {
                assert(s[x] == self.transactions@[order@[x] as int]@);
                assert(s[y] == self.transactions@[order@[y] as int]@);
            }
            self.lemma_pool_keys();
            lemma_fee_order_of(self.pool(), s);
        }
        out
    }

    /// Removes a transaction known to be pending.
    fn remove_pending(&mut self, id: &TransactionId, Ghost(t): Ghost<TransactionModel>) -> (r: Transaction)
        requires
            old(self).wf(),
            old(self).pool().contains_key(id@),
            old(self).pool()[id@] == t,
        ensures
            final(self).wf(),
            final(self).spec_config() == old(self).spec_config(),
            r@ == t,
            final(self).pool() == old(self).pool().remove(id@),
            final(self).reservations() == released(old(self).reservations(), t, id@),
    {
        let r = self.remove(id);
        r.unwrap()
    }

    /// Removes and returns up to `limit` transactions, highest fee first,
    /// releasing what they reserved.
    pub fn take_best(&mut self, limit: usize) -> (r: Vec<Transaction>)
        requires
            old(self).wf(),
        ensures
            final(self).wf(),
            final(self).spec_config() == old(self).spec_config(),
            limit == 0 ==> r@.len() == 0 && final(self).pool() == old(self).pool() && final(self).reservations() == old(self).reservations(),
            tx_seq(r@) == fee_selection(old(self).pool(), limit as int),
            (final(self).pool(), final(self).reservations()) == remove_ids_state(
                old(self).pool(),
                old(self).reservations(),
                tx_seq(r@).map_values(|t: TransactionModel| spec_tx_id(t)),
            ),
            reservations_sound(old(self).pool(), old(self).reservations()) ==> reservations_sound(
                final(self).pool(),
                final(self).reservations(),
            ),
            r@.len() == (if limit < old(self).pool().len() { limit as int } else { old(self).pool().len() as int }),
            final(self).pool().len() == old(self).pool().len() - r@.len(),
            forall|i: int| 0 <= i < r@.len() ==> !final(self).pool().contains_key(spec_tx_id((#[trigger] r@[i])@)),
    {
        let ghost p0 = self.pool();
        let ghost r0 = self.reservations();
        proof {
            self.lemma_pool_keys();
        }
        let ordered = self.transactions_by_fee_desc();
        let ghost order = ordered@.map_values(|t: &Transaction| t@);
        let n = ordered.len();
        let count = if limit < n { limit } else { n };
        let mut ids: Vec<TransactionId> = Vec::new();
        for k in 0..count
            invariant
                count <= n,
                n == ordered@.len(),
                order == ordered@.map_values(|t: &Transaction| t@),
                ids@.len() == k,
                forall|x: int| 0 <= x < k ==> (#[trigger] ids@[x])@ == spec_tx_id(order[x]),
        {
            ids.push(ordered[k].id());
        }
        let mut selected: Vec<Transaction> = Vec::new();
        proof {
            assert(id_seq(ids@).take(0) =~= Seq::<Seq<u8>>::empty());
            assert(tx_seq(selected@) =~= order.take(0));
        }
        let mut k: usize = 0;
        while k < count
            invariant
                k <= count,
                count <= n,
                n == order.len(),
                count == if limit < order.len() { limit as int } else { order.len() as int },
                is_fee_order(p0, order),
                p0 == old(self).pool(),
                r0 == old(self).reservations(),
                self.wf(),
                self.spec_config() == old(self).spec_config(),
                ids@.len() == count,
                forall|x: int| 0 <= x < count ==> (#[trigger] ids@[x])@ == spec_tx_id(order[x]),
                tx_seq(selected@) == order.take(k as int),
                (self.pool(), self.reservations()) == remove_ids_state(p0, r0, id_seq(ids@).take(k as int)),
                pending_from(self.pool(), order, k as int),
                p0.dom().finite(),
                self.pool().dom().finite(),
                self.pool().len() == p0.len() - k,
                forall|x: int| 0 <= x < k ==> !self.pool().contains_key(spec_tx_id(#[trigger] order[x])),
            decreases count - k,
        {
            proof {
                assert(id_seq(ids@).take(k + 1).drop_last() =~= id_seq(ids@).take(k as int));
                assert(id_seq(ids@).take(k + 1).last() == spec_tx_id(order[k as int]));
                assert(ids@[k as int]@ == spec_tx_id(order[k as int]));
                assert(self.pool().contains_key(spec_tx_id(order[k as int])));
            }
            let ghost before = self.pool();
            let tx = self.remove_pending(&ids[k], Ghost(order[k as int]));
            proof {
                assert forall|x: int| 0 <= x < k + 1 implies !self.pool().contains_key(spec_tx_id(#[trigger] order[x])) by {
                    if x < k {
                        assert(!before.contains_key(spec_tx_id(order[x])));
                    }
                }
            }
            let ghost sel0 = selected@;
            selected.push(tx);
            proof {
                assert(tx_seq(selected@) =~= tx_seq(sel0).push(order[k as int]));
                assert(order.take(k + 1) =~= order.take(k as int).push(order[k as int]));
                lemma_fee_order_rest(p0, order, before, self.pool(), k as int);
            }
            k = k + 1;
        }
        proof {
            assert(id_seq(ids@).take(count as int) =~= id_seq(ids@));
            assert(tx_seq(selected@).map_values(|t: TransactionModel| spec_tx_id(t)) =~= id_seq(ids@));
            if reservations_sound(p0, r0) {
                lemma_remove_ids_sound(p0, r0, id_seq(ids@));
            }
            assert forall|i: int| 0 <= i < selected@.len() implies !self.pool().contains_key(
                spec_tx_id((#[trigger] selected@[i])@),
            ) by {
                assert(tx_seq(selected@)[i] == selected@[i]@);
                assert(order.take(count as int)[i] == order[i]);
            }
        }
        selected
    }
}

/// Fee order: higher fee first, then higher identifier.
pub open spec fn ranks_before(a: TransactionModel, b: TransactionModel) -> bool {
    a.fee > b.fee || (a.fee == b.fee && lex_lt(spec_tx_id(b), spec_tx_id(a)))
}

proof fn lemma_ranks_transitive(a: TransactionModel, b: TransactionModel, c: TransactionModel)
    requires
        ranks_before(a, b),
        ranks_before(b, c),
    ensures
        ranks_before(a, c),
{
    if a.fee == b.fee && b.fee == c.fee {
        lemma_lex_transitive(spec_tx_id(c), spec_tx_id(b), spec_tx_id(a));
    }
}

/// `s` lists the pending transactions of `pool`, each once, in fee order.
pub open spec fn is_fee_order(pool: Map<Seq<u8>, TransactionModel>, s: Seq<TransactionModel>) -> bool {
    &&& s.len() == pool.len()
    &&& forall|x: int, y: int| 0 <= x < y < s.len() ==> ranks_before(#[trigger] s[x], #[trigger] s[y])
    &&& forall|x: int| 0 <= x < s.len() ==> pool.contains_key(spec_tx_id(#[trigger] s[x])) && pool[spec_tx_id(s[x])] == s[x]
}

proof fn lemma_fee_order_distinct(pool: Map<Seq<u8>, TransactionModel>, s: Seq<TransactionModel>, x: int, y: int)
    requires
        is_fee_order(pool, s),
        0 <= x < y < s.len(),
    ensures
        spec_tx_id(s[x]) != spec_tx_id(s[y]),
{
    if spec_tx_id(s[x]) == spec_tx_id(s[y]) {
        assert(ranks_before(s[x], s[y]));
        lemma_lex_irreflexive(spec_tx_id(s[x]));
    }
}

/// The entries of `order` from position `k` on are pending in `pool`.
pub open spec fn pending_from(pool: Map<Seq<u8>, TransactionModel>, order: Seq<TransactionModel>, k: int) -> bool {
    forall|x: int| k <= x < order.len() ==> #[trigger] pool.contains_key(spec_tx_id(order[x])) && pool[spec_tx_id(order[x])] == order[x]
}

/// Removing the transaction at position `k` of a fee order keeps the later
/// ones pending.
#[verifier::spinoff_prover]
proof fn lemma_fee_order_rest(
    p0: Map<Seq<u8>, TransactionModel>,
    order: Seq<TransactionModel>,
    before: Map<Seq<u8>, TransactionModel>,
    after: Map<Seq<u8>, TransactionModel>,
    k: int,
)
    requires
        is_fee_order(p0, order),
        0 <= k < order.len(),
        after == before.remove(spec_tx_id(order[k])),
        pending_from(before, order, k),
    ensures
        pending_from(after, order, k + 1),
{
    assert forall|x: int| k + 1 <= x < order.len() implies #[trigger] after.contains_key(spec_tx_id(order[x])) && after[spec_tx_id(order[x])] == order[x] by {
        lemma_fee_order_distinct(p0, order, k, x);
        assert(before.contains_key(spec_tx_id(order[x])));
        assert(spec_tx_id(order[x]) != spec_tx_id(order[k]));
    }
    assert(pending_from(after, order, k + 1));
}

/// Every pending transaction occurs in a fee order of the pool.
proof fn lemma_fee_order_covers(pool: Map<Seq<u8>, TransactionModel>, s: Seq<TransactionModel>, k: Seq<u8>)
    requires
        is_fee_order(pool, s),
        pool.dom().finite(),
        pool.contains_key(k),
    ensures
        exists|i: int| 0 <= i < s.len() && spec_tx_id(#[trigger] s[i]) == k,
{
    let ids = s.map_values(|t: TransactionModel| spec_tx_id(t));
    assert(ids.no_duplicates()) by {
        assert forall|i: int, j: int| 0 <= i < ids.len() && 0 <= j < ids.len() && i != j implies ids[i] != ids[j] by {
            if i < j {
                lemma_fee_order_distinct(pool, s, i, j);
            } else {
                lemma_fee_order_distinct(pool, s, j, i);
            }
        }
    }
    ids.unique_seq_to_set();
    assert(ids.to_set().subset_of(pool.dom())) by {
        assert forall|x: Seq<u8>| #[trigger] ids.to_set().contains(x) implies pool.dom().contains(x) by {
            let i = choose|i: int| 0 <= i < ids.len() && ids[i] == x;
            assert(ids[i] == spec_tx_id(s[i]));
        }
    }
    vstd::set_lib::lemma_subset_equality(ids.to_set(), pool.dom());
    assert(ids.to_set().contains(k));
    let i = choose|i: int| 0 <= i < ids.len() && ids[i] == k;
    assert(spec_tx_id(s[i]) == k);
}

/// Two fee orders of one pool agree on their first `n` entries.
proof fn lemma_fee_order_prefix(pool: Map<Seq<u8>, TransactionModel>, s1: Seq<TransactionModel>, s2: Seq<TransactionModel>, n: int)
    requires
        is_fee_order(pool, s1),
        is_fee_order(pool, s2),
        pool.dom().finite(),
        0 <= n <= s1.len(),
    ensures
        s1.take(n) == s2.take(n),
    decreases n,
{
    if n > 0 {
        lemma_fee_order_prefix(pool, s1, s2, n - 1);
        let i = n - 1;
        let a = s1[i];
        let b = s2[i];
        if a != b {
            assert(spec_tx_id(a) != spec_tx_id(b));
            lemma_fee_order_covers(pool, s1, spec_tx_id(b));
            let j = choose|j: int| 0 <= j < s1.len() && spec_tx_id(#[trigger] s1[j]) == spec_tx_id(b);
            assert(s1[j] == b);
            if j < i {
                assert(s1.take(n - 1)[j] == s2.take(n - 1)[j]);
                lemma_fee_order_distinct(pool, s2, j, i);
            }
            assert(j > i);
            assert(ranks_before(a, b));
            lemma_fee_order_covers(pool, s2, spec_tx_id(a));
            let q = choose|q: int| 0 <= q < s2.len() && spec_tx_id(#[trigger] s2[q]) == spec_tx_id(a);
            assert(s2[q] == a);
            if q < i {
                assert(s1.take(n - 1)[q] == s2.take(n - 1)[q]);
                lemma_fee_order_distinct(pool, s1, q, i);
            }
            assert(q > i);
            assert(ranks_before(b, a));
            if a.fee == b.fee {
                lemma_lex_asymmetric(spec_tx_id(a), spec_tx_id(b));
            }
        }
        assert(s1.take(n) =~= s2.take(n)) by {
            assert forall|x: int| 0 <= x < n implies s1.take(n)[x] == s2.take(n)[x] by {
                if x < n - 1 {
                    assert(s1.take(n - 1)[x] == s2.take(n - 1)[x]);
                }
            }
        }
    }
}

/// The fee order of a pool is unique: higher fee first, equal fees by
/// descending identifier, each pending transaction once.
pub proof fn lemma_fee_order_unique(pool: Map<Seq<u8>, TransactionModel>, s1: Seq<TransactionModel>, s2: Seq<TransactionModel>)
    requires
        is_fee_order(pool, s1),
        is_fee_order(pool, s2),
        pool.dom().finite(),
    ensures
        s1 == s2,
{
    lemma_fee_order_prefix(pool, s1, s2, s1.len() as int);
    assert(s1.take(s1.len() as int) =~= s1);
    assert(s2.take(s2.len() as int) =~= s2);
}

/// The fee order of a pool.
pub open spec fn fee_order_of(pool: Map<Seq<u8>, TransactionModel>) -> Seq<TransactionModel> {
    choose|s: Seq<TransactionModel>| is_fee_order(pool, s)
}

/// The first `max` transactions of the fee order (all of them when there
/// are fewer).
pub open spec fn fee_selection(pool: Map<Seq<u8>, TransactionModel>, max: int) -> Seq<TransactionModel> {
    let order = fee_order_of(pool);
    order.take(if max < order.len() { max } else { order.len() as int })
}

/// A fee order found for a finite pool is the one `fee_order_of` names.
pub proof fn lemma_fee_order_of(pool: Map<Seq<u8>, TransactionModel>, s: Seq<TransactionModel>)
    requires
        is_fee_order(pool, s),
        pool.dom().finite(),
    ensures
        fee_order_of(pool) == s,
{
    lemma_fee_order_unique(pool, fee_order_of(pool), s);
}

/// Pool and reservations after removing the listed identifiers in order,
/// each pending one releasing what it reserved.
pub open spec fn remove_ids_state(
    pool: Map<Seq<u8>, TransactionModel>,
    res: Map<UtxoKey, Seq<u8>>,
    ids: Seq<Seq<u8>>,
) -> (Map<Seq<u8>, TransactionModel>, Map<UtxoKey, Seq<u8>>)
    decreases ids.len(),
{
    if ids.len() == 0 {
        (pool, res)
    } else {
        let st = remove_ids_state(pool, res, ids.drop_last());
        let id = ids.last();
        if st.0.contains_key(id) {
            (st.0.remove(id), released(st.1, st.0[id], id))
        } else {
            st
        }
    }
}

/// First failing input check of admission, from input `i` on: a missing
/// output, then an output already reserved.
pub open spec fn scan_inputs(
    m: Map<UtxoKey, UtxoModel>,
    res: Map<UtxoKey, Seq<u8>>,
    inputs: Seq<InputModel>,
    i: int,
) -> Option<MempoolError>
    decreases inputs.len() - i,
{
    if i < 0 || i >= inputs.len() {
        None
    } else if !m.contains_key(input_key(inputs[i])) {
        Some(MempoolError::MissingUtxo)
    } else if res.contains_key(input_key(inputs[i])) {
        Some(MempoolError::DoubleSpend)
    } else {
        scan_inputs(m, res, inputs, i + 1)
    }
}

/// Error reported when complete validation rejects a transaction whose
/// inputs passed the admission scan.
pub open spec fn classify_failure(m: Map<UtxoKey, UtxoModel>, t: TransactionModel) -> MempoolError {
    if spec_input_value_ok(m, t) {
        if spec_output_value_ok(t) {
            if spec_output_sum(t.outputs) + t.fee <= u64::MAX && spec_input_sum(m, t.inputs) >= spec_output_sum(t.outputs) + t.fee {
                MempoolError::InvalidTransaction
            } else {
                MempoolError::InsufficientFunds
            }
        } else {
            MempoolError::InvalidTransaction
        }
    } else {
        MempoolError::MissingUtxo
    }
}

/// Outcome of full admission.
pub open spec fn spec_admission(
    pool: Map<Seq<u8>, TransactionModel>,
    res: Map<UtxoKey, Seq<u8>>,
    config: MempoolConfig,
    m: Map<UtxoKey, UtxoModel>,
    t: TransactionModel,
) -> Result<(), MempoolError> {
    match spec_add_result(pool, config, t) {
        Err(e) => Err(e),
        Ok(_) => if !spec_validate_signatures(t) {
            Err(MempoolError::InvalidSignature)
        } else {
            match scan_inputs(m, res, t.inputs, 0) {
                Some(e) => Err(e),
                None => if spec_transaction_valid(m, t) {
                    Ok(())
                } else {
                    Err(classify_failure(m, t))
                },
            }
        },
    }
}

/// The reservations a transaction makes: each spent output to its identifier.
pub open spec fn reserve_map(t: TransactionModel, id: Seq<u8>) -> Map<UtxoKey, Seq<u8>> {
    Map::new(|k: UtxoKey| crate::utxo::spent_keys(t).contains(k), |k: UtxoKey| id)
}

/// Outcome of basic admission: structure, minimum fee, novelty, room.
pub open spec fn spec_add_result(
    pool: Map<Seq<u8>, TransactionModel>,
    config: MempoolConfig,
    t: TransactionModel,
) -> Result<(), MempoolError> {
    if !spec_validate_basic(t) {
        Err(MempoolError::InvalidTransaction)
    } else if t.fee < config.min_fee {
        Err(MempoolError::FeeTooLow)
    } else if pool.contains_key(spec_tx_id(t)) {
        Err(MempoolError::TransactionAlreadyExists)
    } else if pool.len() >= config.max_transactions {
        Err(MempoolError::MempoolFull)
    } else {
        Ok(())
    }
}

/// Reserved outputs among `inputs` that are reserved by `id`.
pub open spec fn released_keys(res: Map<UtxoKey, Seq<u8>>, inputs: Seq<InputModel>, id: Seq<u8>) -> Set<UtxoKey> {
    Set::new(|k: UtxoKey| (exists|j: int| 0 <= j < inputs.len() && input_key(#[trigger] inputs[j]) == k) && res.contains_key(k) && res[k] == id)
}

/// Reservations after a transaction's own reservations are released.
pub open spec fn released(res: Map<UtxoKey, Seq<u8>>, t: TransactionModel, id: Seq<u8>) -> Map<UtxoKey, Seq<u8>> {
    res.remove_keys(released_keys(res, t.inputs, id))
}

/// Whether transaction `t` spends the output under key `k`.
pub open spec fn spends(t: TransactionModel, k: UtxoKey) -> bool {
    exists|j: int| 0 <= j < t.inputs.len() && input_key(#[trigger] t.inputs[j]) == k
}

/// Every reservation is held by a pending transaction that spends the
/// reserved output.
pub open spec fn reservations_sound(pool: Map<Seq<u8>, TransactionModel>, res: Map<UtxoKey, Seq<u8>>) -> bool {
    forall|k: UtxoKey| #[trigger] res.contains_key(k) ==> pool.contains_key(res[k]) && spends(pool[res[k]], k)
}

/// The reservations that `id` does not hold.
pub open spec fn without_holder(res: Map<UtxoKey, Seq<u8>>, id: Seq<u8>) -> Map<UtxoKey, Seq<u8>> {
    Map::new(|k: UtxoKey| res.contains_key(k) && res[k] != id, |k: UtxoKey| res[k])
}

/// With sound reservations, removing a pending transaction and releasing what
/// it reserved frees every reservation it held and keeps the rest sound.
pub proof fn lemma_release_all(pool: Map<Seq<u8>, TransactionModel>, res: Map<UtxoKey, Seq<u8>>, id: Seq<u8>)
    requires
        reservations_sound(pool, res),
        pool.contains_key(id),
    ensures
        released(res, pool[id], id) == without_holder(res, id),
        reservations_sound(pool.remove(id), without_holder(res, id)),
{
    let t = pool[id];
    assert forall|k: UtxoKey| #[trigger] released(res, t, id).contains_key(k) <==> without_holder(res, id).contains_key(k) by {
        if res.contains_key(k) && res[k] == id {
            let j = choose|j: int| 0 <= j < t.inputs.len() && input_key(#[trigger] t.inputs[j]) == k;
            assert(released_keys(res, t.inputs, id).contains(k));
        }
    }
    assert(released(res, t, id) =~= without_holder(res, id));
}

/// Removing listed transactions keeps reservations sound.
pub proof fn lemma_remove_ids_sound(
    pool: Map<Seq<u8>, TransactionModel>,
    res: Map<UtxoKey, Seq<u8>>,
    ids: Seq<Seq<u8>>,
)
    requires
        reservations_sound(pool, res),
    ensures
        reservations_sound(remove_ids_state(pool, res, ids).0, remove_ids_state(pool, res, ids).1),
    decreases ids.len(),
{
    if ids.len() > 0 {
        lemma_remove_ids_sound(pool, res, ids.drop_last());
        let st = remove_ids_state(pool, res, ids.drop_last());
        if st.0.contains_key(ids.last()) {
            lemma_release_all(st.0, st.1, ids.last());
        }
    }
}

/// Admitting a new transaction, with or without reserving its inputs, keeps
/// reservations sound.
pub proof fn lemma_admit_sound(
    pool: Map<Seq<u8>, TransactionModel>,
    res: Map<UtxoKey, Seq<u8>>,
    t: TransactionModel,
    id: Seq<u8>,
)
    requires
        reservations_sound(pool, res),
        !pool.contains_key(id),
    ensures
        reservations_sound(pool.insert(id, t), res),
        reservations_sound(pool.insert(id, t), res.union_prefer_right(reserve_map(t, id))),
{
    let res2 = res.union_prefer_right(reserve_map(t, id));
    assert forall|k: UtxoKey| #[trigger] res2.contains_key(k) implies pool.insert(id, t).contains_key(res2[k]) && spends(
        pool.insert(id, t)[res2[k]],
        k,
    ) by {
        if reserve_map(t, id).contains_key(k) {
            assert(crate::utxo::spent_keys(t).contains(k));
        } else {
            assert(res.contains_key(k));
        }
    }
}

/// Once an output is reserved, a later transaction that passes the basic
/// checks and its signatures and spends that existing output first is refused
/// as a double spend.
pub proof fn lemma_reserved_input_is_double_spend(
    pool: Map<Seq<u8>, TransactionModel>,
    res: Map<UtxoKey, Seq<u8>>,
    config: MempoolConfig,
    m: Map<UtxoKey, UtxoModel>,
    t: TransactionModel,
)
    requires
        spec_add_result(pool, config, t) is Ok,
        spec_validate_signatures(t),
        t.inputs.len() > 0,
        m.contains_key(input_key(t.inputs[0])),
        res.contains_key(input_key(t.inputs[0])),
    ensures
        spec_admission(pool, res, config, m, t) == Err::<(), MempoolError>(MempoolError::DoubleSpend),
{
}

/// Every transaction of a list is pending, and no two share an identifier.
pub open spec fn pooled_distinct(pool: Map<Seq<u8>, TransactionModel>, s: Seq<TransactionModel>) -> bool {
    &&& forall|i: int| 0 <= i < s.len() ==> pool.contains_key(spec_tx_id(#[trigger] s[i]))
    &&& forall|i: int, j: int| 0 <= i < j < s.len() ==> spec_tx_id(#[trigger] s[i]) != spec_tx_id(#[trigger] s[j])
}

/// A fee selection consists of distinct pending transactions.
pub proof fn lemma_fee_selection_pooled(pool: Map<Seq<u8>, TransactionModel>, max: int)
    requires
        is_fee_order(pool, fee_order_of(pool)),
        0 <= max,
    ensures
        pooled_distinct(pool, fee_selection(pool, max)),
{
    let order = fee_order_of(pool);
    let sel = fee_selection(pool, max);
    assert(sel.len() <= order.len());
    assert(forall|i: int| 0 <= i < sel.len() ==> sel[i] == order[i]);
    assert forall|i: int, j: int| 0 <= i < j < sel.len() implies spec_tx_id(#[trigger] sel[i]) != spec_tx_id(
        #[trigger] sel[j],
    ) by {
        lemma_fee_order_distinct(pool, order, i, j);
    }
    assert forall|i: int| 0 <= i < sel.len() implies pool.contains_key(spec_tx_id(#[trigger] sel[i])) by {
        assert(sel[i] == order[i]);
    }
}

/// Removing the identifiers of distinct pending transactions removes one
/// pending entry for each.
pub proof fn lemma_pooled_removal_count(pool: Map<Seq<u8>, TransactionModel>, s: Seq<TransactionModel>)
    requires
        pool.dom().finite(),
        pooled_distinct(pool, s),
    ensures
        pool.dom().intersect(s.map_values(|t: TransactionModel| spec_tx_id(t)).to_set()).len() == s.len(),
{
    let ids = s.map_values(|t: TransactionModel| spec_tx_id(t));
    assert(ids.no_duplicates()) by {
        assert forall|i: int, j: int| 0 <= i < ids.len() && 0 <= j < ids.len() && i != j implies ids[i] != ids[j] by {
            if i < j {
                assert(spec_tx_id(s[i]) != spec_tx_id(s[j]));
            } else {
                assert(spec_tx_id(s[j]) != spec_tx_id(s[i]));
            }
        }
    }
    ids.unique_seq_to_set();
    assert(pool.dom().intersect(ids.to_set()) =~= ids.to_set()) by {
        assert forall|k: Seq<u8>| ids.to_set().contains(k) implies pool.dom().contains(k) by {
            let i = choose|i: int| 0 <= i < ids.len() && ids[i] == k;
            assert(pool.contains_key(spec_tx_id(s[i])));
        }
    }
}

} // verus!
