//! The data model: keys of the shared state, transactions, their outcomes and
//! the diffs they produce.
use std::collections::HashMap;
use vstd::prelude::*;

verus! {

pub type AccountId = u64;

pub type ProgramId = u64;

pub type TxId = u64;

pub type Nullifier = u64;

pub type Commitment = u64;

pub type Amount = i64;

pub type Version = u64;

/// A piece of shared state that a transaction may read or write.
#[derive(Debug, Clone, Copy, PartialEq, Eq, Structural, Hash, PartialOrd, Ord)]
pub enum StateKey {
    AccountBalance(AccountId),
    AccountNonce(AccountId),
    Nullifier(Nullifier),
    CommitmentSlot(u64),
    CommitmentRoot,
    ProgramCode(ProgramId),
    ProgramState { program: ProgramId, key: u64 },
    SystemClock,
    GlobalConfig,
}

/// A key as a triple of integers: the variant's position, then its fields,
/// padded with zeros. Triples compare lexicographically in the same order
/// as the keys themselves (variant first, then fields in order).
pub open spec fn key_code(k: StateKey) -> (u8, u64, u64) {
    match k {
        StateKey::AccountBalance(a) => (0u8, a, 0u64),
        StateKey::AccountNonce(a) => (1u8, a, 0u64),
        StateKey::Nullifier(n) => (2u8, n, 0u64),
        StateKey::CommitmentSlot(s) => (3u8, s, 0u64),
        StateKey::CommitmentRoot => (4u8, 0u64, 0u64),
        StateKey::ProgramCode(p) => (5u8, p, 0u64),
        StateKey::ProgramState { program, key } => (6u8, program, key),
        StateKey::SystemClock => (7u8, 0u64, 0u64),
        StateKey::GlobalConfig => (8u8, 0u64, 0u64),
    }
}

/// Whether a triple is the code of some key.
pub open spec fn is_key_code(c: (u8, u64, u64)) -> bool {
    ||| (c.0 <= 3 || c.0 == 5) && c.2 == 0
    ||| c.0 == 6
    ||| (c.0 == 4 || c.0 == 7 || c.0 == 8) && c.1 == 0 && c.2 == 0
}

/// The key whose code is `c` (meaningful when `is_key_code(c)`).
pub open spec fn code_key(c: (u8, u64, u64)) -> StateKey {
    if c.0 == 0 {
        StateKey::AccountBalance(c.1)
    } else if c.0 == 1 {
        StateKey::AccountNonce(c.1)
    } else if c.0 == 2 {
        StateKey::Nullifier(c.1)
    } else if c.0 == 3 {
        StateKey::CommitmentSlot(c.1)
    } else if c.0 == 4 {
        StateKey::CommitmentRoot
    } else if c.0 == 5 {
        StateKey::ProgramCode(c.1)
    } else if c.0 == 6 {
        StateKey::ProgramState { program: c.1, key: c.2 }
    } else if c.0 == 7 {
        StateKey::SystemClock
    } else {
        StateKey::GlobalConfig
    }
}

/// Lexicographic order on key codes.
pub open spec fn code_lt(a: (u8, u64, u64), b: (u8, u64, u64)) -> bool {
    ||| a.0 < b.0
    ||| a.0 == b.0 && a.1 < b.1
    ||| a.0 == b.0 && a.1 == b.1 && a.2 < b.2
}

/// The order of keys: that of their codes, which is the declaration order of
/// the variants, then the fields.
pub open spec fn key_lt(a: StateKey, b: StateKey) -> bool {
    code_lt(key_code(a), key_code(b))
}

pub proof fn lemma_key_code_roundtrip(k: StateKey)
    ensures
        is_key_code(key_code(k)),
        code_key(key_code(k)) == k,
{
}

pub proof fn lemma_code_key_roundtrip(c: (u8, u64, u64))
    requires
        is_key_code(c),
    ensures
        key_code(code_key(c)) == c,
{
}

/// Codes of distinct keys are distinct.
pub proof fn lemma_key_code_injective(a: StateKey, b: StateKey)
    ensures
        key_code(a) == key_code(b) <==> a == b,
{
    lemma_key_code_roundtrip(a);
    lemma_key_code_roundtrip(b);
}

impl StateKey {
    /// This key's code.
    pub fn code(&self) -> (r: (u8, u64, u64))
        ensures
            r == key_code(*self),
    {
        match *self {
            StateKey::AccountBalance(a) => (0, a, 0),
            StateKey::AccountNonce(a) => (1, a, 0),
            StateKey::Nullifier(n) => (2, n, 0),
            StateKey::CommitmentSlot(s) => (3, s, 0),
            StateKey::CommitmentRoot => (4, 0, 0),
            StateKey::ProgramCode(p) => (5, p, 0),
            StateKey::ProgramState { program, key } => (6, program, key),
            StateKey::SystemClock => (7, 0, 0),
            StateKey::GlobalConfig => (8, 0, 0),
        }
    }

    /// The key with code `c`.
    pub fn from_code(c: (u8, u64, u64)) -> (r: StateKey)
        requires
            is_key_code(c),
        ensures
            r == code_key(c),
            key_code(r) == c,
    {
        if c.0 == 0 {
            StateKey::AccountBalance(c.1)
        } else if c.0 == 1 {
            StateKey::AccountNonce(c.1)
        } else if c.0 == 2 {
            StateKey::Nullifier(c.1)
        } else if c.0 == 3 {
            StateKey::CommitmentSlot(c.1)
        } else if c.0 == 4 {
            StateKey::CommitmentRoot
        } else if c.0 == 5 {
            StateKey::ProgramCode(c.1)
        } else if c.0 == 6 {
            StateKey::ProgramState { program: c.1, key: c.2 }
        } else if c.0 == 7 {
            StateKey::SystemClock
        } else {
            StateKey::GlobalConfig
        }
    }
}

#[derive(Debug, Clone, Copy, PartialEq, Eq, Structural)]
pub struct Account {
    pub balance: Amount,
}

#[derive(Debug, Clone, PartialEq, Eq)]
pub struct ProgramState {
    pub storage: HashMap<u64, i64>,
    pub deployed_at: u64,
}

/// A deployed program as the contracts see it.
pub struct ProgramModel {
    pub storage: Map<u64, i64>,
    pub deployed_at: u64,
}

impl View for ProgramState {
    type V = ProgramModel;

    open spec fn view(&self) -> ProgramModel {
        ProgramModel { storage: self.storage@, deployed_at: self.deployed_at }
    }
}

#[derive(Debug, Clone, Copy, PartialEq, Eq, Structural)]
pub enum TxKind {
    PublicTransfer,
    PrivateTransfer,
    ProgramCall,
    ProgramDeployment,
    System,
}

#[derive(Debug, Clone, PartialEq, Eq)]
pub struct Transaction {
    pub id: TxId,
    pub index: usize,
    pub kind: TxKind,
    pub signer: AccountId,
    pub receiver: Option<AccountId>,
    pub declared_reads: Vec<StateKey>,
    pub declared_writes: Vec<StateKey>,
    pub consumed_nullifiers: Vec<Nullifier>,
    pub produced_commitments: Vec<Commitment>,
    pub program_id: Option<ProgramId>,
    pub program_key: Option<u64>,
    pub amount: Amount,
    pub compute_cost: u64,
}

/// A transaction as the contracts see it: its fields, with sequences for vectors.
#[verifier::ext_equal]
pub struct TxModel {
    pub id: TxId,
    pub index: usize,
    pub kind: TxKind,
    pub signer: AccountId,
    pub receiver: Option<AccountId>,
    pub reads: Seq<StateKey>,
    pub writes: Seq<StateKey>,
    pub nullifiers: Seq<Nullifier>,
    pub commitments: Seq<Commitment>,
    pub program_id: Option<ProgramId>,
    pub program_key: Option<u64>,
    pub amount: Amount,
    pub compute_cost: u64,
}

impl View for Transaction {
    type V = TxModel;

    open spec fn view(&self) -> TxModel {
        TxModel {
            id: self.id,
            index: self.index,
            kind: self.kind,
            signer: self.signer,
            receiver: self.receiver,
            reads: self.declared_reads@,
            writes: self.declared_writes@,
            nullifiers: self.consumed_nullifiers@,
            commitments: self.produced_commitments@,
            program_id: self.program_id,
            program_key: self.program_key,
            amount: self.amount,
            compute_cost: self.compute_cost,
        }
    }
}

/// The views of a sequence of transactions.
pub open spec fn tx_models(block: Seq<Transaction>) -> Seq<TxModel> {
    block.map_values(|tx: Transaction| tx@)
}

/// The view of `Transaction::public_transfer(id, index, signer, receiver, amount, compute_cost)`.
pub open spec fn public_transfer_model(
    id: TxId,
    index: usize,
    signer: AccountId,
    receiver: AccountId,
    amount: Amount,
    compute_cost: u64,
) -> TxModel {
    TxModel {
        id,
        index,
        kind: TxKind::PublicTransfer,
        signer,
        receiver: Some(receiver),
        reads: seq![
            StateKey::AccountBalance(signer),
            StateKey::AccountBalance(receiver),
            StateKey::AccountNonce(signer),
        ],
        writes: seq![
            StateKey::AccountBalance(signer),
            StateKey::AccountBalance(receiver),
            StateKey::AccountNonce(signer),
        ],
        nullifiers: Seq::empty(),
        commitments: Seq::empty(),
        program_id: None,
        program_key: None,
        amount,
        compute_cost,
    }
}

/// The view of `Transaction::private_transfer(id, index, signer, nullifier, commitment, compute_cost)`.
pub open spec fn private_transfer_model(
    id: TxId,
    index: usize,
    signer: AccountId,
    nullifier: Nullifier,
    commitment: Commitment,
    compute_cost: u64,
) -> TxModel {
    TxModel {
        id,
        index,
        kind: TxKind::PrivateTransfer,
        signer,
        receiver: None,
        reads: seq![
            StateKey::Nullifier(nullifier),
            StateKey::CommitmentRoot,
            StateKey::AccountNonce(signer),
        ],
        writes: seq![
            StateKey::Nullifier(nullifier),
            StateKey::CommitmentRoot,
            StateKey::CommitmentSlot(index as u64),
            StateKey::AccountNonce(signer),
        ],
        nullifiers: seq![nullifier],
        commitments: seq![commitment],
        program_id: None,
        program_key: None,
        amount: 0,
        compute_cost,
    }
}

/// Whether a transaction must run alone: deployments and system transactions,
/// and any transaction that writes the system clock or the global configuration.
pub open spec fn is_barrier_spec(tx: TxModel) -> bool {
    ||| tx.kind is ProgramDeployment
    ||| tx.kind is System
    ||| exists|i: int|
        0 <= i < tx.writes.len() && (#[trigger] tx.writes[i] is SystemClock || tx.writes[i] is GlobalConfig)
}

/// A transaction declares what it reads and writes: the keys its execution
/// looks at are among its declared reads, and the keys its diff changes are
/// among its declared writes. The constructors of `Transaction` build such
/// transactions.
pub open spec fn declares_footprint(tx: TxModel) -> bool {
    match tx.kind {
        TxKind::PublicTransfer => {
            &&& tx.reads.contains(StateKey::AccountBalance(tx.signer))
            &&& tx.receiver matches Some(r) ==> tx.writes.contains(StateKey::AccountBalance(tx.signer))
                && tx.writes.contains(StateKey::AccountBalance(r))
        },
        TxKind::PrivateTransfer => forall|i: int|
            0 <= i < tx.nullifiers.len() ==> tx.reads.contains(StateKey::Nullifier(#[trigger] tx.nullifiers[i]))
                && tx.writes.contains(StateKey::Nullifier(tx.nullifiers[i])),
        TxKind::ProgramCall => tx.program_id matches Some(p) ==> tx.reads.contains(StateKey::ProgramCode(p)),
        TxKind::ProgramDeployment => tx.program_id matches Some(p) ==> tx.reads.contains(
            StateKey::ProgramCode(p),
        ) && tx.writes.contains(StateKey::ProgramCode(p)),
        TxKind::System => true,
    }
}

pub fn copy_keys(keys: &Vec<StateKey>) -> (r: Vec<StateKey>)
    ensures
        r@ == keys@,
{
    let mut r: Vec<StateKey> = Vec::with_capacity(keys.len());
    for i in 0..keys.len()
        invariant
            r@ == keys@.subrange(0, i as int),
    {
        r.push(keys[i]);
    }
    r
}

pub fn copy_u64s(values: &Vec<u64>) -> (r: Vec<u64>)
    ensures
        r@ == values@,
{
    let mut r: Vec<u64> = Vec::with_capacity(values.len());
    for i in 0..values.len()
        invariant
            r@ == values@.subrange(0, i as int),
    {
        r.push(values[i]);
    }
    r
}

impl Transaction {
    /// A transfer of `amount` from `signer`'s balance to `receiver`'s.
    pub fn public_transfer(
        id: TxId,
        index: usize,
        signer: AccountId,
        receiver: AccountId,
        amount: Amount,
        compute_cost: u64,
    ) -> (r: Self)
        ensures
            r@ == public_transfer_model(id, index, signer, receiver, amount, compute_cost),
            declares_footprint(r@),
    {
        let r = Transaction {
            id,
            index,
            kind: TxKind::PublicTransfer,
            signer,
            receiver: Some(receiver),
            declared_reads: vec![
                StateKey::AccountBalance(signer),
                StateKey::AccountBalance(receiver),
                StateKey::AccountNonce(signer),
            ],
            declared_writes: vec![
                StateKey::AccountBalance(signer),
                StateKey::AccountBalance(receiver),
                StateKey::AccountNonce(signer),
            ],
            consumed_nullifiers: vec![],
            produced_commitments: vec![],
            program_id: None,
            program_key: None,
            amount,
            compute_cost,
        };
        assert(r@ =~= (TxModel {
            id,
            index,
            kind: TxKind::PublicTransfer,
            signer,
            receiver: Some(receiver),
            reads: seq![
                StateKey::AccountBalance(signer),
                StateKey::AccountBalance(receiver),
                StateKey::AccountNonce(signer),
            ],
            writes: seq![
                StateKey::AccountBalance(signer),
                StateKey::AccountBalance(receiver),
                StateKey::AccountNonce(signer),
            ],
            nullifiers: Seq::empty(),
            commitments: Seq::empty(),
            program_id: None,
            program_key: None,
            amount,
            compute_cost,
        }));
        r
    }

    /// A shielded transfer that consumes `nullifier` and produces `commitment`.
    pub fn private_transfer(
        id: TxId,
        index: usize,
        signer: AccountId,
        nullifier: Nullifier,
        commitment: Commitment,
        compute_cost: u64,
    ) -> (r: Self)
        ensures
            r@ == private_transfer_model(id, index, signer, nullifier, commitment, compute_cost),
            declares_footprint(r@),
    {
        let slot = index as u64;
        let r = Transaction {
            id,
            index,
            kind: TxKind::PrivateTransfer,
            signer,
            receiver: None,
            declared_reads: vec![
                StateKey::Nullifier(nullifier),
                StateKey::CommitmentRoot,
                StateKey::AccountNonce(signer),
            ],
            declared_writes: vec![
                StateKey::Nullifier(nullifier),
                StateKey::CommitmentRoot,
                StateKey::CommitmentSlot(slot),
                StateKey::AccountNonce(signer),
            ],
            consumed_nullifiers: vec![nullifier],
            produced_commitments: vec![commitment],
            program_id: None,
            program_key: None,
            amount: 0,
            compute_cost,
        };
        assert(r@.reads =~= seq![
            StateKey::Nullifier(nullifier),
            StateKey::CommitmentRoot,
            StateKey::AccountNonce(signer),
        ]);
        assert(r@.writes =~= seq![
            StateKey::Nullifier(nullifier),
            StateKey::CommitmentRoot,
            StateKey::CommitmentSlot(index as u64),
            StateKey::AccountNonce(signer),
        ]);
        assert(r@.nullifiers =~= seq![nullifier]);
        assert(r@.commitments =~= seq![commitment]);
        r
    }

    /// A call of program `program_id` that adds `delta` to its storage slot `key`.
    pub fn program_call(
        id: TxId,
        index: usize,
        signer: AccountId,
        program_id: ProgramId,
        key: u64,
        delta: Amount,
        compute_cost: u64,
    ) -> (r: Self)
        ensures
            r@ == (TxModel {
                id,
                index,
                kind: TxKind::ProgramCall,
                signer,
                receiver: None,
                reads: seq![
                    StateKey::ProgramCode(program_id),
                    StateKey::ProgramState { program: program_id, key },
                    StateKey::AccountNonce(signer),
                ],
                writes: seq![
                    StateKey::ProgramState { program: program_id, key },
                    StateKey::AccountNonce(signer),
                ],
                nullifiers: Seq::empty(),
                commitments: Seq::empty(),
                program_id: Some(program_id),
                program_key: Some(key),
                amount: delta,
                compute_cost,
            }),
            declares_footprint(r@),
    {
        let r = Transaction {
            id,
            index,
            kind: TxKind::ProgramCall,
            signer,
            receiver: None,
            declared_reads: vec![
                StateKey::ProgramCode(program_id),
                StateKey::ProgramState { program: program_id, key },
                StateKey::AccountNonce(signer),
            ],
            declared_writes: vec![
                StateKey::ProgramState { program: program_id, key },
                StateKey::AccountNonce(signer),
            ],
            consumed_nullifiers: vec![],
            produced_commitments: vec![],
            program_id: Some(program_id),
            program_key: Some(key),
            amount: delta,
            compute_cost,
        };
        assert(r@.reads =~= seq![
            StateKey::ProgramCode(program_id),
            StateKey::ProgramState { program: program_id, key },
            StateKey::AccountNonce(signer),
        ]);
        assert(r@.writes =~= seq![
            StateKey::ProgramState { program: program_id, key },
            StateKey::AccountNonce(signer),
        ]);
        assert(r@.nullifiers =~= Seq::<u64>::empty());
        assert(r@.commitments =~= Seq::<u64>::empty());
        r
    }

    /// The deployment of program `program_id`.
    pub fn program_deployment(
        id: TxId,
        index: usize,
        signer: AccountId,
        program_id: ProgramId,
        compute_cost: u64,
    ) -> (r: Self)
        ensures
            r@ == (TxModel {
                id,
                index,
                kind: TxKind::ProgramDeployment,
                signer,
                receiver: None,
                reads: seq![StateKey::ProgramCode(program_id), StateKey::GlobalConfig],
                writes: seq![StateKey::ProgramCode(program_id), StateKey::GlobalConfig],
                nullifiers: Seq::empty(),
                commitments: Seq::empty(),
                program_id: Some(program_id),
                program_key: None,
                amount: 0,
                compute_cost,
            }),
            declares_footprint(r@),
    {
        let r = Transaction {
            id,
            index,
            kind: TxKind::ProgramDeployment,
            signer,
            receiver: None,
            declared_reads: vec![StateKey::ProgramCode(program_id), StateKey::GlobalConfig],
            declared_writes: vec![StateKey::ProgramCode(program_id), StateKey::GlobalConfig],
            consumed_nullifiers: vec![],
            produced_commitments: vec![],
            program_id: Some(program_id),
            program_key: None,
            amount: 0,
            compute_cost,
        };
        assert(r@.reads =~= seq![StateKey::ProgramCode(program_id), StateKey::GlobalConfig]);
        assert(r@.writes =~= seq![StateKey::ProgramCode(program_id), StateKey::GlobalConfig]);
        assert(r@.nullifiers =~= Seq::<u64>::empty());
        assert(r@.commitments =~= Seq::<u64>::empty());
        r
    }

    /// A system transaction, which advances the system clock.
    pub fn system(id: TxId, index: usize, compute_cost: u64) -> (r: Self)
        ensures
            r@ == (TxModel {
                id,
                index,
                kind: TxKind::System,
                signer: 0,
                receiver: None,
                reads: seq![StateKey::SystemClock, StateKey::GlobalConfig],
                writes: seq![StateKey::SystemClock, StateKey::GlobalConfig],
                nullifiers: Seq::empty(),
                commitments: Seq::empty(),
                program_id: None,
                program_key: None,
                amount: 0,
                compute_cost,
            }),
            declares_footprint(r@),
    {
        let r = Transaction {
            id,
            index,
            kind: TxKind::System,
            signer: 0,
            receiver: None,
            declared_reads: vec![StateKey::SystemClock, StateKey::GlobalConfig],
            declared_writes: vec![StateKey::SystemClock, StateKey::GlobalConfig],
            consumed_nullifiers: vec![],
            produced_commitments: vec![],
            program_id: None,
            program_key: None,
            amount: 0,
            compute_cost,
        };
        assert(r@.reads =~= seq![StateKey::SystemClock, StateKey::GlobalConfig]);
        assert(r@.writes =~= seq![StateKey::SystemClock, StateKey::GlobalConfig]);
        assert(r@.nullifiers =~= Seq::<u64>::empty());
        assert(r@.commitments =~= Seq::<u64>::empty());
        r
    }

    /// The keys this transaction declares it reads.
    pub fn read_keys(&self) -> (r: Vec<StateKey>)
        ensures
            r@ == self@.reads,
    {
        copy_keys(&self.declared_reads)
    }

    /// The keys this transaction declares it writes.
    pub fn write_keys(&self) -> (r: Vec<StateKey>)
        ensures
            r@ == self@.writes,
    {
        copy_keys(&self.declared_writes)
    }

    /// Whether this transaction must form a batch of its own.
    pub fn is_barrier(&self) -> (r: bool)
        ensures
            r == is_barrier_spec(self@),
    {
        match self.kind {
            TxKind::ProgramDeployment => {
                return true;
            },
            TxKind::System => {
                return true;
            },
            _ => {},
        }
        let mut i: usize = 0;
        while i < self.declared_writes.len()
            invariant
                i <= self.declared_writes.len(),
                forall|j: int|
                    0 <= j < i ==> !(#[trigger] self@.writes[j] is SystemClock || self@.writes[j] is GlobalConfig),
            decreases self.declared_writes.len() - i,
        {
            match self.declared_writes[i] {
                StateKey::SystemClock => {
                    return true;
                },
                StateKey::GlobalConfig => {
                    return true;
                },
                _ => {},
            }
            i = i + 1;
        }
        false
    }

    /// A copy of this transaction.
    pub fn duplicate(&self) -> (r: Self)
        ensures
            r@ == self@,
    {
        Transaction {
            id: self.id,
            index: self.index,
            kind: self.kind,
            signer: self.signer,
            receiver: self.receiver,
            declared_reads: copy_keys(&self.declared_reads),
            declared_writes: copy_keys(&self.declared_writes),
            consumed_nullifiers: copy_u64s(&self.consumed_nullifiers),
            produced_commitments: copy_u64s(&self.produced_commitments),
            program_id: self.program_id,
            program_key: self.program_key,
            amount: self.amount,
            compute_cost: self.compute_cost,
        }
    }
}

/// Whether a transaction was applied, and if not, why.
#[derive(Debug, Clone, PartialEq, Eq)]
pub enum TxStatus {
    Accepted,
    Rejected(String),
}

pub enum StatusModel {
    Accepted,
    Rejected(Seq<char>),
}

impl View for TxStatus {
    type V = StatusModel;

    open spec fn view(&self) -> StatusModel {
        match self {
            TxStatus::Accepted => StatusModel::Accepted,
            TxStatus::Rejected(reason) => StatusModel::Rejected(reason@),
        }
    }
}

#[derive(Debug, Clone, PartialEq, Eq)]
pub struct TxOutcome {
    pub tx_id: TxId,
    pub index: usize,
    pub status: TxStatus,
}

pub struct OutcomeModel {
    pub tx_id: TxId,
    pub index: usize,
    pub status: StatusModel,
}

impl View for TxOutcome {
    type V = OutcomeModel;

    open spec fn view(&self) -> OutcomeModel {
        OutcomeModel { tx_id: self.tx_id, index: self.index, status: self.status@ }
    }
}

/// The views of a sequence of outcomes.
pub open spec fn outcome_models(outcomes: Seq<TxOutcome>) -> Seq<OutcomeModel> {
    outcomes.map_values(|o: TxOutcome| o@)
}

pub open spec fn accepted_model(tx: TxModel) -> OutcomeModel {
    OutcomeModel { tx_id: tx.id, index: tx.index, status: StatusModel::Accepted }
}

pub open spec fn rejected_model(tx: TxModel, reason: Seq<char>) -> OutcomeModel {
    OutcomeModel { tx_id: tx.id, index: tx.index, status: StatusModel::Rejected(reason) }
}

impl TxOutcome {
    /// The outcome of `tx` when it is applied.
    pub fn accepted(tx: &Transaction) -> (r: Self)
        ensures
            r@ == accepted_model(tx@),
    {
        TxOutcome { tx_id: tx.id, index: tx.index, status: TxStatus::Accepted }
    }

    /// The outcome of `tx` when it is refused for `reason`.
    pub fn rejected(tx: &Transaction, reason: String) -> (r: Self)
        ensures
            r@ == rejected_model(tx@, reason@),
    {
        TxOutcome { tx_id: tx.id, index: tx.index, status: TxStatus::Rejected(reason) }
    }

    /// A copy of this outcome.
    pub fn duplicate(&self) -> (r: Self)
        ensures
            r@ == self@,
    {
        let status = match &self.status {
            TxStatus::Accepted => TxStatus::Accepted,
            TxStatus::Rejected(reason) => TxStatus::Rejected(reason.clone()),
        };
        TxOutcome { tx_id: self.tx_id, index: self.index, status }
    }

    /// Whether this outcome and `other` are the same.
    pub fn same_as(&self, other: &TxOutcome) -> (r: bool)
        ensures
            r == (self@ == other@),
    {
        if self.tx_id != other.tx_id || self.index != other.index {
            return false;
        }
        match (&self.status, &other.status) {
            (TxStatus::Accepted, TxStatus::Accepted) => true,
            (TxStatus::Rejected(a), TxStatus::Rejected(b)) => a.eq(b),
            _ => false,
        }
    }
}

/// Whether two sequences of outcomes are the same, element by element.
pub fn same_outcomes(left: &Vec<TxOutcome>, right: &Vec<TxOutcome>) -> (r: bool)
    ensures
        r == (outcome_models(left@) == outcome_models(right@)),
{
    if left.len() != right.len() {
        proof {
            assert(outcome_models(left@).len() != outcome_models(right@).len());
        }
        return false;
    }
    let mut i: usize = 0;
    while i < left.len()
        invariant
            i <= left.len() == right.len(),
            forall|j: int| 0 <= j < i ==> left@[j]@ == right@[j]@,
        decreases left.len() - i,
    {
        if !left[i].same_as(&right[i]) {
            proof {
                assert(outcome_models(left@)[i as int] != outcome_models(right@)[i as int]);
            }
            return false;
        }
        i = i + 1;
    }
    assert(outcome_models(left@) =~= outcome_models(right@));
    true
}

/// The changes that one transaction makes to the state.
#[derive(Debug, Clone, PartialEq, Eq)]
pub struct StateDiff {
    pub balance_delta: HashMap<AccountId, Amount>,
    pub nonce_delta: HashMap<AccountId, u64>,
    pub nullifiers_to_add: Vec<Nullifier>,
    pub commitments_to_append: Vec<Commitment>,
    pub program_writes: Vec<(ProgramId, u64, i64)>,
    pub programs_to_deploy: Vec<ProgramId>,
    pub system_clock_delta: u64,
    pub written_keys: Vec<StateKey>,
}

#[verifier::ext_equal]
pub struct DiffModel {
    pub balance_delta: Map<AccountId, Amount>,
    pub nonce_delta: Map<AccountId, u64>,
    pub nullifiers_to_add: Seq<Nullifier>,
    pub commitments_to_append: Seq<Commitment>,
    pub program_writes: Seq<(ProgramId, u64, i64)>,
    pub programs_to_deploy: Seq<ProgramId>,
    pub system_clock_delta: u64,
    pub written_keys: Seq<StateKey>,
}

impl View for StateDiff {
    type V = DiffModel;

    open spec fn view(&self) -> DiffModel {
        DiffModel {
            balance_delta: self.balance_delta@,
            nonce_delta: self.nonce_delta@,
            nullifiers_to_add: self.nullifiers_to_add@,
            commitments_to_append: self.commitments_to_append@,
            program_writes: self.program_writes@,
            programs_to_deploy: self.programs_to_deploy@,
            system_clock_delta: self.system_clock_delta,
            written_keys: self.written_keys@,
        }
    }
}

/// The diff that changes nothing.
pub open spec fn empty_diff() -> DiffModel {
    DiffModel {
        balance_delta: Map::empty(),
        nonce_delta: Map::empty(),
        nullifiers_to_add: Seq::empty(),
        commitments_to_append: Seq::empty(),
        program_writes: Seq::empty(),
        programs_to_deploy: Seq::empty(),
        system_clock_delta: 0,
        written_keys: Seq::empty(),
    }
}

impl StateDiff {
    /// The diff that changes nothing.
    pub fn empty() -> (r: Self)
        ensures
            r@ == empty_diff(),
    {
        StateDiff {
            balance_delta: HashMap::new(),
            nonce_delta: HashMap::new(),
            nullifiers_to_add: Vec::new(),
            commitments_to_append: Vec::new(),
            program_writes: Vec::new(),
            programs_to_deploy: Vec::new(),
            system_clock_delta: 0,
            written_keys: Vec::new(),
        }
    }
}

impl Default for StateDiff {
    fn default() -> (r: Self)
        ensures
            r@ == empty_diff(),
    {
        StateDiff::empty()
    }
}

/// What executing one transaction against a state produced.
#[derive(Debug, Clone)]
pub struct TxExecution {
    pub outcome: TxOutcome,
    pub diff: StateDiff,
    /// The version of each declared read key, in declaration order.
    pub read_versions: Vec<(StateKey, Version)>,
    pub read_keys: Vec<StateKey>,
    pub write_keys: Vec<StateKey>,
    pub execution_ns: u128,
}

} // verus!
