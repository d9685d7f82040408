//! The shared state that transactions read and write, and how a diff changes it.
use std::collections::{HashMap, HashSet};
use vstd::prelude::*;
use vstd::std_specs::iter::IteratorSpec;
use crate::model::{Account, AccountId, Amount, DiffModel, Nullifier, ProgramId, ProgramModel,
    ProgramState, StateDiff, StateKey, Version};
use crate::versions::{VersionTable, version_in, next_version};

verus! {

broadcast use vstd::std_specs::hash::group_hash_axioms;

#[derive(Debug)]
pub struct State {
    pub accounts: HashMap<AccountId, Account>,
    pub nonces: HashMap<AccountId, u64>,
    pub nullifiers: HashSet<Nullifier>,
    pub commitments: Vec<u64>,
    pub programs: HashMap<ProgramId, ProgramState>,
    pub system_clock: u64,
    pub global_config: u64,
    pub versions: VersionTable,
}

/// The state as the contracts see it.
#[verifier::ext_equal]
pub struct StateModel {
    pub accounts: Map<AccountId, Account>,
    pub nonces: Map<AccountId, u64>,
    pub nullifiers: Set<Nullifier>,
    pub commitments: Seq<u64>,
    pub programs: Map<ProgramId, ProgramModel>,
    pub system_clock: u64,
    pub global_config: u64,
    pub versions: Map<StateKey, Version>,
}

/// The views of the programs of a state.
pub open spec fn program_models(programs: Map<ProgramId, ProgramState>) -> Map<ProgramId, ProgramModel> {
    programs.map_values(|p: ProgramState| p@)
}

impl View for State {
    type V = StateModel;

    open spec fn view(&self) -> StateModel {
        StateModel {
            accounts: self.accounts@,
            nonces: self.nonces@,
            nullifiers: self.nullifiers@,
            commitments: self.commitments@,
            programs: program_models(self.programs@),
            system_clock: self.system_clock,
            global_config: self.global_config,
            versions: self.versions@,
        }
    }
}

/// The empty state.
pub open spec fn empty_state() -> StateModel {
    StateModel {
        accounts: Map::empty(),
        nonces: Map::empty(),
        nullifiers: Set::empty(),
        commitments: Seq::empty(),
        programs: Map::empty(),
        system_clock: 0,
        global_config: 0,
        versions: Map::empty(),
    }
}

/// The balance of `a`: 0 for an account without an entry.
pub open spec fn balance_in(accounts: Map<AccountId, Account>, a: AccountId) -> Amount {
    if accounts.contains_key(a) {
        accounts[a].balance
    } else {
        0
    }
}

/// The nonce of `a`: 0 for an account without an entry.
pub open spec fn nonce_in(nonces: Map<AccountId, u64>, a: AccountId) -> u64 {
    if nonces.contains_key(a) {
        nonces[a]
    } else {
        0
    }
}

/// Balances after adding each delta to its account's balance.
pub open spec fn add_balances(accounts: Map<AccountId, Account>, deltas: Map<AccountId, Amount>) -> Map<
    AccountId,
    Account,
> {
    Map::new(
        |a: AccountId| accounts.contains_key(a) || deltas.contains_key(a),
        |a: AccountId|
            if deltas.contains_key(a) {
                Account { balance: vstd::wrapping::i64_specs::wrapping_add(balance_in(accounts, a), deltas[a]) }
            } else {
                accounts[a]
            },
    )
}

/// Nonces after adding each delta to its account's nonce.
pub open spec fn add_nonces(nonces: Map<AccountId, u64>, deltas: Map<AccountId, u64>) -> Map<AccountId, u64> {
    Map::new(
        |a: AccountId| nonces.contains_key(a) || deltas.contains_key(a),
        |a: AccountId|
            if deltas.contains_key(a) {
                vstd::wrapping::u64_specs::wrapping_add(nonce_in(nonces, a), deltas[a])
            } else {
                nonces[a]
            },
    )
}

/// A freshly deployed program.
pub open spec fn new_program(clock: u64) -> ProgramModel {
    ProgramModel { storage: Map::empty(), deployed_at: clock }
}

/// Programs after deploying each of `ids` in turn that is not deployed yet.
pub open spec fn deploy_programs(programs: Map<ProgramId, ProgramModel>, ids: Seq<ProgramId>, clock: u64) -> Map<
    ProgramId,
    ProgramModel,
>
    decreases ids.len(),
{
    if ids.len() == 0 {
        programs
    } else {
        let before = deploy_programs(programs, ids.drop_last(), clock);
        let id = ids.last();
        if before.contains_key(id) {
            before
        } else {
            before.insert(id, new_program(clock))
        }
    }
}

/// A program after adding `delta` to its storage slot `key` (an empty slot holds 0).
pub open spec fn write_slot(program: ProgramModel, key: u64, delta: i64) -> ProgramModel {
    let current = if program.storage.contains_key(key) {
        program.storage[key]
    } else {
        0
    };
    ProgramModel {
        storage: program.storage.insert(key, vstd::wrapping::i64_specs::wrapping_add(current, delta)),
        deployed_at: program.deployed_at,
    }
}

/// Programs after each write in turn; a write to a missing program deploys it first.
pub open spec fn write_programs(
    programs: Map<ProgramId, ProgramModel>,
    writes: Seq<(ProgramId, u64, i64)>,
    clock: u64,
) -> Map<ProgramId, ProgramModel>
    decreases writes.len(),
{
    if writes.len() == 0 {
        programs
    } else {
        let before = write_programs(programs, writes.drop_last(), clock);
        let (id, key, delta) = writes.last();
        let program = if before.contains_key(id) {
            before[id]
        } else {
            new_program(clock)
        };
        before.insert(id, write_slot(program, key, delta))
    }
}

/// Versions after one write of each key in turn.
pub open spec fn bump_versions(versions: Map<StateKey, Version>, keys: Seq<StateKey>) -> Map<StateKey, Version>
    decreases keys.len(),
{
    if keys.len() == 0 {
        versions
    } else {
        let before = bump_versions(versions, keys.drop_last());
        before.insert(keys.last(), next_version(version_in(before, keys.last())))
    }
}

/// The state after applying a diff.
pub open spec fn apply_diff_spec(s: StateModel, d: DiffModel) -> StateModel {
    StateModel {
        accounts: add_balances(s.accounts, d.balance_delta),
        nonces: add_nonces(s.nonces, d.nonce_delta),
        nullifiers: s.nullifiers.union(d.nullifiers_to_add.to_set()),
        commitments: s.commitments + d.commitments_to_append,
        programs: write_programs(
            deploy_programs(s.programs, d.programs_to_deploy, s.system_clock),
            d.program_writes,
            s.system_clock,
        ),
        system_clock: vstd::wrapping::u64_specs::wrapping_add(s.system_clock, d.system_clock_delta),
        global_config: s.global_config,
        versions: bump_versions(s.versions, d.written_keys),
    }
}

impl Clone for State {
    fn clone(&self) -> (r: Self)
        ensures
            r@ == self@,
    {
        self.snapshot()
    }
}

impl Default for State {
    fn default() -> (r: Self)
        ensures
            r@ == empty_state(),
    {
        State::new()
    }
}

impl State {
    /// The empty state.
    pub fn new() -> (r: Self)
        ensures
            r@ == empty_state(),
    {
        let r = State {
            accounts: HashMap::new(),
            nonces: HashMap::new(),
            nullifiers: HashSet::new(),
            commitments: Vec::new(),
            programs: HashMap::new(),
            system_clock: 0,
            global_config: 0,
            versions: VersionTable::new(),
        };
        assert(r@.programs =~= Map::<ProgramId, ProgramModel>::empty());
        assert(r@ =~= empty_state());
        r
    }

    pub fn set_account_balance(&mut self, account: AccountId, balance: Amount)
        ensures
            final(self)@ == (StateModel {
                accounts: old(self)@.accounts.insert(account, Account { balance }),
                ..old(self)@
            }),
    {
        self.accounts.insert(account, Account { balance });
    }

    pub fn balance_of(&self, account: AccountId) -> (r: Amount)
        ensures
            r == balance_in(self@.accounts, account),
    {
        match self.accounts.get(&account) {
            Some(a) => a.balance,
            None => 0,
        }
    }

    pub fn set_nonce(&mut self, account: AccountId, nonce: u64)
        ensures
            final(self)@ == (StateModel { nonces: old(self)@.nonces.insert(account, nonce), ..old(self)@ }),
    {
        self.nonces.insert(account, nonce);
    }

    pub fn nonce_of(&self, account: AccountId) -> (r: u64)
        ensures
            r == nonce_in(self@.nonces, account),
    {
        match self.nonces.get(&account) {
            Some(n) => *n,
            None => 0,
        }
    }

    pub fn version_of(&self, key: &StateKey) -> (r: Version)
        ensures
            r == version_in(self@.versions, *key),
    {
        self.versions.get(key)
    }

    pub fn bump_version(&mut self, key: StateKey)
        ensures
            final(self)@ == (StateModel {
                versions: old(self)@.versions.insert(key, next_version(version_in(old(self)@.versions, key))),
                ..old(self)@
            }),
    {
        self.versions.bump(key);
    }

    /// A copy of this state.
    pub fn snapshot(&self) -> (r: Self)
        ensures
            r@ == self@,
    {
        let mut nullifiers: HashSet<Nullifier> = HashSet::new();
        let iter = self.nullifiers.iter();
        let ghost g = iter.remaining();
        proof {
            assert forall|i: int| 0 <= i < g.len() implies #[trigger] self.nullifiers@.contains(*g[i]) by {
                assert(g.unref()[i] == *g[i]);
                assert(g.unref().to_set().contains(g.unref()[i]));
            }
        }
        for n in it: iter
            invariant
                it.seq() == g,
                forall|i: int| 0 <= i < g.len() ==> #[trigger] self.nullifiers@.contains(*g[i]),
                forall|x: Nullifier| #[trigger] nullifiers@.contains(x) ==> self.nullifiers@.contains(x),
                forall|i: int| 0 <= i < it.index() ==> #[trigger] nullifiers@.contains(*g[i]),
        {
            nullifiers.insert(*n);
        }
        proof {
            assert forall|x: Nullifier| #[trigger] self.nullifiers@.contains(x) implies nullifiers@.contains(x) by {
                assert(g.unref().to_set().contains(x));
                let i = choose|i: int| 0 <= i < g.len() && #[trigger] g.unref()[i] == x;
                assert(nullifiers@.contains(*g[i]));
            }
            assert(nullifiers@ =~= self.nullifiers@);
        }
        let commitments = crate::model::copy_u64s(&self.commitments);
        State {
            accounts: self.accounts.clone(),
            nonces: self.nonces.clone(),
            nullifiers,
            commitments,
            programs: self.programs.clone(),
            system_clock: self.system_clock,
            global_config: self.global_config,
            versions: self.versions.duplicate(),
        }
    }

    /// Adds each delta to its account's balance.
    fn add_balance_deltas(&mut self, deltas: &HashMap<AccountId, Amount>)
        ensures
            final(self)@ == (StateModel { accounts: add_balances(old(self)@.accounts, deltas@), ..old(self)@ }),
    {
        let ghost before = self.accounts@;
        let ghost mut done: Set<AccountId> = Set::empty();
        let iter = deltas.iter();
        let ghost g = iter.remaining();
        proof {
            assert forall|i: int, j: int| 0 <= i < g.len() && 0 <= j < g.len() && i != j implies *g[i].0 != *g[j].0 by {
                assert(deltas@.contains_key(*g[i].0));
                assert(deltas@.contains_key(*g[j].0));
            }
        }
        for entry in it: iter
            invariant
                it.seq() == g,
                forall|i: int| 0 <= i < g.len() ==> #[trigger] deltas@.contains_key(*g[i].0) && deltas@[*g[i].0] == *g[i].1,
                forall|i: int, j: int| 0 <= i < g.len() && 0 <= j < g.len() && i != j ==> *g[i].0 != *g[j].0,
                forall|i: int| 0 <= i < it.index() ==> #[trigger] done.contains(*g[i].0),
                forall|i: int| it.index() <= i < g.len() ==> !done.contains(#[trigger] *g[i].0),
                forall|a: AccountId| #[trigger] done.contains(a) ==> deltas@.contains_key(a),
                forall|a: AccountId| #[trigger] done.contains(a) ==> self.accounts@.contains_key(a)
                    && self.accounts@[a] == (Account { balance: vstd::wrapping::i64_specs::wrapping_add(balance_in(before, a), deltas@[a]) }),
                forall|a: AccountId| !done.contains(a) ==> (#[trigger] self.accounts@.contains_key(a) <==> before.contains_key(a)),
                forall|a: AccountId| !done.contains(a) && before.contains_key(a) ==> #[trigger] self.accounts@[a] == before[a],
                self@ == (StateModel { accounts: self.accounts@, ..old(self)@ }),
        {
            let (account, delta) = entry;
            proof {
                assert(deltas@.contains_key(*g[it.index() as int].0));
            }
            let current = self.balance_of(*account);
            self.accounts.insert(*account, Account { balance: current.wrapping_add(*delta) });
            proof {
                done = done.insert(*account);
            }
        }
        proof {
            assert forall|a: AccountId| #[trigger] deltas@.contains_key(a) implies done.contains(a) by {
                assert(g.contains((&a, &deltas@[a])));
                let i = choose|i: int| 0 <= i < g.len() && g[i] == (&a, &deltas@[a]);
                assert(done.contains(*g[i].0));
            }
            assert(self.accounts@ =~= add_balances(before, deltas@));
        }
    }

    /// Adds each delta to its account's nonce.
    fn add_nonce_deltas(&mut self, deltas: &HashMap<AccountId, u64>)
        ensures
            final(self)@ == (StateModel { nonces: add_nonces(old(self)@.nonces, deltas@), ..old(self)@ }),
    {
        let ghost before = self.nonces@;
        let ghost mut done: Set<AccountId> = Set::empty();
        let iter = deltas.iter();
        let ghost g = iter.remaining();
        proof {
            assert forall|i: int, j: int| 0 <= i < g.len() && 0 <= j < g.len() && i != j implies *g[i].0 != *g[j].0 by {
                assert(deltas@.contains_key(*g[i].0));
                assert(deltas@.contains_key(*g[j].0));
            }
        }
        for entry in it: iter
            invariant
                it.seq() == g,
                forall|i: int| 0 <= i < g.len() ==> #[trigger] deltas@.contains_key(*g[i].0) && deltas@[*g[i].0] == *g[i].1,
                forall|i: int, j: int| 0 <= i < g.len() && 0 <= j < g.len() && i != j ==> *g[i].0 != *g[j].0,
                forall|i: int| 0 <= i < it.index() ==> #[trigger] done.contains(*g[i].0),
                forall|i: int| it.index() <= i < g.len() ==> !done.contains(#[trigger] *g[i].0),
                forall|a: AccountId| #[trigger] done.contains(a) ==> deltas@.contains_key(a),
                forall|a: AccountId| #[trigger] done.contains(a) ==> self.nonces@.contains_key(a)
                    && self.nonces@[a] == vstd::wrapping::u64_specs::wrapping_add(nonce_in(before, a), deltas@[a]),
                forall|a: AccountId| !done.contains(a) ==> (#[trigger] self.nonces@.contains_key(a) <==> before.contains_key(a)),
                forall|a: AccountId| !done.contains(a) && before.contains_key(a) ==> #[trigger] self.nonces@[a] == before[a],
                self@ == (StateModel { nonces: self.nonces@, ..old(self)@ }),
        {
            let (account, delta) = entry;
            proof {
                assert(deltas@.contains_key(*g[it.index() as int].0));
            }
            let current = self.nonce_of(*account);
            self.nonces.insert(*account, current.wrapping_add(*delta));
            proof {
                done = done.insert(*account);
            }
        }
        proof {
            assert forall|a: AccountId| #[trigger] deltas@.contains_key(a) implies done.contains(a) by {
                assert(g.contains((&a, &deltas@[a])));
                let i = choose|i: int| 0 <= i < g.len() && g[i] == (&a, &deltas@[a]);
                assert(done.contains(*g[i].0));
            }
            assert(self.nonces@ =~= add_nonces(before, deltas@));
        }
    }

    /// Deploys each of `ids` in turn that is not deployed yet.
    fn deploy_all(&mut self, ids: &Vec<ProgramId>)
        ensures
            final(self)@ == (StateModel {
                programs: deploy_programs(old(self)@.programs, ids@, old(self)@.system_clock),
                ..old(self)@
            }),
    {
        for i in 0..ids.len()
            invariant
                self@ == (StateModel {
                    programs: deploy_programs(old(self)@.programs, ids@.subrange(0, i as int), old(self)@.system_clock),
                    ..old(self)@
                }),
        {
            let id = ids[i];
            proof {
                assert(ids@.subrange(0, i + 1).drop_last() =~= ids@.subrange(0, i as int));
            }
            if !self.programs.contains_key(&id) {
                let program = ProgramState { storage: HashMap::new(), deployed_at: self.system_clock };
                self.programs.insert(id, program);
                proof {
                    assert(program_models(self.programs@) =~= deploy_programs(
                        old(self)@.programs,
                        ids@.subrange(0, i + 1),
                        old(self)@.system_clock,
                    ));
                }
            } else {
                proof {
                    assert(program_models(self.programs@).contains_key(id));
                }
            }
        }
        proof {
            assert(ids@.subrange(0, ids@.len() as int) =~= ids@);
        }
    }

    /// Applies each storage write in turn.
    fn write_all(&mut self, writes: &Vec<(ProgramId, u64, i64)>)
        ensures
            final(self)@ == (StateModel {
                programs: write_programs(old(self)@.programs, writes@, old(self)@.system_clock),
                ..old(self)@
            }),
    {
        for i in 0..writes.len()
            invariant
                self@ == (StateModel {
                    programs: write_programs(old(self)@.programs, writes@.subrange(0, i as int), old(self)@.system_clock),
                    ..old(self)@
                }),
        {
            let (id, key, delta) = writes[i];
            proof {
                assert(writes@.subrange(0, i + 1).drop_last() =~= writes@.subrange(0, i as int));
            }
            let ghost before = program_models(self.programs@);
            let mut program = match self.programs.remove(&id) {
                Some(p) => p,
                None => ProgramState { storage: HashMap::new(), deployed_at: self.system_clock },
            };
            proof {
                assert(program@ == (if before.contains_key(id) {
                    before[id]
                } else {
                    crate::state::new_program(old(self)@.system_clock)
                }));
            }
            let current = match program.storage.get(&key) {
                Some(v) => *v,
                None => 0,
            };
            program.storage.insert(key, current.wrapping_add(delta));
            self.programs.insert(id, program);
            proof {
                assert(program_models(self.programs@) =~= write_programs(
                    old(self)@.programs,
                    writes@.subrange(0, i + 1),
                    old(self)@.system_clock,
                ));
            }
        }
        proof {
            assert(writes@.subrange(0, writes@.len() as int) =~= writes@);
        }
    }

    /// Records one more write of each key in turn.
    fn bump_all(&mut self, keys: &Vec<StateKey>)
        ensures
            final(self)@ == (StateModel { versions: bump_versions(old(self)@.versions, keys@), ..old(self)@ }),
    {
        for i in 0..keys.len()
            invariant
                self@ == (StateModel {
                    versions: bump_versions(old(self)@.versions, keys@.subrange(0, i as int)),
                    ..old(self)@
                }),
        {
            proof {
                assert(keys@.subrange(0, i + 1).drop_last() =~= keys@.subrange(0, i as int));
            }
            self.bump_version(keys[i]);
        }
        proof {
            assert(keys@.subrange(0, keys@.len() as int) =~= keys@);
        }
    }

    /// Applies `diff`: balance and nonce deltas, new nullifiers and
    /// commitments, program deployments and storage writes (both against the
    /// clock before this diff), the clock delta, and one more version for each
    /// written key. It always succeeds.
    pub fn apply_diff(&mut self, diff: &StateDiff) -> (r: Result<(), String>)
        ensures
            final(self)@ == apply_diff_spec(old(self)@, diff@),
            r is Ok,
    {
        self.add_balance_deltas(&diff.balance_delta);
        self.add_nonce_deltas(&diff.nonce_delta);
        for i in 0..diff.nullifiers_to_add.len()
            invariant
                self@ == (StateModel {
                    accounts: add_balances(old(self)@.accounts, diff@.balance_delta),
                    nonces: add_nonces(old(self)@.nonces, diff@.nonce_delta),
                    nullifiers: old(self)@.nullifiers.union(diff@.nullifiers_to_add.subrange(0, i as int).to_set()),
                    ..old(self)@
                }),
        {
            self.nullifiers.insert(diff.nullifiers_to_add[i]);
            proof {
                let ghost pre = diff@.nullifiers_to_add.subrange(0, i as int);
                assert(diff@.nullifiers_to_add.subrange(0, i + 1) =~= pre.push(diff@.nullifiers_to_add[i as int]));
                pre.lemma_push_to_set_commute(diff@.nullifiers_to_add[i as int]);
                assert(self@.nullifiers =~= old(self)@.nullifiers.union(
                    diff@.nullifiers_to_add.subrange(0, i + 1).to_set(),
                ));
            }
        }
        proof {
            assert(diff@.nullifiers_to_add.subrange(0, diff@.nullifiers_to_add.len() as int) =~= diff@.nullifiers_to_add);
        }
        for i in 0..diff.commitments_to_append.len()
            invariant
                self@ == (StateModel {
                    accounts: add_balances(old(self)@.accounts, diff@.balance_delta),
                    nonces: add_nonces(old(self)@.nonces, diff@.nonce_delta),
                    nullifiers: old(self)@.nullifiers.union(diff@.nullifiers_to_add.to_set()),
                    commitments: old(self)@.commitments + diff@.commitments_to_append.subrange(0, i as int),
                    ..old(self)@
                }),
        {
            self.commitments.push(diff.commitments_to_append[i]);
            proof {
                assert(self@.commitments =~= old(self)@.commitments + diff@.commitments_to_append.subrange(0, i + 1));
            }
        }
        proof {
            assert(diff@.commitments_to_append.subrange(0, diff@.commitments_to_append.len() as int)
                =~= diff@.commitments_to_append);
        }
        self.deploy_all(&diff.programs_to_deploy);
        self.write_all(&diff.program_writes);
        self.system_clock = self.system_clock.wrapping_add(diff.system_clock_delta);
        self.bump_all(&diff.written_keys);
        Ok(())
    }
}

} // verus!
