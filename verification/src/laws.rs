//! What holds of the executors together: for transactions that declare what
//! they read and write, the static scheduler and the optimistic executor end
//! in the same state, with the same outcomes, as the sequential executor.
use vstd::prelude::*;
use crate::executor::seq_run;
use crate::executor::optimistic::optimistic_fold;
use crate::executor::static_scheduler::{
    conflict_count,
    apply_results, batch_fold, batch_results, conflict_spec, outcome_key, result_key, static_batches, static_fold,
    static_run, BatchBuild,
};
use crate::model::{declares_footprint, empty_diff, is_barrier_spec, DiffModel, OutcomeModel, StateKey, TxKind, TxModel};
use crate::sorting::{
    lemma_sort_by_identity, lemma_sort_by_map, lemma_sort_by_sorted, lemma_sort_by_to_multiset, nondecreasing_by,
    sort_by,
};
use crate::state::{
    add_balances, apply_diff_spec, balance_in, bump_versions, deploy_programs, write_programs, StateModel,
};
use crate::tx::{first_used, tx_result, versions_current, versions_of};
use crate::versions::{next_version, version_in};

verus! {

/// What a transaction can see of key `k` in `s`: the balance of an account,
/// whether a nullifier is used, whether a program is deployed. Other keys
/// show nothing that changes an execution.
pub open spec fn observed(s: StateModel, k: StateKey) -> int {
    match k {
        StateKey::AccountBalance(a) => balance_in(s.accounts, a) as int,
        StateKey::Nullifier(n) => if s.nullifiers.contains(n) {
            1
        } else {
            0
        },
        StateKey::ProgramCode(p) => if s.programs.contains_key(p) {
            1
        } else {
            0
        },
        _ => 0,
    }
}

/// `s1` and `s2` show the same of each of `keys`, at the same version.
pub open spec fn agree_on(s1: StateModel, s2: StateModel, keys: Seq<StateKey>) -> bool {
    forall|i: int|
        0 <= i < keys.len() ==> observed(s1, #[trigger] keys[i]) == observed(s2, keys[i]) && version_in(
            s1.versions,
            keys[i],
        ) == version_in(s2.versions, keys[i])
}

/// Every transaction of `txs` declares its footprint.
pub open spec fn all_declare_footprint(txs: Seq<TxModel>) -> bool {
    forall|i: int| 0 <= i < txs.len() ==> declares_footprint(#[trigger] txs[i])
}

/// Transaction positions never decrease along `txs`.
pub open spec fn positions_nondecreasing(txs: Seq<TxModel>) -> bool {
    forall|i: int, j: int| 0 <= i <= j < txs.len() ==> (#[trigger] txs[i]).index <= (#[trigger] txs[j]).index
}

/// An outcome is for its transaction's position, and the diff writes
/// either nothing or exactly the declared writes.
pub proof fn lemma_result_shape(tx: TxModel, s: StateModel)
    ensures
        tx_result(tx, s).0.index == tx.index,
        tx_result(tx, s).0.tx_id == tx.id,
        tx_result(tx, s).1.written_keys == tx.writes || tx_result(tx, s).1 == empty_diff(),
        tx_result(tx, s).0.status is Accepted ==> tx_result(tx, s).1.written_keys == tx.writes,
{
}

/// Versions of keys that are not written stay.
pub proof fn lemma_bump_versions_frame(v: Map<StateKey, u64>, keys: Seq<StateKey>, k: StateKey)
    requires
        !keys.contains(k),
    ensures
        version_in(bump_versions(v, keys), k) == version_in(v, k),
    decreases keys.len(),
{
    if keys.len() > 0 {
        assert(!keys.drop_last().contains(k)) by {
            if keys.drop_last().contains(k) {
                let i = choose|i: int| 0 <= i < keys.drop_last().len() && keys.drop_last()[i] == k;
                assert(keys[i] == k);
            }
        }
        lemma_bump_versions_frame(v, keys.drop_last(), k);
        assert(keys.last() != k);
    }
}

/// A diff that writes nothing changes nothing a transaction can see.
pub proof fn lemma_empty_diff_frame(s: StateModel, k: StateKey)
    ensures
        observed(apply_diff_spec(s, empty_diff()), k) == observed(s, k),
        version_in(apply_diff_spec(s, empty_diff()).versions, k) == version_in(s.versions, k),
{
    let t = apply_diff_spec(s, empty_diff());
    assert(Seq::<u64>::empty().to_set() =~= Set::<u64>::empty());
    assert(t.nullifiers =~= s.nullifiers);
    assert(deploy_programs(s.programs, Seq::empty(), s.system_clock) == s.programs);
    assert(write_programs(s.programs, Seq::empty(), s.system_clock) == s.programs);
    assert(t.versions == s.versions);
    match k {
        StateKey::AccountBalance(a) => {
            assert(balance_in(t.accounts, a) == balance_in(s.accounts, a));
        },
        _ => {},
    }
}

/// Applying a transaction's own diff changes what a transaction can see
/// only at keys that the diff writes.
pub proof fn lemma_apply_frame(tx: TxModel, s: StateModel, k: StateKey)
    requires
        declares_footprint(tx),
        !tx_result(tx, s).1.written_keys.contains(k),
    ensures
        observed(apply_diff_spec(s, tx_result(tx, s).1), k) == observed(s, k),
        version_in(apply_diff_spec(s, tx_result(tx, s).1).versions, k) == version_in(s.versions, k),
{
    let d = tx_result(tx, s).1;
    let t = apply_diff_spec(s, d);
    lemma_result_shape(tx, s);
    if d == empty_diff() {
        lemma_empty_diff_frame(s, k);
    } else {
        assert(d.written_keys == tx.writes);
        lemma_bump_versions_frame(s.versions, d.written_keys, k);
        match tx.kind {
            TxKind::PublicTransfer => {
                let r = tx.receiver->0;
                assert(d.nullifiers_to_add == Seq::<u64>::empty());
                assert(Seq::<u64>::empty().to_set() =~= Set::<u64>::empty());
                assert(t.nullifiers =~= s.nullifiers);
                assert(t.programs == s.programs);
                match k {
                    StateKey::AccountBalance(a) => {
                        assert(a != tx.signer);
                        assert(a != r);
                        assert(!d.balance_delta.contains_key(a));
                    },
                    _ => {},
                }
            },
            TxKind::PrivateTransfer => {
                assert(t.programs == s.programs);
                assert(t.accounts =~= s.accounts);
                match k {
                    StateKey::Nullifier(n) => {
                        if tx.nullifiers.to_set().contains(n) {
                            let i = choose|i: int| 0 <= i < tx.nullifiers.len() && tx.nullifiers[i] == n;
                            assert(tx.writes.contains(StateKey::Nullifier(tx.nullifiers[i])));
                        }
                    },
                    _ => {},
                }
            },
            TxKind::ProgramCall => {
                let p = tx.program_id->0;
                assert(s.programs.contains_key(p));
                assert(Seq::<u64>::empty().to_set() =~= Set::<u64>::empty());
                assert(t.nullifiers =~= s.nullifiers);
                assert(t.accounts =~= s.accounts);
                let w = d.program_writes;
                assert(w.drop_last() =~= Seq::<(u64, u64, i64)>::empty());
                assert(d.programs_to_deploy =~= Seq::<u64>::empty());
                assert(deploy_programs(s.programs, d.programs_to_deploy, s.system_clock) == s.programs);
                assert(write_programs(s.programs, w.drop_last(), s.system_clock) == s.programs);
                assert(w.last().0 == p);
                assert(t.programs.dom() =~= s.programs.dom());
            },
            TxKind::ProgramDeployment => {
                let p = tx.program_id->0;
                assert(Seq::<u64>::empty().to_set() =~= Set::<u64>::empty());
                assert(t.nullifiers =~= s.nullifiers);
                assert(t.accounts =~= s.accounts);
                let ids = d.programs_to_deploy;
                assert(ids.drop_last() =~= Seq::<u64>::empty());
                assert(deploy_programs(s.programs, ids.drop_last(), s.system_clock) == s.programs);
                assert(ids.last() == p);
                let deployed = deploy_programs(s.programs, ids, s.system_clock);
                assert(d.program_writes =~= Seq::<(u64, u64, i64)>::empty());
                assert(t.programs == deployed);
                assert(t.programs.dom() =~= s.programs.dom().insert(p));
                match k {
                    StateKey::ProgramCode(q) => {
                        assert(q != p);
                    },
                    _ => {},
                }
            },
            TxKind::System => {
                assert(Seq::<u64>::empty().to_set() =~= Set::<u64>::empty());
                assert(t.nullifiers =~= s.nullifiers);
                assert(t.accounts =~= s.accounts);
                assert(t.programs == s.programs);
            },
        }
    }
}

proof fn lemma_first_used_agrees(ns: Seq<u64>, u1: Set<u64>, u2: Set<u64>)
    requires
        forall|i: int| 0 <= i < ns.len() ==> (u1.contains(#[trigger] ns[i]) <==> u2.contains(ns[i])),
    ensures
        first_used(ns, u1) == first_used(ns, u2),
    decreases ns.len(),
{
    if ns.len() > 0 {
        assert(u1.contains(ns[0]) <==> u2.contains(ns[0]));
        let rest = ns.drop_first();
        assert forall|i: int| 0 <= i < rest.len() implies (u1.contains(#[trigger] rest[i]) <==> u2.contains(
            rest[i],
        )) by {
            assert(rest[i] == ns[i + 1]);
        }
        lemma_first_used_agrees(rest, u1, u2);
    }
}

proof fn lemma_agree_on_key(s1: StateModel, s2: StateModel, keys: Seq<StateKey>, k: StateKey)
    requires
        agree_on(s1, s2, keys),
        keys.contains(k),
    ensures
        observed(s1, k) == observed(s2, k),
        version_in(s1.versions, k) == version_in(s2.versions, k),
{
    let i = choose|i: int| 0 <= i < keys.len() && keys[i] == k;
    assert(observed(s1, keys[i]) == observed(s2, keys[i]));
}

/// A transaction's result depends only on what its declared reads show.
pub proof fn lemma_result_depends_on_reads(tx: TxModel, s1: StateModel, s2: StateModel)
    requires
        declares_footprint(tx),
        agree_on(s1, s2, tx.reads),
    ensures
        tx_result(tx, s1) == tx_result(tx, s2),
{
    match tx.kind {
        TxKind::PublicTransfer => {
            lemma_agree_on_key(s1, s2, tx.reads, StateKey::AccountBalance(tx.signer));
        },
        TxKind::PrivateTransfer => {
            assert forall|i: int| 0 <= i < tx.nullifiers.len() implies (s1.nullifiers.contains(
                #[trigger] tx.nullifiers[i],
            ) <==> s2.nullifiers.contains(tx.nullifiers[i])) by {
                lemma_agree_on_key(s1, s2, tx.reads, StateKey::Nullifier(tx.nullifiers[i]));
            }
            lemma_first_used_agrees(tx.nullifiers, s1.nullifiers, s2.nullifiers);
        },
        TxKind::ProgramCall => {
            if tx.program_id is Some {
                lemma_agree_on_key(s1, s2, tx.reads, StateKey::ProgramCode(tx.program_id->0));
            }
        },
        TxKind::ProgramDeployment => {
            if tx.program_id is Some {
                lemma_agree_on_key(s1, s2, tx.reads, StateKey::ProgramCode(tx.program_id->0));
            }
        },
        TxKind::System => {},
    }
}

/// The number of declared writes of a sequence of transactions.
pub open spec fn total_writes(txs: Seq<TxModel>) -> nat
    decreases txs.len(),
{
    if txs.len() == 0 {
        0
    } else {
        total_writes(txs.drop_last()) + txs.last().writes.len()
    }
}

/// How many times `k` occurs in `keys`.
pub open spec fn key_count(keys: Seq<StateKey>, k: StateKey) -> nat
    decreases keys.len(),
{
    if keys.len() == 0 {
        0
    } else {
        key_count(keys.drop_last(), k) + if keys.last() == k {
            1nat
        } else {
            0nat
        }
    }
}

/// How many times the sequential run of `txs` from `s` bumps the version of
/// `k`: once for each write of `k` in each applied diff.
pub open spec fn applied_writes(s: StateModel, txs: Seq<TxModel>, k: StateKey) -> nat
    decreases txs.len(),
{
    if txs.len() == 0 {
        0
    } else {
        applied_writes(s, txs.drop_last(), k) + key_count(
            tx_result(txs.last(), seq_run(s, txs.drop_last()).0).1.written_keys,
            k,
        )
    }
}

/// No version wraps around during the sequential run of `txs` from `s`.
pub open spec fn versions_have_room(s: StateModel, txs: Seq<TxModel>) -> bool {
    forall|k: StateKey| version_in(s.versions, k) + #[trigger] applied_writes(s, txs, k) <= u64::MAX
}

/// Bumping the versions of `keys` raises the version of `k` by the number
/// of times `k` occurs, when that does not wrap around.
pub proof fn lemma_bump_versions_count(v: Map<StateKey, u64>, keys: Seq<StateKey>, k: StateKey)
    requires
        version_in(v, k) + key_count(keys, k) <= u64::MAX,
    ensures
        version_in(bump_versions(v, keys), k) == version_in(v, k) + key_count(keys, k),
        key_count(keys, k) <= keys.len(),
        keys.contains(k) ==> key_count(keys, k) > 0,
    decreases keys.len(),
{
    if keys.len() > 0 {
        let p = keys.drop_last();
        lemma_bump_versions_count(v, p, k);
        if keys.last() != k && keys.contains(k) {
            let i = choose|i: int| 0 <= i < keys.len() && keys[i] == k;
            assert(p[i] == k);
        }
    }
}

/// A transaction's applied writes are at most its declared writes.
proof fn lemma_key_count_bound(keys: Seq<StateKey>, k: StateKey)
    ensures
        key_count(keys, k) <= keys.len(),
    decreases keys.len(),
{
    if keys.len() > 0 {
        lemma_key_count_bound(keys.drop_last(), k);
    }
}

/// The run's bumps of any key are at most the block's declared writes.
proof fn lemma_applied_writes_bound(s: StateModel, txs: Seq<TxModel>, k: StateKey)
    ensures
        applied_writes(s, txs, k) <= total_writes(txs),
    decreases txs.len(),
{
    if txs.len() > 0 {
        lemma_applied_writes_bound(s, txs.drop_last(), k);
        let d = tx_result(txs.last(), seq_run(s, txs.drop_last()).0).1;
        lemma_result_shape(txs.last(), seq_run(s, txs.drop_last()).0);
        lemma_key_count_bound(d.written_keys, k);
        if d == empty_diff() {
            assert(d.written_keys.len() == 0);
        }
    }
}

/// A block that both parallel executors run exactly as the sequential one
/// does from `s`: its transactions declare their footprints, their positions
/// never decrease, and no version can wrap around during it.
pub open spec fn runs_as_sequential(s: StateModel, txs: Seq<TxModel>) -> bool {
    &&& all_declare_footprint(txs)
    &&& positions_nondecreasing(txs)
    &&& versions_have_room(s, txs)
}

/// Blocks of transactions that declare at most `m` writes each have at most
/// `m` writes per transaction in all.
pub proof fn lemma_total_writes_bound(txs: Seq<TxModel>, m: nat)
    requires
        forall|i: int| 0 <= i < txs.len() ==> (#[trigger] txs[i]).writes.len() <= m,
    ensures
        total_writes(txs) <= m * txs.len(),
    decreases txs.len(),
{
    if txs.len() > 0 {
        let n = txs.len();
        assert forall|i: int| 0 <= i < txs.drop_last().len() implies (#[trigger] txs.drop_last()[i]).writes.len()
            <= m by {
            assert(txs.drop_last()[i] == txs[i]);
        }
        lemma_total_writes_bound(txs.drop_last(), m);
        assert(txs.last() == txs[n - 1]);
        assert(m * (n - 1) + m == m * n) by (nonlinear_arith);
    }
}

/// A block whose transaction at position `i` is the `i`-th, declares its
/// footprint and at most four writes, run from a state in which no key has
/// a version yet, runs as the sequential executor runs it.
pub proof fn lemma_fresh_block_runs_as_sequential(s: StateModel, txs: Seq<TxModel>)
    requires
        forall|k: StateKey| version_in(s.versions, k) == 0,
        forall|i: int|
            0 <= i < txs.len() ==> {
                &&& declares_footprint(#[trigger] txs[i])
                &&& txs[i].index == i
                &&& txs[i].writes.len() <= 4
            },
        4 * txs.len() <= u64::MAX,
    ensures
        runs_as_sequential(s, txs),
{
    lemma_total_writes_bound(txs, 4);
    assert forall|k: StateKey| version_in(s.versions, k) + #[trigger] applied_writes(s, txs, k) <= u64::MAX by {
        lemma_applied_writes_bound(s, txs, k);
    }
    assert forall|i: int, j: int| 0 <= i <= j < txs.len() implies (#[trigger] txs[i]).index <= (
    #[trigger] txs[j]).index by {}
}

/// From `s0` to `s`, no version went down, and a key whose version stayed
/// shows the same.
pub open spec fn changes_are_versioned(s0: StateModel, s: StateModel) -> bool {
    forall|k: StateKey|
        #![trigger version_in(s.versions, k)]
        version_in(s.versions, k) >= version_in(s0.versions, k) && (version_in(s.versions, k) == version_in(
            s0.versions,
            k,
        ) ==> observed(s, k) == observed(s0, k))
}

proof fn lemma_optimistic_prefix(s: StateModel, txs: Seq<TxModel>)
    requires
        all_declare_footprint(txs),
        versions_have_room(s, txs),
    ensures
        optimistic_fold(s, txs).0 == seq_run(s, txs).0,
        optimistic_fold(s, txs).1 == seq_run(s, txs).1,
        changes_are_versioned(s, seq_run(s, txs).0),
        forall|k: StateKey|
            #![trigger version_in(seq_run(s, txs).0.versions, k)]
            version_in(seq_run(s, txs).0.versions, k) == version_in(s.versions, k) + applied_writes(s, txs, k),
    decreases txs.len(),
{
    if txs.len() > 0 {
        let p = txs.drop_last();
        let tx = txs.last();
        assert(all_declare_footprint(p)) by {
            assert forall|i: int| 0 <= i < p.len() implies declares_footprint(#[trigger] p[i]) by {
                assert(p[i] == txs[i]);
            }
        }
        assert(declares_footprint(tx)) by {
            assert(tx == txs[txs.len() - 1]);
        }
        assert(versions_have_room(s, p)) by {
            assert forall|k: StateKey| version_in(s.versions, k) + #[trigger] applied_writes(s, p, k) <= u64::MAX by {
                assert(applied_writes(s, txs, k) >= applied_writes(s, p, k));
            }
        }
        lemma_optimistic_prefix(s, p);
        let mid = seq_run(s, p).0;
        if versions_current(versions_of(tx.reads, s.versions), mid.versions) {
            assert forall|i: int| 0 <= i < tx.reads.len() implies observed(s, #[trigger] tx.reads[i]) == observed(
                mid,
                tx.reads[i],
            ) && version_in(s.versions, tx.reads[i]) == version_in(mid.versions, tx.reads[i]) by {
                let rv = versions_of(tx.reads, s.versions);
                assert(rv[i] == (tx.reads[i], version_in(s.versions, tx.reads[i])));
                assert(version_in(mid.versions, rv[i].0) == rv[i].1);
                assert(version_in(mid.versions, tx.reads[i]) == version_in(s.versions, tx.reads[i]));
                assert(changes_are_versioned(s, mid));
                assert(observed(mid, tx.reads[i]) == observed(s, tx.reads[i]));
            }
            lemma_result_depends_on_reads(tx, s, mid);
        }
        let d = tx_result(tx, mid).1;
        let next = apply_diff_spec(mid, d);
        assert(next == seq_run(s, txs).0);
        lemma_result_shape(tx, mid);
        assert forall|k: StateKey| #![trigger version_in(next.versions, k)]
            version_in(next.versions, k) >= version_in(s.versions, k) && (version_in(next.versions, k) == version_in(
                s.versions,
                k,
            ) ==> observed(next, k) == observed(s, k)) && version_in(next.versions, k) == version_in(s.versions, k)
                + applied_writes(s, txs, k) by {
            assert(version_in(mid.versions, k) >= version_in(s.versions, k));
            assert(version_in(mid.versions, k) == version_in(s.versions, k) + applied_writes(s, p, k));
            assert(applied_writes(s, txs, k) == applied_writes(s, p, k) + key_count(d.written_keys, k));
            assert(version_in(s.versions, k) + applied_writes(s, txs, k) <= u64::MAX);
            lemma_bump_versions_count(mid.versions, d.written_keys, k);
            if d.written_keys.contains(k) {
                assert(d.written_keys == tx.writes) by {
                    if d == empty_diff() {
                        assert(!Seq::<StateKey>::empty().contains(k));
                    }
                }
            } else {
                lemma_apply_frame(tx, mid, k);
            }
        }
    }
}

/// The optimistic executor's run ends in the state, with the outcomes, of
/// the sequential run, for transactions that declare what they read and
/// write, as long as no version counter wraps around during the block.
pub proof fn optimistic_run_is_sequential(s: StateModel, txs: Seq<TxModel>)
    requires
        all_declare_footprint(txs),
        versions_have_room(s, txs),
    ensures
        optimistic_fold(s, txs).0 == seq_run(s, txs).0,
        optimistic_fold(s, txs).1 == seq_run(s, txs).1,
{
    lemma_optimistic_prefix(s, txs);
}

/// The batches one after another.
pub open spec fn concat_all(bs: Seq<Seq<TxModel>>) -> Seq<TxModel>
    decreases bs.len(),
{
    if bs.len() == 0 {
        Seq::empty()
    } else {
        concat_all(bs.drop_last()) + bs.last()
    }
}

/// No transaction of the batch writes a key that a later one reads.
pub open spec fn independent(batch: Seq<TxModel>) -> bool {
    forall|i: int, j: int, k: StateKey|
        0 <= i < j < batch.len() ==> !(#[trigger] batch[i].writes.contains(k) && #[trigger] batch[j].reads.contains(k))
}

/// A batch whose transactions can run against the same state.
pub open spec fn good_batch(batch: Seq<TxModel>) -> bool {
    &&& independent(batch)
    &&& all_declare_footprint(batch)
    &&& positions_nondecreasing(batch)
}

/// What batch building keeps true of the block so far.
pub open spec fn batch_build_inv(txs: Seq<TxModel>, b: BatchBuild) -> bool {
    &&& concat_all(b.batches) + b.current == txs
    &&& forall|i: int| 0 <= i < b.batches.len() ==> good_batch(#[trigger] b.batches[i])
    &&& good_batch(b.current)
    &&& forall|i: int, k: StateKey| 0 <= i < b.current.len() && #[trigger] b.current[i].writes.contains(k) ==> b.writes.contains(k)
    &&& forall|i: int, k: StateKey| 0 <= i < b.current.len() && #[trigger] b.current[i].reads.contains(k) ==> b.reads.contains(k)
}

proof fn lemma_single_batch_good(tx: TxModel)
    requires
        declares_footprint(tx),
    ensures
        good_batch(seq![tx]),
{
}

proof fn lemma_nonempty_intersection(a: Seq<StateKey>, b: Set<StateKey>, k: StateKey)
    requires
        a.contains(k),
        b.contains(k),
    ensures
        a.to_set().intersect(b).len() > 0,
{
    a.lemma_cardinality_of_set();
    assert(a.to_set().intersect(b).contains(k));
    vstd::set_lib::lemma_len_intersect(a.to_set(), b);
}

proof fn lemma_batch_fold_inv(txs: Seq<TxModel>)
    requires
        all_declare_footprint(txs),
        positions_nondecreasing(txs),
    ensures
        batch_build_inv(txs, batch_fold(txs)),
    decreases txs.len(),
{
    if txs.len() == 0 {
        assert(concat_all(Seq::<Seq<TxModel>>::empty()) + Seq::<TxModel>::empty() =~= txs);
    } else {
        let p = txs.drop_last();
        let tx = txs.last();
        assert(all_declare_footprint(p)) by {
            assert forall|i: int| 0 <= i < p.len() implies declares_footprint(#[trigger] p[i]) by {
                assert(p[i] == txs[i]);
            }
        }
        assert(positions_nondecreasing(p)) by {
            assert forall|i: int, j: int| 0 <= i <= j < p.len() implies (#[trigger] p[i]).index <= (#[trigger] p[j]).index by {
                assert(p[i] == txs[i] && p[j] == txs[j]);
            }
        }
        assert(declares_footprint(tx)) by {
            assert(tx == txs[txs.len() - 1]);
        }
        lemma_batch_fold_inv(p);
        let b = batch_fold(p);
        let nb = batch_fold(txs);
        assert(nb == crate::executor::static_scheduler::batch_step(b, tx));
        lemma_single_batch_good(tx);
        let n = concat_all(b.batches).len();
        assert forall|i: int| 0 <= i < b.current.len() implies b.current[i] == txs[n + i] by {
            assert((concat_all(b.batches) + b.current)[n + i] == b.current[i]);
        }
        if is_barrier_spec(tx) {
            if b.current.len() > 0 {
                let bs = b.batches.push(b.current);
                assert(bs.drop_last() == b.batches);
                assert(concat_all(bs) == concat_all(b.batches) + b.current);
                assert(nb.batches.drop_last() == bs);
                assert(concat_all(nb.batches) + nb.current =~= txs);
                assert forall|i: int| 0 <= i < nb.batches.len() implies good_batch(#[trigger] nb.batches[i]) by {
                    if i < b.batches.len() {
                        assert(nb.batches[i] == b.batches[i]);
                    }
                }
            } else {
                assert(nb.batches.drop_last() == b.batches);
                assert(concat_all(nb.batches) + nb.current =~= txs);
                assert forall|i: int| 0 <= i < nb.batches.len() implies good_batch(#[trigger] nb.batches[i]) by {
                    if i < b.batches.len() {
                        assert(nb.batches[i] == b.batches[i]);
                    }
                }
            }
        } else {
            let c = crate::executor::static_scheduler::batch_conflicts(tx, b.reads, b.writes);
            if c > 0 {
                assert(nb.batches.drop_last() == b.batches);
                assert(nb.batches.last() == b.current);
                assert(concat_all(nb.batches) == concat_all(b.batches) + b.current);
                assert(nb.current == seq![tx]);
                assert(txs =~= p + seq![tx]);
                assert(concat_all(nb.batches) + nb.current =~= txs);
                assert forall|i: int| 0 <= i < nb.batches.len() implies good_batch(#[trigger] nb.batches[i]) by {
                    if i < b.batches.len() {
                        assert(nb.batches[i] == b.batches[i]);
                    }
                }
                assert forall|i: int, k: StateKey| 0 <= i < nb.current.len() && #[trigger] nb.current[i].writes.contains(k)
                    implies nb.writes.contains(k) by {
                    assert(nb.current[i] == tx);
                }
                assert forall|i: int, k: StateKey| 0 <= i < nb.current.len() && #[trigger] nb.current[i].reads.contains(k)
                    implies nb.reads.contains(k) by {
                    assert(nb.current[i] == tx);
                }
            } else {
                let cur = b.current.push(tx);
                assert(nb.current == cur);
                assert(nb.batches == b.batches);
                assert(concat_all(b.batches) + b.current == p);
                assert(concat_all(b.batches) + cur =~= (concat_all(b.batches) + b.current).push(tx));
                assert(txs =~= p.push(tx));
                assert(concat_all(nb.batches) + nb.current =~= txs);
                assert(independent(cur)) by {
                    assert forall|i: int, j: int, k: StateKey| 0 <= i < j < cur.len() implies !(#[trigger] cur[i].writes.contains(k)
                        && #[trigger] cur[j].reads.contains(k)) by {
                        if j == b.current.len() {
                            if cur[i].writes.contains(k) && cur[j].reads.contains(k) {
                                assert(b.current[i] == cur[i]);
                                assert(b.writes.contains(k));
                                lemma_nonempty_intersection(tx.reads, b.writes, k);
                            }
                        } else {
                            assert(cur[i] == b.current[i] && cur[j] == b.current[j]);
                        }
                    }
                }
                assert(all_declare_footprint(cur)) by {
                    assert forall|i: int| 0 <= i < cur.len() implies declares_footprint(#[trigger] cur[i]) by {
                        if i < b.current.len() {
                            assert(cur[i] == b.current[i]);
                        }
                    }
                }
                assert(positions_nondecreasing(cur)) by {
                    assert forall|i: int, j: int| 0 <= i <= j < cur.len() implies (#[trigger] cur[i]).index
                        <= (#[trigger] cur[j]).index by {
                        if j == b.current.len() {
                            if i < j {
                                assert(cur[i] == txs[n + i]);
                                assert(cur[j] == txs[txs.len() - 1]);
                            }
                        } else {
                            assert(cur[i] == b.current[i] && cur[j] == b.current[j]);
                        }
                    }
                }
                assert forall|i: int, k: StateKey| 0 <= i < nb.current.len() && #[trigger] nb.current[i].writes.contains(k)
                    implies nb.writes.contains(k) by {
                    if i < b.current.len() {
                        assert(nb.current[i] == b.current[i]);
                    } else {
                        assert(nb.current[i] == tx);
                        assert(tx.writes.to_set().contains(k));
                    }
                }
                assert forall|i: int, k: StateKey| 0 <= i < nb.current.len() && #[trigger] nb.current[i].reads.contains(k)
                    implies nb.reads.contains(k) by {
                    if i < b.current.len() {
                        assert(nb.current[i] == b.current[i]);
                    } else {
                        assert(nb.current[i] == tx);
                        assert(tx.reads.to_set().contains(k));
                    }
                }
            }
        }
    }
}

/// Running `a` then `b` is running `a + b`.
pub proof fn lemma_seq_run_append(s: StateModel, a: Seq<TxModel>, b: Seq<TxModel>)
    ensures
        seq_run(s, a + b).0 == seq_run(seq_run(s, a).0, b).0,
        seq_run(s, a + b).1 == seq_run(s, a).1 + seq_run(seq_run(s, a).0, b).1,
    decreases b.len(),
{
    if b.len() == 0 {
        assert(a + b =~= a);
        assert(seq_run(s, a).1 + Seq::<OutcomeModel>::empty() =~= seq_run(s, a).1);
    } else {
        lemma_seq_run_append(s, a, b.drop_last());
        assert((a + b).drop_last() =~= a + b.drop_last());
        assert((a + b).last() == b.last());
        let mid = seq_run(s, a).0;
        assert(seq_run(s, a).1 + seq_run(mid, b).1 =~= (seq_run(s, a).1 + seq_run(mid, b.drop_last()).1).push(
            tx_result(b.last(), seq_run(mid, b.drop_last()).0).0,
        ));
    }
}

/// The outcomes of a sequential run are for the transactions' positions, in order.
pub proof fn lemma_seq_run_positions(s: StateModel, txs: Seq<TxModel>)
    ensures
        seq_run(s, txs).1.len() == txs.len(),
        forall|i: int| 0 <= i < txs.len() ==> (#[trigger] seq_run(s, txs).1[i]).index == txs[i].index,
    decreases txs.len(),
{
    if txs.len() > 0 {
        lemma_seq_run_positions(s, txs.drop_last());
        lemma_result_shape(txs.last(), seq_run(s, txs.drop_last()).0);
        assert forall|i: int| 0 <= i < txs.len() implies (#[trigger] seq_run(s, txs).1[i]).index == txs[i].index by {
            if i < txs.len() - 1 {
                assert(seq_run(s, txs).1[i] == seq_run(s, txs.drop_last()).1[i]);
                assert(txs.drop_last()[i] == txs[i]);
            }
        }
    }
}

proof fn lemma_batch_prefix(batch: Seq<TxModel>, m: StateModel, j: int)
    requires
        good_batch(batch),
        0 <= j <= batch.len(),
    ensures
        apply_results(m, batch_results(batch, m).take(j)) == seq_run(m, batch.take(j)),
        forall|jj: int| j <= jj < batch.len() ==> agree_on(m, seq_run(m, batch.take(j)).0, #[trigger] batch[jj].reads),
    decreases j,
{
    if j == 0 {
        assert(batch_results(batch, m).take(0) =~= Seq::<(OutcomeModel, DiffModel)>::empty());
        assert(batch.take(0) =~= Seq::<TxModel>::empty());
    } else {
        lemma_batch_prefix(batch, m, j - 1);
        let prev = batch.take(j - 1);
        let sj = seq_run(m, prev).0;
        let tx = batch[j - 1];
        assert(declares_footprint(tx));
        assert(agree_on(m, sj, batch[j - 1].reads));
        lemma_result_depends_on_reads(tx, m, sj);
        assert(batch.take(j).drop_last() =~= prev);
        assert(batch.take(j).last() == tx);
        let rs = batch_results(batch, m);
        assert(rs.take(j).drop_last() =~= rs.take(j - 1));
        assert(rs.take(j).last() == tx_result(tx, m));
        let next = seq_run(m, batch.take(j)).0;
        assert(next == apply_diff_spec(sj, tx_result(tx, sj).1));
        lemma_result_shape(tx, sj);
        assert forall|jj: int| j <= jj < batch.len() implies agree_on(m, next, #[trigger] batch[jj].reads) by {
            assert(agree_on(m, sj, batch[jj].reads));
            let reads = batch[jj].reads;
            assert forall|i: int| 0 <= i < reads.len() implies observed(m, #[trigger] reads[i]) == observed(next, reads[i])
                && version_in(m.versions, reads[i]) == version_in(next.versions, reads[i]) by {
                let k = reads[i];
                assert(batch[jj].reads.contains(k));
                assert(!(batch[j - 1].writes.contains(k) && batch[jj].reads.contains(k)));
                assert(!tx_result(tx, sj).1.written_keys.contains(k)) by {
                    if tx_result(tx, sj).1 == empty_diff() {
                        assert(!Seq::<StateKey>::empty().contains(k));
                    }
                }
                lemma_apply_frame(tx, sj, k);
            }
        }
    }
}

/// A good batch applied against one state ends where running it in order would.
proof fn lemma_batch_is_sequential(batch: Seq<TxModel>, m: StateModel)
    requires
        good_batch(batch),
    ensures
        apply_results(m, sort_by(batch_results(batch, m), result_key())) == seq_run(m, batch),
{
    let rs = batch_results(batch, m);
    assert(nondecreasing_by(rs, result_key())) by {
        assert forall|i: int, j: int| 0 <= i <= j < rs.len() implies result_key()(#[trigger] rs[i]) <= result_key()(
            #[trigger] rs[j],
        ) by {
            lemma_result_shape(batch[i], m);
            lemma_result_shape(batch[j], m);
        }
    }
    lemma_sort_by_identity(rs, result_key());
    lemma_batch_prefix(batch, m, batch.len() as int);
    assert(rs.take(batch.len() as int) =~= rs);
    assert(batch.take(batch.len() as int) =~= batch);
}

proof fn lemma_static_fold(s: StateModel, bs: Seq<Seq<TxModel>>)
    requires
        forall|i: int| 0 <= i < bs.len() ==> good_batch(#[trigger] bs[i]),
    ensures
        static_fold(s, bs) == seq_run(s, concat_all(bs)),
    decreases bs.len(),
{
    if bs.len() > 0 {
        let p = bs.drop_last();
        assert forall|i: int| 0 <= i < p.len() implies good_batch(#[trigger] p[i]) by {
            assert(p[i] == bs[i]);
        }
        lemma_static_fold(s, p);
        let mid = seq_run(s, concat_all(p)).0;
        assert(good_batch(bs.last())) by {
            assert(bs.last() == bs[bs.len() - 1]);
        }
        lemma_batch_is_sequential(bs.last(), mid);
        lemma_seq_run_append(s, concat_all(p), bs.last());
    }
}

/// The static scheduler's run ends in the state, with the outcomes, of the
/// sequential run, for transactions that declare what they read and write
/// and whose positions never decrease along the block.
pub proof fn static_run_is_sequential(s: StateModel, txs: Seq<TxModel>)
    requires
        all_declare_footprint(txs),
        positions_nondecreasing(txs),
    ensures
        static_run(s, txs).0 == seq_run(s, txs).0,
        static_run(s, txs).1 == seq_run(s, txs).1,
{
    lemma_batch_fold_inv(txs);
    let b = batch_fold(txs);
    let bs = static_batches(txs);
    if b.current.len() > 0 {
        assert(bs.drop_last() == b.batches);
        assert(concat_all(bs) == concat_all(b.batches) + b.current);
        assert forall|i: int| 0 <= i < bs.len() implies good_batch(#[trigger] bs[i]) by {
            if i < b.batches.len() {
                assert(bs[i] == b.batches[i]);
            }
        }
    } else {
        assert(concat_all(bs) =~= txs);
    }
    assert(concat_all(bs) == txs);
    lemma_static_fold(s, bs);
    let outs = seq_run(s, txs).1;
    lemma_seq_run_positions(s, txs);
    assert(nondecreasing_by(outs, outcome_key())) by {
        assert forall|i: int, j: int| 0 <= i <= j < outs.len() implies outcome_key()(#[trigger] outs[i]) <= outcome_key()(
            #[trigger] outs[j],
        ) by {
            assert(outs[i].index == txs[i].index);
            assert(outs[j].index == txs[j].index);
        }
    }
    lemma_sort_by_identity(outs, outcome_key());
}

proof fn lemma_first_used_some(ns: Seq<u64>, used: Set<u64>, n: u64)
    requires
        ns.contains(n),
        used.contains(n),
    ensures
        first_used(ns, used) is Some,
        used.contains(first_used(ns, used)->0),
    decreases ns.len(),
{
    if !used.contains(ns[0]) {
        let i = choose|i: int| 0 <= i < ns.len() && ns[i] == n;
        assert(i > 0);
        assert(ns.drop_first()[i - 1] == n);
        lemma_first_used_some(ns.drop_first(), used, n);
    }
}

/// Once a private transfer consuming nullifier `n` is applied, any private
/// transfer that consumes `n` is refused, naming a nullifier already used.
pub proof fn nullifier_cannot_be_spent_twice(s: StateModel, first: TxModel, second: TxModel, n: u64)
    requires
        first.kind is PrivateTransfer,
        tx_result(first, s).0.status is Accepted,
        first.nullifiers.contains(n),
        second.kind is PrivateTransfer,
        second.nullifiers.contains(n),
    ensures
        ({
            let after = apply_diff_spec(s, tx_result(first, s).1);
            &&& tx_result(second, after).0.status is Rejected
            &&& tx_result(second, after).0.status->Rejected_0 == crate::tx::reused_nullifier_reason(
                first_used(second.nullifiers, after.nullifiers)->0,
            )
            &&& after.nullifiers.contains(first_used(second.nullifiers, after.nullifiers)->0)
            &&& tx_result(second, after).1 == empty_diff()
        }),
{
    let after = apply_diff_spec(s, tx_result(first, s).1);
    assert(first.nullifiers.to_set().contains(n));
    assert(after.nullifiers.contains(n));
    lemma_first_used_some(second.nullifiers, after.nullifiers, n);
}

/// Once a deployment of program `p` is applied, any deployment of `p` is
/// refused as "program already deployed", and any call of `p` with a slot
/// is accepted.
pub proof fn deployed_program_stays_deployed(s: StateModel, deploy: TxModel, next: TxModel)
    requires
        deploy.kind is ProgramDeployment,
        tx_result(deploy, s).0.status is Accepted,
        next.program_id == deploy.program_id,
    ensures
        ({
            let after = apply_diff_spec(s, tx_result(deploy, s).1);
            &&& next.kind is ProgramDeployment ==> tx_result(next, after).0.status == crate::model::StatusModel::Rejected(
                "program already deployed"@,
            )
            &&& (next.kind is ProgramCall && next.program_key is Some) ==> tx_result(next, after).0.status is Accepted
        }),
{
    let d = tx_result(deploy, s).1;
    let after = apply_diff_spec(s, d);
    let p = deploy.program_id->0;
    assert(d.programs_to_deploy.drop_last() =~= Seq::<u64>::empty());
    assert(deploy_programs(s.programs, d.programs_to_deploy.drop_last(), s.system_clock) == s.programs);
    assert(d.programs_to_deploy.last() == p);
    assert(d.program_writes =~= Seq::<(u64, u64, i64)>::empty());
    assert(after.programs.contains_key(p));
}

/// A refused transaction changes nothing.
pub proof fn refused_transaction_changes_nothing(tx: TxModel, s: StateModel)
    requires
        tx_result(tx, s).0.status is Rejected,
    ensures
        apply_diff_spec(s, tx_result(tx, s).1) == s,
{
    lemma_result_shape(tx, s);
    let t = apply_diff_spec(s, empty_diff());
    assert(t.accounts =~= s.accounts);
    assert(t.nonces =~= s.nonces);
    assert(Seq::<u64>::empty().to_set() =~= Set::<u64>::empty());
    assert(t.nullifiers =~= s.nullifiers);
    assert(t.commitments =~= s.commitments);
    assert(t.programs == s.programs);
    assert(t.versions == s.versions);
    assert(t =~= s);
}

/// An accepted public transfer between two accounts moves `amount` from the
/// signer's balance to the receiver's (with wrap-around, as unchecked
/// addition does in a release build), bumps the signer's nonce, bumps the
/// version of each declared write, and changes no other balance.
pub proof fn transfer_moves_amount(tx: TxModel, s: StateModel)
    requires
        tx.kind is PublicTransfer,
        tx_result(tx, s).0.status is Accepted,
        tx.receiver is Some,
        tx.receiver->0 != tx.signer,
    ensures
        ({
            let after = apply_diff_spec(s, tx_result(tx, s).1);
            let r = tx.receiver->0;
            &&& balance_in(after.accounts, tx.signer) == vstd::wrapping::i64_specs::wrapping_add(
                balance_in(s.accounts, tx.signer),
                (-tx.amount) as i64,
            )
            &&& balance_in(after.accounts, r) == vstd::wrapping::i64_specs::wrapping_add(balance_in(s.accounts, r), tx.amount)
            &&& balance_in(s.accounts, tx.signer) >= tx.amount > 0
            &&& crate::state::nonce_in(after.nonces, tx.signer) == vstd::wrapping::u64_specs::wrapping_add(
                crate::state::nonce_in(s.nonces, tx.signer),
                1,
            )
            &&& forall|a: u64| a != tx.signer && a != r ==> balance_in(after.accounts, a) == balance_in(s.accounts, a)
            &&& after.versions == bump_versions(s.versions, tx.writes)
        }),
{
}

/// The fingerprint of a state depends only on what the state holds, not on
/// the order in which its entries were inserted.
pub proof fn hash_depends_only_on_contents(s1: StateModel, s2: StateModel)
    requires
        s1.accounts == s2.accounts,
        s1.nonces == s2.nonces,
        s1.nullifiers == s2.nullifiers,
        s1.commitments == s2.commitments,
        s1.programs == s2.programs,
        s1.system_clock == s2.system_clock,
        s1.global_config == s2.global_config,
        s1.versions == s2.versions,
    ensures
        crate::hash::state_hash_spec(s1) == crate::hash::state_hash_spec(s2),
{
    assert(s1 == s2);
}

/// Setting the balance or nonce of one account and of another gives the
/// same state in either order.
pub proof fn account_writes_commute(m: Map<u64, crate::model::Account>, n: Map<u64, u64>, a: u64, x: i64, b: u64, y: i64, na: u64, nb: u64)
    requires
        a != b,
    ensures
        m.insert(a, crate::model::Account { balance: x }).insert(b, crate::model::Account { balance: y }) == m.insert(
            b,
            crate::model::Account { balance: y },
        ).insert(a, crate::model::Account { balance: x }),
        n.insert(a, na).insert(b, nb) == n.insert(b, nb).insert(a, na),
{
    assert(m.insert(a, crate::model::Account { balance: x }).insert(b, crate::model::Account { balance: y }) =~= m.insert(
        b,
        crate::model::Account { balance: y },
    ).insert(a, crate::model::Account { balance: x }));
    assert(n.insert(a, na).insert(b, nb) =~= n.insert(b, nb).insert(a, na));
}

/// No transaction of the batch writes a key that another one reads or writes.
pub open spec fn conflict_free(batch: Seq<TxModel>) -> bool {
    forall|i: int, j: int, k: StateKey|
        0 <= i < batch.len() && 0 <= j < batch.len() && i != j && #[trigger] batch[i].writes.contains(k) ==> !(
        #[trigger] batch[j]).writes.contains(k) && !batch[j].reads.contains(k)
}

/// A batch as the static scheduler forms it: not empty, conflict-free, and
/// either a single transaction or free of barriers.
pub open spec fn separated(batch: Seq<TxModel>) -> bool {
    &&& batch.len() > 0
    &&& conflict_free(batch)
    &&& batch.len() > 1 ==> forall|j: int| 0 <= j < batch.len() ==> !is_barrier_spec(#[trigger] batch[j])
}

spec fn separation_inv(txs: Seq<TxModel>, b: BatchBuild) -> bool {
    &&& concat_all(b.batches) + b.current == txs
    &&& forall|i: int| 0 <= i < b.batches.len() ==> separated(#[trigger] b.batches[i])
    &&& conflict_free(b.current)
    &&& forall|j: int| 0 <= j < b.current.len() ==> !is_barrier_spec(#[trigger] b.current[j])
    &&& b.current.len() == 0 ==> b.reads == Set::<StateKey>::empty() && b.writes == Set::<StateKey>::empty()
    &&& forall|i: int, k: StateKey| 0 <= i < b.current.len() && #[trigger] b.current[i].writes.contains(k) ==> b.writes.contains(k)
    &&& forall|i: int, k: StateKey| 0 <= i < b.current.len() && #[trigger] b.current[i].reads.contains(k) ==> b.reads.contains(k)
}

proof fn lemma_batch_fold_separation(txs: Seq<TxModel>)
    ensures
        separation_inv(txs, batch_fold(txs)),
    decreases txs.len(),
{
    if txs.len() == 0 {
        assert(concat_all(Seq::<Seq<TxModel>>::empty()) + Seq::<TxModel>::empty() =~= txs);
    } else {
        let p = txs.drop_last();
        let tx = txs.last();
        lemma_batch_fold_separation(p);
        let b = batch_fold(p);
        let nb = batch_fold(txs);
        assert(nb == crate::executor::static_scheduler::batch_step(b, tx));
        assert(concat_all(b.batches) + b.current == p);
        assert(txs =~= p.push(tx));
        if is_barrier_spec(tx) {
            if b.current.len() > 0 {
                let bs = b.batches.push(b.current);
                assert(bs.drop_last() == b.batches);
                assert(concat_all(bs) == concat_all(b.batches) + b.current);
                assert(nb.batches.drop_last() == bs);
                assert(concat_all(nb.batches) =~= concat_all(bs) + seq![tx]);
                assert(concat_all(nb.batches) + nb.current =~= txs);
                assert forall|i: int| 0 <= i < nb.batches.len() implies separated(#[trigger] nb.batches[i]) by {
                    if i < b.batches.len() {
                        assert(nb.batches[i] == b.batches[i]);
                    } else if i == b.batches.len() {
                        assert(nb.batches[i] == b.current);
                    } else {
                        assert(nb.batches[i] == seq![tx]);
                    }
                }
            } else {
                assert(nb.batches.drop_last() == b.batches);
                assert(concat_all(b.batches) =~= p);
                assert(concat_all(nb.batches) + nb.current =~= txs);
                assert forall|i: int| 0 <= i < nb.batches.len() implies separated(#[trigger] nb.batches[i]) by {
                    if i < b.batches.len() {
                        assert(nb.batches[i] == b.batches[i]);
                    } else {
                        assert(nb.batches[i] == seq![tx]);
                    }
                }
            }
        } else {
            let c = crate::executor::static_scheduler::batch_conflicts(tx, b.reads, b.writes);
            if c > 0 {
                assert(b.current.len() > 0) by {
                    if b.current.len() == 0 {
                        assert(tx.writes.to_set().intersect(Set::<StateKey>::empty()) =~= Set::<StateKey>::empty());
                        assert(tx.reads.to_set().intersect(Set::<StateKey>::empty()) =~= Set::<StateKey>::empty());
                    }
                }
                assert(nb.batches.drop_last() == b.batches);
                assert(nb.batches.last() == b.current);
                assert(concat_all(nb.batches) == concat_all(b.batches) + b.current);
                assert(nb.current == seq![tx]);
                assert(concat_all(nb.batches) + nb.current =~= txs);
                assert forall|i: int| 0 <= i < nb.batches.len() implies separated(#[trigger] nb.batches[i]) by {
                    if i < b.batches.len() {
                        assert(nb.batches[i] == b.batches[i]);
                    } else {
                        assert(nb.batches[i] == b.current);
                    }
                }
                assert forall|i: int, k: StateKey| 0 <= i < nb.current.len() && #[trigger] nb.current[i].writes.contains(k)
                    implies nb.writes.contains(k) by {
                    assert(nb.current[i] == tx);
                }
                assert forall|i: int, k: StateKey| 0 <= i < nb.current.len() && #[trigger] nb.current[i].reads.contains(k)
                    implies nb.reads.contains(k) by {
                    assert(nb.current[i] == tx);
                }
            } else {
                let cur = b.current.push(tx);
                assert(nb.current == cur);
                assert(nb.batches == b.batches);
                assert(concat_all(b.batches) + cur =~= (concat_all(b.batches) + b.current).push(tx));
                assert(concat_all(nb.batches) + nb.current =~= txs);
                let n = b.current.len() as int;
                assert(conflict_free(cur)) by {
                    assert forall|i: int, j: int, k: StateKey|
                        0 <= i < cur.len() && 0 <= j < cur.len() && i != j && #[trigger] cur[i].writes.contains(k) implies !(
                        #[trigger] cur[j]).writes.contains(k) && !cur[j].reads.contains(k) by {
                        if i == n {
                            if cur[j].writes.contains(k) {
                                assert(cur[j] == b.current[j]);
                                lemma_nonempty_intersection(tx.writes, b.writes, k);
                            }
                            if cur[j].reads.contains(k) {
                                assert(cur[j] == b.current[j]);
                                lemma_nonempty_intersection(tx.writes, b.reads, k);
                            }
                        } else if j == n {
                            assert(cur[i] == b.current[i]);
                            if cur[j].reads.contains(k) {
                                lemma_nonempty_intersection(tx.reads, b.writes, k);
                            }
                            if cur[j].writes.contains(k) {
                                lemma_nonempty_intersection(tx.writes, b.writes, k);
                            }
                        } else {
                            assert(cur[i] == b.current[i] && cur[j] == b.current[j]);
                        }
                    }
                }
                assert forall|j: int| 0 <= j < nb.current.len() implies !is_barrier_spec(#[trigger] nb.current[j]) by {
                    if j < n {
                        assert(nb.current[j] == b.current[j]);
                    }
                }
                assert forall|i: int, k: StateKey| 0 <= i < nb.current.len() && #[trigger] nb.current[i].writes.contains(k)
                    implies nb.writes.contains(k) by {
                    if i < n {
                        assert(nb.current[i] == b.current[i]);
                    } else {
                        assert(nb.current[i] == tx);
                        assert(tx.writes.to_set().contains(k));
                    }
                }
                assert forall|i: int, k: StateKey| 0 <= i < nb.current.len() && #[trigger] nb.current[i].reads.contains(k)
                    implies nb.reads.contains(k) by {
                    if i < n {
                        assert(nb.current[i] == b.current[i]);
                    } else {
                        assert(nb.current[i] == tx);
                        assert(tx.reads.to_set().contains(k));
                    }
                }
            }
        }
    }
}

/// The static batches cut the block into consecutive pieces, in order. No
/// piece is empty; within a piece, no transaction writes a key that another
/// reads or writes; and a barrier is always a piece by itself.
pub proof fn static_batches_partition_block(txs: Seq<TxModel>)
    ensures
        concat_all(static_batches(txs)) == txs,
        forall|i: int| 0 <= i < static_batches(txs).len() ==> separated(#[trigger] static_batches(txs)[i]),
{
    lemma_batch_fold_separation(txs);
    let b = batch_fold(txs);
    let bs = static_batches(txs);
    if b.current.len() > 0 {
        assert(bs.drop_last() == b.batches);
        assert(concat_all(bs) == concat_all(b.batches) + b.current);
        assert forall|i: int| 0 <= i < bs.len() implies separated(#[trigger] bs[i]) by {
            if i < b.batches.len() {
                assert(bs[i] == b.batches[i]);
            }
        }
    } else {
        assert(concat_all(bs) =~= txs);
    }
}

/// Conflict is symmetric, and a barrier conflicts with every transaction.
pub proof fn conflict_is_symmetric(a: TxModel, b: TxModel)
    ensures
        conflict_spec(a, b) == conflict_spec(b, a),
        is_barrier_spec(a) ==> conflict_spec(a, b),
{
}

/// On a block that runs as the sequential executor runs it (every block
/// the workload generators build, from the state they build), the static
/// scheduler and the optimistic executor both end in the sequential run's
/// state with its outcomes: the correctness check never fails there.
pub proof fn parallel_runs_are_sequential(s: StateModel, txs: Seq<TxModel>)
    requires
        runs_as_sequential(s, txs),
    ensures
        static_run(s, txs) == seq_run(s, txs),
        optimistic_fold(s, txs).0 == seq_run(s, txs).0,
        optimistic_fold(s, txs).1 == seq_run(s, txs).1,
{
    static_run_is_sequential(s, txs);
    optimistic_run_is_sequential(s, txs);
}

/// The transaction an outcome is for: its id and its position.
pub open spec fn position_of() -> spec_fn(OutcomeModel) -> (u64, usize) {
    |o: OutcomeModel| (o.tx_id, o.index)
}

/// The id and position of a transaction.
pub open spec fn tx_position_of() -> spec_fn(TxModel) -> (u64, usize) {
    |t: TxModel| (t.id, t.index)
}

/// The id and position of the transaction a result is for.
pub open spec fn result_position_of() -> spec_fn((OutcomeModel, DiffModel)) -> (u64, usize) {
    |r: (OutcomeModel, DiffModel)| (r.0.tx_id, r.0.index)
}

/// The position part of an id and a position.
pub open spec fn position_key() -> spec_fn((u64, usize)) -> int {
    |p: (u64, usize)| p.1 as int
}

/// Applying results gives their outcomes, in order.
proof fn lemma_apply_results_outcomes(s: StateModel, rs: Seq<(OutcomeModel, DiffModel)>)
    ensures
        apply_results(s, rs).1 =~= rs.map_values(|r: (OutcomeModel, DiffModel)| r.0),
    decreases rs.len(),
{
    if rs.len() > 0 {
        lemma_apply_results_outcomes(s, rs.drop_last());
        assert(rs.map_values(|r: (OutcomeModel, DiffModel)| r.0) =~= rs.drop_last().map_values(
            |r: (OutcomeModel, DiffModel)| r.0,
        ).push(rs.last().0));
    }
}

/// A batch's run gives one outcome for each of its transactions.
proof fn lemma_batch_positions(batch: Seq<TxModel>, mid: StateModel)
    ensures
        apply_results(mid, sort_by(batch_results(batch, mid), result_key())).1.map_values(position_of()).to_multiset()
            =~= batch.map_values(tx_position_of()).to_multiset(),
        apply_results(mid, sort_by(batch_results(batch, mid), result_key())).1.len() == batch.len(),
{
    let br = batch_results(batch, mid);
    let rs = sort_by(br, result_key());
    lemma_apply_results_outcomes(mid, rs);
    lemma_sort_by_sorted(br, result_key());
    assert forall|x: (OutcomeModel, DiffModel)| #[trigger] position_key()(result_position_of()(x)) == result_key()(x) by {}
    lemma_sort_by_map(br, result_key(), result_position_of(), position_key());
    lemma_sort_by_to_multiset(br.map_values(result_position_of()), position_key());
    assert(apply_results(mid, rs).1.map_values(position_of()) =~= rs.map_values(result_position_of()));
    assert forall|i: int| 0 <= i < br.len() implies br.map_values(result_position_of())[i] == batch.map_values(
        tx_position_of(),
    )[i] by {
        lemma_result_shape(batch[i], mid);
    }
    assert(br.map_values(result_position_of()) =~= batch.map_values(tx_position_of()));
}

/// Running batches in turn gives one outcome for each transaction of the batches.
proof fn lemma_static_fold_positions(s: StateModel, bs: Seq<Seq<TxModel>>)
    ensures
        static_fold(s, bs).1.map_values(position_of()).to_multiset() =~= concat_all(bs).map_values(
            tx_position_of(),
        ).to_multiset(),
        static_fold(s, bs).1.len() == concat_all(bs).len(),
    decreases bs.len(),
{
    if bs.len() > 0 {
        lemma_static_fold_positions(s, bs.drop_last());
        let (mid, outs) = static_fold(s, bs.drop_last());
        lemma_batch_positions(bs.last(), mid);
        let more = apply_results(mid, sort_by(batch_results(bs.last(), mid), result_key())).1;
        assert((outs + more).map_values(position_of()) =~= outs.map_values(position_of()) + more.map_values(
            position_of(),
        ));
        let before = concat_all(bs.drop_last());
        assert((before + bs.last()).map_values(tx_position_of()) =~= before.map_values(tx_position_of())
            + bs.last().map_values(tx_position_of()));
        vstd::seq_lib::lemma_multiset_commutative(outs.map_values(position_of()), more.map_values(position_of()));
        vstd::seq_lib::lemma_multiset_commutative(
            before.map_values(tx_position_of()),
            bs.last().map_values(tx_position_of()),
        );
    } else {
        assert(static_fold(s, bs).1.map_values(position_of()) =~= Seq::<(u64, usize)>::empty());
        assert(concat_all(bs).map_values(tx_position_of()) =~= Seq::<(u64, usize)>::empty());
    }
}

/// Whatever the block, the static scheduler gives one outcome for each of
/// its transactions (the same ids and positions, as a multiset), in order
/// of position.
pub proof fn static_outcomes_cover_the_block(s: StateModel, txs: Seq<TxModel>)
    ensures
        static_run(s, txs).1.len() == txs.len(),
        nondecreasing_by(static_run(s, txs).1, outcome_key()),
        static_run(s, txs).1.map_values(position_of()).to_multiset() == txs.map_values(tx_position_of()).to_multiset(),
{
    static_batches_partition_block(txs);
    lemma_static_fold_positions(s, static_batches(txs));
    let outs = static_fold(s, static_batches(txs)).1;
    lemma_sort_by_sorted(outs, outcome_key());
    assert forall|o: OutcomeModel| #[trigger] position_key()(position_of()(o)) == outcome_key()(o) by {}
    lemma_sort_by_map(outs, outcome_key(), position_of(), position_key());
    lemma_sort_by_to_multiset(outs.map_values(position_of()), position_key());
}

/// An accepted transaction that a signer pays for (a public or private
/// transfer, or a program call) advances its signer's nonce by one (with
/// wrap-around, as unchecked addition does in a release build); deployments
/// and system transactions leave every nonce as it was; and no other
/// account's nonce changes.
pub proof fn accepted_transaction_advances_nonce(tx: TxModel, s: StateModel)
    requires
        tx_result(tx, s).0.status is Accepted,
    ensures
        ({
            let after = apply_diff_spec(s, tx_result(tx, s).1);
            &&& (tx.kind is PublicTransfer || tx.kind is PrivateTransfer || tx.kind is ProgramCall)
                ==> crate::state::nonce_in(after.nonces, tx.signer) == vstd::wrapping::u64_specs::wrapping_add(
                crate::state::nonce_in(s.nonces, tx.signer),
                1,
            )
            &&& (tx.kind is ProgramDeployment || tx.kind is System) ==> after.nonces == s.nonces
            &&& forall|a: u64|
                a != tx.signer ==> crate::state::nonce_in(after.nonces, a) == crate::state::nonce_in(s.nonces, a)
        }),
{
    let after = apply_diff_spec(s, tx_result(tx, s).1);
    if tx.kind is ProgramDeployment || tx.kind is System {
        assert(after.nonces =~= s.nonces);
    }
}

/// An accepted private transfer marks each of its nullifiers used and
/// appends its commitments, in order, after the ones already logged.
pub proof fn accepted_private_transfer_spends_and_logs(tx: TxModel, s: StateModel)
    requires
        tx.kind is PrivateTransfer,
        tx_result(tx, s).0.status is Accepted,
    ensures
        ({
            let after = apply_diff_spec(s, tx_result(tx, s).1);
            &&& forall|n: u64| #[trigger] after.nullifiers.contains(n) <==> s.nullifiers.contains(n) || tx.nullifiers.contains(n)
            &&& forall|i: int| 0 <= i < tx.nullifiers.len() ==> !s.nullifiers.contains(#[trigger] tx.nullifiers[i])
            &&& after.commitments.len() == s.commitments.len() + tx.commitments.len()
            &&& forall|i: int| 0 <= i < s.commitments.len() ==> #[trigger] after.commitments[i] == s.commitments[i]
            &&& forall|i: int|
                0 <= i < tx.commitments.len() ==> after.commitments[s.commitments.len() + i] == #[trigger] tx.commitments[i]
        }),
{
    lemma_first_used_none(tx.nullifiers, s.nullifiers);
}

/// No nullifier of `ns` is in `used` when none is found.
proof fn lemma_first_used_none(ns: Seq<u64>, used: Set<u64>)
    ensures
        first_used(ns, used) is None ==> forall|i: int| 0 <= i < ns.len() ==> !used.contains(#[trigger] ns[i]),
    decreases ns.len(),
{
    if ns.len() > 0 && first_used(ns, used) is None {
        lemma_first_used_none(ns.drop_first(), used);
        assert forall|i: int| 0 <= i < ns.len() implies !used.contains(#[trigger] ns[i]) by {
            if i > 0 {
                assert(ns[i] == ns.drop_first()[i - 1]);
            }
        }
    }
}

/// Applying any diff keeps the commitment log as a prefix and appends the
/// diff's commitments after it, in order.
pub proof fn apply_diff_appends_commitments(s: StateModel, d: DiffModel)
    ensures
        ({
            let after = apply_diff_spec(s, d).commitments;
            &&& after.len() == s.commitments.len() + d.commitments_to_append.len()
            &&& after.subrange(0, s.commitments.len() as int) == s.commitments
            &&& after.subrange(s.commitments.len() as int, after.len() as int) == d.commitments_to_append
        }),
{
    let after = apply_diff_spec(s, d).commitments;
    assert(after.subrange(0, s.commitments.len() as int) =~= s.commitments);
    assert(after.subrange(s.commitments.len() as int, after.len() as int) =~= d.commitments_to_append);
}

/// The keys that the transactions of a batch declare they read.
pub open spec fn keys_read_by(batch: Seq<TxModel>) -> Set<StateKey> {
    Set::new(|k: StateKey| exists|i: int| 0 <= i < batch.len() && #[trigger] batch[i].reads.contains(k))
}

/// The keys that the transactions of a batch declare they write.
pub open spec fn keys_written_by(batch: Seq<TxModel>) -> Set<StateKey> {
    Set::new(|k: StateKey| exists|i: int| 0 <= i < batch.len() && #[trigger] batch[i].writes.contains(k))
}

/// The batch still open after the scheduler has gone through `txs`: the
/// transactions since the last batch closed (empty right after a barrier).
pub open spec fn open_batch(txs: Seq<TxModel>) -> Seq<TxModel> {
    batch_fold(txs).current
}

/// While batches are built, the open batch's key sets are the keys its
/// transactions read and write.
proof fn lemma_open_batch_keys(txs: Seq<TxModel>)
    ensures
        batch_fold(txs).reads == keys_read_by(batch_fold(txs).current),
        batch_fold(txs).writes == keys_written_by(batch_fold(txs).current),
    decreases txs.len(),
{
    if txs.len() == 0 {
        assert(keys_read_by(Seq::<TxModel>::empty()) =~= Set::<StateKey>::empty());
        assert(keys_written_by(Seq::<TxModel>::empty()) =~= Set::<StateKey>::empty());
    } else {
        let p = txs.drop_last();
        let tx = txs.last();
        lemma_open_batch_keys(p);
        let b = batch_fold(p);
        let n = batch_fold(txs);
        if n.current.len() == 0 {
            assert(keys_read_by(n.current) =~= Set::<StateKey>::empty());
            assert(keys_written_by(n.current) =~= Set::<StateKey>::empty());
        }
        if !is_barrier_spec(tx) {
            if crate::executor::static_scheduler::batch_conflicts(tx, b.reads, b.writes) > 0 {
                assert(n.current =~= seq![tx]);
                assert forall|k: StateKey| n.reads.contains(k) <==> keys_read_by(n.current).contains(k) by {
                    if tx.reads.contains(k) {
                        assert(n.current[0].reads.contains(k));
                    }
                }
                assert forall|k: StateKey| n.writes.contains(k) <==> keys_written_by(n.current).contains(k) by {
                    if tx.writes.contains(k) {
                        assert(n.current[0].writes.contains(k));
                    }
                }
                assert(n.reads =~= keys_read_by(n.current));
                assert(n.writes =~= keys_written_by(n.current));
            } else {
                assert(n.current == b.current.push(tx));
                assert forall|k: StateKey| n.reads.contains(k) <==> keys_read_by(n.current).contains(k) by {
                    if keys_read_by(n.current).contains(k) {
                        let i = choose|i: int| 0 <= i < n.current.len() && #[trigger] n.current[i].reads.contains(k);
                        if i < b.current.len() {
                            assert(n.current[i] == b.current[i]);
                        }
                    }
                    if b.reads.contains(k) {
                        let i = choose|i: int| 0 <= i < b.current.len() && #[trigger] b.current[i].reads.contains(k);
                        assert(n.current[i] == b.current[i]);
                    }
                    if tx.reads.contains(k) {
                        assert(n.current[b.current.len() as int] == tx);
                    }
                }
                assert forall|k: StateKey| n.writes.contains(k) <==> keys_written_by(n.current).contains(k) by {
                    if keys_written_by(n.current).contains(k) {
                        let i = choose|i: int| 0 <= i < n.current.len() && #[trigger] n.current[i].writes.contains(k);
                        if i < b.current.len() {
                            assert(n.current[i] == b.current[i]);
                        }
                    }
                    if b.writes.contains(k) {
                        let i = choose|i: int| 0 <= i < b.current.len() && #[trigger] b.current[i].writes.contains(k);
                        assert(n.current[i] == b.current[i]);
                    }
                    if tx.writes.contains(k) {
                        assert(n.current[b.current.len() as int] == tx);
                    }
                }
                assert(n.reads =~= keys_read_by(n.current));
                assert(n.writes =~= keys_written_by(n.current));
            }
        }
    }
}

/// The conflicts the static scheduler counts: a barrier adds none; any
/// other transaction adds, for the batch open when it comes, the number of
/// keys it writes that the batch writes, plus those it writes that the
/// batch reads, plus those it reads that the batch writes (each distinct
/// key once per kind of clash). So two transfers from the same account
/// count six. The open batch, when not empty, is the last batch.
pub proof fn conflicts_count_clashing_keys(txs: Seq<TxModel>, tx: TxModel)
    ensures
        is_barrier_spec(tx) ==> conflict_count(txs.push(tx)) == conflict_count(txs),
        !is_barrier_spec(tx) ==> conflict_count(txs.push(tx)) == conflict_count(txs) + tx.writes.to_set().intersect(
            keys_written_by(open_batch(txs)),
        ).len() + tx.writes.to_set().intersect(keys_read_by(open_batch(txs))).len() + tx.reads.to_set().intersect(
            keys_written_by(open_batch(txs)),
        ).len(),
        open_batch(txs).len() > 0 ==> static_batches(txs).last() == open_batch(txs),
{
    lemma_open_batch_keys(txs);
    assert(txs.push(tx).drop_last() =~= txs);
}

} // verus!
