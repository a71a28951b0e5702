//! What the engine's steps do to the two directories, and the laws that the
//! ticks obey.
//!
//! A directory is modelled by its save files: base name to contents. A copy
//! step writes only where the source exists and the destination does not; a
//! remove step of a missing file changes nothing.
use vstd::prelude::*;
use crate::engine::{ActionKind, DeleteState, Step, sync_plan, sync_step, tick_plan};
use crate::save::Save;
use crate::scan::{classified, record_fits};

verus! {

/// A directory's save files: base name to contents.
pub type Dir = Map<Seq<char>, Seq<u8>>;

/// The save directory and the backup directory.
pub type Dirs = (Dir, Dir);

/// The directories after one step.
pub open spec fn apply_step(d: Dirs, a: Step) -> Dirs {
    let n = a.1;
    match a.0 {
        ActionKind::CopyToBackup => if d.0.contains_key(n) && !d.1.contains_key(n) {
            (d.0, d.1.insert(n, d.0[n]))
        } else {
            d
        },
        ActionKind::CopyToSave => if d.1.contains_key(n) && !d.0.contains_key(n) {
            (d.0.insert(n, d.1[n]), d.1)
        } else {
            d
        },
        ActionKind::RemoveFromBackup => (d.0, d.1.remove(n)),
        ActionKind::RemoveFromSave => (d.0.remove(n), d.1),
    }
}

/// The directories after the steps of a plan, in order.
pub open spec fn apply_plan(d: Dirs, plan: Seq<Step>) -> Dirs
    decreases plan.len(),
{
    if plan.len() == 0 {
        d
    } else {
        apply_step(apply_plan(d, plan.drop_last()), plan.last())
    }
}

/// How a synchronization pass leaves one directory (`to`), given the other
/// (`from`) as it was: every file stays as it was, and a file that was
/// not there is a copy of the other side's.
pub open spec fn sync_frame(from: Dir, to: Dir, after: Dir) -> bool {
    &&& forall|n: Seq<char>| #[trigger] to.contains_key(n) ==> after.contains_key(n) && after[n] == to[n]
    &&& forall|n: Seq<char>|
        #[trigger] after.contains_key(n) && !to.contains_key(n) ==> from.contains_key(n) && after[n]
            == from[n]
}

proof fn lemma_append_one(d: Dirs, p: Seq<Step>, q: Seq<Step>)
    requires
        q.len() <= 1,
    ensures
        apply_plan(d, p + q) == if q.len() == 0 {
            apply_plan(d, p)
        } else {
            apply_step(apply_plan(d, p), q[0])
        },
{
    if q.len() == 0 {
        assert(p + q =~= p);
    } else {
        assert((p + q).drop_last() =~= p);
    }
}

proof fn lemma_sync_frame(saves: Seq<Save>, d: Dirs)
    ensures
        sync_frame(d.1, d.0, apply_plan(d, sync_plan(saves)).0),
        sync_frame(d.0, d.1, apply_plan(d, sync_plan(saves)).1),
    decreases saves.len(),
{
    if saves.len() > 0 {
        let prefix = saves.drop_last();
        lemma_sync_frame(prefix, d);
        lemma_append_one(d, sync_plan(prefix), sync_step(saves.last()));
    }
}

/// The names of a state's records that have the given variant's shape:
/// save-side only (`origin`) or backup-side only.
pub open spec fn one_sided(saves: Seq<Save>, origin: bool) -> Set<Seq<char>> {
    Set::new(
        |n: Seq<char>|
            exists|i: int|
                0 <= i < saves.len() && match #[trigger] saves[i] {
                    Save::OriginalFileOnly(f) => origin && f.name@ == n,
                    Save::BackupFileOnly(f) => !origin && f.name@ == n,
                    Save::Both(_, _) => false,
                },
    )
}

proof fn lemma_sync_covers(saves: Seq<Save>, d: Dirs)
    requires
        forall|i: int| 0 <= i < saves.len() ==> match #[trigger] saves[i] {
            Save::OriginalFileOnly(f) => d.0.contains_key(f.name@),
            Save::BackupFileOnly(f) => d.1.contains_key(f.name@),
            Save::Both(_, _) => true,
        },
    ensures
        forall|n: Seq<char>| #[trigger] one_sided(saves, true).contains(n) ==> apply_plan(d, sync_plan(saves)).1.contains_key(n),
        forall|n: Seq<char>| #[trigger] one_sided(saves, false).contains(n) ==> apply_plan(d, sync_plan(saves)).0.contains_key(n),
    decreases saves.len(),
{
    if saves.len() > 0 {
        let prefix = saves.drop_last();
        assert forall|i: int| 0 <= i < prefix.len() implies match #[trigger] prefix[i] {
            Save::OriginalFileOnly(f) => d.0.contains_key(f.name@),
            Save::BackupFileOnly(f) => d.1.contains_key(f.name@),
            Save::Both(_, _) => true,
        } by {
            assert(prefix[i] == saves[i]);
        }
        lemma_sync_covers(prefix, d);
        lemma_sync_frame(prefix, d);
        lemma_append_one(d, sync_plan(prefix), sync_step(saves.last()));
        let mid = apply_plan(d, sync_plan(prefix));
        let last = saves.last();
        assert(match last {
            Save::OriginalFileOnly(f) => d.0.contains_key(f.name@),
            Save::BackupFileOnly(f) => d.1.contains_key(f.name@),
            Save::Both(_, _) => true,
        }) by {
            assert(last == saves[saves.len() - 1]);
        }
        let after = apply_plan(d, sync_plan(saves));
        assert(forall|n: Seq<char>| mid.0.contains_key(n) ==> #[trigger] after.0.contains_key(n));
        assert(forall|n: Seq<char>| mid.1.contains_key(n) ==> #[trigger] after.1.contains_key(n));
        assert forall|n: Seq<char>| #[trigger] one_sided(saves, true).contains(n) implies after.1.contains_key(n) by {
            let i = choose|i: int|
                0 <= i < saves.len() && match #[trigger] saves[i] {
                    Save::OriginalFileOnly(f) => true && f.name@ == n,
                    Save::BackupFileOnly(f) => !true && f.name@ == n,
                    Save::Both(_, _) => false,
                };
            if i < prefix.len() {
                assert(prefix[i] == saves[i]);
                assert(one_sided(prefix, true).contains(n));
            }
        }
        assert forall|n: Seq<char>| #[trigger] one_sided(saves, false).contains(n) implies after.0.contains_key(n) by {
            let i = choose|i: int|
                0 <= i < saves.len() && match #[trigger] saves[i] {
                    Save::OriginalFileOnly(f) => false && f.name@ == n,
                    Save::BackupFileOnly(f) => !false && f.name@ == n,
                    Save::Both(_, _) => false,
                };
            if i < prefix.len() {
                assert(prefix[i] == saves[i]);
                assert(one_sided(prefix, false).contains(n));
            }
        }
    }
}

/// A synchronization pass never overwrites or removes a file: every file
/// of either directory is there afterwards with the contents it had, and a
/// file that appears is a copy of the other side's.
pub proof fn lemma_no_clobber(saves: Seq<Save>, d: Dirs)
    ensures
        sync_frame(d.1, d.0, apply_plan(d, tick_plan(DeleteState::NotDeleting, saves)).0),
        sync_frame(d.0, d.1, apply_plan(d, tick_plan(DeleteState::NotDeleting, saves)).1),
{
    lemma_sync_frame(saves, d);
}

/// After one synchronization pass over a scan of the two directories, both
/// hold every name that either held, and any later scan finds each name in
/// both.
pub proof fn lemma_convergence(saves: Seq<Save>, d: Dirs, later: Seq<Save>)
    requires
        classified(saves, d.0.dom(), d.1.dom()),
        classified(
            later,
            apply_plan(d, tick_plan(DeleteState::NotDeleting, saves)).0.dom(),
            apply_plan(d, tick_plan(DeleteState::NotDeleting, saves)).1.dom(),
        ),
    ensures
        apply_plan(d, tick_plan(DeleteState::NotDeleting, saves)).0.dom() == d.0.dom().union(d.1.dom()),
        apply_plan(d, tick_plan(DeleteState::NotDeleting, saves)).1.dom() == d.0.dom().union(d.1.dom()),
        forall|i: int| 0 <= i < later.len() ==> #[trigger] later[i] is Both,
{
    let after = apply_plan(d, sync_plan(saves));
    let all = d.0.dom().union(d.1.dom());
    assert forall|i: int| 0 <= i < saves.len() implies match #[trigger] saves[i] {
        Save::OriginalFileOnly(f) => d.0.contains_key(f.name@),
        Save::BackupFileOnly(f) => d.1.contains_key(f.name@),
        Save::Both(_, _) => true,
    } by {
        assert(record_fits(saves[i], d.0.dom(), d.1.dom()));
    }
    lemma_sync_covers(saves, d);
    lemma_sync_frame(saves, d);
    assert forall|n: Seq<char>| all.contains(n) implies after.0.contains_key(n) && after.1.contains_key(n) by {
        if d.0.contains_key(n) && d.1.contains_key(n) {
        } else if d.0.contains_key(n) {
            assert(d.0.dom().contains(n));
            let i = choose|i: int| 0 <= i < saves.len() && #[trigger] saves[i].name() == n;
            assert(record_fits(saves[i], d.0.dom(), d.1.dom()));
            assert(one_sided(saves, true).contains(n));
        } else {
            assert(d.1.dom().contains(n));
            let i = choose|i: int| 0 <= i < saves.len() && #[trigger] saves[i].name() == n;
            assert(record_fits(saves[i], d.0.dom(), d.1.dom()));
            assert(one_sided(saves, false).contains(n));
        }
    }
    assert(after.0.dom() =~= all);
    assert(after.1.dom() =~= all);
    assert forall|i: int| 0 <= i < later.len() implies #[trigger] later[i] is Both by {
        assert(record_fits(later[i], after.0.dom(), after.1.dom()));
    }
}

proof fn lemma_sync_settled(saves: Seq<Save>, d: Dirs)
    requires
        forall|i: int| 0 <= i < saves.len() ==> match #[trigger] saves[i] {
            Save::OriginalFileOnly(f) => d.1.contains_key(f.name@),
            Save::BackupFileOnly(f) => d.0.contains_key(f.name@),
            Save::Both(_, _) => true,
        },
    ensures
        apply_plan(d, sync_plan(saves)) == d,
    decreases saves.len(),
{
    if saves.len() > 0 {
        let prefix = saves.drop_last();
        assert forall|i: int| 0 <= i < prefix.len() implies match #[trigger] prefix[i] {
            Save::OriginalFileOnly(f) => d.1.contains_key(f.name@),
            Save::BackupFileOnly(f) => d.0.contains_key(f.name@),
            Save::Both(_, _) => true,
        } by {
            assert(prefix[i] == saves[i]);
        }
        lemma_sync_settled(prefix, d);
        lemma_append_one(d, sync_plan(prefix), sync_step(saves.last()));
        assert(saves.last() == saves[saves.len() - 1]);
    }
}

proof fn lemma_all_both_no_steps(saves: Seq<Save>)
    requires
        forall|i: int| 0 <= i < saves.len() ==> #[trigger] saves[i] is Both,
    ensures
        sync_plan(saves) == Seq::<Step>::empty(),
    decreases saves.len(),
{
    if saves.len() > 0 {
        let prefix = saves.drop_last();
        assert forall|i: int| 0 <= i < prefix.len() implies #[trigger] prefix[i] is Both by {
            assert(prefix[i] == saves[i]);
        }
        lemma_all_both_no_steps(prefix);
        assert(saves.last() == saves[saves.len() - 1]);
        assert(sync_plan(saves) =~= Seq::<Step>::empty());
    }
}

/// Synchronization is idempotent: after one pass over a scan of the two
/// directories, a second pass over a fresh scan has no steps at all, and
/// running the first pass's steps again changes nothing.
pub proof fn lemma_sync_idempotent(saves: Seq<Save>, d: Dirs, later: Seq<Save>)
    requires
        classified(saves, d.0.dom(), d.1.dom()),
        classified(
            later,
            apply_plan(d, tick_plan(DeleteState::NotDeleting, saves)).0.dom(),
            apply_plan(d, tick_plan(DeleteState::NotDeleting, saves)).1.dom(),
        ),
    ensures
        tick_plan(DeleteState::NotDeleting, later).len() == 0,
        apply_plan(
            apply_plan(d, tick_plan(DeleteState::NotDeleting, saves)),
            tick_plan(DeleteState::NotDeleting, saves),
        ) == apply_plan(d, tick_plan(DeleteState::NotDeleting, saves)),
{
    let after = apply_plan(d, sync_plan(saves));
    lemma_convergence(saves, d, later);
    lemma_all_both_no_steps(later);
    assert forall|i: int| 0 <= i < saves.len() implies match #[trigger] saves[i] {
        Save::OriginalFileOnly(f) => after.1.contains_key(f.name@),
        Save::BackupFileOnly(f) => after.0.contains_key(f.name@),
        Save::Both(_, _) => true,
    } by {
        assert(record_fits(saves[i], d.0.dom(), d.1.dom()));
        assert(d.0.dom().contains(saves[i].name()) || d.1.dom().contains(saves[i].name()));
        assert(after.0.dom().contains(saves[i].name()) && after.1.dom().contains(saves[i].name()));
    }
    lemma_sync_settled(saves, after);
}

/// Deleting a record held by both directories removes the file from both
/// and touches nothing else, so no later scan reports its name.
pub proof fn lemma_delete_both(saves: Seq<Save>, d: Dirs, i: usize, later: Seq<Save>)
    requires
        classified(saves, d.0.dom(), d.1.dom()),
        i < saves.len(),
        saves[i as int] is Both,
        classified(
            later,
            apply_plan(d, tick_plan(DeleteState::Delete(i), saves)).0.dom(),
            apply_plan(d, tick_plan(DeleteState::Delete(i), saves)).1.dom(),
        ),
    ensures
        apply_plan(d, tick_plan(DeleteState::Delete(i), saves)) == (
        d.0.remove(saves[i as int].name()),
        d.1.remove(saves[i as int].name()),
        ),
        forall|k: int| 0 <= k < later.len() ==> #[trigger] later[k].name() != saves[i as int].name(),
{
    let s = saves[i as int];
    let plan = tick_plan(DeleteState::Delete(i), saves);
    assert(record_fits(s, d.0.dom(), d.1.dom()));
    let n = s.name();
    assert(plan.len() == 2 && plan[0] == (ActionKind::RemoveFromBackup, n) && plan[1] == (
    ActionKind::RemoveFromSave, n));
    let first = plan.drop_last();
    assert(first.drop_last() =~= Seq::<Step>::empty());
    assert(apply_plan(d, first) == apply_step(apply_plan(d, first.drop_last()), first.last()));
    assert(apply_plan(d, first) == apply_step(d, plan[0]));
    let after = apply_plan(d, plan);
    assert(after == apply_step(apply_plan(d, first), plan[1]));
    assert(after.0 =~= d.0.remove(n));
    assert(after.1 =~= d.1.remove(n));
    assert forall|k: int| 0 <= k < later.len() implies #[trigger] later[k].name() != n by {
        assert(record_fits(later[k], after.0.dom(), after.1.dom()));
    }
}

/// Deleting a record held by one directory removes that file alone, and
/// deleting it a second time changes nothing.
pub proof fn lemma_delete_one_sided(saves: Seq<Save>, d: Dirs, i: usize)
    requires
        classified(saves, d.0.dom(), d.1.dom()),
        i < saves.len(),
        !(saves[i as int] is Both),
    ensures
        apply_plan(d, tick_plan(DeleteState::Delete(i), saves)) == if saves[i as int] is OriginalFileOnly {
            (d.0.remove(saves[i as int].name()), d.1)
        } else {
            (d.0, d.1.remove(saves[i as int].name()))
        },
        apply_plan(
            apply_plan(d, tick_plan(DeleteState::Delete(i), saves)),
            tick_plan(DeleteState::Delete(i), saves),
        ) == apply_plan(d, tick_plan(DeleteState::Delete(i), saves)),
{
    let plan = tick_plan(DeleteState::Delete(i), saves);
    assert(plan.drop_last() =~= Seq::<Step>::empty());
    let n = saves[i as int].name();
    assert(plan.len() == 1);
    let after = apply_plan(d, plan);
    assert(after == apply_step(apply_plan(d, plan.drop_last()), plan.last()));
    assert(after == apply_step(d, plan[0]));
    assert(apply_plan(after, plan.drop_last()) == after);
    assert(apply_plan(after, plan) == apply_step(apply_plan(after, plan.drop_last()), plan.last()));
    assert(apply_plan(after, plan) == apply_step(after, plan[0]));
    assert(apply_plan(after, plan).0 =~= after.0);
    assert(apply_plan(after, plan).1 =~= after.1);
}

} // verus!
