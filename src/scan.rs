//! Building the reconciliation state from the two directory listings.
use vstd::prelude::*;
use crate::save::{Entry, Save, SaveFile, State, is_brogue_save, qualifies};

verus! {

/// Names of the qualifying entries among the first `k` of a listing.
pub open spec fn listed_names(entries: Seq<Entry>, k: int) -> Set<Seq<char>> {
    Set::new(
        |n: Seq<char>|
            exists|j: int| 0 <= j < k && qualifies(#[trigger] entries[j]) && entries[j].name@ == n,
    )
}

/// Names of all qualifying entries of a listing.
pub open spec fn save_names(entries: Seq<Entry>) -> Set<Seq<char>> {
    listed_names(entries, entries.len() as int)
}

/// `f` is the first qualifying entry of its name in a listing, with its time.
pub open spec fn lists(entries: Seq<Entry>, f: SaveFile) -> bool {
    exists|j: int|
        0 <= j < entries.len() && qualifies(#[trigger] entries[j]) && entries[j].name@ == f.name@
            && entries[j].modified == f.modified && !listed_names(entries, j).contains(f.name@)
}

/// No two records share a base name.
pub open spec fn keys_unique(saves: Seq<Save>) -> bool {
    forall|i: int, j: int|
        0 <= i < saves.len() && 0 <= j < saves.len() && i != j ==> #[trigger] saves[i].name()
            != #[trigger] saves[j].name()
}

/// A record agrees with the sets of names present in the save directory
/// (`o`) and in the backup directory (`b`).
pub open spec fn record_fits(s: Save, o: Set<Seq<char>>, b: Set<Seq<char>>) -> bool {
    match s {
        Save::OriginalFileOnly(f) => o.contains(f.name@) && !b.contains(f.name@),
        Save::BackupFileOnly(f) => b.contains(f.name@) && !o.contains(f.name@),
        Save::Both(x, y) => x.name@ == y.name@ && o.contains(x.name@) && b.contains(x.name@),
    }
}

/// `saves` classifies the names `o` of the save directory and `b` of the
/// backup directory: one record per name of either, each of the right variant,
/// and no other records.
pub open spec fn classified(saves: Seq<Save>, o: Set<Seq<char>>, b: Set<Seq<char>>) -> bool {
    &&& keys_unique(saves)
    &&& forall|i: int| 0 <= i < saves.len() ==> record_fits(#[trigger] saves[i], o, b)
    &&& forall|n: Seq<char>|
        #![trigger o.contains(n)]
        #![trigger b.contains(n)]
        o.contains(n) || b.contains(n) ==> exists|i: int|
            0 <= i < saves.len() && #[trigger] saves[i].name() == n
}

/// Each file of each record is an entry of the listing of its side.
pub open spec fn from_listings(saves: Seq<Save>, origin: Seq<Entry>, backup: Seq<Entry>) -> bool {
    forall|i: int|
        0 <= i < saves.len() ==> match #[trigger] saves[i] {
            Save::OriginalFileOnly(f) => lists(origin, f),
            Save::BackupFileOnly(f) => lists(backup, f),
            Save::Both(x, y) => lists(origin, x) && lists(backup, y),
        }
}

/// Records are in ascending order of recency.
pub open spec fn sorted_by_recency(saves: Seq<Save>) -> bool {
    forall|i: int, j: int|
        0 <= i <= j < saves.len() ==> #[trigger] saves[i].recency() <= #[trigger] saves[j].recency()
}

/// What a scan of the two listings yields.
pub open spec fn scan_result(saves: Seq<Save>, origin: Seq<Entry>, backup: Seq<Entry>) -> bool {
    &&& classified(saves, save_names(origin), save_names(backup))
    &&& from_listings(saves, origin, backup)
    &&& sorted_by_recency(saves)
}

/// Some position of `p` holds `j`.
pub open spec fn has_preimage(p: Seq<int>, j: int) -> bool {
    exists|k: int| 0 <= k < p.len() && p[k] == j
}

/// `p` is a permutation of `0..n`.
pub open spec fn is_permutation(p: Seq<int>, n: int) -> bool {
    &&& p.len() == n
    &&& forall|k: int| 0 <= k < n ==> 0 <= #[trigger] p[k] < n
    &&& forall|a: int, b: int| 0 <= a < n && 0 <= b < n && a != b ==> #[trigger] p[a] != #[trigger] p[b]
    &&& forall|j: int| 0 <= j < n ==> #[trigger] has_preimage(p, j)
}

/// The position of the record named `name`, if any.
fn find(saves: &Vec<Save>, name: &String) -> (r: Option<usize>)
    ensures
        match r {
            Some(i) => i < saves@.len() && saves@[i as int].name() == name@,
            None => forall|i: int| 0 <= i < saves@.len() ==> #[trigger] saves@[i].name() != name@,
        },
{
    let mut i: usize = 0;
    while i < saves.len()
        invariant
            i <= saves@.len(),
            forall|k: int| 0 <= k < i ==> #[trigger] saves@[k].name() != name@,
        decreases saves@.len() - i,
    {
        let same = match &saves[i] {
            Save::OriginalFileOnly(f) => f.name == *name,
            Save::BackupFileOnly(f) => f.name == *name,
            Save::Both(o, _) => o.name == *name,
        };
        if same {
            return Some(i);
        }
        i = i + 1;
    }
    None
}

proof fn lemma_listed_step(entries: Seq<Entry>, k: int)
    requires
        0 <= k < entries.len(),
    ensures
        listed_names(entries, k + 1) == if qualifies(entries[k]) {
            listed_names(entries, k).insert(entries[k].name@)
        } else {
            listed_names(entries, k)
        },
{
    let next = if qualifies(entries[k]) {
        listed_names(entries, k).insert(entries[k].name@)
    } else {
        listed_names(entries, k)
    };
    assert forall|n: Seq<char>| listed_names(entries, k + 1).contains(n) implies next.contains(n) by {
        let j = choose|j: int| 0 <= j < k + 1 && qualifies(#[trigger] entries[j]) && entries[j].name@ == n;
        if j < k {
            assert(listed_names(entries, k).contains(n));
        }
    }
    assert forall|n: Seq<char>| next.contains(n) implies listed_names(entries, k + 1).contains(n) by {
        if listed_names(entries, k).contains(n) {
            let j = choose|j: int| 0 <= j < k && qualifies(#[trigger] entries[j]) && entries[j].name@ == n;
            assert(0 <= j < k + 1 && qualifies(entries[j]) && entries[j].name@ == n);
        } else {
            assert(0 <= k < k + 1 && qualifies(entries[k]) && entries[k].name@ == n);
        }
    }
    assert(listed_names(entries, k + 1) =~= next);
}

/// Merges the two listings into one record per qualifying name, in the
/// order in which the names first appear.
fn merge(origin: &Vec<Entry>, backup: &Vec<Entry>) -> (r: Vec<Save>)
    ensures
        classified(r@, save_names(origin@), save_names(backup@)),
        from_listings(r@, origin@, backup@),
{
    let mut saves: Vec<Save> = Vec::new();
    let mut i: usize = 0;
    while i < origin.len()
        invariant
            i <= origin@.len(),
            classified(saves@, listed_names(origin@, i as int), Set::empty()),
            forall|k: int|
                0 <= k < saves@.len() ==> (#[trigger] saves@[k] matches Save::OriginalFileOnly(f)
                    && lists(origin@, f)),
        decreases origin@.len() - i,
    {
        proof {
            lemma_listed_step(origin@, i as int);
        }
        let e = &origin[i];
        if is_brogue_save(e.name.as_str(), e.is_dir) {
            match find(&saves, &e.name) {
                None => {
                    let ghost old_saves = saves@;
                    saves.push(Save::OriginalFileOnly(SaveFile { name: e.name.clone(), modified: e.modified }));
                    proof {
                        let o = listed_names(origin@, i as int + 1);
                        assert(!listed_names(origin@, i as int).contains(e.name@));
                        assert(lists(origin@, SaveFile { name: e.name, modified: e.modified }) ) by {
                            assert(origin@[i as int] == *e);
                        }
                        assert forall|n: Seq<char>| o.contains(n) implies exists|k: int|
                            0 <= k < saves@.len() && #[trigger] saves@[k].name() == n by {
                            if n == e.name@ {
                                assert(saves@[old_saves.len() as int].name() == n);
                            } else {
                                assert(listed_names(origin@, i as int).contains(n));
                                let k = choose|k: int| 0 <= k < old_saves.len() && #[trigger] old_saves[k].name() == n;
                                assert(saves@[k].name() == n);
                            }
                        }
                    }
                },
                Some(_) => {
                    proof {
                        let o = listed_names(origin@, i as int + 1);
                        assert forall|k: int| 0 <= k < saves@.len() implies record_fits(#[trigger] saves@[k], o, Set::empty()) by {
                            assert(record_fits(saves@[k], listed_names(origin@, i as int), Set::empty()));
                        }
                    }
                },
            }
        }
        i = i + 1;
    }
    assert(listed_names(origin@, origin@.len() as int) == save_names(origin@));
    let mut i: usize = 0;
    while i < backup.len()
        invariant
            i <= backup@.len(),
            classified(saves@, save_names(origin@), listed_names(backup@, i as int)),
            from_listings(saves@, origin@, backup@),
        decreases backup@.len() - i,
    {
        proof {
            lemma_listed_step(backup@, i as int);
        }
        let e = &backup[i];
        let ghost o = save_names(origin@);
        let ghost b0 = listed_names(backup@, i as int);
        let ghost b1 = listed_names(backup@, i as int + 1);
        let ghost old_saves = saves@;
        if is_brogue_save(e.name.as_str(), e.is_dir) {
            let ghost f_new = SaveFile { name: e.name, modified: e.modified };
            match find(&saves, &e.name) {
                None => {
                    proof {
                        assert(!b0.contains(e.name@));
                        assert(lists(backup@, f_new)) by {
                            assert(backup@[i as int] == *e);
                        }
                    }
                    saves.push(Save::BackupFileOnly(SaveFile { name: e.name.clone(), modified: e.modified }));
                    proof {
                        assert(!o.contains(e.name@));
                        assert(!b0.contains(e.name@));
                        assert forall|k: int| 0 <= k < saves@.len() implies record_fits(#[trigger] saves@[k], o, b1) by {
                            if k < old_saves.len() {
                                assert(record_fits(old_saves[k], o, b0));
                                assert(old_saves[k].name() != e.name@);
                            }
                        }
                        assert forall|n: Seq<char>| o.contains(n) || b1.contains(n) implies exists|k: int|
                            0 <= k < saves@.len() && #[trigger] saves@[k].name() == n by {
                            if n == e.name@ {
                                assert(saves@[old_saves.len() as int].name() == n);
                            } else {
                                assert(o.contains(n) || b0.contains(n));
                                let k = choose|k: int| 0 <= k < old_saves.len() && #[trigger] old_saves[k].name() == n;
                                assert(saves@[k].name() == n);
                            }
                        }
                    }
                },
                Some(j) => {
                    let upgraded = match &saves[j] {
                        Save::OriginalFileOnly(f) => Some(
                            Save::Both(
                                SaveFile { name: f.name.clone(), modified: f.modified },
                                SaveFile { name: e.name.clone(), modified: e.modified },
                            ),
                        ),
                        _ => None,
                    };
                    match upgraded {
                        Some(both) => {
                            proof {
                                assert(record_fits(old_saves[j as int], o, b0));
                                assert(!b0.contains(e.name@));
                                assert(lists(backup@, f_new)) by {
                                    assert(backup@[i as int] == *e);
                                }
                            }
                            saves.set(j, both);
                            proof {
                                assert forall|k: int| 0 <= k < saves@.len() implies record_fits(#[trigger] saves@[k], o, b1) by {
                                    if k != j {
                                        assert(record_fits(old_saves[k], o, b0));
                                        assert(old_saves[k].name() != old_saves[j as int].name());
                                    }
                                }
                                assert forall|n: Seq<char>| o.contains(n) || b1.contains(n) implies exists|k: int|
                                    0 <= k < saves@.len() && #[trigger] saves@[k].name() == n by {
                                    if n == e.name@ {
                                        assert(saves@[j as int].name() == n);
                                    } else {
                                        assert(o.contains(n) || b0.contains(n));
                                        let k = choose|k: int| 0 <= k < old_saves.len() && #[trigger] old_saves[k].name() == n;
                                        assert(saves@[k].name() == n);
                                    }
                                }
                                assert forall|a: int, c: int| 0 <= a < saves@.len() && 0 <= c < saves@.len() && a != c
                                    implies #[trigger] saves@[a].name() != #[trigger] saves@[c].name() by {
                                    assert(old_saves[a].name() != old_saves[c].name());
                                }
                                assert(from_listings(old_saves, origin@, backup@));
                                assert forall|k: int| 0 <= k < saves@.len() implies match #[trigger] saves@[k] {
                                    Save::OriginalFileOnly(f) => lists(origin@, f),
                                    Save::BackupFileOnly(f) => lists(backup@, f),
                                    Save::Both(x, y) => lists(origin@, x) && lists(backup@, y),
                                } by {
                                    assert(match old_saves[k] {
                                        Save::OriginalFileOnly(f) => lists(origin@, f),
                                        Save::BackupFileOnly(f) => lists(backup@, f),
                                        Save::Both(x, y) => lists(origin@, x) && lists(backup@, y),
                                    });
                                }
                            }
                        },
                        None => {
                            proof {
                                assert(record_fits(old_saves[j as int], o, b0));
                                assert(b1 =~= b0);
                            }
                        },
                    }
                },
            }
        } else {
            assert(b1 == b0);
        }
        i = i + 1;
    }
    assert(listed_names(backup@, backup@.len() as int) == save_names(backup@));
    saves
}

/// Sorts the records by ascending recency; records of equal recency keep
/// their order.
fn sort_by_recency(saves: Vec<Save>) -> (r: Vec<Save>)
    ensures
        sorted_by_recency(r@),
        r@.len() == saves@.len(),
        exists|p: Seq<int>|
            is_permutation(p, saves@.len() as int) && forall|k: int|
                0 <= k < saves@.len() ==> #[trigger] r@[k] == saves@[p[k]],
{
    let ghost orig = saves@;
    let ghost n = saves@.len() as int;
    let mut rest = saves;
    let mut out: Vec<Save> = Vec::new();
    let ghost mut p: Seq<int> = Seq::empty();
    let total = rest.len();
    let mut i: usize = 0;
    while rest.len() > 0
        invariant
            n == orig.len(),
            n == total,
            0 <= i <= n,
            rest@ == orig.subrange(i as int, n),
            out@.len() == i,
            sorted_by_recency(out@),
            is_permutation(p, i as int),
            forall|k: int| 0 <= k < i ==> #[trigger] out@[k] == orig[p[k]],
        decreases rest@.len(),
    {
        let s = rest.remove(0);
        assert(s == orig[i as int]);
        let key = s.sort_by();
        let mut pos: usize = 0;
        while pos < out.len() && out[pos].sort_by() <= key
            invariant
                pos <= out@.len(),
                forall|k: int| 0 <= k < pos ==> #[trigger] out@[k].recency() <= key,
            decreases out@.len() - pos,
        {
            pos = pos + 1;
        }
        let ghost old_out = out@;
        let ghost old_p = p;
        out.insert(pos, s);
        proof {
            p = old_p.insert(pos as int, i as int);
            let m = i as int + 1;
            assert forall|a: int, c: int| 0 <= a <= c < m implies #[trigger] out@[a].recency()
                <= #[trigger] out@[c].recency() by {
                if a < pos && c < pos {
                    assert(old_out[a].recency() <= old_out[c].recency());
                } else if a < pos && c > pos {
                    assert(old_out[a].recency() <= key);
                    assert(old_out[pos as int].recency() > key);
                    assert(old_out[pos as int].recency() <= old_out[c - 1].recency());
                } else if a == pos && c > pos {
                    assert(old_out[pos as int].recency() > key);
                    assert(old_out[pos as int].recency() <= old_out[c - 1].recency());
                } else if a > pos {
                    assert(old_out[a - 1].recency() <= old_out[c - 1].recency());
                }
            }
            assert forall|k: int| 0 <= k < m implies 0 <= #[trigger] p[k] < m by {
                if k < pos {
                    assert(p[k] == old_p[k]);
                } else if k > pos {
                    assert(p[k] == old_p[k - 1]);
                }
            }
            assert forall|a: int, c: int| 0 <= a < m && 0 <= c < m && a != c implies #[trigger] p[a]
                != #[trigger] p[c] by {
                let a0 = if a < pos { a } else { a - 1 };
                let c0 = if c < pos { c } else { c - 1 };
                if a != pos && c != pos {
                    assert(p[a] == old_p[a0] && p[c] == old_p[c0]);
                    assert(old_p[a0] != old_p[c0]);
                } else if a == pos {
                    assert(p[c] == old_p[c0]);
                    assert(old_p[c0] < i);
                } else {
                    assert(p[a] == old_p[a0]);
                    assert(old_p[a0] < i);
                }
            }
            assert forall|j: int| 0 <= j < m implies #[trigger] has_preimage(p, j) by {
                if j == i {
                    assert(p[pos as int] == j);
                } else {
                    assert(has_preimage(old_p, j));
                    let k = choose|k: int| 0 <= k < old_p.len() && old_p[k] == j;
                    if k < pos {
                        assert(p[k] == j);
                    } else {
                        assert(p[k + 1] == j);
                    }
                }
            }
            assert forall|k: int| 0 <= k < m implies #[trigger] out@[k] == orig[p[k]] by {
                if k < pos {
                    assert(out@[k] == old_out[k]);
                } else if k > pos {
                    assert(out@[k] == old_out[k - 1]);
                }
            }
            assert(rest@ =~= orig.subrange(i as int + 1, n));
        }
        i = i + 1;
    }
    assert(i == n);
    out
}

/// Records that are a permutation of classified records are classified the same way.
proof fn lemma_permuted_scan(
    saves: Seq<Save>,
    r: Seq<Save>,
    p: Seq<int>,
    origin: Seq<Entry>,
    backup: Seq<Entry>,
)
    requires
        classified(saves, save_names(origin), save_names(backup)),
        from_listings(saves, origin, backup),
        r.len() == saves.len(),
        is_permutation(p, saves.len() as int),
        forall|k: int| 0 <= k < saves.len() ==> #[trigger] r[k] == saves[p[k]],
    ensures
        classified(r, save_names(origin), save_names(backup)),
        from_listings(r, origin, backup),
{
    let o = save_names(origin);
    let b = save_names(backup);
    assert forall|i: int, j: int| 0 <= i < r.len() && 0 <= j < r.len() && i != j implies #[trigger] r[i].name()
        != #[trigger] r[j].name() by {
        assert(r[i] == saves[p[i]] && r[j] == saves[p[j]]);
        assert(p[i] != p[j]);
    }
    assert forall|i: int| 0 <= i < r.len() implies record_fits(#[trigger] r[i], o, b) by {
        assert(r[i] == saves[p[i]]);
        assert(0 <= p[i] < saves.len());
    }
    assert forall|n: Seq<char>| o.contains(n) || b.contains(n) implies exists|i: int|
        0 <= i < r.len() && #[trigger] r[i].name() == n by {
        let j = choose|j: int| 0 <= j < saves.len() && #[trigger] saves[j].name() == n;
        assert(has_preimage(p, j));
        let k = choose|k: int| 0 <= k < p.len() && p[k] == j;
        assert(r[k] == saves[j]);
    }
    assert forall|i: int| 0 <= i < r.len() implies match #[trigger] r[i] {
        Save::OriginalFileOnly(f) => lists(origin, f),
        Save::BackupFileOnly(f) => lists(backup, f),
        Save::Both(x, y) => lists(origin, x) && lists(backup, y),
    } by {
        assert(r[i] == saves[p[i]]);
        assert(0 <= p[i] < saves.len());
    }
}

/// Scans the two listings: one record per qualifying name, classified by the
/// side or sides that hold it, in ascending order of recency.
pub fn get_state(save_files: &Vec<Entry>, backup_files: &Vec<Entry>) -> (r: State)
    ensures
        scan_result(r.saves@, save_files@, backup_files@),
{
    let merged = merge(save_files, backup_files);
    let ghost m = merged@;
    let saves = sort_by_recency(merged);
    proof {
        let p = choose|p: Seq<int>|
            is_permutation(p, m.len() as int) && forall|k: int|
                0 <= k < m.len() ==> #[trigger] saves@[k] == m[p[k]];
        lemma_permuted_scan(m, saves@, p, save_files@, backup_files@);
    }
    State { saves }
}

} // verus!
