//! Retention: which full backups a store deletes so that it keeps the most
//! recent ones.
use vstd::prelude::*;

use crate::backup::{Backup, BackupType, BackupView};
use crate::catalog::{filter_by_app, of_app, views};
use crate::config::Config;

verus! {

/// Walking newest first, the first `keep` full backups stay and every later
/// full backup goes; incremental backups always stay.
pub open spec fn pruned(s: Seq<BackupView>, keep: nat) -> Seq<BackupView>
    decreases s.len(),
{
    if s.len() == 0 {
        seq![]
    } else if s[0].kind == BackupType::Full {
        if keep > 0 {
            pruned(s.drop_first(), (keep - 1) as nat)
        } else {
            seq![s[0]] + pruned(s.drop_first(), 0)
        }
    } else {
        pruned(s.drop_first(), keep)
    }
}

pub open spec fn count_full(s: Seq<BackupView>) -> nat
    decreases s.len(),
{
    if s.len() == 0 {
        0
    } else {
        (if s[0].kind == BackupType::Full {
            1nat
        } else {
            0nat
        }) + count_full(s.drop_first())
    }
}

/// Retention deletes only full backups, each taken from the catalog, and
/// exactly as many as the catalog holds beyond `keep`: no incremental backup
/// is ever deleted, whatever their number.
pub proof fn lemma_retention_deletes_surplus_fulls(s: Seq<BackupView>, keep: nat)
    ensures
        forall|i: int| 0 <= i < pruned(s, keep).len() ==> #[trigger] pruned(s, keep)[i].kind == BackupType::Full,
        forall|i: int| 0 <= i < pruned(s, keep).len() ==> s.contains(#[trigger] pruned(s, keep)[i]),
        pruned(s, keep).len() == if count_full(s) > keep {
            count_full(s) - keep
        } else {
            0
        },
    decreases s.len(),
{
    if s.len() > 0 {
        let k: nat = if s[0].kind == BackupType::Full && keep > 0 {
            (keep - 1) as nat
        } else {
            keep
        };
        lemma_retention_deletes_surplus_fulls(s.drop_first(), k);
        let p = pruned(s, keep);
        let q = pruned(s.drop_first(), k);
        assert forall|i: int| 0 <= i < p.len() implies s.contains(#[trigger] p[i]) by {
            if s[0].kind == BackupType::Full && keep == 0 {
                if i == 0 {
                    assert(s[0] == p[i]);
                } else {
                    assert(p[i] == q[i - 1]);
                    let j = choose|j: int| 0 <= j < s.drop_first().len() && s.drop_first()[j] == q[i - 1];
                    assert(s[j + 1] == p[i]);
                }
            } else {
                assert(p[i] == q[i]);
                let j = choose|j: int| 0 <= j < s.drop_first().len() && s.drop_first()[j] == q[i];
                assert(s[j + 1] == p[i]);
            }
        }
    }
}

/// The backups that retention deletes from a catalog that runs newest
/// first, keeping `keep` full backups.
pub fn prune(backups: &Vec<Backup>, keep: u32) -> (r: Vec<Backup>)
    ensures
        views(r@) == pruned(views(backups@), keep as nat),
        views(r@) == after_first(fulls(views(backups@)), keep as nat),
        forall|i: int| 0 <= i < r@.len() ==> (#[trigger] r@[i]).kind == BackupType::Full,
{
    proof {
        lemma_retention_deletes_surplus_fulls(views(backups@), keep as nat);
        lemma_retention_keeps_newest_fulls(views(backups@), keep as nat);
    }
    let mut r: Vec<Backup> = Vec::new();
    let mut left = keep;
    let mut i: usize = 0;
    assert(views(backups@).skip(0) =~= views(backups@));
    while i < backups.len()
        invariant
            i <= backups.len(),
            views(r@) + pruned(views(backups@).skip(i as int), left as nat) == pruned(
                views(backups@),
                keep as nat,
            ),
        decreases backups.len() - i,
    {
        let ghost rest = views(backups@).skip(i as int);
        assert(rest.drop_first() =~= views(backups@).skip(i + 1));
        if backups[i].kind == BackupType::Full {
            if left > 0 {
                left -= 1;
            } else {
                let ghost before = views(r@);
                r.push(backups[i].clone());
                assert(views(r@) =~= before.push(backups@[i as int]@));
                assert(before + (seq![rest[0]] + pruned(rest.drop_first(), 0)) =~= views(r@) + pruned(
                    rest.drop_first(),
                    0,
                ));
            }
        }
        i += 1;
    }
    assert(views(backups@).skip(backups.len() as int) =~= Seq::<BackupView>::empty());
    assert(views(r@) + Seq::<BackupView>::empty() =~= views(r@));
    assert(forall|i: int| 0 <= i < r@.len() ==> views(r@)[i].kind == r@[i].kind);
    r
}

/// The local backups of the configured application that retention deletes,
/// from the local catalog (newest first).
pub fn prune_local_backups(config: &Config, local: &Vec<Backup>) -> (r: Vec<Backup>)
    ensures
        views(r@) == pruned(
            of_app(views(local@), config.app_name@),
            config.keep_full_local_backups as nat,
        ),
{
    let mine = filter_by_app(local, config.app_name.as_str());
    prune(&mine, config.keep_full_local_backups)
}

/// The remote backups of the configured application that retention deletes,
/// from the remote catalog (newest first).
pub fn prune_remote_backups(config: &Config, remote: &Vec<Backup>) -> (r: Vec<Backup>)
    ensures
        views(r@) == pruned(
            of_app(views(remote@), config.app_name@),
            config.keep_full_remote_backups as nat,
        ),
{
    let mine = filter_by_app(remote, config.app_name.as_str());
    prune(&mine, config.keep_full_remote_backups)
}

/// The full backups of a catalog, in its order.
pub open spec fn fulls(s: Seq<BackupView>) -> Seq<BackupView>
    decreases s.len(),
{
    if s.len() == 0 {
        seq![]
    } else if s[0].kind == BackupType::Full {
        seq![s[0]] + fulls(s.drop_first())
    } else {
        fulls(s.drop_first())
    }
}

/// All but the first `n` entries.
pub open spec fn after_first(q: Seq<BackupView>, n: nat) -> Seq<BackupView> {
    if n >= q.len() {
        seq![]
    } else {
        q.skip(n as int)
    }
}

/// Retention deletes exactly the full backups that come after the first
/// `keep` full backups of the catalog, in catalog order. On a catalog that
/// runs newest first the `keep` newest full backups stay and every older one
/// goes; incremental backups are never among those deleted.
pub proof fn lemma_retention_keeps_newest_fulls(s: Seq<BackupView>, keep: nat)
    ensures
        pruned(s, keep) == after_first(fulls(s), keep),
    decreases s.len(),
{
    if s.len() > 0 {
        let rest = s.drop_first();
        if s[0].kind == BackupType::Full {
            if keep > 0 {
                lemma_retention_keeps_newest_fulls(rest, (keep - 1) as nat);
                assert(after_first(fulls(s), keep) =~= after_first(fulls(rest), (keep - 1) as nat));
            } else {
                lemma_retention_keeps_newest_fulls(rest, 0);
                assert(after_first(fulls(s), 0) =~= fulls(s));
                assert(after_first(fulls(rest), 0) =~= fulls(rest));
            }
        } else {
            lemma_retention_keeps_newest_fulls(rest, keep);
        }
    } else {
        assert(after_first(fulls(s), keep) =~= Seq::<BackupView>::empty());
    }
}

} // verus!
