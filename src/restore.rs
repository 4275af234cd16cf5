//! Restore: the chain of archives that rebuilds a named backup, and the
//! steps that apply it.
use vstd::prelude::*;

use crate::backup::{Backup, BackupType, BackupView};
use crate::catalog::{filter_by_source, newest_first, of_source, views};
use crate::config::{Config, GlobalConfig};
use crate::plan::{archive_of, archive_path, hook, push_hook, step_views, Step, StepView};
use crate::text::same_text;

verus! {

#[derive(Clone, Copy, PartialEq, Eq, Structural, Debug)]
pub enum RestoreError {
    /// Neither catalog holds a backup of that name.
    BackupNotFound,
    /// The backup is in the local catalog but no full backup precedes it.
    BrokenChain,
}

/// The first index at or after `from` of a backup named `target`, or -1.
pub open spec fn named_from(s: Seq<BackupView>, target: Seq<char>, from: int) -> int
    decreases s.len() - from,
{
    if from < 0 || from >= s.len() {
        -1
    } else if s[from].display_name == target {
        from
    } else {
        named_from(s, target, from + 1)
    }
}

/// The first index at or after `from` of a full backup, or -1.
pub open spec fn full_from(s: Seq<BackupView>, from: int) -> int
    decreases s.len() - from,
{
    if from < 0 || from >= s.len() {
        -1
    } else if s[from].kind == BackupType::Full {
        from
    } else {
        full_from(s, from + 1)
    }
}

/// In a catalog that runs newest first: from the backup named `target`
/// through the first full backup at or after it, put in chronological order.
pub open spec fn local_chain(s: Seq<BackupView>, target: Seq<char>) -> Result<Seq<BackupView>, RestoreError> {
    let i = named_from(s, target, 0);
    if i < 0 {
        Err(RestoreError::BackupNotFound)
    } else {
        let j = full_from(s, i);
        if j < 0 {
            Err(RestoreError::BrokenChain)
        } else {
            Ok(s.subrange(i, j + 1).reverse())
        }
    }
}

/// One unpack into `dest` for each archive of the chain, in chain order.
pub open spec fn unpack_all(chain: Seq<BackupView>, dest: Seq<char>) -> Seq<StepView> {
    Seq::new(
        chain.len(),
        |k: int| StepView::Unpack { archive: chain[k].storage_key, destination: dest },
    )
}

/// Restore from a local chain: pre-restore hook, every archive oldest first,
/// post-restore hook, then local retention.
pub open spec fn restore_plan(config: Config, chain: Seq<BackupView>) -> Seq<StepView> {
    hook(config.pre_restore_script@) + unpack_all(chain, config.app_root@) + hook(
        config.post_restore_script@,
    ) + seq![StepView::PruneLocal]
}

/// Restore from the remote store: fetch the one archive into the local
/// store, then restore it alone.
pub open spec fn remote_restore_plan(config: Config, global: GlobalConfig, b: BackupView) -> Seq<StepView> {
    let archive = archive_path(global.local_storage_location@, b.display_name);
    seq![StepView::Download { key: b.storage_key, archive }] + hook(config.pre_restore_script@)
        + seq![StepView::Unpack { archive, destination: config.app_root@ }] + hook(
        config.post_restore_script@,
    ) + seq![StepView::PruneLocal]
}

/// The chain that restores the backup named `target` of application
/// `app_name` on server `server_name`, from a local catalog that runs newest
/// first: one full backup, then incremental backups only, all of that
/// application and server, ending with the backup asked for.
pub fn find_local_chain(local: &Vec<Backup>, app_name: &str, server_name: &str, target: &str) -> (r: Result<
    Vec<Backup>,
    RestoreError,
>)
    ensures
        match r {
            Ok(c) => {
                &&& local_chain(of_source(views(local@), app_name@, server_name@), target@) == Ok::<
                    Seq<BackupView>,
                    RestoreError,
                >(views(c@))
                &&& chain_shape(views(c@), app_name@, server_name@, target@)
            },
            Err(e) => local_chain(of_source(views(local@), app_name@, server_name@), target@) == Err::<
                Seq<BackupView>,
                RestoreError,
            >(e),
        },
{
    let mine = filter_by_source(local, app_name, server_name);
    let ghost s = views(mine@);
    let n = mine.len();
    let mut i: usize = 0;
    while i < n && !same_text(mine[i].display_name.as_str(), target)
        invariant
            i <= n,
            n == s.len(),
            s == views(mine@),
            named_from(s, target@, 0) == named_from(s, target@, i as int),
        decreases n - i,
    {
        i += 1;
    }
    if i == n {
        return Err(RestoreError::BackupNotFound);
    }
    let start = i;
    let mut newest: Vec<Backup> = Vec::new();
    let mut complete = false;
    while i < n && !complete
        invariant
            start <= i <= n,
            n == s.len(),
            s == views(mine@),
            named_from(s, target@, 0) == start,
            views(newest@) == s.subrange(start as int, i as int),
            !complete ==> full_from(s, start as int) == full_from(s, i as int),
            complete ==> i > start && full_from(s, start as int) == i - 1,
        decreases n - i,
    {
        let ghost before = views(newest@);
        newest.push(mine[i].clone());
        assert(views(newest@) =~= before.push(s[i as int]));
        assert(s.subrange(start as int, i + 1) =~= s.subrange(start as int, i as int).push(s[i as int]));
        if mine[i].kind == BackupType::Full {
            complete = true;
        }
        i += 1;
    }
    if !complete {
        return Err(RestoreError::BrokenChain);
    }
    let m = newest.len();
    let mut chain: Vec<Backup> = Vec::new();
    let mut k: usize = m;
    while k > 0
        invariant
            k <= m,
            m == newest.len(),
            views(chain@).len() == m - k,
            forall|x: int| 0 <= x < m - k ==> views(chain@)[x] == views(newest@)[m - 1 - x],
        decreases k,
    {
        let ghost before = views(chain@);
        chain.push(newest[k - 1].clone());
        assert(views(chain@) =~= before.push(newest@[k - 1]@));
        k -= 1;
    }
    assert(views(chain@) =~= views(newest@).reverse());
    proof {
        lemma_chain_shape(views(local@), app_name@, server_name@, target@);
    }
    Ok(chain)
}

/// The first backup named `target` in a remote catalog.
pub fn find_remote_backup(remote: &Vec<Backup>, target: &str) -> (r: Result<Backup, RestoreError>)
    ensures
        match r {
            Ok(b) => {
                let i = named_from(views(remote@), target@, 0);
                0 <= i < remote@.len() && b@ == views(remote@)[i]
            },
            Err(e) => e == RestoreError::BackupNotFound && named_from(views(remote@), target@, 0) == -1,
        },
{
    let mut i: usize = 0;
    while i < remote.len()
        invariant
            i <= remote.len(),
            named_from(views(remote@), target@, 0) == named_from(views(remote@), target@, i as int),
        decreases remote.len() - i,
    {
        if same_text(remote[i].display_name.as_str(), target) {
            return Ok(remote[i].clone());
        }
        i += 1;
    }
    Err(RestoreError::BackupNotFound)
}

/// The steps that restore a resolved local chain (oldest first).
pub fn restore_steps(config: &Config, chain: &Vec<Backup>) -> (r: Vec<Step>)
    ensures
        step_views(r@) == restore_plan(*config, views(chain@)),
{
    let mut r: Vec<Step> = Vec::new();
    push_hook(&mut r, &config.pre_restore_script);
    let ghost head = step_views(r@);
    let mut i: usize = 0;
    while i < chain.len()
        invariant
            i <= chain.len(),
            head == hook(config.pre_restore_script@),
            step_views(r@) == head + unpack_all(views(chain@).subrange(0, i as int), config.app_root@),
        decreases chain.len() - i,
    {
        let ghost before = step_views(r@);
        let ghost u = StepView::Unpack { archive: chain@[i as int].storage_key@, destination: config.app_root@ };
        r.push(Step::Unpack { archive: chain[i].storage_key.clone(), destination: config.app_root.clone() });
        assert(step_views(r@) =~= before.push(u));
        assert(unpack_all(views(chain@).subrange(0, i + 1), config.app_root@) =~= unpack_all(
            views(chain@).subrange(0, i as int),
            config.app_root@,
        ).push(u));
        assert(step_views(r@) =~= head + unpack_all(views(chain@).subrange(0, i + 1), config.app_root@));
        i += 1;
    }
    assert(views(chain@).subrange(0, chain.len() as int) =~= views(chain@));
    push_hook(&mut r, &config.post_restore_script);
    let ghost before = step_views(r@);
    r.push(Step::PruneLocal);
    assert(step_views(r@) =~= before.push(StepView::PruneLocal));
    assert(step_views(r@) =~= restore_plan(*config, views(chain@)));
    r
}

/// The steps that restore a backup found only in the remote store.
pub fn remote_restore_steps(config: &Config, global: &GlobalConfig, b: &Backup) -> (r: Vec<Step>)
    ensures
        step_views(r@) == remote_restore_plan(*config, *global, b@),
{
    let archive = archive_of(global.local_storage_location.as_str(), b.display_name.as_str());
    let mut r: Vec<Step> = Vec::new();
    r.push(Step::Download { key: b.storage_key.clone(), archive: archive.clone() });
    push_hook(&mut r, &config.pre_restore_script);
    let ghost before = step_views(r@);
    r.push(Step::Unpack { archive, destination: config.app_root.clone() });
    assert(step_views(r@) =~= before.push(StepView::Unpack { archive: archive_path(global.local_storage_location@, b.display_name@), destination: config.app_root@ }));
    push_hook(&mut r, &config.post_restore_script);
    let ghost before2 = step_views(r@);
    r.push(Step::PruneLocal);
    assert(step_views(r@) =~= before2.push(StepView::PruneLocal));
    assert(step_views(r@) =~= remote_restore_plan(*config, *global, b@));
    r
}

/// What a restore asks of its caller.
#[derive(Debug)]
pub enum RestoreOutcome {
    /// The steps to perform, in order.
    Steps(Vec<Step>),
    /// The name is not in the local catalog: ask again with the remote one.
    RemoteCatalogNeeded,
}

/// The steps that restore the backup named `target` of the configured
/// application and server. The local catalog (newest first) is searched
/// first; only a name that it lacks is looked up in the remote catalog,
/// whose first match is restored alone. Without a remote catalog that case
/// asks for it.
pub fn restore(
    config: &Config,
    global: &GlobalConfig,
    local: &Vec<Backup>,
    remote: Option<&Vec<Backup>>,
    target: &str,
) -> (r: Result<RestoreOutcome, RestoreError>)
    ensures
        match local_chain(of_source(views(local@), config.app_name@, config.server_name@), target@) {
            Ok(chain) => match r {
                Ok(RestoreOutcome::Steps(steps)) => step_views(steps@) == restore_plan(*config, chain),
                _ => false,
            },
            Err(RestoreError::BrokenChain) => r == Err::<RestoreOutcome, RestoreError>(
                RestoreError::BrokenChain,
            ),
            Err(RestoreError::BackupNotFound) => match remote {
                None => match r {
                    Ok(RestoreOutcome::RemoteCatalogNeeded) => true,
                    _ => false,
                },
                Some(rc) => {
                    let i = named_from(views(rc@), target@, 0);
                    if i < 0 {
                        r == Err::<RestoreOutcome, RestoreError>(RestoreError::BackupNotFound)
                    } else {
                        match r {
                            Ok(RestoreOutcome::Steps(steps)) => step_views(steps@) == remote_restore_plan(
                                *config,
                                *global,
                                views(rc@)[i],
                            ),
                            _ => false,
                        }
                    }
                },
            },
        },
{
    match find_local_chain(local, config.app_name.as_str(), config.server_name.as_str(), target) {
        Ok(chain) => Ok(RestoreOutcome::Steps(restore_steps(config, &chain))),
        Err(RestoreError::BrokenChain) => Err(RestoreError::BrokenChain),
        Err(RestoreError::BackupNotFound) => match remote {
            None => Ok(RestoreOutcome::RemoteCatalogNeeded),
            Some(rc) => match find_remote_backup(rc, target) {
                Ok(b) => Ok(RestoreOutcome::Steps(remote_restore_steps(config, global, &b))),
                Err(e) => Err(e),
            },
        },
    }
}

proof fn lemma_named_from_absent(s: Seq<BackupView>, target: Seq<char>, from: int)
    requires
        0 <= from,
        forall|k: int| 0 <= k < s.len() ==> s[k].display_name != target,
    ensures
        named_from(s, target, from) == -1,
    decreases s.len() - from,
{
    if from < s.len() {
        lemma_named_from_absent(s, target, from + 1);
    }
}

proof fn lemma_of_source_members(s: Seq<BackupView>, app: Seq<char>, server: Seq<char>)
    ensures
        forall|k: int|
            0 <= k < of_source(s, app, server).len() ==> s.contains(#[trigger] of_source(s, app, server)[k]),
        forall|k: int|
            0 <= k < of_source(s, app, server).len() ==> (#[trigger] of_source(s, app, server)[k]).app_name
                == app && of_source(s, app, server)[k].server_name == server,
    decreases s.len(),
{
    if s.len() > 0 {
        lemma_of_source_members(s.drop_last(), app, server);
        let p = of_source(s.drop_last(), app, server);
        assert forall|k: int| 0 <= k < p.len() implies s.contains(#[trigger] p[k]) by {
            let j = choose|j: int| 0 <= j < s.drop_last().len() && s.drop_last()[j] == p[k];
            assert(s[j] == p[k]);
        }
        assert(s[s.len() - 1] == s.last());
    }
}

proof fn lemma_full_from_absent(s: Seq<BackupView>, from: int)
    requires
        0 <= from,
        forall|k: int| 0 <= k < s.len() ==> s[k].kind != BackupType::Full,
    ensures
        full_from(s, from) == -1,
    decreases s.len() - from,
{
    if from < s.len() {
        lemma_full_from_absent(s, from + 1);
    }
}

/// A name that neither catalog holds is not found: restore ends in
/// `BackupNotFound` and yields no step, so no script runs and nothing is
/// unpacked.
pub proof fn lemma_unknown_target(
    local: Seq<BackupView>,
    remote: Seq<BackupView>,
    app: Seq<char>,
    server: Seq<char>,
    target: Seq<char>,
)
    requires
        forall|k: int| 0 <= k < local.len() ==> local[k].display_name != target,
        forall|k: int| 0 <= k < remote.len() ==> remote[k].display_name != target,
    ensures
        local_chain(of_source(local, app, server), target) == Err::<Seq<BackupView>, RestoreError>(
            RestoreError::BackupNotFound,
        ),
        named_from(remote, target, 0) == -1,
{
    lemma_of_source_members(local, app, server);
    let s = of_source(local, app, server);
    assert forall|k: int| 0 <= k < s.len() implies s[k].display_name != target by {
        let j = choose|j: int| 0 <= j < local.len() && local[j] == s[k];
    }
    lemma_named_from_absent(s, target, 0);
    lemma_named_from_absent(remote, target, 0);
}

/// Where an application's local backups are all incremental, restoring any
/// of them fails with `BrokenChain` rather than restoring part of a chain.
pub proof fn lemma_broken_chain(local: Seq<BackupView>, app: Seq<char>, server: Seq<char>, target: Seq<char>)
    requires
        forall|k: int|
            0 <= k < local.len() && local[k].app_name == app ==> local[k].kind == BackupType::Incremental,
        exists|k: int|
            0 <= k < local.len() && local[k].app_name == app && local[k].server_name == server
                && local[k].display_name == target,
    ensures
        local_chain(of_source(local, app, server), target) == Err::<Seq<BackupView>, RestoreError>(
            RestoreError::BrokenChain,
        ),
{
    lemma_of_source_members(local, app, server);
    lemma_of_source_contains(local, app, server);
    let s = of_source(local, app, server);
    assert forall|k: int| 0 <= k < s.len() implies s[k].kind != BackupType::Full by {
        let j = choose|j: int| 0 <= j < local.len() && local[j] == s[k];
    }
    let k = choose|k: int|
        0 <= k < local.len() && local[k].app_name == app && local[k].server_name == server
            && local[k].display_name == target;
    assert(s.contains(local[k]));
    let m = choose|m: int| 0 <= m < s.len() && s[m] == local[k];
    lemma_named_from_found(s, target, 0, m);
    lemma_full_from_absent(s, named_from(s, target, 0));
}

proof fn lemma_of_source_contains(s: Seq<BackupView>, app: Seq<char>, server: Seq<char>)
    ensures
        forall|k: int|
            0 <= k < s.len() && s[k].app_name == app && s[k].server_name == server ==> of_source(
                s,
                app,
                server,
            ).contains(#[trigger] s[k]),
    decreases s.len(),
{
    if s.len() > 0 {
        lemma_of_source_contains(s.drop_last(), app, server);
        let p = of_source(s.drop_last(), app, server);
        assert forall|k: int|
            0 <= k < s.len() && s[k].app_name == app && s[k].server_name == server implies of_source(
                s,
                app,
                server,
            ).contains(#[trigger] s[k]) by {
            if k < s.len() - 1 {
                assert(s.drop_last()[k] == s[k]);
                let j = choose|j: int| 0 <= j < p.len() && p[j] == s[k];
                assert(of_source(s, app, server)[j] == s[k]);
            } else {
                assert(of_source(s, app, server)[p.len() as int] == s[k]);
            }
        }
    }
}

proof fn lemma_named_from_found(s: Seq<BackupView>, target: Seq<char>, from: int, m: int)
    requires
        0 <= from <= m < s.len(),
        s[m].display_name == target,
    ensures
        from <= named_from(s, target, from) <= m,
    decreases m - from,
{
    if s[from].display_name != target {
        lemma_named_from_found(s, target, from + 1, m);
    }
}

proof fn lemma_full_from_props(s: Seq<BackupView>, from: int)
    requires
        0 <= from,
    ensures
        ({
            let j = full_from(s, from);
            &&& -1 <= j < s.len()
            &&& j >= 0 ==> from <= j && s[j].kind == BackupType::Full
            &&& forall|k: int| from <= k < s.len() && (j < 0 || k < j) ==> s[k].kind != BackupType::Full
        }),
    decreases s.len() - from,
{
    if from < s.len() && s[from].kind != BackupType::Full {
        lemma_full_from_props(s, from + 1);
    }
}

proof fn lemma_named_from_props(s: Seq<BackupView>, target: Seq<char>, from: int)
    requires
        0 <= from,
    ensures
        ({
            let i = named_from(s, target, from);
            &&& -1 <= i < s.len()
            &&& i >= 0 ==> from <= i && s[i].display_name == target
        }),
    decreases s.len() - from,
{
    if from < s.len() && s[from].display_name != target {
        lemma_named_from_props(s, target, from + 1);
    }
}

/// One full backup, then incremental backups only, all of `app` on
/// `server`, ending with the backup named `target`.
pub open spec fn chain_shape(c: Seq<BackupView>, app: Seq<char>, server: Seq<char>, target: Seq<char>) -> bool {
    &&& c.len() >= 1
    &&& c[0].kind == BackupType::Full
    &&& forall|k: int| 1 <= k < c.len() ==> (#[trigger] c[k]).kind == BackupType::Incremental
    &&& c[c.len() - 1].display_name == target
    &&& forall|k: int|
        0 <= k < c.len() ==> (#[trigger] c[k]).app_name == app && c[k].server_name == server
}

/// Within each application and server, later entries are strictly older.
pub open spec fn strictly_newest_first(s: Seq<BackupView>) -> bool {
    forall|i: int, j: int|
        0 <= i < j < s.len() && s[i].app_name == s[j].app_name && s[i].server_name == s[j].server_name
            ==> s[i].timestamp.instant() > s[j].timestamp.instant()
}

/// A restore chain has the shape of `chain_shape`. From a catalog that runs
/// newest first it runs oldest first, so restoring it replays the archives
/// in the order they were taken; where no two backups of one application
/// and server share an instant, its times strictly increase.
pub proof fn lemma_chain_shape(local: Seq<BackupView>, app: Seq<char>, server: Seq<char>, target: Seq<char>)
    requires
        local_chain(of_source(local, app, server), target) is Ok,
    ensures
        ({
            let c = local_chain(of_source(local, app, server), target)->Ok_0;
            &&& chain_shape(c, app, server, target)
            &&& newest_first(local) ==> forall|a: int, b: int|
                0 <= a < b < c.len() ==> c[a].timestamp.instant() <= c[b].timestamp.instant()
            &&& strictly_newest_first(local) ==> forall|a: int, b: int|
                0 <= a < b < c.len() ==> c[a].timestamp.instant() < c[b].timestamp.instant()
        }),
{
    let s = of_source(local, app, server);
    lemma_of_source_members(local, app, server);
    lemma_named_from_props(s, target, 0);
    let i = named_from(s, target, 0);
    lemma_full_from_props(s, i);
    let j = full_from(s, i);
    let c = s.subrange(i, j + 1).reverse();
    assert(forall|k: int| 0 <= k < c.len() ==> c[k] == s[j - k]);
    assert forall|k: int| 1 <= k < c.len() implies (#[trigger] c[k]).kind == BackupType::Incremental by {
        assert(c[k] == s[j - k]);
        match s[j - k].kind {
            BackupType::Full => {},
            BackupType::Incremental => {},
        }
    }
    assert forall|k: int| 0 <= k < c.len() implies (#[trigger] c[k]).app_name == app && c[k].server_name
        == server by {
        assert(c[k] == s[j - k]);
    }
    if newest_first(local) {
        lemma_of_source_order(local, app, server);
    }
    if strictly_newest_first(local) {
        lemma_of_source_order(local, app, server);
    }
}

/// Filtering keeps the order of a catalog that runs newest first, and makes
/// it strict where each application and server's entries are strictly
/// ordered.
pub proof fn lemma_of_source_order(s: Seq<BackupView>, app: Seq<char>, server: Seq<char>)
    ensures
        newest_first(s) ==> newest_first(of_source(s, app, server)),
        strictly_newest_first(s) ==> forall|a: int, b: int|
            0 <= a < b < of_source(s, app, server).len() ==> of_source(s, app, server)[a].timestamp.instant()
                > of_source(s, app, server)[b].timestamp.instant(),
    decreases s.len(),
{
    if s.len() > 0 {
        lemma_of_source_order(s.drop_last(), app, server);
        lemma_of_source_members(s.drop_last(), app, server);
        let p = of_source(s.drop_last(), app, server);
        if s.last().app_name == app && s.last().server_name == server {
            if newest_first(s) {
                assert(newest_first(s.drop_last()));
                assert forall|a: int| 0 <= a < p.len() implies p[a].timestamp.instant()
                    >= s.last().timestamp.instant() by {
                    let m = choose|m: int| 0 <= m < s.drop_last().len() && s.drop_last()[m] == p[a];
                    assert(s[m] == p[a]);
                    assert(s[s.len() - 1] == s.last());
                }
            }
            if strictly_newest_first(s) {
                assert(strictly_newest_first(s.drop_last()));
                assert forall|a: int| 0 <= a < p.len() implies p[a].timestamp.instant()
                    > s.last().timestamp.instant() by {
                    let m = choose|m: int| 0 <= m < s.drop_last().len() && s.drop_last()[m] == p[a];
                    assert(s[m] == p[a]);
                    assert(s[s.len() - 1] == s.last());
                }
            }
        } else {
            if newest_first(s) {
                assert(newest_first(s.drop_last()));
            }
            if strictly_newest_first(s) {
                assert(strictly_newest_first(s.drop_last()));
            }
        }
    }
}

} // verus!
