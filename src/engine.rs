//! Backup creation: the baseline of an incremental backup, the decision to
//! back up, and the steps that build, upload and prune.
use vstd::prelude::*;

use crate::backup::{encode_name, name_of, Backup, BackupType, BackupView};
use crate::catalog::{texts, views};
use crate::config::{Config, GlobalConfig};
use crate::plan::{archive_of, archive_path, hook, push_hook, step_views, Step, StepView};
use crate::selector::{changed_after, relative_path, relative_to, FileStamp};
use crate::time::Timestamp;

verus! {

#[derive(Clone, Copy, PartialEq, Eq, Structural, Debug)]
pub enum BackupError {
    /// A full backup found no file to archive.
    NoFilesToBackup,
    /// An incremental backup found no earlier backup of the application.
    NoBaselineBackup,
}

/// A backup to take: the record it will have and the steps that make it.
#[derive(Debug)]
pub struct BackupJob {
    pub backup: Backup,
    pub steps: Vec<Step>,
}

/// The time of the latest backup of `app` (of any kind), the first one where
/// several share it.
pub open spec fn latest_time(s: Seq<BackupView>, app: Seq<char>) -> Option<Timestamp>
    decreases s.len(),
{
    if s.len() == 0 {
        None
    } else {
        let prev = latest_time(s.drop_last(), app);
        let b = s.last();
        if b.app_name == app && (prev.is_none() || b.timestamp.instant() > prev.unwrap().instant()) {
            Some(b.timestamp)
        } else {
            prev
        }
    }
}

/// The record of a backup of `kind` taken at `now`.
pub open spec fn backup_view(config: Config, global: GlobalConfig, kind: BackupType, now: Timestamp) -> BackupView {
    let name = encode_name(config.app_name@, config.server_name@, kind, now);
    BackupView {
        app_name: config.app_name@,
        server_name: config.server_name@,
        kind,
        timestamp: now,
        storage_key: archive_path(global.local_storage_location@, name),
        display_name: name,
    }
}

pub open spec fn relative_files(root: Seq<char>, files: Seq<Seq<char>>) -> Seq<Seq<char>> {
    files.map_values(|f: Seq<char>| relative_to(root, f))
}

/// The steps of a backup: pack the files into the local archive and upload
/// it under its identifier, then the post-backup hook. A full backup then
/// prunes both stores; an incremental one runs the pre-backup hook first
/// and prunes nothing.
pub open spec fn backup_plan(
    config: Config,
    global: GlobalConfig,
    files: Seq<Seq<char>>,
    kind: BackupType,
    now: Timestamp,
) -> Seq<StepView> {
    let b = backup_view(config, global, kind, now);
    let core = seq![
        StepView::Pack {
            archive: b.storage_key,
            root: config.app_root@,
            files: relative_files(config.app_root@, files),
        },
        StepView::Upload { archive: b.storage_key, key: b.display_name },
    ];
    match kind {
        BackupType::Full => core + hook(config.post_backup_script@) + seq![
            StepView::PruneLocal,
            StepView::PruneRemote,
        ],
        BackupType::Incremental => hook(config.pre_backup_script@) + core + hook(
            config.post_backup_script@,
        ),
    }
}

pub proof fn lemma_latest_time(s: Seq<BackupView>, app: Seq<char>)
    ensures
        match latest_time(s, app) {
            Some(t) => (exists|k: int| 0 <= k < s.len() && s[k].app_name == app && s[k].timestamp == t)
                && forall|k: int|
                0 <= k < s.len() && s[k].app_name == app ==> s[k].timestamp.instant() <= t.instant(),
            None => forall|k: int| 0 <= k < s.len() ==> s[k].app_name != app,
        },
    decreases s.len(),
{
    if s.len() > 0 {
        lemma_latest_time(s.drop_last(), app);
        let prev = latest_time(s.drop_last(), app);
        assert(forall|k: int| 0 <= k < s.len() - 1 ==> s[k] == s.drop_last()[k]);
        match latest_time(s, app) {
            Some(t) => {
                if latest_time(s, app) == prev {
                    let k = choose|k: int|
                        0 <= k < s.drop_last().len() && s.drop_last()[k].app_name == app
                            && s.drop_last()[k].timestamp == t;
                    assert(s[k].timestamp == t);
                } else {
                    assert(s[s.len() - 1].timestamp == t);
                }
            },
            None => {},
        }
    }
}

/// After an incremental backup `taken` of `app` is in the catalog, and no
/// file was modified after it was taken, the next baseline is at or after
/// it: no file counts as changed, so the next incremental backup does
/// nothing.
pub proof fn lemma_incremental_idempotent(
    catalog: Seq<BackupView>,
    app: Seq<char>,
    files: Seq<FileStamp>,
    taken: BackupView,
)
    requires
        catalog.contains(taken),
        taken.app_name == app,
        forall|k: int|
            0 <= k < files.len() ==> match #[trigger] files[k].modified {
                Some(t) => t.instant() <= taken.timestamp.instant(),
                None => true,
            },
    ensures
        latest_time(catalog, app).is_some(),
        changed_after(files, latest_time(catalog, app).unwrap()) == Seq::<Seq<char>>::empty(),
{
    lemma_latest_time(catalog, app);
    let since = latest_time(catalog, app).unwrap();
    lemma_nothing_changed(files, since);
}

proof fn lemma_nothing_changed(files: Seq<FileStamp>, since: Timestamp)
    requires
        forall|k: int|
            0 <= k < files.len() ==> match #[trigger] files[k].modified {
                Some(t) => t.instant() <= since.instant(),
                None => true,
            },
    ensures
        changed_after(files, since) == Seq::<Seq<char>>::empty(),
    decreases files.len(),
{
    if files.len() > 0 {
        assert(forall|k: int| 0 <= k < files.len() - 1 ==> files.drop_last()[k] == files[k]);
        lemma_nothing_changed(files.drop_last(), since);
        let last = files[files.len() - 1];
        assert(files.last() == last);
    }
}

/// The time of the latest backup of `app_name` in the catalog: the instant
/// after which files count as changed for an incremental backup.
pub fn get_last_backup_time(local: &Vec<Backup>, app_name: &str) -> (r: Result<Timestamp, BackupError>)
    ensures
        match latest_time(views(local@), app_name@) {
            Some(t) => r == Ok::<Timestamp, BackupError>(t),
            None => r == Err::<Timestamp, BackupError>(BackupError::NoBaselineBackup),
        },
{
    let mut best: Option<Timestamp> = None;
    let mut i: usize = 0;
    while i < local.len()
        invariant
            i <= local.len(),
            best == latest_time(views(local@).subrange(0, i as int), app_name@),
        decreases local.len() - i,
    {
        assert(views(local@).subrange(0, i + 1).drop_last() =~= views(local@).subrange(0, i as int));
        if crate::text::same_text(local[i].app_name.as_str(), app_name) {
            let t = local[i].timestamp;
            match best {
                None => {
                    best = Some(t);
                },
                Some(b) => {
                    if t.is_after(&b) {
                        best = Some(t);
                    }
                },
            }
        }
        i += 1;
    }
    assert(views(local@).subrange(0, local.len() as int) =~= views(local@));
    match best {
        Some(t) => Ok(t),
        None => Err(BackupError::NoBaselineBackup),
    }
}

/// The job that backs up `files` as a backup of `kind` taken at `now`.
/// There must be at least one file: an empty selection is no backup.
pub fn do_backup(
    config: &Config,
    global: &GlobalConfig,
    files: &Vec<String>,
    kind: BackupType,
    now: Timestamp,
) -> (r: BackupJob)
    requires
        now.wf(),
        files@.len() > 0,
    ensures
        r.backup@ == backup_view(*config, *global, kind, now),
        step_views(r.steps@) == backup_plan(*config, *global, texts(files@), kind, now),
{
    let name = name_of(config.app_name.as_str(), config.server_name.as_str(), kind, now);
    let archive = archive_of(global.local_storage_location.as_str(), name.as_str());
    let mut relative: Vec<String> = Vec::new();
    let mut i: usize = 0;
    while i < files.len()
        invariant
            i <= files.len(),
            texts(relative@) == relative_files(config.app_root@, texts(files@).subrange(0, i as int)),
        decreases files.len() - i,
    {
        let ghost before = texts(relative@);
        relative.push(relative_path(config.app_root.as_str(), files[i].as_str()));
        assert(texts(relative@) =~= before.push(relative_to(config.app_root@, files@[i as int]@)));
        assert(relative_files(config.app_root@, texts(files@).subrange(0, i + 1)) =~= relative_files(
            config.app_root@,
            texts(files@).subrange(0, i as int),
        ).push(relative_to(config.app_root@, files@[i as int]@)));
        assert(texts(relative@) =~= relative_files(config.app_root@, texts(files@).subrange(0, i + 1)));
        i += 1;
    }
    assert(texts(files@).subrange(0, files.len() as int) =~= texts(files@));
    let mut steps: Vec<Step> = Vec::new();
    if kind == BackupType::Incremental {
        push_hook(&mut steps, &config.pre_backup_script);
    }
    let ghost head = step_views(steps@);
    steps.push(Step::Pack { archive: archive.clone(), root: config.app_root.clone(), files: relative });
    steps.push(Step::Upload { archive: archive.clone(), key: name.clone() });
    let ghost b = backup_view(*config, *global, kind, now);
    let ghost core = seq![
        StepView::Pack {
            archive: b.storage_key,
            root: config.app_root@,
            files: relative_files(config.app_root@, texts(files@)),
        },
        StepView::Upload { archive: b.storage_key, key: b.display_name },
    ];
    assert(step_views(steps@) =~= head + core);
    push_hook(&mut steps, &config.post_backup_script);
    if kind == BackupType::Full {
        let ghost before = step_views(steps@);
        steps.push(Step::PruneLocal);
        steps.push(Step::PruneRemote);
        assert(step_views(steps@) =~= before + seq![StepView::PruneLocal, StepView::PruneRemote]);
        assert(head =~= Seq::<StepView>::empty());
        assert(step_views(steps@) =~= backup_plan(*config, *global, texts(files@), kind, now));
    } else {
        assert(step_views(steps@) =~= backup_plan(*config, *global, texts(files@), kind, now));
    }
    let backup = Backup {
        app_name: config.app_name.clone(),
        server_name: config.server_name.clone(),
        kind,
        timestamp: now,
        storage_key: archive,
        display_name: name,
    };
    BackupJob { backup, steps }
}

/// The job of a full backup of the selected files.
pub fn do_full_backup(config: &Config, global: &GlobalConfig, files: &Vec<String>, now: Timestamp) -> (r: BackupJob)
    requires
        now.wf(),
        files@.len() > 0,
    ensures
        r.backup@ == backup_view(*config, *global, BackupType::Full, now),
        step_views(r.steps@) == backup_plan(*config, *global, texts(files@), BackupType::Full, now),
{
    do_backup(config, global, files, BackupType::Full, now)
}

/// The job of an incremental backup of the changed files.
pub fn do_incremental_backup(config: &Config, global: &GlobalConfig, files: &Vec<String>, now: Timestamp) -> (r: BackupJob)
    requires
        now.wf(),
        files@.len() > 0,
    ensures
        r.backup@ == backup_view(*config, *global, BackupType::Incremental, now),
        step_views(r.steps@) == backup_plan(
            *config,
            *global,
            texts(files@),
            BackupType::Incremental,
            now,
        ),
{
    do_backup(config, global, files, BackupType::Incremental, now)
}

/// A full backup of the selected files, taken at `now`; with nothing
/// selected there is nothing to archive and nothing is done.
pub fn full_backup(config: &Config, global: &GlobalConfig, selected: &Vec<String>, now: Timestamp) -> (r: Result<BackupJob, BackupError>)
    requires
        now.wf(),
    ensures
        selected@.len() == 0 <==> r == Err::<BackupJob, BackupError>(BackupError::NoFilesToBackup),
        match r {
            Ok(job) => job.backup@ == backup_view(*config, *global, BackupType::Full, now)
                && step_views(job.steps@) == backup_plan(
                *config,
                *global,
                texts(selected@),
                BackupType::Full,
                now,
            ),
            Err(e) => e == BackupError::NoFilesToBackup,
        },
{
    if selected.len() == 0 {
        Err(BackupError::NoFilesToBackup)
    } else {
        Ok(do_full_backup(config, global, selected, now))
    }
}

/// An incremental backup of the files changed since the baseline, taken at
/// `now`; where none changed it is skipped (`None`), with no archive, upload
/// or hook.
pub fn incremental_backup(config: &Config, global: &GlobalConfig, changed: &Vec<String>, now: Timestamp) -> (r: Option<BackupJob>)
    requires
        now.wf(),
    ensures
        r.is_none() <==> changed@.len() == 0,
        match r {
            Some(job) => job.backup@ == backup_view(*config, *global, BackupType::Incremental, now)
                && step_views(job.steps@) == backup_plan(
                *config,
                *global,
                texts(changed@),
                BackupType::Incremental,
                now,
            ),
            None => true,
        },
{
    if changed.len() == 0 {
        None
    } else {
        Some(do_incremental_backup(config, global, changed, now))
    }
}

} // verus!
