//! The outside work that an operation asks its caller to perform, in order.
//! The caller stops at the first step that fails.
use vstd::prelude::*;

verus! {

#[derive(Debug)]
pub enum Step {
    /// Run a hook script with the shell; a non-zero exit aborts the operation.
    RunScript { script: String },
    /// Pack `files`, relative to `root`, into a compressed archive at `archive`.
    Pack { archive: String, root: String, files: Vec<String> },
    /// Store the archive under `key` in the remote store.
    Upload { archive: String, key: String },
    /// Fetch the object `key` from the remote store into `archive`.
    Download { key: String, archive: String },
    /// Extract the archive into `destination`, overwriting what is there.
    Unpack { archive: String, destination: String },
    /// Apply retention to the application's local backups.
    PruneLocal,
    /// Apply retention to the application's remote backups.
    PruneRemote,
}

pub ghost enum StepView {
    RunScript { script: Seq<char> },
    Pack { archive: Seq<char>, root: Seq<char>, files: Seq<Seq<char>> },
    Upload { archive: Seq<char>, key: Seq<char> },
    Download { key: Seq<char>, archive: Seq<char> },
    Unpack { archive: Seq<char>, destination: Seq<char> },
    PruneLocal,
    PruneRemote,
}

impl View for Step {
    type V = StepView;

    open spec fn view(&self) -> StepView {
        match self {
            Step::RunScript { script } => StepView::RunScript { script: script@ },
            Step::Pack { archive, root, files } => StepView::Pack {
                archive: archive@,
                root: root@,
                files: files@.map_values(|f: String| f@),
            },
            Step::Upload { archive, key } => StepView::Upload { archive: archive@, key: key@ },
            Step::Download { key, archive } => StepView::Download { key: key@, archive: archive@ },
            Step::Unpack { archive, destination } => StepView::Unpack {
                archive: archive@,
                destination: destination@,
            },
            Step::PruneLocal => StepView::PruneLocal,
            Step::PruneRemote => StepView::PruneRemote,
        }
    }
}

pub open spec fn step_views(s: Seq<Step>) -> Seq<StepView> {
    s.map_values(|x: Step| x@)
}

/// A hook runs only where a script is configured.
pub open spec fn hook(script: Seq<char>) -> Seq<StepView> {
    if script.len() == 0 {
        seq![]
    } else {
        seq![StepView::RunScript { script }]
    }
}

/// `name` inside the directory `dir`.
pub open spec fn join_path(dir: Seq<char>, name: Seq<char>) -> Seq<char> {
    if dir.len() == 0 || dir.last() == '/' {
        dir + name
    } else {
        dir + seq!['/'] + name
    }
}

/// The compressed archive of the backup `name` in the local store `dir`.
pub open spec fn archive_path(dir: Seq<char>, name: Seq<char>) -> Seq<char> {
    join_path(dir, name) + seq!['.', 't', 'a', 'r', '.', 'g', 'z']
}

/// Appends the hook for `script` to `steps`.
pub fn push_hook(steps: &mut Vec<Step>, script: &String)
    ensures
        step_views(final(steps)@) == step_views(old(steps)@) + hook(script@),
{
    let ghost before = step_views(steps@);
    if script.unicode_len() > 0 {
        steps.push(Step::RunScript { script: script.clone() });
        assert(step_views(steps@) =~= before + hook(script@));
    } else {
        assert(step_views(steps@) =~= before + hook(script@));
    }
}

/// The steps that run `script` as a hook: none where it is empty.
pub fn hook_steps(script: &String) -> (r: Vec<Step>)
    ensures
        step_views(r@) == hook(script@),
{
    let mut r: Vec<Step> = Vec::new();
    push_hook(&mut r, script);
    assert(step_views(Seq::<Step>::empty()) + hook(script@) =~= hook(script@));
    r
}

/// The path of `name` inside the directory `dir`.
pub fn join(dir: &str, name: &str) -> (r: String)
    ensures
        r@ == join_path(dir@, name@),
{
    let n = dir.unicode_len();
    proof {
        reveal_strlit("/");
    }
    if n == 0 || dir.get_char(n - 1) == '/' {
        String::from_str(dir).concat(name)
    } else {
        let r = String::from_str(dir).concat("/").concat(name);
        assert(r@ =~= join_path(dir@, name@));
        r
    }
}

/// The compressed archive of the backup `name` in the local store `dir`.
pub fn archive_of(dir: &str, name: &str) -> (r: String)
    ensures
        r@ == archive_path(dir@, name@),
{
    proof {
        reveal_strlit(".tar.gz");
    }
    let r = join(dir, name).concat(".tar.gz");
    assert(r@ =~= archive_path(dir@, name@));
    r
}

} // verus!
