use vstd::prelude::*;
use crate::error::PhotoArchiveError;

verus! {

/// A request to register a device and import it for the first time.
pub struct ImportSourceArgs {
    pub source_id: String,
    pub source_name: String,
    pub source_group: String,
    pub source_tags: Vec<String>,
}

/// A request to synchronize a device that was imported before.
pub struct SyncSourceArgs {
    pub source_id: String,
}

/// What a command that starts a task hands back at once.
pub struct RunningTaskDto {
    pub task_id: String,
}

/// The source that a synchronization task reads from.
pub enum SyncSource {
    New { id: String, name: String, group: String, tags: Vec<String> },
    Existing { id: String },
}

/// The options with which a synchronization task is started.
pub struct SyncOpts {
    pub count_images: bool,
    pub source: SyncSource,
}

/// The two kinds of task a command can start.
#[derive(PartialEq, Eq, Structural, Clone, Copy)]
pub enum TaskKind {
    ImportSource,
    SyncSource,
}

/// What to do with the archive directory before a task starts.
#[derive(PartialEq, Eq, Structural, Clone, Copy)]
pub enum TargetDirAction {
    /// Nothing is at the path: create it, parents included.
    Create,
    /// A directory is at the path: use it as it is.
    UseExisting,
}

pub open spec fn not_a_directory_message() -> Seq<char> {
    "Target path is not a directory"@
}

/// Decides from what is at the archive path whether a task may start there.
pub fn check_target_dir(exists: bool, is_dir: bool) -> (r: Result<TargetDirAction, PhotoArchiveError>)
    ensures
        !exists ==> r == Ok::<TargetDirAction, PhotoArchiveError>(TargetDirAction::Create),
        exists && is_dir ==> r == Ok::<TargetDirAction, PhotoArchiveError>(
            TargetDirAction::UseExisting,
        ),
        exists && !is_dir ==> (r matches Err(PhotoArchiveError::Generic(m))
            && m@ == not_a_directory_message()),
{
    if !exists {
        Ok(TargetDirAction::Create)
    } else if is_dir {
        Ok(TargetDirAction::UseExisting)
    } else {
        Err(PhotoArchiveError::Generic(String::from_str("Target path is not a directory")))
    }
}

/// The options that register and import a new source.
pub fn import_options(args: ImportSourceArgs) -> (r: SyncOpts)
    ensures
        r.count_images,
        r.source == (SyncSource::New {
            id: args.source_id,
            name: args.source_name,
            group: args.source_group,
            tags: args.source_tags,
        }),
{
    SyncOpts {
        count_images: true,
        source: SyncSource::New {
            id: args.source_id,
            name: args.source_name,
            group: args.source_group,
            tags: args.source_tags,
        },
    }
}

/// The options that synchronize a source imported before.
pub fn sync_options(args: SyncSourceArgs) -> (r: SyncOpts)
    ensures
        r.count_images,
        r.source == (SyncSource::Existing { id: args.source_id }),
{
    SyncOpts { count_images: true, source: SyncSource::Existing { id: args.source_id } }
}

pub open spec fn task_prefix(kind: TaskKind) -> Seq<char> {
    match kind {
        TaskKind::ImportSource => "import-source"@,
        TaskKind::SyncSource => "sync-source"@,
    }
}

/// The id of a task of `kind` whose unique part is `unique`.
pub open spec fn task_id_of(kind: TaskKind, unique: Seq<char>) -> Seq<char> {
    task_prefix(kind) + "-"@ + unique
}

/// Builds the id of a task of `kind` from its unique part.
pub fn task_id_for(kind: TaskKind, unique: &str) -> (r: String)
    ensures
        r@ == task_id_of(kind, unique@),
{
    let mut id = match kind {
        TaskKind::ImportSource => String::from_str("import-source"),
        TaskKind::SyncSource => String::from_str("sync-source"),
    };
    id.append("-");
    id.append(unique);
    proof {
        reveal_strlit("-");
    }
    id
}

/// The hyphenated lower-case text of a uuid: 36 characters, hyphens at
/// 8, 13, 18 and 23, lower-case hex digits elsewhere.
pub open spec fn is_hyphenated_uuid(s: Seq<char>) -> bool {
    &&& s.len() == 36
    &&& forall|i: int|
        0 <= i < 36 ==> if i == 8 || i == 13 || i == 18 || i == 23 {
            #[trigger] s[i] == '-'
        } else {
            ('0' <= s[i] <= '9') || ('a' <= s[i] <= 'f')
        }
}

/// Relies on uuid::Uuid::new_v4 for a random uuid, and on its `Display`, which
/// writes the hyphenated lower-case form.
#[verifier::external_body]
fn fresh_uuid() -> (r: String)
    ensures
        is_hyphenated_uuid(r@),
{
    uuid::Uuid::new_v4().to_string()
}

/// A fresh task of `kind`: its id is the kind's prefix and a new random uuid.
pub fn new_running_task(kind: TaskKind) -> (r: RunningTaskDto)
    ensures
        exists|u: Seq<char>| is_hyphenated_uuid(u) && r.task_id@ == task_id_of(kind, u),
{
    let unique = fresh_uuid();
    RunningTaskDto { task_id: task_id_for(kind, unique.as_str()) }
}

} // verus!
