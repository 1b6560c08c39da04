//! Synchronizing a local directory with a remote one.

use vstd::prelude::*;
use vstd::string::*;

use crate::paths::child_path;
use crate::text::{
    begins_with, chars_of, contains, ends_with, finishes_with, has_text, same_text, skip_chars,
    starts_with, string_of, strip_back, texts, trim_end_matches,
};
use crate::types::RemoteFileInfo;

verus! {

broadcast use vstd::string::group_string_axioms;

// ---------------------------------------------------------------------
// Options
// ---------------------------------------------------------------------

/// How a synchronization goes about.
pub struct SyncOptions {
    /// Remove remote files that there are not locally.
    pub delete: bool,
    /// Say what would be uploaded or removed, and do neither.
    pub dry_run: bool,
    /// Compare contents even where size and time agree.
    pub checksum: bool,
    /// Files whose path holds one of these texts are left alone.
    pub excludes: Vec<String>,
    /// Options that are not known.
    pub unknown: Vec<String>,
}

/// How a synchronization goes about, over texts.
pub struct SyncModel {
    pub delete: bool,
    pub dry_run: bool,
    pub checksum: bool,
    pub excludes: Seq<Seq<char>>,
    pub unknown: Seq<Seq<char>>,
}

impl View for SyncOptions {
    type V = SyncModel;

    open spec fn view(&self) -> SyncModel {
        SyncModel {
            delete: self.delete,
            dry_run: self.dry_run,
            checksum: self.checksum,
            excludes: texts(self.excludes@),
            unknown: texts(self.unknown@),
        }
    }
}

/// Options with one more taken into account.
pub open spec fn with_option(m: SyncModel, opt: Seq<char>) -> SyncModel {
    if opt == "delete"@ {
        SyncModel { delete: true, ..m }
    } else if opt == "dry-run"@ || opt == "dry_run"@ {
        SyncModel { dry_run: true, ..m }
    } else if opt == "checksum"@ {
        SyncModel { checksum: true, ..m }
    } else if begins_with(opt, "exclude="@) {
        SyncModel { excludes: m.excludes.push(opt.skip("exclude="@.len() as int)), ..m }
    } else {
        SyncModel { unknown: m.unknown.push(opt), ..m }
    }
}

/// The options that a list of texts makes.
pub open spec fn sync_model(opts: Seq<Seq<char>>) -> SyncModel
    decreases opts.len(),
{
    if opts.len() == 0 {
        SyncModel {
            delete: false,
            dry_run: false,
            checksum: false,
            excludes: Seq::empty(),
            unknown: Seq::empty(),
        }
    } else {
        with_option(sync_model(opts.drop_last()), opts.last())
    }
}

/// Reads the options of a synchronization; see [`with_option`].
pub fn parse_sync_options(opts: &[String]) -> (r: SyncOptions)
    ensures
        r@ == sync_model(texts(opts@)),
{
    let ghost all = texts(opts@);
    let mut r = SyncOptions {
        delete: false,
        dry_run: false,
        checksum: false,
        excludes: Vec::new(),
        unknown: Vec::new(),
    };
    let mut i: usize = 0;
    proof {
        assert(all.take(0) =~= Seq::<Seq<char>>::empty());
        assert(texts(r.excludes@) =~= Seq::<Seq<char>>::empty());
        assert(texts(r.unknown@) =~= Seq::<Seq<char>>::empty());
    }
    while i < opts.len()
        invariant
            i <= opts@.len(),
            all == texts(opts@),
            r@ == sync_model(all.take(i as int)),
        decreases opts@.len() - i,
    {
        let ghost before = r;
        proof {
            assert(all.take(i + 1).drop_last() =~= all.take(i as int));
            assert(all.take(i + 1).last() == opts@[i as int]@);
        }
        let opt: &str = opts[i].as_str();
        let chars = chars_of(opt);
        let prefix = chars_of("exclude=");
        if same_text(opt, "delete") {
            r.delete = true;
        } else if same_text(opt, "dry-run") || same_text(opt, "dry_run") {
            r.dry_run = true;
        } else if same_text(opt, "checksum") {
            r.checksum = true;
        } else if starts_with(chars.as_slice(), prefix.as_slice()) {
            let pattern = string_of(skip_chars(chars.as_slice(), prefix.len()));
            let ghost shown = pattern@;
            r.excludes.push(pattern);
            assert(texts(r.excludes@) =~= texts(before.excludes@).push(shown));
        } else {
            r.unknown.push(opt.to_owned());
            assert(texts(r.unknown@) =~= texts(before.unknown@).push(opt@));
        }
        i = i + 1;
    }
    assert(all.take(all.len() as int) =~= all);
    r
}

// ---------------------------------------------------------------------
// Paths
// ---------------------------------------------------------------------

/// The part of a path behind a root: the root, and a slash after it, are
/// taken off where they are there.
pub open spec fn relative(path: Seq<char>, root: Seq<char>) -> Seq<char> {
    let prefix = strip_back(root, '/');
    let rest = if begins_with(path, prefix) {
        path.skip(prefix.len() as int)
    } else {
        path
    };
    if rest.len() > 0 && rest[0] == '/' {
        rest.skip(1)
    } else {
        rest
    }
}

/// Computes [`relative`].
pub fn relative_path(path: &str, root: &str) -> (r: String)
    ensures
        r@ == relative(path@, root@),
{
    let p = chars_of(path);
    let all = chars_of(root);
    let prefix = trim_end_matches(all.as_slice(), '/');
    let rest: &[char] = if starts_with(p.as_slice(), prefix) {
        skip_chars(p.as_slice(), prefix.len())
    } else {
        p.as_slice()
    };
    if rest.len() > 0 && rest[0] == '/' {
        string_of(skip_chars(rest, 1))
    } else {
        string_of(rest)
    }
}

/// The counterpart of a file below another root.
pub open spec fn counterpart(path: Seq<char>, root: Seq<char>, other_root: Seq<char>) -> Seq<char> {
    crate::paths::child(other_root, relative(path, root))
}

/// Computes [`counterpart`].
pub fn counterpart_path(path: &str, root: &str, other_root: &str) -> (r: String)
    ensures
        r@ == counterpart(path@, root@, other_root@),
{
    let rel = relative_path(path, root);
    child_path(other_root, rel.as_str())
}

/// Whether a file is left alone: its path, or the part behind the root,
/// holds one of the texts.
pub open spec fn excluded(path: Seq<char>, root: Seq<char>, excludes: Seq<Seq<char>>) -> bool {
    exists|i: int|
        0 <= i < excludes.len() && (has_text(relative(path, root), #[trigger] excludes[i])
            || finishes_with(relative(path, root), excludes[i]) || has_text(path, excludes[i]))
}

/// Decides [`excluded`].
pub fn is_excluded(path: &str, root: &str, excludes: &[String]) -> (r: bool)
    ensures
        r == excluded(path@, root@, texts(excludes@)),
{
    let rel = relative_path(path, root);
    let rel = chars_of(rel.as_str());
    let all = chars_of(path);
    let ghost list = texts(excludes@);
    let mut i: usize = 0;
    while i < excludes.len()
        invariant
            i <= excludes@.len(),
            list == texts(excludes@),
            all@ == path@,
            rel@ == relative(path@, root@),
            forall|j: int|
                0 <= j < i ==> !(has_text(relative(path@, root@), #[trigger] list[j])
                    || finishes_with(relative(path@, root@), list[j]) || has_text(path@, list[j])),
        decreases excludes@.len() - i,
    {
        let pattern = chars_of(excludes[i].as_str());
        assert(list[i as int] == pattern@);
        if contains(rel.as_slice(), pattern.as_slice()) || ends_with(
            rel.as_slice(),
            pattern.as_slice(),
        ) || contains(all.as_slice(), pattern.as_slice()) {
            return true;
        }
        i = i + 1;
    }
    false
}

// ---------------------------------------------------------------------
// The plan
// ---------------------------------------------------------------------

/// A file found in a directory.
pub struct FoundFile {
    pub path: String,
    pub info: RemoteFileInfo,
}

/// Size and time of the first file with this path.
pub open spec fn file_info(files: Seq<FoundFile>, path: Seq<char>) -> Option<RemoteFileInfo>
    decreases files.len(),
{
    if files.len() == 0 {
        None
    } else if files[0].path@ == path {
        Some(files[0].info)
    } else {
        file_info(files.skip(1), path)
    }
}

/// Looks up a file by its path; see [`file_info`].
pub fn find_info(files: &Vec<FoundFile>, path: &str) -> (r: Option<RemoteFileInfo>)
    ensures
        r == file_info(files@, path@),
{
    assert(files@.skip(0) =~= files@);
    let mut i: usize = 0;
    while i < files.len()
        invariant
            i <= files@.len(),
            file_info(files@, path@) == file_info(files@.skip(i as int), path@),
        decreases files@.len() - i,
    {
        proof {
            assert(files@.skip(i as int)[0] == files@[i as int]);
            assert(files@.skip(i as int).skip(1) =~= files@.skip(i + 1));
        }
        if same_text(files[i].path.as_str(), path) {
            return Some(files[i].info);
        }
        i = i + 1;
    }
    None
}

/// What is done with a file.
#[derive(Clone, Copy, PartialEq, Eq, Structural, Debug)]
pub enum FileAction {
    /// It is left alone because it is excluded.
    Excluded,
    /// It is left alone because the other side has the same.
    Same,
    /// Both contents are compared.
    Compare,
    /// It is transferred.
    Transfer,
    /// It would be transferred.
    WouldTransfer,
}

/// What is done with a file that is not excluded, given its counterpart:
/// equal size and time mean the same file, unless contents are to be
/// compared; equal size alone calls for a comparison.
pub open spec fn upload_action(
    info: RemoteFileInfo,
    other: Option<RemoteFileInfo>,
    checksum: bool,
    dry_run: bool,
) -> FileAction {
    match other {
        Some(o) if o.size == info.size && !checksum && o.mtime == info.mtime => FileAction::Same,
        Some(o) if o.size == info.size => FileAction::Compare,
        _ => if dry_run {
            FileAction::WouldTransfer
        } else {
            FileAction::Transfer
        },
    }
}

/// One file of a plan.
pub struct PlannedFile {
    pub from: String,
    pub to: String,
    pub action: FileAction,
}

/// One file of a plan, over texts.
pub struct PlannedModel {
    pub from: Seq<char>,
    pub to: Seq<char>,
    pub action: FileAction,
}

impl View for PlannedFile {
    type V = PlannedModel;

    open spec fn view(&self) -> PlannedModel {
        PlannedModel { from: self.from@, to: self.to@, action: self.action }
    }
}

/// What is done with one local file.
pub open spec fn planned_upload(
    file: FoundFile,
    local_root: Seq<char>,
    remote_root: Seq<char>,
    remote: Seq<FoundFile>,
    options: SyncModel,
) -> PlannedModel {
    let to = counterpart(file.path@, local_root, remote_root);
    PlannedModel {
        from: file.path@,
        to,
        action: if excluded(file.path@, local_root, options.excludes) {
            FileAction::Excluded
        } else {
            upload_action(file.info, file_info(remote, to), options.checksum, options.dry_run)
        },
    }
}

/// The contents of a plan.
pub open spec fn planned_models(list: Seq<PlannedFile>) -> Seq<PlannedModel> {
    list.map_values(|p: PlannedFile| p@)
}

/// Decides what is done with each local file, in the order in which they are
/// listed; see [`planned_upload`].
pub fn plan_upload(
    local_root: &str,
    remote_root: &str,
    local: &Vec<FoundFile>,
    remote: &Vec<FoundFile>,
    options: &SyncOptions,
) -> (r: Vec<PlannedFile>)
    ensures
        planned_models(r@) == local@.map_values(
            |f: FoundFile| planned_upload(f, local_root@, remote_root@, remote@, options@),
        ),
        r@.len() == local@.len(),
        forall|i: int|
            0 <= i < r@.len() ==> {
                let planned = #[trigger] r@[i];
                let info = local@[i].info;
                &&& planned.from@ == local@[i].path@
                &&& planned.action == FileAction::Same ==> !options.checksum && exists|j: int|
                    0 <= j < remote@.len() && (#[trigger] remote@[j]).path@ == planned.to@
                        && remote@[j].info.size == info.size && remote@[j].info.mtime == info.mtime
                &&& planned.action != FileAction::Excluded && (forall|j: int|
                    0 <= j < remote@.len() && (#[trigger] remote@[j]).path@ == planned.to@
                        ==> remote@[j].info.size != info.size) ==> planned.action == (
                if options.dry_run {
                    FileAction::WouldTransfer
                } else {
                    FileAction::Transfer
                })
            },
{
    let ghost goal = local@.map_values(
        |f: FoundFile| planned_upload(f, local_root@, remote_root@, remote@, options@),
    );
    let mut out: Vec<PlannedFile> = Vec::new();
    let mut i: usize = 0;
    assert(planned_models(out@) =~= goal.take(0));
    while i < local.len()
        invariant
            i <= local@.len(),
            goal == local@.map_values(
                |f: FoundFile| planned_upload(f, local_root@, remote_root@, remote@, options@),
            ),
            planned_models(out@) == goal.take(i as int),
        decreases local@.len() - i,
    {
        let ghost before = out@;
        let path: &str = local[i].path.as_str();
        let to = counterpart_path(path, local_root, remote_root);
        let action: FileAction = if is_excluded(path, local_root, options.excludes.as_slice()) {
            FileAction::Excluded
        } else {
            let info: RemoteFileInfo = local[i].info;
            match find_info(remote, to.as_str()) {
                Some(o) => if o.size == info.size && !options.checksum && o.mtime == info.mtime {
                    FileAction::Same
                } else if o.size == info.size {
                    FileAction::Compare
                } else if options.dry_run {
                    FileAction::WouldTransfer
                } else {
                    FileAction::Transfer
                },
                None => if options.dry_run {
                    FileAction::WouldTransfer
                } else {
                    FileAction::Transfer
                },
            }
        };
        let planned = PlannedFile { from: path.to_owned(), to, action };
        let ghost model = planned@;
        out.push(planned);
        proof {
            assert(goal[i as int] == planned_upload(
                local@[i as int],
                local_root@,
                remote_root@,
                remote@,
                options@,
            ));
            assert(model == goal[i as int]);
            assert(planned_models(out@) =~= planned_models(before).push(model));
            assert(goal.take(i as int).push(goal[i as int]) =~= goal.take(i + 1));
        }
        i = i + 1;
    }
    proof {
        assert(goal.take(goal.len() as int) =~= goal);
        assert(out@.len() == planned_models(out@).len());
        assert forall|k: int| 0 <= k < out@.len() implies (#[trigger] out@[k])@ == planned_upload(
            local@[k],
            local_root@,
            remote_root@,
            remote@,
            options@,
        ) by {
            assert(planned_models(out@)[k] == goal[k]);
        }
        assert forall|k: int| 0 <= k < out@.len() implies {
            let planned = #[trigger] out@[k];
            let info = local@[k].info;
            &&& planned.from@ == local@[k].path@
            &&& planned.action == FileAction::Same ==> !options.checksum && exists|j: int|
                0 <= j < remote@.len() && (#[trigger] remote@[j]).path@ == planned.to@
                    && remote@[j].info.size == info.size && remote@[j].info.mtime == info.mtime
            &&& planned.action != FileAction::Excluded && (forall|j: int|
                0 <= j < remote@.len() && (#[trigger] remote@[j]).path@ == planned.to@
                    ==> remote@[j].info.size != info.size) ==> planned.action == (
            if options.dry_run {
                FileAction::WouldTransfer
            } else {
                FileAction::Transfer
            })
        } by {
            assert(out@[k]@.to == out@[k].to@);
            listed_info(remote@, out@[k].to@);
        }
    }
    out
}

/// Whether a remote file has no local counterpart.
pub open spec fn is_extra(
    file: FoundFile,
    local_root: Seq<char>,
    remote_root: Seq<char>,
    local: Seq<FoundFile>,
) -> bool {
    file_info(local, counterpart(file.path@, remote_root, local_root)) is None
}

/// The paths of the remote files without local counterpart, in the order in
/// which they are listed.
pub open spec fn extra_files(
    local_root: Seq<char>,
    remote_root: Seq<char>,
    local: Seq<FoundFile>,
    remote: Seq<FoundFile>,
) -> Seq<Seq<char>>
    decreases remote.len(),
{
    if remote.len() == 0 {
        Seq::empty()
    } else {
        let front = extra_files(local_root, remote_root, local, remote.drop_last());
        if is_extra(remote.last(), local_root, remote_root, local) {
            front.push(remote.last().path@)
        } else {
            front
        }
    }
}

/// Finds the remote files to remove: those without local counterpart where
/// removing is asked for, else none; see [`extra_files`].
pub fn plan_delete(
    local_root: &str,
    remote_root: &str,
    local: &Vec<FoundFile>,
    remote: &Vec<FoundFile>,
    options: &SyncOptions,
) -> (r: Vec<String>)
    ensures
        texts(r@) == (if options.delete {
            extra_files(local_root@, remote_root@, local@, remote@)
        } else {
            Seq::empty()
        }),
        !options.delete ==> r@.len() == 0,
        forall|k: int|
            0 <= k < r@.len() ==> exists|j: int|
                0 <= j < remote@.len() && (#[trigger] remote@[j]).path@ == (#[trigger] r@[k])@,
{
    let mut out: Vec<String> = Vec::new();
    if !options.delete {
        assert(texts(out@) =~= Seq::<Seq<char>>::empty());
        return out;
    }
    let mut i: usize = 0;
    assert(texts(out@) =~= extra_files(local_root@, remote_root@, local@, remote@.take(0)));
    while i < remote.len()
        invariant
            i <= remote@.len(),
            texts(out@) == extra_files(local_root@, remote_root@, local@, remote@.take(i as int)),
            forall|k: int|
                0 <= k < out@.len() ==> exists|j: int|
                    0 <= j < remote@.len() && (#[trigger] remote@[j]).path@ == (
                    #[trigger] out@[k])@,
        decreases remote@.len() - i,
    {
        let ghost before = out@;
        proof {
            assert(remote@.take(i + 1).drop_last() =~= remote@.take(i as int));
            assert(remote@.take(i + 1).last() == remote@[i as int]);
        }
        let there = counterpart_path(remote[i].path.as_str(), remote_root, local_root);
        if find_info(local, there.as_str()).is_none() {
            out.push(remote[i].path.clone());
            assert(remote@[i as int].path@ == out@[out@.len() - 1]@);
            assert(texts(out@) =~= texts(before).push(remote@[i as int].path@));
        }
        i = i + 1;
    }
    assert(remote@.take(remote@.len() as int) =~= remote@);
    out
}

/// What is done with one remote file on the way down: size and time decide,
/// nothing is excluded.
pub open spec fn planned_download(
    file: FoundFile,
    remote_root: Seq<char>,
    local_root: Seq<char>,
    local: Seq<FoundFile>,
) -> PlannedModel {
    let to = counterpart(file.path@, remote_root, local_root);
    PlannedModel {
        from: file.path@,
        to,
        action: upload_action(file.info, file_info(local, to), false, false),
    }
}

/// Decides what is done with each remote file on the way down; see
/// [`planned_download`].
pub fn plan_download(
    remote_root: &str,
    local_root: &str,
    remote: &Vec<FoundFile>,
    local: &Vec<FoundFile>,
) -> (r: Vec<PlannedFile>)
    ensures
        planned_models(r@) == remote@.map_values(
            |f: FoundFile| planned_download(f, remote_root@, local_root@, local@),
        ),
{
    let ghost goal = remote@.map_values(
        |f: FoundFile| planned_download(f, remote_root@, local_root@, local@),
    );
    let mut out: Vec<PlannedFile> = Vec::new();
    let mut i: usize = 0;
    assert(planned_models(out@) =~= goal.take(0));
    while i < remote.len()
        invariant
            i <= remote@.len(),
            goal == remote@.map_values(
                |f: FoundFile| planned_download(f, remote_root@, local_root@, local@),
            ),
            planned_models(out@) == goal.take(i as int),
        decreases remote@.len() - i,
    {
        let ghost before = out@;
        let path: &str = remote[i].path.as_str();
        let info: RemoteFileInfo = remote[i].info;
        let to = counterpart_path(path, remote_root, local_root);
        let action: FileAction = match find_info(local, to.as_str()) {
            Some(o) => if o.size == info.size && o.mtime == info.mtime {
                FileAction::Same
            } else if o.size == info.size {
                FileAction::Compare
            } else {
                FileAction::Transfer
            },
            None => FileAction::Transfer,
        };
        let planned = PlannedFile { from: path.to_owned(), to, action };
        let ghost model = planned@;
        out.push(planned);
        proof {
            assert(goal[i as int] == planned_download(
                remote@[i as int],
                remote_root@,
                local_root@,
                local@,
            ));
            assert(model == goal[i as int]);
            assert(planned_models(out@) =~= planned_models(before).push(model));
            assert(goal.take(i as int).push(goal[i as int]) =~= goal.take(i + 1));
        }
        i = i + 1;
    }
    assert(goal.take(goal.len() as int) =~= goal);
    out
}

/// Whether files are removed rather than only named.
pub open spec fn removal_wanted(options: SyncModel) -> bool {
    options.delete && !options.dry_run
}

/// Whether the remote root is created where it is missing.
pub open spec fn root_wanted(options: SyncModel) -> bool {
    !options.dry_run
}

/// Decides [`root_wanted`].
pub fn creates_root(options: &SyncOptions) -> (r: bool)
    ensures
        r == root_wanted(options@),
        r == !options.dry_run,
{
    !options.dry_run
}

/// Decides [`removal_wanted`].
pub fn removes_files(options: &SyncOptions) -> (r: bool)
    ensures
        r == removal_wanted(options@),
        r == (options.delete && !options.dry_run),
{
    options.delete && !options.dry_run
}

// ---------------------------------------------------------------------
// Laws
// ---------------------------------------------------------------------

/// The part of a path behind a root is what was put there, unless that
/// begins with a slash.
pub proof fn relative_undoes_child(root: Seq<char>, rel: Seq<char>)
    requires
        rel.len() > 0 ==> rel[0] != '/',
    ensures
        relative(crate::paths::child(root, rel), root) == rel,
{
    reveal_strlit("/");
    let prefix = strip_back(root, '/');
    let path = crate::paths::child(root, rel);
    assert(path.take(prefix.len() as int) =~= prefix);
    let rest = path.skip(prefix.len() as int);
    assert(rest =~= seq!['/'] + rel);
    assert(rest.skip(1) =~= rel);
}

/// The counterpart of the counterpart of a file below a root is the file:
/// what is uploaded is not removed as extra.
pub proof fn counterparts_correspond(root: Seq<char>, other: Seq<char>, rel: Seq<char>)
    requires
        rel.len() > 0 ==> rel[0] != '/',
    ensures
        counterpart(
            counterpart(crate::paths::child(root, rel), root, other),
            other,
            root,
        ) == crate::paths::child(root, rel),
{
    relative_undoes_child(root, rel);
    relative_undoes_child(other, rel);
}

proof fn found_file_is_known(files: Seq<FoundFile>, i: int)
    requires
        0 <= i < files.len(),
    ensures
        file_info(files, files[i].path@) is Some,
    decreases i,
{
    if files[0].path@ != files[i].path@ {
        assert(files.skip(1)[i - 1] == files[i]);
        found_file_is_known(files.skip(1), i - 1);
    }
}

/// A remote file whose counterpart is there locally is never removed.
pub proof fn counterpart_is_not_extra(
    local: Seq<FoundFile>,
    i: int,
    local_root: Seq<char>,
    remote_root: Seq<char>,
    rel: Seq<char>,
    remote: FoundFile,
)
    requires
        0 <= i < local.len(),
        rel.len() > 0 ==> rel[0] != '/',
        local[i].path@ == crate::paths::child(local_root, rel),
        remote.path@ == counterpart(local[i].path@, local_root, remote_root),
    ensures
        !is_extra(remote, local_root, remote_root, local),
{
    counterparts_correspond(local_root, remote_root, rel);
    found_file_is_known(local, i);
}

/// A file of the same size and time is not touched, unless contents are to
/// be compared; one of another size never is taken for the same.
pub proof fn same_files_are_skipped(
    info: RemoteFileInfo,
    other: RemoteFileInfo,
    checksum: bool,
    dry_run: bool,
)
    ensures
        other == info && !checksum <==> upload_action(info, Some(other), checksum, dry_run)
            == FileAction::Same,
        other.size != info.size ==> upload_action(info, Some(other), checksum, dry_run) == (
        if dry_run {
            FileAction::WouldTransfer
        } else {
            FileAction::Transfer
        }),
{
}

proof fn listed_info(files: Seq<FoundFile>, path: Seq<char>)
    ensures
        match file_info(files, path) {
            Some(info) => exists|j: int|
                0 <= j < files.len() && (#[trigger] files[j]).path@ == path && files[j].info == info
                    && forall|k: int| 0 <= k < j ==> (#[trigger] files[k]).path@ != path,
            None => forall|j: int| 0 <= j < files.len() ==> (#[trigger] files[j]).path@ != path,
        },
    decreases files.len(),
{
    if files.len() > 0 {
        let rest = files.skip(1);
        if files[0].path@ != path {
            listed_info(rest, path);
            match file_info(rest, path) {
                Some(info) => {
                    let j = choose|j: int|
                        0 <= j < rest.len() && (#[trigger] rest[j]).path@ == path && rest[j].info
                            == info && forall|k: int|
                            0 <= k < j ==> (#[trigger] rest[k]).path@ != path;
                    assert(files[j + 1] == rest[j]);
                    assert forall|k: int| 0 <= k < j + 1 implies (#[trigger] files[k]).path@
                        != path by {
                        if k > 0 {
                            assert(rest[k - 1] == files[k]);
                        }
                    }
                },
                None => {
                    assert forall|j: int| 0 <= j < files.len() implies (#[trigger] files[j]).path@
                        != path by {
                        if j > 0 {
                            assert(rest[j - 1] == files[j]);
                        }
                    }
                },
            }
        }
    }
}

/// A local file is left alone just if one of the excluded texts stands
/// somewhere in its path.
pub proof fn excluded_files_hold_the_text(
    path: Seq<char>,
    root: Seq<char>,
    excludes: Seq<Seq<char>>,
)
    ensures
        excluded(path, root, excludes) <==> exists|i: int, at: int|
            0 <= i < excludes.len() && 0 <= at && at + excludes[i].len() <= path.len()
                && #[trigger] path.subrange(at, at + excludes[i].len()) == #[trigger] excludes[i],
{
    let prefix = strip_back(root, '/');
    let rel = relative(path, root);
    let cut = path.len() - rel.len();
    assert(rel =~= path.skip(cut));
    if excluded(path, root, excludes) {
        let i = choose|i: int|
            0 <= i < excludes.len() && (has_text(rel, #[trigger] excludes[i]) || finishes_with(
                rel,
                excludes[i],
            ) || has_text(path, excludes[i]));
        let p = excludes[i];
        if has_text(path, p) {
            let at = choose|at: int| crate::text::stands_at(path, p, at);
            assert(path.subrange(at, at + p.len()) == excludes[i]);
        } else if has_text(rel, p) {
            let at = choose|at: int| crate::text::stands_at(rel, p, at);
            assert(path.subrange(cut + at, cut + at + p.len()) =~= rel.subrange(at, at + p.len()));
            assert(path.subrange(cut + at, cut + at + p.len()) == excludes[i]);
        } else {
            let at = path.len() - p.len();
            assert(path.subrange(at, at + p.len()) =~= rel.skip(rel.len() - p.len()));
            assert(path.subrange(at, at + p.len()) == excludes[i]);
        }
    }
    if exists|i: int, at: int|
        0 <= i < excludes.len() && 0 <= at && at + excludes[i].len() <= path.len()
            && #[trigger] path.subrange(at, at + excludes[i].len()) == #[trigger] excludes[i] {
        let (i, at) = choose|i: int, at: int|
            0 <= i < excludes.len() && 0 <= at && at + excludes[i].len() <= path.len()
                && #[trigger] path.subrange(at, at + excludes[i].len()) == #[trigger] excludes[i];
        assert(crate::text::stands_at(path, excludes[i], at));
        assert(has_text(path, excludes[i]));
    }
}

/// What becomes of a local file follows from the two listings. Let the remote
/// side list, first, a file of this size and time at the place of the local
/// one. Then the file is the same just if both agree and no checksum is asked
/// for; contents are compared just if the sizes agree and the rest does not
/// settle it; and it is uploaded, or would be, just if the sizes differ.
pub proof fn listed_files_are_judged(
    file: FoundFile,
    local_root: Seq<char>,
    remote_root: Seq<char>,
    remote: Seq<FoundFile>,
    options: SyncModel,
    rel: Seq<char>,
    j: int,
)
    requires
        rel.len() > 0 ==> rel[0] != '/',
        file.path@ == crate::paths::child(local_root, rel),
        !excluded(file.path@, local_root, options.excludes),
        0 <= j < remote.len(),
        remote[j].path@ == crate::paths::child(remote_root, rel),
        forall|k: int|
            0 <= k < j ==> (#[trigger] remote[k]).path@ != crate::paths::child(remote_root, rel),
    ensures
        ({
            let planned = planned_upload(file, local_root, remote_root, remote, options);
            let there = remote[j].info;
            &&& planned.from == file.path@
            &&& planned.to == remote[j].path@
            &&& planned.action == FileAction::Same <==> there.size == file.info.size && there.mtime
                == file.info.mtime && !options.checksum
            &&& planned.action == FileAction::Compare <==> there.size == file.info.size && (
            there.mtime != file.info.mtime || options.checksum)
            &&& planned.action == FileAction::Transfer <==> there.size != file.info.size
                && !options.dry_run
            &&& planned.action == FileAction::WouldTransfer <==> there.size != file.info.size
                && options.dry_run
        }),
{
    relative_undoes_child(local_root, rel);
    listed_info(remote, crate::paths::child(remote_root, rel));
}

/// A local file that the remote side does not list is uploaded, to the same
/// place below the remote root; in a dry run it would be.
pub proof fn new_files_are_uploaded(
    file: FoundFile,
    local_root: Seq<char>,
    remote_root: Seq<char>,
    remote: Seq<FoundFile>,
    options: SyncModel,
    rel: Seq<char>,
)
    requires
        rel.len() > 0 ==> rel[0] != '/',
        file.path@ == crate::paths::child(local_root, rel),
        !excluded(file.path@, local_root, options.excludes),
        forall|j: int|
            0 <= j < remote.len() ==> (#[trigger] remote[j]).path@ != crate::paths::child(
                remote_root,
                rel,
            ),
    ensures
        ({
            let planned = planned_upload(file, local_root, remote_root, remote, options);
            &&& planned.from == file.path@
            &&& planned.to == crate::paths::child(remote_root, rel)
            &&& options.dry_run ==> planned.action == FileAction::WouldTransfer
            &&& !options.dry_run ==> planned.action == FileAction::Transfer
        }),
{
    relative_undoes_child(local_root, rel);
    listed_info(remote, crate::paths::child(remote_root, rel));
}

/// An excluded file is left alone, whatever the remote side lists, and no
/// other is left alone for that.
pub proof fn excluded_files_are_left_alone(
    file: FoundFile,
    local_root: Seq<char>,
    remote_root: Seq<char>,
    remote: Seq<FoundFile>,
    options: SyncModel,
)
    ensures
        planned_upload(file, local_root, remote_root, remote, options).action
            == FileAction::Excluded <==> exists|i: int, at: int|
            0 <= i < options.excludes.len() && 0 <= at && at + options.excludes[i].len()
                <= file.path@.len() && #[trigger] file.path@.subrange(
                at,
                at + options.excludes[i].len(),
            ) == #[trigger] options.excludes[i],
{
    excluded_files_hold_the_text(file.path@, local_root, options.excludes);
}

/// What becomes of a remote file on the way down follows from the two
/// listings: it is the same just if the local side lists, first, a file of
/// equal size and time at its place; contents are compared just if only the
/// sizes agree; else it is downloaded.
pub proof fn downloads_follow_the_listing(
    file: FoundFile,
    remote_root: Seq<char>,
    local_root: Seq<char>,
    local: Seq<FoundFile>,
    rel: Seq<char>,
)
    requires
        rel.len() > 0 ==> rel[0] != '/',
        file.path@ == crate::paths::child(remote_root, rel),
    ensures
        ({
            let planned = planned_download(file, remote_root, local_root, local);
            let to = crate::paths::child(local_root, rel);
            &&& planned.from == file.path@
            &&& planned.to == to
            &&& forall|j: int|
                0 <= j < local.len() && (#[trigger] local[j]).path@ == to && (forall|k: int|
                    0 <= k < j ==> (#[trigger] local[k]).path@ != to) ==> planned.action == (
                if local[j].info.size != file.info.size {
                    FileAction::Transfer
                } else if local[j].info.mtime == file.info.mtime {
                    FileAction::Same
                } else {
                    FileAction::Compare
                })
            &&& (forall|j: int| 0 <= j < local.len() ==> (#[trigger] local[j]).path@ != to)
                ==> planned.action == FileAction::Transfer
        }),
{
    relative_undoes_child(remote_root, rel);
    let to = crate::paths::child(local_root, rel);
    listed_info(local, to);
    assert forall|j: int|
        0 <= j < local.len() && (#[trigger] local[j]).path@ == to && (forall|k: int|
            0 <= k < j ==> (#[trigger] local[k]).path@ != to) implies file_info(local, to) == Some(
        local[j].info,
    ) by {
        let m = choose|m: int|
            0 <= m < local.len() && (#[trigger] local[m]).path@ == to && Some(local[m].info)
                == file_info(local, to) && forall|k: int|
                0 <= k < m ==> (#[trigger] local[k]).path@ != to;
        if m < j {
            assert(local[m].path@ != to);
        }
        if j < m {
            assert(local[j].path@ != to);
        }
    }
}

proof fn extra_files_listed(
    local_root: Seq<char>,
    remote_root: Seq<char>,
    local: Seq<FoundFile>,
    remote: Seq<FoundFile>,
    path: Seq<char>,
)
    ensures
        extra_files(local_root, remote_root, local, remote).contains(path) <==> exists|j: int|
            0 <= j < remote.len() && (#[trigger] remote[j]).path@ == path && is_extra(
                remote[j],
                local_root,
                remote_root,
                local,
            ),
    decreases remote.len(),
{
    if remote.len() > 0 {
        let front = remote.drop_last();
        let last = remote.last();
        let before = extra_files(local_root, remote_root, local, front);
        let all = extra_files(local_root, remote_root, local, remote);
        extra_files_listed(local_root, remote_root, local, front, path);
        if all.contains(path) {
            let k = choose|k: int| 0 <= k < all.len() && all[k] == path;
            if k < before.len() {
                assert(before[k] == path);
                let j = choose|j: int|
                    0 <= j < front.len() && (#[trigger] front[j]).path@ == path && is_extra(
                        front[j],
                        local_root,
                        remote_root,
                        local,
                    );
                assert(remote[j] == front[j]);
            } else {
                assert(remote[remote.len() - 1].path@ == path);
            }
        }
        if exists|j: int|
            0 <= j < remote.len() && (#[trigger] remote[j]).path@ == path && is_extra(
                remote[j],
                local_root,
                remote_root,
                local,
            ) {
            let j = choose|j: int|
                0 <= j < remote.len() && (#[trigger] remote[j]).path@ == path && is_extra(
                    remote[j],
                    local_root,
                    remote_root,
                    local,
                );
            if j < front.len() {
                assert(front[j] == remote[j]);
                let k = choose|k: int| 0 <= k < before.len() && before[k] == path;
                assert(all[k] == path);
            } else {
                assert(all[all.len() - 1] == path);
            }
        }
    }
}

/// A remote file is removed just if the local side lists none at its place,
/// and nothing that the remote side does not list is removed.
pub proof fn removals_follow_the_listing(
    local_root: Seq<char>,
    remote_root: Seq<char>,
    local: Seq<FoundFile>,
    remote: Seq<FoundFile>,
    rel: Seq<char>,
)
    requires
        rel.len() > 0 ==> rel[0] != '/',
    ensures
        extra_files(local_root, remote_root, local, remote).contains(
            crate::paths::child(remote_root, rel),
        ) <==> (exists|j: int|
            0 <= j < remote.len() && (#[trigger] remote[j]).path@ == crate::paths::child(
                remote_root,
                rel,
            )) && (forall|i: int|
            0 <= i < local.len() ==> (#[trigger] local[i]).path@ != crate::paths::child(
                local_root,
                rel,
            )),
{
    let path = crate::paths::child(remote_root, rel);
    relative_undoes_child(remote_root, rel);
    extra_files_listed(local_root, remote_root, local, remote, path);
    listed_info(local, crate::paths::child(local_root, rel));
}

proof fn pushed_contains(s: Seq<Seq<char>>, x: Seq<char>, y: Seq<char>)
    ensures
        s.push(x).contains(y) <==> s.contains(y) || x == y,
{
    if s.contains(y) {
        let i = choose|i: int| 0 <= i < s.len() && s[i] == y;
        assert(s.push(x)[i] == y);
    }
    if x == y {
        assert(s.push(x)[s.len() as int] == y);
    }
    if s.push(x).contains(y) && x != y {
        let i = choose|i: int| 0 <= i < s.push(x).len() && s.push(x)[i] == y;
        assert(s[i] == y);
    }
}

/// An option counts just if it is given, in whatever place and however often:
/// `delete`, `dry-run` (also with an underscore), `checksum`, and
/// `exclude=` with a text. Whatever else is given is reported as unknown, and
/// nothing that is known.
pub proof fn given_options_count(opts: Seq<Seq<char>>, text: Seq<char>)
    ensures
        sync_model(opts).delete <==> opts.contains("delete"@),
        sync_model(opts).dry_run <==> opts.contains("dry-run"@) || opts.contains("dry_run"@),
        sync_model(opts).checksum <==> opts.contains("checksum"@),
        sync_model(opts).excludes.contains(text) <==> opts.contains("exclude="@ + text),
        sync_model(opts).unknown.contains(text) <==> opts.contains(text) && text != "delete"@
            && text != "dry-run"@ && text != "dry_run"@ && text != "checksum"@ && !begins_with(
            text,
            "exclude="@,
        ),
    decreases opts.len(),
{
    reveal_strlit("delete");
    reveal_strlit("dry-run");
    reveal_strlit("dry_run");
    reveal_strlit("checksum");
    reveal_strlit("exclude=");
    let prefix = "exclude="@;
    if opts.len() > 0 {
        let front = opts.drop_last();
        let last = opts.last();
        assert(opts =~= front.push(last));
        given_options_count(front, text);
        pushed_contains(front, last, "delete"@);
        pushed_contains(front, last, "dry-run"@);
        pushed_contains(front, last, "dry_run"@);
        pushed_contains(front, last, "checksum"@);
        pushed_contains(front, last, prefix + text);
        pushed_contains(front, last, text);
        let before = sync_model(front);
        pushed_contains(before.excludes, last.skip(8), text);
        pushed_contains(before.unknown, last, text);
        assert("delete"@[0] == 'd' && "dry-run"@[1] == 'r' && "dry_run"@[3] == '_');
        assert("delete"@[1] == 'e' && "dry-run"@[3] == '-' && "checksum"@[0] == 'c');
        assert(prefix[0] == 'e' && prefix.len() == 8);
        if begins_with(last, prefix) {
            assert(last =~= prefix + last.skip(8));
            assert(last.take(8)[0] == prefix[0]);
        }
        if last == prefix + text {
            assert(last.take(8) =~= prefix);
            assert(last.skip(8) =~= text);
        }
        if begins_with(text, prefix) {
            assert(text.take(8)[0] == prefix[0]);
        }
    }
}

} // verus!
