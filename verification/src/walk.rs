//! Going through directories, step by step.

use vstd::prelude::*;
use vstd::string::*;

use crate::paths::{child, child_path};
use crate::sync::FoundFile;
use crate::text::{strip_back, texts};
use crate::types::RemoteFileInfo;

verus! {

broadcast use vstd::string::group_string_axioms;

// ---------------------------------------------------------------------
// Listing a tree
// ---------------------------------------------------------------------

/// An entry of a directory that is being listed.
pub struct DirItem {
    pub name: String,
    pub is_dir: bool,
    pub info: RemoteFileInfo,
}

/// Size and time of a file as a server reports them; what it does not report
/// counts as zero.
pub open spec fn info_model(size: Option<u64>, mtime: Option<u32>) -> RemoteFileInfo {
    RemoteFileInfo {
        size: match size {
            Some(n) => n,
            None => 0,
        },
        mtime: match mtime {
            Some(t) => t as u64,
            None => 0,
        },
    }
}

/// Size and time of a file; see [`info_model`].
pub fn reported_info(size: Option<u64>, mtime: Option<u32>) -> (r: RemoteFileInfo)
    ensures
        r == info_model(size, mtime),
        r.size == (match size {
            Some(n) => n,
            None => 0,
        }),
        r.mtime == (match mtime {
            Some(t) => t as u64,
            None => 0,
        }),
{
    RemoteFileInfo {
        size: match size {
            Some(n) => n,
            None => 0,
        },
        mtime: match mtime {
            Some(t) => t as u64,
            None => 0,
        },
    }
}

/// A tree that is being listed.
pub struct TreeWalk {
    /// Directories that are still to be read.
    pub pending: Vec<String>,
    /// Files found so far.
    pub found: Vec<FoundFile>,
}

/// Path, size and time of files.
pub open spec fn found_models(found: Seq<FoundFile>) -> Seq<(Seq<char>, RemoteFileInfo)> {
    found.map_values(|f: FoundFile| (f.path@, f.info))
}

/// The directories among the entries of a directory.
pub open spec fn sub_dirs(dir: Seq<char>, items: Seq<DirItem>) -> Seq<Seq<char>>
    decreases items.len(),
{
    if items.len() == 0 {
        Seq::empty()
    } else {
        let front = sub_dirs(dir, items.drop_last());
        if items.last().is_dir {
            front.push(child(dir, items.last().name@))
        } else {
            front
        }
    }
}

/// The files among the entries of a directory.
pub open spec fn sub_files(dir: Seq<char>, items: Seq<DirItem>) -> Seq<
    (Seq<char>, RemoteFileInfo),
>
    decreases items.len(),
{
    if items.len() == 0 {
        Seq::empty()
    } else {
        let front = sub_files(dir, items.drop_last());
        if items.last().is_dir {
            front
        } else {
            front.push((child(dir, items.last().name@), items.last().info))
        }
    }
}

impl TreeWalk {
    /// A walk that begins at a directory.
    pub fn new(root: &str) -> (r: Self)
        ensures
            texts(r.pending@) == seq![root@],
            r.found@.len() == 0,
    {
        let mut pending: Vec<String> = Vec::new();
        pending.push(root.to_owned());
        assert(texts(pending@) =~= seq![root@]);
        TreeWalk { pending, found: Vec::new() }
    }

    /// The directory to read next; `None` when all are read.
    pub fn next_dir(&mut self) -> (r: Option<String>)
        ensures
            final(self).found@ == old(self).found@,
            match r {
                None => old(self).pending@.len() == 0 && final(self).pending@ == old(
                    self,
                ).pending@,
                Some(dir) => old(self).pending@.len() > 0 && dir == old(self).pending@.last()
                    && final(self).pending@ == old(self).pending@.drop_last(),
            },
    {
        self.pending.pop()
    }

    /// Takes in the entries of a directory: its directories are read later,
    /// its files are found.
    pub fn enter(&mut self, dir: &str, items: &Vec<DirItem>)
        ensures
            texts(final(self).pending@) == texts(old(self).pending@) + sub_dirs(dir@, items@),
            found_models(final(self).found@) == found_models(old(self).found@) + sub_files(
                dir@,
                items@,
            ),
    {
        let ghost dirs = texts(self.pending@);
        let ghost files = found_models(self.found@);
        let mut i: usize = 0;
        proof {
            assert(texts(self.pending@) =~= dirs + sub_dirs(dir@, items@.take(0)));
            assert(found_models(self.found@) =~= files + sub_files(dir@, items@.take(0)));
        }
        while i < items.len()
            invariant
                i <= items@.len(),
                texts(self.pending@) == dirs + sub_dirs(dir@, items@.take(i as int)),
                found_models(self.found@) == files + sub_files(dir@, items@.take(i as int)),
            decreases items@.len() - i,
        {
            let ghost before = *self;
            proof {
                assert(items@.take(i + 1).drop_last() =~= items@.take(i as int));
                assert(items@.take(i + 1).last() == items@[i as int]);
            }
            let path = child_path(dir, items[i].name.as_str());
            let ghost shown = path@;
            if items[i].is_dir {
                self.pending.push(path);
                proof {
                    assert(texts(self.pending@) =~= texts(before.pending@).push(shown));
                    assert(texts(self.pending@) =~= dirs + sub_dirs(dir@, items@.take(i + 1)));
                }
            } else {
                self.found.push(FoundFile { path, info: items[i].info });
                proof {
                    assert(found_models(self.found@) =~= found_models(before.found@).push(
                        (shown, items@[i as int].info),
                    ));
                    assert(found_models(self.found@) =~= files + sub_files(
                        dir@,
                        items@.take(i + 1),
                    ));
                }
            }
            i = i + 1;
        }
        assert(items@.take(items@.len() as int) =~= items@);
    }
}

// ---------------------------------------------------------------------
// Copying a tree
// ---------------------------------------------------------------------

/// A tree that is being copied: what is still to be copied, and where to, the
/// next one last.
pub struct CopyWalk {
    pub pending: Vec<(String, String)>,
}

/// The entries of a directory with their places in its copy.
pub open spec fn child_pairs(from: Seq<char>, to: Seq<char>, names: Seq<Seq<char>>) -> Seq<
    (Seq<char>, Seq<char>),
> {
    Seq::new(names.len(), |i: int| (child(from, names[i]), child(to, names[i])))
}

impl CopyWalk {
    /// What is still to be copied, over texts.
    pub open spec fn left(&self) -> Seq<(Seq<char>, Seq<char>)> {
        crate::cli::pair_texts(self.pending@)
    }

    /// A walk that begins at a file or directory.
    pub fn new(from: &str, to: &str) -> (r: Self)
        ensures
            r.left() == seq![(from@, to@)],
    {
        let mut pending: Vec<(String, String)> = Vec::new();
        pending.push((from.to_owned(), to.to_owned()));
        assert(crate::cli::pair_texts(pending@) =~= seq![(from@, to@)]);
        CopyWalk { pending }
    }

    /// What to copy next, and where to; `None` when all is copied.
    pub fn next_pair(&mut self) -> (r: Option<(String, String)>)
        ensures
            match r {
                None => old(self).left().len() == 0 && final(self).left() == old(self).left(),
                Some(p) => old(self).left().len() > 0 && (p.0@, p.1@) == old(self).left().last()
                    && final(self).left() == old(self).left().drop_last(),
            },
    {
        let r = self.pending.pop();
        assert(self.left() =~= if old(self).left().len() > 0 {
            old(self).left().drop_last()
        } else {
            old(self).left()
        });
        r
    }

    /// Takes in the names of the entries of a directory: they are copied next,
    /// in this order, into the copy of the directory.
    pub fn enter(&mut self, from: &str, to: &str, names: &[String])
        ensures
            final(self).left() == old(self).left() + child_pairs(
                from@,
                to@,
                texts(names@),
            ).reverse(),
    {
        let ghost before = self.left();
        let ghost pairs = child_pairs(from@, to@, texts(names@));
        let mut i: usize = names.len();
        assert(self.left() =~= before + pairs.skip(i as int).reverse());
        while i > 0
            invariant
                i <= names@.len(),
                pairs == child_pairs(from@, to@, texts(names@)),
                self.left() == before + pairs.skip(i as int).reverse(),
            decreases i,
        {
            i = i - 1;
            let ghost shorter = self.left();
            let a = child_path(from, names[i].as_str());
            let b = child_path(to, names[i].as_str());
            let ghost pair = (a@, b@);
            self.pending.push((a, b));
            proof {
                assert(texts(names@)[i as int] == names@[i as int]@);
                assert(pair == pairs[i as int]);
                assert(self.left() =~= shorter.push(pair));
                assert(pairs.skip(i as int).reverse() =~= pairs.skip(i + 1).reverse().push(pair));
                assert(self.left() =~= before + pairs.skip(i as int).reverse());
            }
        }
        assert(pairs.skip(0) =~= pairs);
    }
}

// ---------------------------------------------------------------------
// Laws
// ---------------------------------------------------------------------

/// Whether a name can be that of an entry: not empty and without slash.
pub open spec fn is_plain_name(name: Seq<char>) -> bool {
    name.len() > 0 && !name.contains('/')
}

/// Whether `rel` leads from a directory to a file below it.
pub open spec fn is_inner(rel: Seq<char>) -> bool {
    rel.len() > 0 && rel[0] != '/' && rel.last() != '/'
}

/// Whether a path lies below a root.
pub open spec fn is_below(path: Seq<char>, root: Seq<char>) -> bool {
    exists|rel: Seq<char>| is_inner(rel) && path == #[trigger] child(root, rel)
}

proof fn child_is_below(dir: Seq<char>, root: Seq<char>, name: Seq<char>)
    requires
        dir == root || is_below(dir, root),
        is_plain_name(name),
    ensures
        is_below(child(dir, name), root),
{
    reveal_strlit("/");
    assert(name.contains(name[0]) && name.contains(name.last()));
    assert(is_inner(name));
    if dir != root {
        let rel = choose|rel: Seq<char>| is_inner(rel) && dir == #[trigger] child(root, rel);
        assert(dir.last() == rel.last());
        assert(strip_back(dir, '/') == dir);
        let longer = rel + "/"@ + name;
        assert(longer[0] == rel[0]);
        assert(longer.last() == name.last());
        assert(child(dir, name) =~= child(root, longer));
        assert(is_inner(longer));
    }
}

/// Whatever a walk finds in a directory at or below its root lies below the
/// root, as long as entries have names without slashes.
pub proof fn walk_stays_below(dir: Seq<char>, root: Seq<char>, items: Seq<DirItem>)
    requires
        dir == root || is_below(dir, root),
        forall|i: int| 0 <= i < items.len() ==> is_plain_name((#[trigger] items[i]).name@),
    ensures
        forall|i: int|
            0 <= i < sub_dirs(dir, items).len() ==> is_below(
                #[trigger] sub_dirs(dir, items)[i],
                root,
            ),
        forall|i: int|
            0 <= i < sub_files(dir, items).len() ==> is_below(
                (#[trigger] sub_files(dir, items)[i]).0,
                root,
            ),
    decreases items.len(),
{
    if items.len() > 0 {
        let front = items.drop_last();
        assert forall|i: int| 0 <= i < front.len() implies is_plain_name(
            (#[trigger] front[i]).name@,
        ) by {
            assert(front[i] == items[i]);
        }
        walk_stays_below(dir, root, front);
        assert(is_plain_name(items[items.len() - 1].name@));
        child_is_below(dir, root, items.last().name@);
        assert forall|i: int| 0 <= i < sub_dirs(dir, items).len() implies is_below(
            #[trigger] sub_dirs(dir, items)[i],
            root,
        ) by {
            if i < sub_dirs(dir, front).len() {
                assert(sub_dirs(dir, items)[i] == sub_dirs(dir, front)[i]);
            }
        }
        assert forall|i: int| 0 <= i < sub_files(dir, items).len() implies is_below(
            (#[trigger] sub_files(dir, items)[i]).0,
            root,
        ) by {
            if i < sub_files(dir, front).len() {
                assert(sub_files(dir, items)[i] == sub_files(dir, front)[i]);
            }
        }
    }
}

/// A file below the root has the part behind the root that leads to it, so
/// that its counterpart lies at the same place below the other root.
pub proof fn below_is_relative(path: Seq<char>, root: Seq<char>)
    requires
        is_below(path, root),
    ensures
        path == child(root, crate::sync::relative(path, root)),
{
    let rel = choose|rel: Seq<char>| is_inner(rel) && path == #[trigger] child(root, rel);
    crate::sync::relative_undoes_child(root, rel);
}

/// Size and time of a file are those that the server reports, and zero where it
/// reports none.
pub proof fn reports_are_taken_over(size: u64, mtime: u32, s: Option<u64>, t: Option<u32>)
    ensures
        info_model(Some(size), t).size == size,
        info_model(s, Some(mtime)).mtime == mtime,
        info_model(None, t).size == 0,
        info_model(s, None).mtime == 0,
{
}

} // verus!
