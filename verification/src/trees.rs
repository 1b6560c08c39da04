//! What whole walks come to: trees of files, listed and copied.

use vstd::prelude::*;
use vstd::string::*;

use crate::paths::child;
use crate::text::strip_back;
use crate::types::RemoteFileInfo;
use crate::walk::{child_pairs, is_plain_name, sub_dirs, sub_files, DirItem};

verus! {

broadcast use vstd::string::group_string_axioms;

// ---------------------------------------------------------------------
// Trees
// ---------------------------------------------------------------------

/// A file: what it holds, and its size and time as they are reported.
pub struct Leaf {
    pub bytes: Seq<u8>,
    pub info: RemoteFileInfo,
}

/// An entry of a directory.
pub struct Branch {
    pub name: Seq<char>,
    pub tree: Tree,
}

/// A file, or a directory with its entries in the order in which they are
/// listed.
pub enum Tree {
    File(Leaf),
    Dir(Seq<Branch>),
}

/// The names that lead from the root of a tree to a file in it.
pub type Trail = Seq<Seq<char>>;

/// Files of a directory, reached through its entry of this name.
pub open spec fn under(name: Seq<char>, files: Seq<(Trail, Leaf)>) -> Seq<(Trail, Leaf)> {
    files.map_values(|f: (Trail, Leaf)| (seq![name] + f.0, f.1))
}

/// The files of a tree, entry by entry.
pub open spec fn tree_files(tree: Tree) -> Seq<(Trail, Leaf)>
    decreases tree, 0nat,
{
    match tree {
        Tree::File(leaf) => seq![(Seq::empty(), leaf)],
        Tree::Dir(branches) => branch_files(branches, branches.len()),
    }
}

/// The files of the first `n` entries.
pub open spec fn branch_files(branches: Seq<Branch>, n: nat) -> Seq<(Trail, Leaf)>
    decreases branches, n,
{
    if n == 0 || n > branches.len() {
        Seq::empty()
    } else {
        branch_files(branches, (n - 1) as nat) + under(
            branches[n - 1].name,
            tree_files(branches[n - 1].tree),
        )
    }
}

/// Whether the entries of every directory have names that can be such, and
/// no two of them the same.
pub open spec fn well_named(tree: Tree) -> bool
    decreases tree,
{
    match tree {
        Tree::File(_) => true,
        Tree::Dir(branches) => {
            &&& forall|i: int|
                0 <= i < branches.len() ==> is_plain_name((#[trigger] branches[i]).name)
            &&& forall|i: int, j: int|
                0 <= i < j < branches.len() ==> (#[trigger] branches[i]).name != (
                #[trigger] branches[j]).name
            &&& forall|i: int| 0 <= i < branches.len() ==> well_named((#[trigger] branches[i]).tree)
        },
    }
}

/// The path of what a trail leads to from a root.
pub open spec fn place(root: Seq<char>, trail: Trail) -> Seq<char>
    decreases trail.len(),
{
    if trail.len() == 0 {
        root
    } else {
        child(place(root, trail.drop_last()), trail.last())
    }
}

/// Whether a trail is made of names that entries can have.
pub open spec fn is_plain(trail: Trail) -> bool {
    forall|i: int| 0 <= i < trail.len() ==> is_plain_name(#[trigger] trail[i])
}

proof fn plain_front(trail: Trail)
    requires
        is_plain(trail),
        trail.len() > 0,
    ensures
        is_plain(trail.drop_last()),
        is_plain_name(trail.last()),
{
    assert forall|i: int| 0 <= i < trail.drop_last().len() implies is_plain_name(
        #[trigger] trail.drop_last()[i],
    ) by {
        assert(is_plain_name(trail[i]));
    }
    assert(is_plain_name(trail[trail.len() - 1]));
}

proof fn place_from_front(root: Seq<char>, name: Seq<char>, rest: Trail)
    ensures
        place(root, seq![name] + rest) == place(child(root, name), rest),
    decreases rest.len(),
{
    let whole = seq![name] + rest;
    if rest.len() == 0 {
        assert(whole.drop_last() =~= Seq::<Seq<char>>::empty());
        assert(whole.last() == name);
        assert(place(root, whole.drop_last()) == root);
    } else {
        assert(whole.drop_last() =~= seq![name] + rest.drop_last());
        place_from_front(root, name, rest.drop_last());
    }
}

proof fn child_splits(a: Seq<char>, m: Seq<char>, b: Seq<char>, n: Seq<char>)
    requires
        is_plain_name(m),
        is_plain_name(n),
        child(a, m) == child(b, n),
    ensures
        m == n,
        strip_back(a, '/') == strip_back(b, '/'),
{
    reveal_strlit("/");
    let p = child(a, m);
    let x = strip_back(a, '/');
    let y = strip_back(b, '/');
    assert(p.len() == x.len() + 1 + m.len() && p.len() == y.len() + 1 + n.len());
    assert(p[x.len() as int] == '/');
    assert(p[y.len() as int] == '/');
    if m.len() < n.len() {
        assert(n[x.len() - y.len() - 1] == p[x.len() as int]);
        assert(n.contains('/'));
    }
    if n.len() < m.len() {
        assert(m[y.len() - x.len() - 1] == p[y.len() as int]);
        assert(m.contains('/'));
    }
    assert(m =~= p.skip(x.len() as int + 1));
    assert(n =~= p.skip(y.len() as int + 1));
    assert(x =~= p.take(x.len() as int));
    assert(y =~= p.take(y.len() as int));
}

proof fn child_is_stripped(dir: Seq<char>, name: Seq<char>)
    requires
        is_plain_name(name),
    ensures
        strip_back(child(dir, name), '/') == child(dir, name),
        child(dir, name).len() >= strip_back(dir, '/').len() + 2,
{
    reveal_strlit("/");
    assert(name.contains(name.last()));
    assert(child(dir, name).last() == name.last());
}

proof fn place_grows(root: Seq<char>, trail: Trail)
    requires
        is_plain(trail),
    ensures
        strip_back(place(root, trail), '/').len() >= strip_back(root, '/').len(),
    decreases trail.len(),
{
    if trail.len() > 0 {
        plain_front(trail);
        place_grows(root, trail.drop_last());
        child_is_stripped(place(root, trail.drop_last()), trail.last());
    }
}

proof fn root_is_no_place(root: Seq<char>, trail: Trail)
    requires
        is_plain(trail),
        trail.len() > 0,
    ensures
        place(root, trail) != root,
        strip_back(root, '/') != place(root, trail),
{
    plain_front(trail);
    place_grows(root, trail.drop_last());
    child_is_stripped(place(root, trail.drop_last()), trail.last());
}

/// From one root, different trails lead to different places.
pub proof fn places_differ(root: Seq<char>, a: Trail, b: Trail)
    requires
        is_plain(a),
        is_plain(b),
        place(root, a) == place(root, b),
    ensures
        a == b,
    decreases a.len(),
{
    if a.len() == 0 && b.len() == 0 {
        assert(a =~= b);
    } else if a.len() == 0 {
        root_is_no_place(root, b);
    } else if b.len() == 0 {
        root_is_no_place(root, a);
    } else {
        let x = a.drop_last();
        let y = b.drop_last();
        plain_front(a);
        plain_front(b);
        child_splits(place(root, x), a.last(), place(root, y), b.last());
        if x.len() == 0 && y.len() > 0 {
            child_is_stripped(place(root, y.drop_last()), y.last());
            root_is_no_place(root, y);
        } else if y.len() == 0 && x.len() > 0 {
            child_is_stripped(place(root, x.drop_last()), x.last());
            root_is_no_place(root, x);
        } else if x.len() > 0 {
            child_is_stripped(place(root, x.drop_last()), x.last());
            child_is_stripped(place(root, y.drop_last()), y.last());
        }
        places_differ(root, x, y);
        assert(a =~= x.push(a.last()));
        assert(b =~= y.push(b.last()));
    }
}

// ---------------------------------------------------------------------
// Copying
// ---------------------------------------------------------------------

/// What stands at a path: a file with what it holds, or a directory with the
/// names of its entries as they are listed.
pub enum Node {
    File(Seq<u8>),
    Dir(Seq<Seq<char>>),
}

/// What stands at which path.
pub type Nodes = Map<Seq<char>, Node>;

/// The names of entries.
pub open spec fn names_of(branches: Seq<Branch>) -> Seq<Seq<char>> {
    branches.map_values(|b: Branch| b.name)
}

/// Whether a tree is what stands at a path.
pub open spec fn holds(nodes: Nodes, path: Seq<char>, tree: Tree) -> bool
    decreases tree,
{
    &&& nodes.contains_key(path)
    &&& match tree {
        Tree::File(leaf) => nodes[path] == Node::File(leaf.bytes),
        Tree::Dir(branches) => {
            &&& nodes[path] == Node::Dir(names_of(branches))
            &&& forall|i: int|
                0 <= i < branches.len() ==> holds(
                    nodes,
                    child(path, (#[trigger] branches[i]).name),
                    branches[i].tree,
                )
        },
    }
}

/// What is left to copy once the next has been: where it is a directory, its
/// entries come next.
pub open spec fn copy_step(nodes: Nodes, left: Seq<(Seq<char>, Seq<char>)>) -> Seq<
    (Seq<char>, Seq<char>),
> {
    let (from, to) = left.last();
    match nodes[from] {
        Node::File(_) => left.drop_last(),
        Node::Dir(names) => left.drop_last() + child_pairs(from, to, names).reverse(),
    }
}

/// Whether a [`crate::walk::CopyWalk`] with this left to copy hands out these
/// pairs and then no more, if it is told the names of the entries of each
/// directory.
pub open spec fn copies(
    nodes: Nodes,
    left: Seq<(Seq<char>, Seq<char>)>,
    visited: Seq<(Seq<char>, Seq<char>)>,
) -> bool
    decreases visited.len(),
{
    if visited.len() == 0 {
        left.len() == 0
    } else {
        &&& left.len() > 0
        &&& visited[0] == left.last()
        &&& copies(nodes, copy_step(nodes, left), visited.skip(1))
    }
}

/// All places in a tree, with their places in a copy of it: each directory
/// before its entries.
pub open spec fn visits(tree: Tree, from: Seq<char>, to: Seq<char>) -> Seq<(Seq<char>, Seq<char>)>
    decreases tree, 0nat,
{
    match tree {
        Tree::File(_) => seq![(from, to)],
        Tree::Dir(branches) => seq![(from, to)] + branch_visits(branches, branches.len(), from, to),
    }
}

/// All places in the first `n` entries.
pub open spec fn branch_visits(
    branches: Seq<Branch>,
    n: nat,
    from: Seq<char>,
    to: Seq<char>,
) -> Seq<(Seq<char>, Seq<char>)>
    decreases branches, n,
{
    if n == 0 || n > branches.len() {
        Seq::empty()
    } else {
        branch_visits(branches, (n - 1) as nat, from, to) + visits(
            branches[n - 1].tree,
            child(from, branches[n - 1].name),
            child(to, branches[n - 1].name),
        )
    }
}

proof fn copies_one_way(
    nodes: Nodes,
    left: Seq<(Seq<char>, Seq<char>)>,
    a: Seq<(Seq<char>, Seq<char>)>,
    b: Seq<(Seq<char>, Seq<char>)>,
)
    requires
        copies(nodes, left, a),
        copies(nodes, left, b),
    ensures
        a == b,
    decreases a.len(),
{
    if a.len() == 0 {
        assert(a =~= b);
    } else {
        copies_one_way(nodes, copy_step(nodes, left), a.skip(1), b.skip(1));
        assert(a =~= seq![a[0]] + a.skip(1));
        assert(b =~= seq![b[0]] + b.skip(1));
    }
}

proof fn copies_tree(
    nodes: Nodes,
    tree: Tree,
    from: Seq<char>,
    to: Seq<char>,
    left: Seq<(Seq<char>, Seq<char>)>,
    rest: Seq<(Seq<char>, Seq<char>)>,
)
    requires
        holds(nodes, from, tree),
        copies(nodes, left, rest),
    ensures
        copies(nodes, left.push((from, to)), visits(tree, from, to) + rest),
    decreases tree, 0nat,
{
    let more = left.push((from, to));
    let all = visits(tree, from, to) + rest;
    assert(more.drop_last() =~= left);
    assert(all[0] == (from, to));
    match tree {
        Tree::File(_) => {
            assert(all.skip(1) =~= rest);
        },
        Tree::Dir(branches) => {
            let n = branches.len();
            let pairs = child_pairs(from, to, names_of(branches));
            assert(left + pairs.skip(n as int).reverse() =~= left);
            copies_branches(nodes, branches, n, from, to, left, rest);
            assert(all.skip(1) =~= branch_visits(branches, n, from, to) + rest);
        },
    }
}

proof fn copies_branches(
    nodes: Nodes,
    branches: Seq<Branch>,
    n: nat,
    from: Seq<char>,
    to: Seq<char>,
    left: Seq<(Seq<char>, Seq<char>)>,
    rest: Seq<(Seq<char>, Seq<char>)>,
)
    requires
        n <= branches.len(),
        forall|i: int|
            0 <= i < branches.len() ==> holds(
                nodes,
                child(from, (#[trigger] branches[i]).name),
                branches[i].tree,
            ),
        copies(
            nodes,
            left + child_pairs(from, to, names_of(branches)).skip(n as int).reverse(),
            rest,
        ),
    ensures
        copies(
            nodes,
            left + child_pairs(from, to, names_of(branches)).reverse(),
            branch_visits(branches, n, from, to) + rest,
        ),
    decreases branches, n,
{
    let pairs = child_pairs(from, to, names_of(branches));
    if n == 0 {
        assert(pairs.skip(0) =~= pairs);
        assert(branch_visits(branches, n, from, to) + rest =~= rest);
    } else {
        let i = n - 1;
        let a = child(from, branches[i].name);
        let b = child(to, branches[i].name);
        let ahead = left + pairs.skip(n as int).reverse();
        assert(pairs[i] == (a, b));
        assert(ahead.push((a, b)) =~= left + pairs.skip(i).reverse());
        copies_tree(nodes, branches[i].tree, a, b, ahead, rest);
        let longer = visits(branches[i].tree, a, b) + rest;
        copies_branches(nodes, branches, i as nat, from, to, left, longer);
        assert(branch_visits(branches, n, from, to) + rest =~= branch_visits(
            branches,
            i as nat,
            from,
            to,
        ) + longer);
    }
}

/// A copying walk that begins at a tree hands out each place of the tree once,
/// each directory before what is in it, together with its place in the copy;
/// and then it is done.
pub proof fn copying_visits_all(
    nodes: Nodes,
    tree: Tree,
    from: Seq<char>,
    to: Seq<char>,
    visited: Seq<(Seq<char>, Seq<char>)>,
)
    requires
        holds(nodes, from, tree),
    ensures
        copies(nodes, seq![(from, to)], visited) <==> visited == visits(tree, from, to),
{
    let none = Seq::<(Seq<char>, Seq<char>)>::empty();
    copies_tree(nodes, tree, from, to, none, none);
    assert(none.push((from, to)) =~= seq![(from, to)]);
    assert(visits(tree, from, to) + none =~= visits(tree, from, to));
    if copies(nodes, seq![(from, to)], visited) {
        copies_one_way(nodes, seq![(from, to)], visited, visits(tree, from, to));
    }
}

/// What files hold, by path.
pub type Contents = Map<Seq<char>, Seq<u8>>;

/// What copying writes: each file that is handed out, at its place in the
/// copy.
pub open spec fn writes(nodes: Nodes, visited: Seq<(Seq<char>, Seq<char>)>) -> Seq<
    (Seq<char>, Seq<u8>),
>
    decreases visited.len(),
{
    if visited.len() == 0 {
        Seq::empty()
    } else {
        let front = writes(nodes, visited.drop_last());
        match nodes[visited.last().0] {
            Node::File(bytes) => front.push((visited.last().1, bytes)),
            Node::Dir(_) => front,
        }
    }
}

/// What files hold after they are written one after the other.
pub open spec fn written(before: Contents, files: Seq<(Seq<char>, Seq<u8>)>) -> Contents
    decreases files.len(),
{
    if files.len() == 0 {
        before
    } else {
        written(before, files.drop_last()).insert(files.last().0, files.last().1)
    }
}

/// The files of a tree that stands at a root.
pub open spec fn placed(root: Seq<char>, files: Seq<(Trail, Leaf)>) -> Seq<(Seq<char>, Seq<u8>)> {
    files.map_values(|f: (Trail, Leaf)| (place(root, f.0), f.1.bytes))
}

/// What the file at a path holds, if there is one.
pub open spec fn content_at(contents: Contents, path: Seq<char>) -> Option<Seq<u8>> {
    if contents.contains_key(path) {
        Some(contents[path])
    } else {
        None
    }
}

/// Whether the trail of one of the files leads to a path.
pub open spec fn leads_to(root: Seq<char>, files: Seq<(Trail, Leaf)>, path: Seq<char>) -> bool {
    exists|k: int| 0 <= k < files.len() && place(root, (#[trigger] files[k]).0) == path
}

/// Whether a file of a tree has this trail and holds these bytes.
pub open spec fn has_file(tree: Tree, trail: Trail, bytes: Seq<u8>) -> bool {
    exists|k: int|
        0 <= k < tree_files(tree).len() && (#[trigger] tree_files(tree)[k]).0 == trail
            && tree_files(tree)[k].1.bytes == bytes
}

/// What a trail leads to in a tree.
pub open spec fn subtree(tree: Tree, trail: Trail) -> Option<Tree>
    decreases trail.len(),
{
    if trail.len() == 0 {
        Some(tree)
    } else {
        match tree {
            Tree::File(_) => None,
            Tree::Dir(branches) => if exists|i: int|
                0 <= i < branches.len() && (#[trigger] branches[i]).name == trail[0] {
                let i = choose|i: int|
                    0 <= i < branches.len() && (#[trigger] branches[i]).name == trail[0];
                subtree(branches[i].tree, trail.skip(1))
            } else {
                None
            },
        }
    }
}

/// Whether a directory of a tree has this trail.
pub open spec fn has_dir(tree: Tree, trail: Trail) -> bool {
    subtree(tree, trail) matches Some(Tree::Dir(_))
}

/// Whether copying makes a directory at a path: a directory is handed out with
/// this place in the copy.
pub open spec fn makes(
    nodes: Nodes,
    visited: Seq<(Seq<char>, Seq<char>)>,
    path: Seq<char>,
) -> bool {
    exists|k: int|
        0 <= k < visited.len() && (#[trigger] visited[k]).1 == path
            && nodes[visited[k].0] is Dir
}

proof fn writes_add(
    nodes: Nodes,
    a: Seq<(Seq<char>, Seq<char>)>,
    b: Seq<(Seq<char>, Seq<char>)>,
)
    ensures
        writes(nodes, a + b) == writes(nodes, a) + writes(nodes, b),
    decreases b.len(),
{
    if b.len() == 0 {
        assert(a + b =~= a);
        assert(writes(nodes, a) + writes(nodes, b) =~= writes(nodes, a));
    } else {
        writes_add(nodes, a, b.drop_last());
        assert((a + b).drop_last() =~= a + b.drop_last());
        assert(writes(nodes, a + b) =~= writes(nodes, a) + writes(nodes, b));
    }
}

proof fn placed_under(root: Seq<char>, name: Seq<char>, files: Seq<(Trail, Leaf)>)
    ensures
        placed(root, under(name, files)) == placed(child(root, name), files),
{
    assert forall|i: int| 0 <= i < files.len() implies placed(root, under(name, files))[i]
        == #[trigger] placed(child(root, name), files)[i] by {
        place_from_front(root, name, files[i].0);
    }
    assert(placed(root, under(name, files)) =~= placed(child(root, name), files));
}

proof fn writes_tree(nodes: Nodes, tree: Tree, from: Seq<char>, to: Seq<char>)
    requires
        holds(nodes, from, tree),
    ensures
        writes(nodes, visits(tree, from, to)) == placed(to, tree_files(tree)),
    decreases tree, 0nat,
{
    let first = seq![(from, to)];
    assert(first.drop_last() =~= Seq::<(Seq<char>, Seq<char>)>::empty());
    assert(writes(nodes, first.drop_last()) =~= Seq::<(Seq<char>, Seq<u8>)>::empty());
    match tree {
        Tree::File(_) => {
            assert(writes(nodes, first) =~= placed(to, tree_files(tree)));
        },
        Tree::Dir(branches) => {
            writes_branches(nodes, branches, branches.len(), from, to);
            writes_add(nodes, first, branch_visits(branches, branches.len(), from, to));
            assert(writes(nodes, first) =~= Seq::<(Seq<char>, Seq<u8>)>::empty());
            assert(writes(nodes, visits(tree, from, to)) =~= placed(to, tree_files(tree)));
        },
    }
}

proof fn writes_branches(
    nodes: Nodes,
    branches: Seq<Branch>,
    n: nat,
    from: Seq<char>,
    to: Seq<char>,
)
    requires
        n <= branches.len(),
        forall|i: int|
            0 <= i < branches.len() ==> holds(
                nodes,
                child(from, (#[trigger] branches[i]).name),
                branches[i].tree,
            ),
    ensures
        writes(nodes, branch_visits(branches, n, from, to)) == placed(
            to,
            branch_files(branches, n),
        ),
    decreases branches, n,
{
    if n == 0 {
        assert(placed(to, branch_files(branches, n)) =~= Seq::<(Seq<char>, Seq<u8>)>::empty());
    } else {
        let i = n - 1;
        let a = child(from, branches[i].name);
        let b = child(to, branches[i].name);
        let files = tree_files(branches[i].tree);
        writes_branches(nodes, branches, i as nat, from, to);
        writes_tree(nodes, branches[i].tree, a, b);
        writes_add(
            nodes,
            branch_visits(branches, i as nat, from, to),
            visits(branches[i].tree, a, b),
        );
        placed_under(to, branches[i].name, files);
        assert(placed(to, branch_files(branches, n)) =~= placed(
            to,
            branch_files(branches, i as nat),
        ) + placed(to, under(branches[i].name, files)));
    }
}

/// Whether all files have trails of plain names, no two of them the same.
spec fn distinct(files: Seq<(Trail, Leaf)>) -> bool {
    &&& forall|i: int| 0 <= i < files.len() ==> is_plain((#[trigger] files[i]).0)
    &&& forall|i: int, j: int|
        0 <= i < j < files.len() ==> (#[trigger] files[i]).0 != (#[trigger] files[j]).0
}

proof fn distinct_tree(tree: Tree)
    requires
        well_named(tree),
    ensures
        distinct(tree_files(tree)),
    decreases tree, 0nat,
{
    if let Tree::Dir(branches) = tree {
        distinct_branches(branches, branches.len());
    }
}

proof fn distinct_branches(branches: Seq<Branch>, n: nat)
    requires
        n <= branches.len(),
        forall|i: int| 0 <= i < branches.len() ==> is_plain_name((#[trigger] branches[i]).name),
        forall|i: int, j: int|
            0 <= i < j < branches.len() ==> (#[trigger] branches[i]).name != (
            #[trigger] branches[j]).name,
        forall|i: int| 0 <= i < branches.len() ==> well_named((#[trigger] branches[i]).tree),
    ensures
        distinct(branch_files(branches, n)),
        forall|k: int|
            0 <= k < branch_files(branches, n).len() ==> {
                let trail = (#[trigger] branch_files(branches, n)[k]).0;
                &&& trail.len() > 0
                &&& exists|i: int| 0 <= i < n && (#[trigger] branches[i]).name == trail[0]
            },
    decreases branches, n,
{
    if n > 0 {
        let i = n - 1;
        let name = branches[i].name;
        let front = branch_files(branches, i as nat);
        let inner = tree_files(branches[i].tree);
        let last = under(name, inner);
        let all = branch_files(branches, n);
        distinct_branches(branches, i as nat);
        distinct_tree(branches[i].tree);
        assert(all == front + last);
        assert forall|k: int| 0 <= k < last.len() implies (#[trigger] last[k]).0 == seq![name]
            + inner[k].0 && is_plain(last[k].0) && last[k].0[0] == name by {
            assert(is_plain(inner[k].0));
            assert forall|m: int| 0 <= m < last[k].0.len() implies is_plain_name(
                #[trigger] last[k].0[m],
            ) by {
                if m > 0 {
                    assert(last[k].0[m] == inner[k].0[m - 1]);
                }
            }
        }
        assert forall|k: int| 0 <= k < all.len() implies (#[trigger] all[k]).0.len() > 0 && is_plain(
            all[k].0,
        ) && exists|j: int| 0 <= j < n && (#[trigger] branches[j]).name == all[k].0[0] by {
            if k < front.len() {
                assert(all[k] == front[k]);
                let j = choose|j: int|
                    0 <= j < i && (#[trigger] branches[j]).name == front[k].0[0];
                assert(branches[j].name == all[k].0[0]);
            } else {
                assert(all[k] == last[k - front.len()]);
                assert(branches[i].name == all[k].0[0]);
            }
        }
        assert forall|k: int, m: int| 0 <= k < m < all.len() implies (#[trigger] all[k]).0 != (
        #[trigger] all[m]).0 by {
            if m < front.len() {
                assert(all[k] == front[k] && all[m] == front[m]);
            } else if k < front.len() {
                assert(all[k] == front[k] && all[m] == last[m - front.len()]);
                let j = choose|j: int|
                    0 <= j < i && (#[trigger] branches[j]).name == front[k].0[0];
                assert(branches[j].name != branches[i].name);
            } else {
                let x = k - front.len();
                let y = m - front.len();
                assert(all[k] == last[x] && all[m] == last[y]);
                assert(inner[x].0 != inner[y].0);
                assert(last[x].0.skip(1) =~= inner[x].0);
                assert(last[y].0.skip(1) =~= inner[y].0);
            }
        }
    }
}

proof fn written_files(before: Contents, root: Seq<char>, files: Seq<(Trail, Leaf)>)
    requires
        distinct(files),
    ensures
        forall|k: int|
            0 <= k < files.len() ==> content_at(
                written(before, placed(root, files)),
                place(root, (#[trigger] files[k]).0),
            ) == Some(files[k].1.bytes),
        forall|path: Seq<char>|
            !leads_to(root, files, path) ==> #[trigger] content_at(
                written(before, placed(root, files)),
                path,
            ) == content_at(before, path),
    decreases files.len(),
{
    if files.len() > 0 {
        let front = files.drop_last();
        let list = placed(root, files);
        let n = files.len() - 1;
        assert(list.drop_last() =~= placed(root, front));
        assert(list.last() == (place(root, files[n].0), files[n].1.bytes));
        assert forall|i: int| 0 <= i < front.len() implies is_plain((#[trigger] front[i]).0) by {
            assert(front[i] == files[i]);
        }
        assert forall|i: int, j: int| 0 <= i < j < front.len() implies (#[trigger] front[i]).0 != (
        #[trigger] front[j]).0 by {
            assert(front[i] == files[i] && front[j] == files[j]);
        }
        written_files(before, root, front);
        assert forall|k: int| 0 <= k < files.len() implies content_at(
            written(before, list),
            place(root, (#[trigger] files[k]).0),
        ) == Some(files[k].1.bytes) by {
            if k < n {
                assert(front[k] == files[k]);
                if place(root, files[k].0) == place(root, files[n].0) {
                    places_differ(root, files[k].0, files[n].0);
                }
                assert(content_at(written(before, placed(root, front)), place(root, front[k].0))
                    == Some(front[k].1.bytes));
            }
        }
        assert forall|path: Seq<char>| !leads_to(root, files, path) implies #[trigger] content_at(
            written(before, list),
            path,
        ) == content_at(before, path) by {
            assert(place(root, files[n].0) != path);
            if leads_to(root, front, path) {
                let k = choose|k: int|
                    0 <= k < front.len() && place(root, (#[trigger] front[k]).0) == path;
                assert(place(root, files[k].0) == path);
            }
            assert(content_at(written(before, placed(root, front)), path) == content_at(
                before,
                path,
            ));
        }
    }
}

proof fn visit_in_branch(
    branches: Seq<Branch>,
    n: nat,
    i: int,
    from: Seq<char>,
    to: Seq<char>,
    pair: (Seq<char>, Seq<char>),
)
    requires
        0 <= i < n <= branches.len(),
        visits(
            branches[i].tree,
            child(from, branches[i].name),
            child(to, branches[i].name),
        ).contains(pair),
    ensures
        branch_visits(branches, n, from, to).contains(pair),
    decreases n,
{
    let all = branch_visits(branches, n, from, to);
    let front = branch_visits(branches, (n - 1) as nat, from, to);
    if i < n - 1 {
        visit_in_branch(branches, (n - 1) as nat, i, from, to, pair);
        let k = front.index_of(pair);
        assert(all[k] == pair);
    } else {
        let inner = visits(
            branches[i].tree,
            child(from, branches[i].name),
            child(to, branches[i].name),
        );
        let k = inner.index_of(pair);
        assert(all[front.len() + k] == pair);
    }
}

proof fn visits_reach(tree: Tree, from: Seq<char>, to: Seq<char>, trail: Trail)
    requires
        subtree(tree, trail) is Some,
    ensures
        visits(tree, from, to).contains((place(from, trail), place(to, trail))),
    decreases trail.len(),
{
    let pair = (place(from, trail), place(to, trail));
    let all = visits(tree, from, to);
    if trail.len() == 0 {
        assert(all[0] == pair);
    } else if let Tree::Dir(branches) = tree {
        let i = choose|i: int|
            0 <= i < branches.len() && (#[trigger] branches[i]).name == trail[0];
        let rest = trail.skip(1);
        visits_reach(branches[i].tree, child(from, trail[0]), child(to, trail[0]), rest);
        assert(trail =~= seq![trail[0]] + rest);
        place_from_front(from, trail[0], rest);
        place_from_front(to, trail[0], rest);
        visit_in_branch(branches, branches.len(), i, from, to, pair);
        let k = branch_visits(branches, branches.len(), from, to).index_of(pair);
        assert(all[1 + k] == pair);
    }
}

proof fn held_dir(nodes: Nodes, root: Seq<char>, tree: Tree, trail: Trail)
    requires
        holds(nodes, root, tree),
        has_dir(tree, trail),
    ensures
        nodes[place(root, trail)] is Dir,
    decreases trail.len(),
{
    if trail.len() > 0 {
        if let Tree::Dir(branches) = tree {
            let i = choose|i: int|
                0 <= i < branches.len() && (#[trigger] branches[i]).name == trail[0];
            let rest = trail.skip(1);
            held_dir(nodes, child(root, trail[0]), branches[i].tree, rest);
            assert(trail =~= seq![trail[0]] + rest);
            place_from_front(root, trail[0], rest);
        }
    }
}

proof fn plain_subtree(tree: Tree, trail: Trail)
    requires
        well_named(tree),
        subtree(tree, trail) is Some,
    ensures
        is_plain(trail),
    decreases trail.len(),
{
    if trail.len() > 0 {
        if let Tree::Dir(branches) = tree {
            let i = choose|i: int|
                0 <= i < branches.len() && (#[trigger] branches[i]).name == trail[0];
            let rest = trail.skip(1);
            plain_subtree(branches[i].tree, rest);
            assert forall|m: int| 0 <= m < trail.len() implies is_plain_name(
                #[trigger] trail[m],
            ) by {
                if m > 0 {
                    assert(trail[m] == rest[m - 1]);
                }
            }
        }
    }
}

/// Copying a tree writes each of its files, at the same place below the root of
/// the copy, and no other; and it makes each of its directories.
pub proof fn copies_are_complete(
    nodes: Nodes,
    tree: Tree,
    from: Seq<char>,
    to: Seq<char>,
    visited: Seq<(Seq<char>, Seq<char>)>,
    before: Contents,
)
    requires
        holds(nodes, from, tree),
        well_named(tree),
        copies(nodes, seq![(from, to)], visited),
    ensures
        forall|trail: Trail, bytes: Seq<u8>| #[trigger]
            has_file(tree, trail, bytes) ==> content_at(
                written(before, writes(nodes, visited)),
                place(to, trail),
            ) == Some(bytes),
        forall|path: Seq<char>|
            !leads_to(to, tree_files(tree), path) ==> #[trigger] content_at(
                written(before, writes(nodes, visited)),
                path,
            ) == content_at(before, path),
        forall|trail: Trail| #[trigger]
            has_dir(tree, trail) ==> makes(nodes, visited, place(to, trail)),
{
    copying_visits_all(nodes, tree, from, to, visited);
    writes_tree(nodes, tree, from, to);
    distinct_tree(tree);
    written_files(before, to, tree_files(tree));
    assert forall|trail: Trail| #[trigger] has_dir(tree, trail) implies makes(
        nodes,
        visited,
        place(to, trail),
    ) by {
        visits_reach(tree, from, to, trail);
        held_dir(nodes, from, tree, trail);
        let k = visited.index_of((place(from, trail), place(to, trail)));
        assert(visited[k] == (place(from, trail), place(to, trail)));
    }
}

/// What the file at a path holds, if a file stands there.
pub open spec fn bytes_at(nodes: Nodes, path: Seq<char>) -> Option<Seq<u8>> {
    if nodes.contains_key(path) {
        match nodes[path] {
            Node::File(bytes) => Some(bytes),
            Node::Dir(_) => None,
        }
    } else {
        None
    }
}

/// Whether the files that stand at paths hold just this.
pub open spec fn shows(nodes: Nodes, contents: Contents) -> bool {
    forall|path: Seq<char>| #[trigger] bytes_at(nodes, path) == content_at(contents, path)
}

/// Whether what stands below a root stands in directories that list it.
pub open spec fn lists_all(nodes: Nodes, root: Seq<char>) -> bool {
    forall|trail: Trail, name: Seq<char>|
        is_plain(trail) && is_plain_name(name) && nodes.contains_key(
            #[trigger] place(root, trail.push(name)),
        ) ==> nodes.contains_key(place(root, trail)) && (nodes[place(root, trail)] matches Node::Dir(
            names,
        ) && names.contains(name))
}

proof fn ancestor_lists(nodes: Nodes, root: Seq<char>, above: Trail, trail: Trail)
    requires
        lists_all(nodes, root),
        is_plain(above + trail),
        trail.len() > 0,
        nodes.contains_key(place(root, above + trail)),
    ensures
        nodes.contains_key(place(root, above)),
        nodes[place(root, above)] matches Node::Dir(names) && names.contains(trail[0]),
    decreases trail.len(),
{
    let whole = above + trail;
    let shorter = trail.drop_last();
    plain_front(whole);
    assert(whole.drop_last() =~= above + shorter);
    assert(whole =~= (above + shorter).push(trail.last()));
    assert(nodes.contains_key(place(root, (above + shorter).push(trail.last()))));
    if shorter.len() > 0 {
        ancestor_lists(nodes, root, above, shorter);
        assert(shorter[0] == trail[0]);
    } else {
        assert(above + shorter =~= above);
    }
}

proof fn file_in_branch(branches: Seq<Branch>, n: nat, i: int, trail: Trail, bytes: Seq<u8>)
    requires
        0 <= i < n <= branches.len(),
        has_file(branches[i].tree, trail, bytes),
    ensures
        exists|k: int|
            0 <= k < branch_files(branches, n).len() && (#[trigger] branch_files(branches, n)[k]).0
                == seq![branches[i].name] + trail && branch_files(branches, n)[k].1.bytes == bytes,
    decreases n,
{
    let front = branch_files(branches, (n - 1) as nat);
    let all = branch_files(branches, n);
    if i < n - 1 {
        file_in_branch(branches, (n - 1) as nat, i, trail, bytes);
        let k = choose|k: int|
            0 <= k < front.len() && (#[trigger] front[k]).0 == seq![branches[i].name] + trail
                && front[k].1.bytes == bytes;
        assert(all[k] == front[k]);
    } else {
        let inner = tree_files(branches[i].tree);
        let k = choose|k: int|
            0 <= k < inner.len() && (#[trigger] inner[k]).0 == trail && inner[k].1.bytes == bytes;
        assert(all[front.len() + k] == under(branches[i].name, inner)[k]);
    }
}

proof fn listed_file(
    nodes: Nodes,
    root: Seq<char>,
    above: Trail,
    tree: Tree,
    trail: Trail,
    bytes: Seq<u8>,
)
    requires
        lists_all(nodes, root),
        holds(nodes, place(root, above), tree),
        is_plain(above + trail),
        bytes_at(nodes, place(root, above + trail)) == Some(bytes),
    ensures
        has_file(tree, trail, bytes),
    decreases trail.len(),
{
    if trail.len() == 0 {
        assert(above + trail =~= above);
        assert(tree_files(tree)[0].0 =~= trail);
    } else {
        ancestor_lists(nodes, root, above, trail);
        if let Tree::Dir(branches) = tree {
            let names = names_of(branches);
            let i = choose|i: int| 0 <= i < names.len() && #[trigger] names[i] == trail[0];
            assert(branches[i].name == trail[0]);
            let longer = above.push(trail[0]);
            let rest = trail.skip(1);
            assert(longer.drop_last() =~= above);
            assert(longer + rest =~= above + trail);
            listed_file(nodes, root, longer, branches[i].tree, rest, bytes);
            file_in_branch(branches, branches.len(), i, rest, bytes);
            assert(seq![trail[0]] + rest =~= trail);
            let files = branch_files(branches, branches.len());
            let k = choose|k: int|
                0 <= k < files.len() && (#[trigger] files[k]).0 == trail && files[k].1.bytes
                    == bytes;
            assert(tree_files(tree)[k] == files[k]);
        }
    }
}

proof fn listed_dir(nodes: Nodes, root: Seq<char>, above: Trail, tree: Tree, trail: Trail)
    requires
        lists_all(nodes, root),
        holds(nodes, place(root, above), tree),
        is_plain(above + trail),
        nodes.contains_key(place(root, above + trail)),
        nodes[place(root, above + trail)] is Dir,
    ensures
        has_dir(tree, trail),
    decreases trail.len(),
{
    if trail.len() == 0 {
        assert(above + trail =~= above);
    } else {
        ancestor_lists(nodes, root, above, trail);
        if let Tree::Dir(branches) = tree {
            let names = names_of(branches);
            let j = choose|j: int| 0 <= j < names.len() && #[trigger] names[j] == trail[0];
            assert(branches[j].name == trail[0]);
            let i = choose|i: int|
                0 <= i < branches.len() && (#[trigger] branches[i]).name == trail[0];
            let longer = above.push(trail[0]);
            let rest = trail.skip(1);
            assert(longer.drop_last() =~= above);
            assert(longer + rest =~= above + trail);
            listed_dir(nodes, root, longer, branches[i].tree, rest);
        }
    }
}

proof fn held_files(nodes: Nodes, root: Seq<char>, tree: Tree)
    requires
        holds(nodes, root, tree),
    ensures
        forall|k: int|
            0 <= k < tree_files(tree).len() ==> bytes_at(
                nodes,
                place(root, (#[trigger] tree_files(tree)[k]).0),
            ) == Some(tree_files(tree)[k].1.bytes),
    decreases tree, 0nat,
{
    if let Tree::Dir(branches) = tree {
        held_branches(nodes, root, branches, branches.len());
    }
}

proof fn held_branches(nodes: Nodes, root: Seq<char>, branches: Seq<Branch>, n: nat)
    requires
        n <= branches.len(),
        forall|i: int|
            0 <= i < branches.len() ==> holds(
                nodes,
                child(root, (#[trigger] branches[i]).name),
                branches[i].tree,
            ),
    ensures
        forall|k: int|
            0 <= k < branch_files(branches, n).len() ==> bytes_at(
                nodes,
                place(root, (#[trigger] branch_files(branches, n)[k]).0),
            ) == Some(branch_files(branches, n)[k].1.bytes),
    decreases branches, n,
{
    if n > 0 {
        let i = n - 1;
        let all = branch_files(branches, n);
        let front = branch_files(branches, i as nat);
        let inner = tree_files(branches[i].tree);
        held_branches(nodes, root, branches, i as nat);
        held_files(nodes, child(root, branches[i].name), branches[i].tree);
        assert forall|k: int| 0 <= k < all.len() implies bytes_at(
            nodes,
            place(root, (#[trigger] all[k]).0),
        ) == Some(all[k].1.bytes) by {
            if k < front.len() {
                assert(all[k] == front[k]);
            } else {
                let m = k - front.len();
                assert(all[k] == under(branches[i].name, inner)[m]);
                place_from_front(root, branches[i].name, inner[m].0);
                assert(inner[m] == tree_files(branches[i].tree)[m]);
            }
        }
    }
}

proof fn same_files_written(before: Contents, root: Seq<char>, a: Tree, b: Tree)
    requires
        well_named(a),
        well_named(b),
        forall|trail: Trail, bytes: Seq<u8>| #[trigger]
            has_file(a, trail, bytes) <==> #[trigger] has_file(b, trail, bytes),
    ensures
        written(before, placed(root, tree_files(a))) == written(
            before,
            placed(root, tree_files(b)),
        ),
{
    let x = tree_files(a);
    let y = tree_files(b);
    let p = written(before, placed(root, x));
    let q = written(before, placed(root, y));
    distinct_tree(a);
    distinct_tree(b);
    written_files(before, root, x);
    written_files(before, root, y);
    assert forall|path: Seq<char>| content_at(p, path) == #[trigger] content_at(q, path) by {
        if leads_to(root, x, path) {
            let k = choose|k: int| 0 <= k < x.len() && place(root, (#[trigger] x[k]).0) == path;
            assert(has_file(a, x[k].0, x[k].1.bytes));
            assert(has_file(b, x[k].0, x[k].1.bytes));
            let m = choose|m: int|
                0 <= m < y.len() && (#[trigger] y[m]).0 == x[k].0 && y[m].1.bytes == x[k].1.bytes;
            assert(content_at(q, place(root, y[m].0)) == Some(y[m].1.bytes));
        } else {
            if leads_to(root, y, path) {
                let m = choose|m: int|
                    0 <= m < y.len() && place(root, (#[trigger] y[m]).0) == path;
                assert(has_file(b, y[m].0, y[m].1.bytes));
                assert(has_file(a, y[m].0, y[m].1.bytes));
                let k = choose|k: int|
                    0 <= k < x.len() && (#[trigger] x[k]).0 == y[m].0 && x[k].1.bytes
                        == y[m].1.bytes;
                assert(place(root, x[k].0) == path);
            }
            assert(content_at(p, path) == content_at(before, path));
        }
    }
    assert forall|path: Seq<char>| p.contains_key(path) <==> q.contains_key(path) by {
        assert(content_at(p, path) == content_at(q, path));
    }
    assert forall|path: Seq<char>| #[trigger] p.contains_key(path) implies p[path] == q[path] by {
        assert(content_at(p, path) == content_at(q, path));
    }
    assert(p =~= q);
}

/// A tree that is copied to another place, `mid`, and from there back, to
/// `to`, comes back: each of its files is there and holds what it held, and
/// each of its directories is made. Where no file stood at `mid` or below
/// before, no other file is written.
pub proof fn copies_come_back(
    near: Nodes,
    tree: Tree,
    from: Seq<char>,
    mid: Seq<char>,
    pushed: Seq<(Seq<char>, Seq<char>)>,
    before: Contents,
    far: Nodes,
    back: Tree,
    to: Seq<char>,
    pulled: Seq<(Seq<char>, Seq<char>)>,
    here: Contents,
)
    requires
        holds(near, from, tree),
        well_named(tree),
        copies(near, seq![(from, mid)], pushed),
        shows(far, written(before, writes(near, pushed))),
        forall|path: Seq<char>| #[trigger]
            makes(near, pushed, path) ==> far.contains_key(path) && far[path] is Dir,
        lists_all(far, mid),
        holds(far, mid, back),
        well_named(back),
        copies(far, seq![(mid, to)], pulled),
    ensures
        forall|trail: Trail, bytes: Seq<u8>| #[trigger]
            has_file(tree, trail, bytes) ==> content_at(
                written(here, writes(far, pulled)),
                place(to, trail),
            ) == Some(bytes),
        (forall|trail: Trail|
            is_plain(trail) ==> content_at(before, #[trigger] place(mid, trail)) is None)
            ==> written(here, writes(far, pulled)) == written(here, placed(to, tree_files(tree))),
        forall|trail: Trail| #[trigger]
            has_dir(tree, trail) ==> makes(far, pulled, place(to, trail)),
{
    let after = written(before, writes(near, pushed));
    copies_are_complete(near, tree, from, mid, pushed, before);
    copies_are_complete(far, back, mid, to, pulled, here);
    distinct_tree(tree);
    distinct_tree(back);
    let none = Seq::<Seq<char>>::empty();
    assert forall|trail: Trail| #[trigger] has_dir(tree, trail) implies makes(
        far,
        pulled,
        place(to, trail),
    ) by {
        plain_subtree(tree, trail);
        assert(makes(near, pushed, place(mid, trail)));
        assert(none + trail =~= trail);
        listed_dir(far, mid, none, back, trail);
    }
    assert forall|trail: Trail, bytes: Seq<u8>| #[trigger]
        has_file(tree, trail, bytes) implies has_file(back, trail, bytes) by {
        let files = tree_files(tree);
        let k = choose|k: int|
            0 <= k < files.len() && (#[trigger] files[k]).0 == trail && files[k].1.bytes == bytes;
        assert(is_plain(files[k].0));
        assert(bytes_at(far, place(mid, trail)) == Some(bytes));
        assert(none + trail =~= trail);
        listed_file(far, mid, none, back, trail, bytes);
    }
    if forall|trail: Trail|
        is_plain(trail) ==> content_at(before, #[trigger] place(mid, trail)) is None {
        held_files(far, mid, back);
        assert forall|trail: Trail, bytes: Seq<u8>| #[trigger]
            has_file(back, trail, bytes) implies has_file(tree, trail, bytes) by {
            let files = tree_files(back);
            let own = tree_files(tree);
            let k = choose|k: int|
                0 <= k < files.len() && (#[trigger] files[k]).0 == trail && files[k].1.bytes
                    == bytes;
            assert(is_plain(files[k].0));
            let path = place(mid, trail);
            assert(bytes_at(far, path) == Some(bytes));
            assert(content_at(after, path) == Some(bytes));
            assert(content_at(before, path) is None);
            assert(leads_to(mid, own, path));
            let m = choose|m: int|
                0 <= m < own.len() && place(mid, (#[trigger] own[m]).0) == path;
            places_differ(mid, own[m].0, trail);
            assert(has_file(tree, own[m].0, own[m].1.bytes));
        }
        copying_visits_all(far, back, mid, to, pulled);
        writes_tree(far, back, mid, to);
        same_files_written(here, to, tree, back);
    }
}

// ---------------------------------------------------------------------
// Listing
// ---------------------------------------------------------------------

/// The entries of which directory, as they are listed.
pub type Listings = Map<Seq<char>, Seq<DirItem>>;

/// Whether an entry is listed as what it is.
pub open spec fn describes(item: DirItem, branch: Branch) -> bool {
    &&& item.name@ == branch.name
    &&& match branch.tree {
        Tree::File(leaf) => !item.is_dir && item.info == leaf.info,
        Tree::Dir(_) => item.is_dir,
    }
}

/// Whether the directories of a tree that stands at a path are listed as what
/// they are.
pub open spec fn lists(listings: Listings, path: Seq<char>, tree: Tree) -> bool
    decreases tree,
{
    match tree {
        Tree::File(_) => true,
        Tree::Dir(branches) => {
            &&& listings.contains_key(path)
            &&& listings[path].len() == branches.len()
            &&& forall|i: int|
                0 <= i < branches.len() ==> describes(listings[path][i], #[trigger] branches[i])
            &&& forall|i: int|
                0 <= i < branches.len() ==> lists(
                    listings,
                    child(path, (#[trigger] branches[i]).name),
                    branches[i].tree,
                )
        },
    }
}

/// Whether a [`crate::walk::TreeWalk`] with these directories still to be read
/// hands out these directories and then no more, if it is told the entries of
/// each.
pub open spec fn reads(
    listings: Listings,
    pending: Seq<Seq<char>>,
    dirs: Seq<Seq<char>>,
) -> bool
    decreases dirs.len(),
{
    if dirs.len() == 0 {
        pending.len() == 0
    } else {
        &&& pending.len() > 0
        &&& dirs[0] == pending.last()
        &&& reads(
            listings,
            pending.drop_last() + sub_dirs(dirs[0], listings[dirs[0]]),
            dirs.skip(1),
        )
    }
}

/// What is found in directories that are read one after the other.
pub open spec fn finds(listings: Listings, dirs: Seq<Seq<char>>) -> Seq<
    (Seq<char>, RemoteFileInfo),
>
    decreases dirs.len(),
{
    if dirs.len() == 0 {
        Seq::empty()
    } else {
        finds(listings, dirs.drop_last()) + sub_files(dirs.last(), listings[dirs.last()])
    }
}

/// Path, size and time of the files of a tree that stands at a root.
pub open spec fn reported(root: Seq<char>, files: Seq<(Trail, Leaf)>) -> Seq<
    (Seq<char>, RemoteFileInfo),
> {
    files.map_values(|f: (Trail, Leaf)| (place(root, f.0), f.1.info))
}

/// The directories of a tree, each before those in it, later entries first.
spec fn dir_order(tree: Tree, path: Seq<char>) -> Seq<Seq<char>>
    decreases tree, 0nat,
{
    match tree {
        Tree::File(_) => Seq::empty(),
        Tree::Dir(branches) => seq![path] + branch_order(branches, branches.len(), path),
    }
}

spec fn branch_order(branches: Seq<Branch>, n: nat, path: Seq<char>) -> Seq<Seq<char>>
    decreases branches, n,
{
    if n == 0 || n > branches.len() {
        Seq::empty()
    } else {
        dir_order(branches[n - 1].tree, child(path, branches[n - 1].name)) + branch_order(
            branches,
            (n - 1) as nat,
            path,
        )
    }
}

proof fn reads_one_way(
    listings: Listings,
    pending: Seq<Seq<char>>,
    a: Seq<Seq<char>>,
    b: Seq<Seq<char>>,
)
    requires
        reads(listings, pending, a),
        reads(listings, pending, b),
    ensures
        a == b,
    decreases a.len(),
{
    if a.len() == 0 {
        assert(a =~= b);
    } else {
        let next = pending.drop_last() + sub_dirs(a[0], listings[a[0]]);
        reads_one_way(listings, next, a.skip(1), b.skip(1));
        assert(a =~= seq![a[0]] + a.skip(1));
        assert(b =~= seq![b[0]] + b.skip(1));
    }
}

proof fn reads_tree(
    listings: Listings,
    tree: Tree,
    path: Seq<char>,
    pending: Seq<Seq<char>>,
    rest: Seq<Seq<char>>,
)
    requires
        tree is Dir,
        lists(listings, path, tree),
        reads(listings, pending, rest),
    ensures
        reads(listings, pending.push(path), dir_order(tree, path) + rest),
    decreases tree, 0nat,
{
    if let Tree::Dir(branches) = tree {
        let n = branches.len();
        let items = listings[path];
        let all = dir_order(tree, path) + rest;
        reads_branches(listings, branches, n, path, pending, rest);
        assert(items.take(n as int) =~= items);
        assert(pending.push(path).drop_last() =~= pending);
        assert(all[0] == path);
        assert(all.skip(1) =~= branch_order(branches, n, path) + rest);
    }
}

proof fn reads_branches(
    listings: Listings,
    branches: Seq<Branch>,
    n: nat,
    path: Seq<char>,
    pending: Seq<Seq<char>>,
    rest: Seq<Seq<char>>,
)
    requires
        n <= branches.len(),
        listings[path].len() == branches.len(),
        forall|i: int|
            0 <= i < branches.len() ==> describes(listings[path][i], #[trigger] branches[i]),
        forall|i: int|
            0 <= i < branches.len() ==> lists(
                listings,
                child(path, (#[trigger] branches[i]).name),
                branches[i].tree,
            ),
        reads(listings, pending, rest),
    ensures
        reads(
            listings,
            pending + sub_dirs(path, listings[path].take(n as int)),
            branch_order(branches, n, path) + rest,
        ),
    decreases branches, n,
{
    let items = listings[path];
    if n == 0 {
        assert(pending + sub_dirs(path, items.take(0)) =~= pending);
        assert(branch_order(branches, n, path) + rest =~= rest);
    } else {
        let i = n - 1;
        let later = branch_order(branches, i as nat, path) + rest;
        let ahead = pending + sub_dirs(path, items.take(i));
        reads_branches(listings, branches, i as nat, path, pending, rest);
        assert(items.take(n as int).drop_last() =~= items.take(i));
        assert(items.take(n as int).last() == items[i]);
        assert(describes(items[i], branches[i]));
        let inner = child(path, branches[i].name);
        if branches[i].tree is Dir {
            reads_tree(listings, branches[i].tree, inner, ahead, later);
            assert(pending + sub_dirs(path, items.take(n as int)) =~= ahead.push(inner));
        }
        assert(branch_order(branches, n, path) + rest =~= dir_order(branches[i].tree, inner)
            + later);
    }
}

proof fn finds_add(listings: Listings, a: Seq<Seq<char>>, b: Seq<Seq<char>>)
    ensures
        finds(listings, a + b) == finds(listings, a) + finds(listings, b),
    decreases b.len(),
{
    if b.len() == 0 {
        assert(a + b =~= a);
        assert(finds(listings, a) + finds(listings, b) =~= finds(listings, a));
    } else {
        finds_add(listings, a, b.drop_last());
        assert((a + b).drop_last() =~= a + b.drop_last());
        assert(finds(listings, a + b) =~= finds(listings, a) + finds(listings, b));
    }
}

proof fn finds_tree(listings: Listings, tree: Tree, path: Seq<char>)
    requires
        tree is Dir,
        lists(listings, path, tree),
    ensures
        finds(listings, dir_order(tree, path)).to_multiset() == reported(
            path,
            tree_files(tree),
        ).to_multiset(),
    decreases tree, 0nat,
{
    broadcast use vstd::seq_lib::group_to_multiset_ensures;

    if let Tree::Dir(branches) = tree {
        let n = branches.len();
        let items = listings[path];
        let first = seq![path];
        let deeper = finds(listings, branch_order(branches, n, path));
        finds_branches(listings, branches, n, path);
        finds_add(listings, first, branch_order(branches, n, path));
        assert(first.drop_last() =~= Seq::<Seq<char>>::empty());
        assert(finds(listings, first.drop_last()) =~= Seq::<(Seq<char>, RemoteFileInfo)>::empty());
        assert(finds(listings, first) =~= sub_files(path, items));
        assert(items.take(n as int) =~= items);
        vstd::seq_lib::lemma_multiset_commutative(sub_files(path, items), deeper);
        vstd::seq_lib::lemma_multiset_commutative(deeper, sub_files(path, items));
        assert(finds(listings, dir_order(tree, path)).to_multiset() =~= reported(
            path,
            tree_files(tree),
        ).to_multiset());
    }
}

proof fn finds_branches(listings: Listings, branches: Seq<Branch>, n: nat, path: Seq<char>)
    requires
        n <= branches.len(),
        listings[path].len() == branches.len(),
        forall|i: int|
            0 <= i < branches.len() ==> describes(listings[path][i], #[trigger] branches[i]),
        forall|i: int|
            0 <= i < branches.len() ==> lists(
                listings,
                child(path, (#[trigger] branches[i]).name),
                branches[i].tree,
            ),
    ensures
        (finds(listings, branch_order(branches, n, path)) + sub_files(
            path,
            listings[path].take(n as int),
        )).to_multiset() == reported(path, branch_files(branches, n)).to_multiset(),
    decreases branches, n,
{
    let items = listings[path];
    if n == 0 {
        assert(finds(listings, branch_order(branches, n, path)) + sub_files(path, items.take(0))
            =~= reported(path, branch_files(branches, n)));
    } else {
        let i = n - 1;
        let name = branches[i].name;
        let inner = child(path, name);
        let files = tree_files(branches[i].tree);
        let order = dir_order(branches[i].tree, inner);
        let deep = finds(listings, branch_order(branches, i as nat, path));
        let flat = sub_files(path, items.take(i));
        let before = reported(path, branch_files(branches, i as nat));
        let own = reported(inner, files);
        finds_branches(listings, branches, i as nat, path);
        finds_add(listings, order, branch_order(branches, i as nat, path));
        assert(items.take(n as int).drop_last() =~= items.take(i));
        assert(items.take(n as int).last() == items[i]);
        assert(describes(items[i], branches[i]));
        assert(reported(path, under(name, files)) =~= own) by {
            assert forall|k: int| 0 <= k < files.len() implies reported(path, under(name, files))[k]
                == #[trigger] own[k] by {
                place_from_front(path, name, files[k].0);
            }
        }
        assert(reported(path, branch_files(branches, n)) =~= before + own);
        vstd::seq_lib::lemma_multiset_commutative(before, own);
        if branches[i].tree is Dir {
            let found = finds(listings, order);
            finds_tree(listings, branches[i].tree, inner);
            assert(found + deep + flat =~= found + (deep + flat));
            vstd::seq_lib::lemma_multiset_commutative(found, deep + flat);
        } else {
            assert(order + branch_order(branches, i as nat, path) =~= branch_order(
                branches,
                i as nat,
                path,
            ));
            let last = sub_files(path, items.take(n as int));
            assert(own =~= seq![last.last()]);
            assert(last =~= flat + own);
            assert(deep + last =~= (deep + flat) + own);
            vstd::seq_lib::lemma_multiset_commutative(deep + flat, own);
        }
    }
}

/// A walk that begins at a directory comes to its end, and what it has found by
/// then are just the files below the directory, each once, with their sizes
/// and times.
pub proof fn listings_are_complete(listings: Listings, tree: Tree, root: Seq<char>)
    requires
        tree is Dir,
        lists(listings, root, tree),
    ensures
        exists|dirs: Seq<Seq<char>>| reads(listings, seq![root], dirs),
        forall|dirs: Seq<Seq<char>>| #[trigger]
            reads(listings, seq![root], dirs) ==> finds(listings, dirs).to_multiset() == reported(
                root,
                tree_files(tree),
            ).to_multiset(),
{
    let none = Seq::<Seq<char>>::empty();
    let order = dir_order(tree, root);
    reads_tree(listings, tree, root, none, none);
    assert(none.push(root) =~= seq![root]);
    assert(order + none =~= order);
    assert(reads(listings, seq![root], order));
    finds_tree(listings, tree, root);
    assert forall|dirs: Seq<Seq<char>>| #[trigger]
        reads(listings, seq![root], dirs) implies finds(listings, dirs).to_multiset() == reported(
        root,
        tree_files(tree),
    ).to_multiset() by {
        reads_one_way(listings, seq![root], dirs, order);
    }
}

} // verus!
