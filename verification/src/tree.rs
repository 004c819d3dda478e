//! The store's tree as a list of nodes, each after its parent, and the listings of
//! its directories and files.

use vstd::prelude::*;
use vstd::string::*;
use crate::text::{
    hidden, index_of, is_hidden, lemma_first_index_is_first, no_hidden_segment, views,
};

verus! {

/// One entry of the store: its base name, the index of the directory that holds it
/// (none for an entry of the root), and what kind of entry it is.
pub struct Node {
    pub name: String,
    pub parent: Option<usize>,
    pub is_dir: bool,
    pub is_file: bool,
}

/// A base name holds no separator.
pub open spec fn plain_name(name: Seq<char>) -> bool {
    forall|j: int| 0 <= j < name.len() ==> name[j] != '/'
}

/// Every node's name is a base name.
pub open spec fn plain_names(nodes: Seq<Node>) -> bool {
    forall|i: int| 0 <= i < nodes.len() ==> plain_name(#[trigger] nodes[i].name@)
}

/// Every node that has a parent comes after it.
pub open spec fn parents_come_first(nodes: Seq<Node>) -> bool {
    forall|i: int|
        0 <= i < nodes.len() && (#[trigger] nodes[i]).parent is Some ==> parent_index(nodes, i) < i
}

/// The index of the parent of the node at `i`, or -1 where it has none.
pub open spec fn parent_index(nodes: Seq<Node>, i: int) -> int {
    match nodes[i].parent {
        Some(p) => p as int,
        None => -1,
    }
}

/// The node at `a` is the node at `b` or one of the directories above it.
pub open spec fn above_or_same(nodes: Seq<Node>, a: int, b: int) -> bool
    decreases b,
{
    &&& 0 <= a <= b < nodes.len()
    &&& a == b || {
        let p = parent_index(nodes, b);
        nodes[b].parent is Some && a <= p < b && above_or_same(nodes, a, p)
    }
}

/// The nodes stand in depth-first pre-order: the parent of each node is the node
/// before it or lies above that node.
pub open spec fn in_preorder(nodes: Seq<Node>) -> bool {
    forall|j: int|
        0 < j < nodes.len() && (#[trigger] nodes[j]).parent is Some ==> above_or_same(
            nodes,
            parent_index(nodes, j),
            j - 1,
        )
}

/// A tree takes an entry of this name and parent at its end.
pub open spec fn accepts(nodes: Seq<Node>, name: Seq<char>, parent: Option<usize>) -> bool {
    &&& plain_name(name)
    &&& parent matches Some(p) ==> above_or_same(nodes, p as int, nodes.len() - 1)
}

/// The node at `i` has the node at `p` as its parent, and `p` comes before `i`.
pub open spec fn child_of(nodes: Seq<Node>, i: int, p: int) -> bool {
    0 <= p < i < nodes.len() && nodes[i].parent is Some && parent_index(nodes, i) == p
}

/// The path of the node at `i`, relative to the root: the names from the root down,
/// with a separator between them.
pub open spec fn path_of(nodes: Seq<Node>, i: int) -> Seq<char>
    decreases i,
{
    if 0 <= i < nodes.len() {
        let p = parent_index(nodes, i);
        if 0 <= p < i {
            path_of(nodes, p).push('/') + nodes[i].name@
        } else {
            nodes[i].name@
        }
    } else {
        Seq::empty()
    }
}

/// The node at `i` is shown: its name is not hidden, and it lies in the root or in a
/// directory that is shown.
pub open spec fn visible(nodes: Seq<Node>, i: int) -> bool
    decreases i,
{
    &&& 0 <= i < nodes.len()
    &&& !hidden(nodes[i].name@)
    &&& nodes[i].parent is Some ==> {
        let p = parent_index(nodes, i);
        0 <= p < i && nodes[p].is_dir && visible(nodes, p)
    }
}

/// The node at `i` belongs to the listing of directories (`dirs`) or of files.
pub open spec fn listed(nodes: Seq<Node>, i: int, dirs: bool) -> bool {
    visible(nodes, i) && if dirs {
        nodes[i].is_dir
    } else {
        nodes[i].is_file
    }
}

/// The paths of the listed nodes among the first `n`, in the order of the nodes.
pub open spec fn listing(nodes: Seq<Node>, n: int, dirs: bool) -> Seq<Seq<char>>
    decreases n,
{
    if n <= 0 {
        Seq::empty()
    } else if listed(nodes, n - 1, dirs) {
        listing(nodes, n - 1, dirs).push(path_of(nodes, n - 1))
    } else {
        listing(nodes, n - 1, dirs)
    }
}

/// `path` is the path of a listed node.
pub open spec fn is_listed_path(nodes: Seq<Node>, path: Seq<char>, dirs: bool) -> bool {
    exists|i: int| #![trigger listed(nodes, i, dirs)] listed(nodes, i, dirs) && path == path_of(nodes, i)
}

/// The paths of all shown directories.
pub open spec fn directory_listing(nodes: Seq<Node>) -> Seq<Seq<char>> {
    listing(nodes, nodes.len() as int, true)
}

/// The paths of all shown files.
pub open spec fn file_listing(nodes: Seq<Node>) -> Seq<Seq<char>> {
    listing(nodes, nodes.len() as int, false)
}

/// The store's entries, in an order in which a directory comes before what it holds.
pub struct StoreTree {
    nodes: Vec<Node>,
}

impl View for StoreTree {
    type V = Seq<Node>;

    closed spec fn view(&self) -> Seq<Node> {
        self.nodes@
    }
}

impl StoreTree {
    #[verifier::type_invariant]
    spec fn well_formed(self) -> bool {
        &&& plain_names(self.nodes@)
        &&& parents_come_first(self.nodes@)
        &&& in_preorder(self.nodes@)
    }

    /// A tree without entries.
    pub fn new() -> (tree: Self)
        ensures
            tree@.len() == 0,
    {
        StoreTree { nodes: Vec::new() }
    }

    /// The number of entries.
    pub fn len(&self) -> (n: usize)
        ensures
            n == self@.len(),
    {
        self.nodes.len()
    }

    /// Adds an entry at the end and returns its index. An entry is refused, and the
    /// tree left as it was, where its name holds a separator, or where its parent is
    /// neither the last entry nor a directory above the last entry: the entries stand
    /// in the order of a walk that goes down into a directory before it goes on.
    pub fn push(&mut self, name: String, parent: Option<usize>, is_dir: bool, is_file: bool) -> (r:
        Option<usize>)
        ensures
            match r {
                Some(i) => {
                    &&& i == old(self)@.len()
                    &&& accepts(old(self)@, name@, parent)
                    &&& final(self)@ == old(self)@.push(Node { name, parent, is_dir, is_file })
                },
                None => {
                    &&& !accepts(old(self)@, name@, parent)
                    &&& final(self)@ == old(self)@
                },
            },
    {
        proof {
            use_type_invariant(&*self);
        }
        let n: usize = self.nodes.len();
        let k: usize = index_of(name.as_str(), '/');
        proof {
            lemma_first_index_is_first(name@, '/');
        }
        if k < name.as_str().unicode_len() {
            return None;
        }
        match parent {
            Some(p) => {
                if p >= n {
                    return None;
                }
                let mut at: usize = n - 1;
                while at != p
                    invariant
                        n == self.nodes@.len(),
                        self.nodes@ == old(self).nodes@,
                        parent == Some(p),
                        parents_come_first(self.nodes@),
                        p <= at < n,
                        above_or_same(self.nodes@, p as int, n - 1) == above_or_same(
                            self.nodes@,
                            p as int,
                            at as int,
                        ),
                    decreases at,
                {
                    match self.nodes[at].parent {
                        None => {
                            return None;
                        },
                        Some(q) => {
                            assert(parent_index(self.nodes@, at as int) == q);
                            if q < p {
                                return None;
                            }
                            at = q;
                        },
                    }
                }
            },
            None => {},
        }
        let mut taken = StoreTree { nodes: Vec::new() };
        core::mem::swap(self, &mut taken);
        let mut nodes = taken.nodes;
        let ghost before = nodes@;
        nodes.push(Node { name, parent, is_dir, is_file });
        proof {
            assert forall|j: int| 0 < j < nodes@.len() && (#[trigger] nodes@[j]).parent is Some implies above_or_same(
                nodes@,
                parent_index(nodes@, j),
                j - 1,
            ) by {
                if j < n {
                    assert(nodes@[j] == before[j]);
                    assert(above_or_same(before, parent_index(before, j), j - 1));
                }
                lemma_above_in_longer_tree(before, nodes@[n as int], parent_index(nodes@, j), j - 1);
            }
        }
        *self = StoreTree { nodes };
        Some(n)
    }

    /// The paths of the shown directories or files, each relative to the root.
    fn list(&self, dirs: bool) -> (out: Vec<String>)
        ensures
            views(out@) == listing(self@, self@.len() as int, dirs),
    {
        let n: usize = self.nodes.len();
        let mut paths: Vec<String> = Vec::new();
        let mut shown: Vec<bool> = Vec::new();
        let mut out: Vec<String> = Vec::new();
        let mut i: usize = 0;
        assert(views(out@) =~= listing(self@, 0, dirs));
        while i < n
            invariant
                n == self.nodes@.len(),
                i <= n,
                paths@.len() == i,
                shown@.len() == i,
                forall|j: int| 0 <= j < i ==> (#[trigger] paths@[j])@ == path_of(self.nodes@, j),
                forall|j: int| 0 <= j < i ==> #[trigger] shown@[j] == visible(self.nodes@, j),
                views(out@) == listing(self.nodes@, i as int, dirs),
            decreases n - i,
        {
            let node = &self.nodes[i];
            let mut seen: bool = !is_hidden(node.name.as_str());
            let mut path = String::new();
            match node.parent {
                Some(p) => {
                    if p < i {
                        path.append(paths[p].as_str());
                        path.append("/");
                        seen = seen && self.nodes[p].is_dir && shown[p];
                    } else {
                        seen = false;
                    }
                },
                None => {},
            }
            path.append(node.name.as_str());
            proof {
                reveal_strlit("/");
                assert("/"@ =~= seq!['/']);
                assert(path@ =~= path_of(self.nodes@, i as int));
            }
            let kind: bool = if dirs {
                node.is_dir
            } else {
                node.is_file
            };
            if seen && kind {
                let ghost before = out@;
                out.push(String::from_str(path.as_str()));
                assert(views(out@) =~= views(before).push(path@));
            }
            paths.push(path);
            shown.push(seen);
            i += 1;
        }
        out
    }

    /// Lists every shown directory by its path relative to the root, in the order of
    /// the nodes, which is depth-first pre-order: a directory, then what it holds. A
    /// directory is listed only with the directory that holds it, under that
    /// directory's path, a separator and its own name; so what stands before a
    /// separator in a listed path is listed too.
    pub fn list_dirs(&self) -> (out: Vec<String>)
        ensures
            views(out@) == directory_listing(self@),
            in_preorder(self@),
            forall|k: int| 0 <= k < out@.len() ==> #[trigger] is_listed_path(self@, out@[k]@, true),
            forall|i: int, p: int|
                listed(self@, i, true) && #[trigger] child_of(self@, i, p) ==> {
                    &&& views(out@).contains(path_of(self@, i))
                    &&& views(out@).contains(path_of(self@, p))
                    &&& path_of(self@, i) == path_of(self@, p).push('/') + self@[i].name@
                },
            forall|k: int, j: int|
                0 <= k < out@.len() && 0 <= j < out@[k]@.len() && out@[k]@[j] == '/' ==> views(
                    out@,
                ).contains(#[trigger] out@[k]@.subrange(0, j)),
    {
        let out = self.list(true);
        proof {
            use_type_invariant(self);
            assert forall|k: int| 0 <= k < out@.len() implies #[trigger] is_listed_path(
                self@,
                out@[k]@,
                true,
            ) by {
                assert(views(out@)[k] == out@[k]@);
                lemma_listed_at(self@, true, k);
            }
            assert forall|i: int, p: int|
                listed(self@, i, true) && #[trigger] child_of(self@, i, p) implies {
                &&& views(out@).contains(path_of(self@, i))
                &&& views(out@).contains(path_of(self@, p))
                &&& path_of(self@, i) == path_of(self@, p).push('/') + self@[i].name@
            } by {
                lemma_directories_closed(self@, i, p);
            }
            assert forall|k: int, j: int|
                0 <= k < out@.len() && 0 <= j < out@[k]@.len() && out@[k]@[j]
                    == '/' implies views(out@).contains(#[trigger] out@[k]@.subrange(0, j)) by {
                assert(views(out@)[k] == out@[k]@);
                lemma_listed_at(self@, true, k);
                let i = choose|i: int|
                    #![trigger listed(self@, i, true)]
                    listed(self@, i, true) && out@[k]@ == path_of(self@, i);
                let q = lemma_parent_path_is_listed(self@, i, j);
                lemma_listing_holds(self@, self@.len() as int, true, q);
            }
        }
        out
    }

    /// Lists every shown file by its path relative to the root, in the order of the
    /// nodes, which is depth-first pre-order. No segment of a listed path begins with a
    /// dot.
    pub fn list_files(&self) -> (out: Vec<String>)
        ensures
            views(out@) == file_listing(self@),
            in_preorder(self@),
            forall|k: int| 0 <= k < out@.len() ==> #[trigger] is_listed_path(self@, out@[k]@, false),
            forall|k: int| 0 <= k < out@.len() ==> #[trigger] no_hidden_segment(out@[k]@),
    {
        let out = self.list(false);
        proof {
            use_type_invariant(self);
            assert forall|k: int| 0 <= k < out@.len() implies #[trigger] is_listed_path(
                self@,
                out@[k]@,
                false,
            ) by {
                assert(views(out@)[k] == out@[k]@);
                lemma_listed_at(self@, false, k);
            }
            assert forall|k: int| 0 <= k < out@.len() implies #[trigger] no_hidden_segment(
                out@[k]@,
            ) by {
                assert(views(out@)[k] == out@[k]@);
                lemma_listed_at(self@, false, k);
                let i = choose|i: int|
                    #![trigger listed(self@, i, false)]
                    listed(self@, i, false) && out@[k]@ == path_of(self@, i);
                lemma_visible_path_not_hidden(self@, i);
            }
        }
        out
    }
}

/// The listing of the first `n` nodes holds the path of each listed node among them.
pub proof fn lemma_listing_holds(nodes: Seq<Node>, n: int, dirs: bool, i: int)
    requires
        0 <= i < n <= nodes.len(),
        listed(nodes, i, dirs),
    ensures
        listing(nodes, n, dirs).contains(path_of(nodes, i)),
    decreases n,
{
    let now = listing(nodes, n, dirs);
    if i < n - 1 {
        lemma_listing_holds(nodes, n - 1, dirs, i);
        let before = listing(nodes, n - 1, dirs);
        let k = choose|k: int| 0 <= k < before.len() && before[k] == path_of(nodes, i);
        assert(now[k] == path_of(nodes, i));
    } else {
        assert(now[now.len() - 1] == path_of(nodes, i));
    }
}

/// Each path in the listing of the first `n` nodes is that of a listed node among them.
pub proof fn lemma_listing_from(nodes: Seq<Node>, n: int, dirs: bool, k: int) -> (i: int)
    requires
        n <= nodes.len(),
        0 <= k < listing(nodes, n, dirs).len(),
    ensures
        0 <= i < n,
        listed(nodes, i, dirs),
        listing(nodes, n, dirs)[k] == path_of(nodes, i),
    decreases n,
{
    if k < listing(nodes, n - 1, dirs).len() {
        lemma_listing_from(nodes, n - 1, dirs, k)
    } else {
        n - 1
    }
}

/// Each path in the listing of all nodes is that of a listed node.
pub proof fn lemma_listed_at(nodes: Seq<Node>, dirs: bool, k: int)
    requires
        0 <= k < listing(nodes, nodes.len() as int, dirs).len(),
    ensures
        is_listed_path(nodes, listing(nodes, nodes.len() as int, dirs)[k], dirs),
{
    let i = lemma_listing_from(nodes, nodes.len() as int, dirs, k);
    assert(listed(nodes, i, dirs));
}

/// The listing of directories is closed under parents: with a directory it holds the
/// directory that holds it, and the child's path is the parent's path, a separator and
/// the child's name.
pub proof fn lemma_directories_closed(nodes: Seq<Node>, i: int, p: int)
    requires
        listed(nodes, i, true),
        child_of(nodes, i, p),
    ensures
        listed(nodes, p, true),
        directory_listing(nodes).contains(path_of(nodes, i)),
        directory_listing(nodes).contains(path_of(nodes, p)),
        path_of(nodes, i) == path_of(nodes, p).push('/') + nodes[i].name@,
{
    assert(parent_index(nodes, i) == p);
    assert(visible(nodes, p));
    lemma_listing_holds(nodes, nodes.len() as int, true, i);
    lemma_listing_holds(nodes, nodes.len() as int, true, p);
}

/// The path of a shown node has no segment that begins with a dot.
pub proof fn lemma_visible_path_not_hidden(nodes: Seq<Node>, i: int)
    requires
        plain_names(nodes),
        visible(nodes, i),
    ensures
        no_hidden_segment(path_of(nodes, i)),
    decreases i,
{
    let p = parent_index(nodes, i);
    let name = nodes[i].name@;
    assert(plain_name(nodes[i].name@));
    if nodes[i].parent is Some {
        lemma_visible_path_not_hidden(nodes, p);
        let head = path_of(nodes, p);
        let path = path_of(nodes, i);
        assert(path == head.push('/') + name);
        assert forall|j: int| 0 < j < path.len() && path[j - 1] == '/' implies #[trigger] path[j]
            != '.' by {
            if j < head.len() {
                assert(path[j - 1] == head[j - 1] && path[j] == head[j]);
            } else if j == head.len() {
                assert(path[j] == '/');
            } else if j == head.len() + 1 {
                assert(path[j] == name[0]);
            } else {
                assert(path[j - 1] == name[j - head.len() - 2]);
            }
        }
        if head.len() > 0 {
            assert(path[0] == head[0]);
        } else {
            assert(path[0] == '/');
        }
    } else {
        let path = path_of(nodes, i);
        assert(path == name);
    }
}

/// What stands before a separator in the path of a shown directory is the path of a
/// shown directory too.
pub proof fn lemma_parent_path_is_listed(nodes: Seq<Node>, i: int, j: int) -> (q: int)
    requires
        plain_names(nodes),
        listed(nodes, i, true),
        0 <= j < path_of(nodes, i).len(),
        path_of(nodes, i)[j] == '/',
    ensures
        0 <= q < nodes.len(),
        listed(nodes, q, true),
        path_of(nodes, q) == path_of(nodes, i).subrange(0, j),
    decreases i,
{
    let p = parent_index(nodes, i);
    let name = nodes[i].name@;
    let path = path_of(nodes, i);
    assert(plain_name(nodes[i].name@));
    if nodes[i].parent is Some {
        let head = path_of(nodes, p);
        assert(path == head.push('/') + name);
        if j < head.len() {
            assert(path[j] == head[j]);
            let q = lemma_parent_path_is_listed(nodes, p, j);
            assert(path.subrange(0, j) =~= head.subrange(0, j));
            q
        } else if j == head.len() {
            assert(path.subrange(0, j) =~= head);
            p
        } else {
            assert(path[j] == name[j - head.len() - 1]);
            p
        }
    } else {
        assert(path == name);
        i
    }
}

/// An entry added at the end changes nothing about which node lies above which.
pub proof fn lemma_above_in_longer_tree(nodes: Seq<Node>, added: Node, a: int, b: int)
    requires
        b < nodes.len(),
    ensures
        above_or_same(nodes.push(added), a, b) == above_or_same(nodes, a, b),
    decreases b,
{
    let longer = nodes.push(added);
    if 0 <= a < b {
        assert(longer[b] == nodes[b]);
        let p = parent_index(nodes, b);
        if nodes[b].parent is Some && a <= p < b {
            lemma_above_in_longer_tree(nodes, added, a, p);
        }
    }
}

/// Where `a` lies above `b` or is `b`, and `b` lies above `c` or is `c`, `a` lies above
/// `c` or is `c`.
pub proof fn lemma_above_is_transitive(nodes: Seq<Node>, a: int, b: int, c: int)
    requires
        above_or_same(nodes, a, b),
        above_or_same(nodes, b, c),
    ensures
        above_or_same(nodes, a, c),
    decreases c,
{
    if b != c {
        lemma_above_is_transitive(nodes, a, b, parent_index(nodes, c));
    }
}

/// In pre-order, what a directory holds follows it without a gap: every node between
/// a directory and a node below it lies below that directory too.
pub proof fn lemma_descendants_follow(nodes: Seq<Node>, i: int, j: int, k: int)
    requires
        in_preorder(nodes),
        above_or_same(nodes, i, j),
        i <= k <= j,
    ensures
        above_or_same(nodes, i, k),
    decreases j,
{
    if k < j {
        let p = parent_index(nodes, j);
        assert(nodes[j].parent is Some);
        assert(above_or_same(nodes, p, j - 1));
        lemma_above_is_transitive(nodes, i, p, j - 1);
        lemma_descendants_follow(nodes, i, j - 1, k);
    }
}

/// The path of a node begins with the path of every directory above it and a
/// separator.
pub proof fn lemma_path_begins_with_directory(nodes: Seq<Node>, a: int, b: int)
    requires
        above_or_same(nodes, a, b),
        a != b,
    ensures
        path_of(nodes, b).len() > path_of(nodes, a).len(),
        path_of(nodes, b).subrange(0, path_of(nodes, a).len() as int + 1) == path_of(nodes, a).push(
            '/',
        ),
    decreases b,
{
    let p = parent_index(nodes, b);
    let head = path_of(nodes, p);
    let path = path_of(nodes, b);
    assert(path == head.push('/') + nodes[b].name@);
    if a == p {
        assert(path.subrange(0, head.len() as int + 1) =~= head.push('/'));
    } else {
        lemma_path_begins_with_directory(nodes, a, p);
        let n = path_of(nodes, a).len() as int + 1;
        assert(path.subrange(0, n) =~= head.subrange(0, n));
    }
}

} // verus!
