//! A directory tree held in memory: a finite map from paths to nodes.
//!
//! A path is the sequence of names that leads from the tree's root to a node;
//! the empty path is the root itself. The map is kept as a list of bindings,
//! one for each path that the tree holds. A tree does not have to hold the
//! directories that lead to what it holds.

use vstd::prelude::*;

verus! {

/// What a tree holds at a path: a regular file with its bytes, or a directory.
#[derive(Debug, Clone, PartialEq, Eq)]
pub enum Node {
    File(Vec<u8>),
    Dir,
}

/// The mathematical value of a [`Node`].
pub enum NodeView {
    File(Seq<u8>),
    Dir,
}

impl View for Node {
    type V = NodeView;

    open spec fn view(&self) -> NodeView {
        match self {
            Node::File(bytes) => NodeView::File(bytes@),
            Node::Dir => NodeView::Dir,
        }
    }
}

/// One binding of a tree.
struct TreeEntry {
    path: Vec<String>,
    node: Node,
}

/// A directory tree: a finite map from paths to nodes.
pub struct FileTree {
    entries: Vec<TreeEntry>,
}

/// The map that a list of bindings stands for: the last binding of a path
/// decides.
pub open spec fn overlay(items: Seq<(Seq<Seq<char>>, NodeView)>) -> Map<Seq<Seq<char>>, NodeView>
    decreases items.len(),
{
    if items.len() == 0 {
        Map::empty()
    } else {
        overlay(items.drop_last()).insert(items.last().0, items.last().1)
    }
}

/// No binding of `items` is for `path`.
pub open spec fn unbound(items: Seq<(Seq<Seq<char>>, NodeView)>, path: Seq<Seq<char>>) -> bool {
    forall|i: int| 0 <= i < items.len() ==> (#[trigger] items[i]).0 != path
}

/// A path that no binding names is not in the map.
pub proof fn lemma_unbound_absent(items: Seq<(Seq<Seq<char>>, NodeView)>, path: Seq<Seq<char>>)
    requires
        unbound(items, path),
    ensures
        !overlay(items).contains_key(path),
    decreases items.len(),
{
    if items.len() > 0 {
        let front = items.drop_last();
        assert forall|i: int| 0 <= i < front.len() implies (#[trigger] front[i]).0 != path by {
            assert(front[i] == items[i]);
        }
        lemma_unbound_absent(front, path);
        assert(items.last() == items[items.len() - 1]);
    }
}

/// The map holds for a path what the last binding of that path says.
pub proof fn lemma_last_binding(
    items: Seq<(Seq<Seq<char>>, NodeView)>,
    path: Seq<Seq<char>>,
    k: int,
)
    requires
        0 <= k < items.len(),
        items[k].0 == path,
        forall|j: int| k < j < items.len() ==> (#[trigger] items[j]).0 != path,
    ensures
        overlay(items).contains_key(path),
        overlay(items)[path] == items[k].1,
    decreases items.len(),
{
    if k < items.len() - 1 {
        let front = items.drop_last();
        assert(front[k] == items[k]);
        assert forall|j: int| k < j < front.len() implies (#[trigger] front[j]).0 != path by {
            assert(front[j] == items[j]);
        }
        lemma_last_binding(front, path, k);
        assert(items.last() == items[items.len() - 1]);
    }
}

/// Taking one binding of `path` out of the list changes the map at `path`
/// only.
pub proof fn lemma_drop_binding(
    items: Seq<(Seq<Seq<char>>, NodeView)>,
    path: Seq<Seq<char>>,
    k: int,
)
    requires
        0 <= k < items.len(),
        items[k].0 == path,
    ensures
        overlay(items.remove(k)).remove(path) == overlay(items).remove(path),
    decreases items.len(),
{
    let front = items.drop_last();
    if k == items.len() - 1 {
        assert(items.remove(k) =~= front);
        assert(overlay(items).remove(path) =~= overlay(front).remove(path));
    } else {
        lemma_drop_binding(front, path, k);
        assert(items.remove(k).drop_last() =~= front.remove(k));
        assert(items.remove(k).last() == items.last());
        assert(overlay(items.remove(k)).remove(path) =~= overlay(front.remove(k)).remove(
            path,
        ).insert(items.last().0, items.last().1).remove(path));
        assert(overlay(items).remove(path) =~= overlay(front).remove(path).insert(
            items.last().0,
            items.last().1,
        ).remove(path));
    }
}

/// Every path of the map is named by some binding.
pub proof fn lemma_bound_is_listed(items: Seq<(Seq<Seq<char>>, NodeView)>, path: Seq<Seq<char>>)
    requires
        overlay(items).contains_key(path),
    ensures
        exists|i: int| 0 <= i < items.len() && (#[trigger] items[i]).0 == path,
{
    if unbound(items, path) {
        lemma_unbound_absent(items, path);
    }
}

/// Every binding names a path of the map.
pub proof fn lemma_listed_is_bound(items: Seq<(Seq<Seq<char>>, NodeView)>, k: int)
    requires
        0 <= k < items.len(),
    ensures
        overlay(items).contains_key(items[k].0),
    decreases items.len(),
{
    if k < items.len() - 1 {
        let front = items.drop_last();
        assert(front[k] == items[k]);
        lemma_listed_is_bound(front, k);
    }
}

/// Whether two paths are the same sequence of names.
pub fn same_path(a: &Vec<String>, b: &Vec<String>) -> (r: bool)
    ensures
        r == (a.deep_view() == b.deep_view()),
{
    if a.len() != b.len() {
        assert(a.deep_view().len() != b.deep_view().len());
        return false;
    }
    let mut i: usize = 0;
    while i < a.len()
        invariant
            i <= a.len(),
            a.len() == b.len(),
            forall|j: int| 0 <= j < i ==> a[j]@ == b[j]@,
        decreases a.len() - i,
    {
        if a[i] != b[i] {
            assert(a.deep_view()[i as int] != b.deep_view()[i as int]);
            return false;
        }
        i += 1;
    }
    assert(a.deep_view() =~= b.deep_view());
    true
}

/// Whether `path` lies at or below `prefix`.
pub fn has_prefix(path: &Vec<String>, prefix: &Vec<String>) -> (r: bool)
    ensures
        r == prefix.deep_view().is_prefix_of(path.deep_view()),
{
    if prefix.len() > path.len() {
        return false;
    }
    let mut i: usize = 0;
    while i < prefix.len()
        invariant
            i <= prefix.len() <= path.len(),
            forall|j: int| 0 <= j < i ==> path[j]@ == prefix[j]@,
        decreases prefix.len() - i,
    {
        if path[i] != prefix[i] {
            assert(path.deep_view().subrange(0, prefix.len() as int)[i as int]
                != prefix.deep_view()[i as int]);
            return false;
        }
        i += 1;
    }
    assert(prefix.deep_view() =~= path.deep_view().subrange(0, prefix.len() as int));
    true
}

/// A copy of `path`.
pub fn copy_path(path: &Vec<String>) -> (r: Vec<String>)
    ensures
        r.deep_view() == path.deep_view(),
{
    let mut out: Vec<String> = Vec::new();
    let mut i: usize = 0;
    while i < path.len()
        invariant
            i <= path.len(),
            out.len() == i,
            forall|j: int| 0 <= j < i ==> out[j]@ == path[j]@,
        decreases path.len() - i,
    {
        out.push(path[i].clone());
        i += 1;
    }
    assert(out.deep_view() =~= path.deep_view());
    out
}

/// The path of the entry called `name` in the directory at `dir`.
pub fn child(dir: &Vec<String>, name: &str) -> (r: Vec<String>)
    ensures
        r.deep_view() == dir.deep_view().push(name@),
{
    let mut out = copy_path(dir);
    let ghost before = out.deep_view();
    out.push(String::from_str(name));
    assert(out.deep_view() =~= before.push(name@));
    out
}

/// `path`, which lies at or below a prefix of `skip` names, moved below
/// `to` instead.
pub(crate) fn reroot(path: &Vec<String>, skip: usize, to: &Vec<String>) -> (r: Vec<String>)
    requires
        skip <= path.len(),
    ensures
        r.deep_view() == to.deep_view() + path.deep_view().skip(skip as int),
{
    let mut out = copy_path(to);
    let mut i: usize = skip;
    assert(out.deep_view() =~= to.deep_view() + path.deep_view().subrange(
        skip as int,
        skip as int,
    ));
    while i < path.len()
        invariant
            skip <= i <= path.len(),
            out.deep_view() == to.deep_view() + path.deep_view().subrange(skip as int, i as int),
        decreases path.len() - i,
    {
        let ghost before = out.deep_view();
        out.push(path[i].clone());
        assert(out.deep_view() =~= before.push(path[i as int]@));
        assert(out.deep_view() =~= to.deep_view() + path.deep_view().subrange(
            skip as int,
            i + 1,
        ));
        i += 1;
    }
    assert(path.deep_view().subrange(skip as int, path.len() as int) =~= path.deep_view().skip(
        skip as int,
    ));
    out
}

/// A copy of `bytes`.
pub fn copy_bytes(bytes: &Vec<u8>) -> (r: Vec<u8>)
    ensures
        r@ == bytes@,
{
    let mut out: Vec<u8> = Vec::new();
    let mut i: usize = 0;
    while i < bytes.len()
        invariant
            i <= bytes.len(),
            out@ == bytes@.take(i as int),
        decreases bytes.len() - i,
    {
        out.push(bytes[i]);
        assert(bytes@.take(i as int).push(bytes@[i as int]) =~= bytes@.take(i + 1));
        i += 1;
    }
    assert(bytes@.take(bytes.len() as int) =~= bytes@);
    out
}

impl Node {
    /// A copy of this node.
    pub fn duplicate(&self) -> (r: Node)
        ensures
            r@ == self@,
    {
        match self {
            Node::File(bytes) => Node::File(copy_bytes(bytes)),
            Node::Dir => Node::Dir,
        }
    }

    /// Whether this node is a directory.
    pub fn is_dir(&self) -> (r: bool)
        ensures
            r == (self@ is Dir),
    {
        match self {
            Node::File(_) => false,
            Node::Dir => true,
        }
    }
}

/// The bindings that a list of entries stands for.
spec fn bindings_of(entries: Seq<TreeEntry>) -> Seq<(Seq<Seq<char>>, NodeView)> {
    Seq::new(entries.len(), |i: int| (entries[i].path.deep_view(), entries[i].node@))
}

/// No two bindings are for the same path.
pub open spec fn distinct(items: Seq<(Seq<Seq<char>>, NodeView)>) -> bool {
    forall|i: int, j: int|
        0 <= i < j < items.len() ==> (#[trigger] items[i]).0 != (#[trigger] items[j]).0
}

impl View for FileTree {
    type V = Map<Seq<Seq<char>>, NodeView>;

    open spec fn view(&self) -> Map<Seq<Seq<char>>, NodeView> {
        overlay(self.listing())
    }
}

impl FileTree {
    /// The bindings of this tree, oldest first.
    pub closed spec fn listing(&self) -> Seq<(Seq<Seq<char>>, NodeView)> {
        Seq::new(
            self.entries.len() as nat,
            |i: int| (self.entries[i].path.deep_view(), self.entries[i].node@),
        )
    }

    #[verifier::type_invariant]
    spec fn bound_once(self) -> bool {
        distinct(self.listing())
    }

    /// The tree that holds nothing, not even a root directory.
    pub fn new() -> (r: FileTree)
        ensures
            r@ == Map::<Seq<Seq<char>>, NodeView>::empty(),
            r.listing().len() == 0,
    {
        FileTree { entries: Vec::new() }
    }

    /// The number of bindings. No path has more than one.
    pub fn len(&self) -> (n: usize)
        ensures
            n == self.listing().len(),
            distinct(self.listing()),
    {
        proof {
            use_type_invariant(self);
        }
        self.entries.len()
    }

    /// The path of the binding at `index`, if there are that many bindings.
    pub fn path_at(&self, index: usize) -> (r: Option<&Vec<String>>)
        ensures
            match r {
                Some(path) => index < self.listing().len() && path.deep_view()
                    == self.listing()[index as int].0,
                None => index >= self.listing().len(),
            },
    {
        if index < self.entries.len() {
            Some(&self.entries[index].path)
        } else {
            None
        }
    }

    /// The node of the binding at `index`, if there are that many bindings.
    pub fn node_at(&self, index: usize) -> (r: Option<&Node>)
        ensures
            match r {
                Some(node) => index < self.listing().len() && node@
                    == self.listing()[index as int].1,
                None => index >= self.listing().len(),
            },
    {
        if index < self.entries.len() {
            Some(&self.entries[index].node)
        } else {
            None
        }
    }

    /// The path of the binding at `index`.
    pub(crate) fn path_of(&self, index: usize) -> (p: &Vec<String>)
        requires
            index < self.listing().len(),
        ensures
            p.deep_view() == self.listing()[index as int].0,
    {
        &self.entries[index].path
    }

    /// The node of the binding at `index`.
    pub(crate) fn node_of(&self, index: usize) -> (n: &Node)
        requires
            index < self.listing().len(),
        ensures
            n@ == self.listing()[index as int].1,
    {
        &self.entries[index].node
    }

    /// What the tree holds at `path`, if anything.
    pub fn get(&self, path: &Vec<String>) -> (r: Option<&Node>)
        ensures
            match r {
                Some(node) => self@.contains_key(path.deep_view()) && self@[path.deep_view()]
                    == node@,
                None => !self@.contains_key(path.deep_view()),
            },
    {
        let mut i: usize = self.entries.len();
        while i > 0
            invariant
                i <= self.entries.len(),
                forall|j: int|
                    i <= j < self.listing().len() ==> (#[trigger] self.listing()[j]).0
                        != path.deep_view(),
            decreases i,
        {
            i -= 1;
            if same_path(&self.entries[i].path, path) {
                proof {
                    lemma_last_binding(self.listing(), path.deep_view(), i as int);
                }
                return Some(&self.entries[i].node);
            }
        }
        proof {
            lemma_unbound_absent(self.listing(), path.deep_view());
        }
        None
    }

    /// Whether the tree holds anything at `path`.
    pub fn contains(&self, path: &Vec<String>) -> (r: bool)
        ensures
            r == self@.contains_key(path.deep_view()),
    {
        self.get(path).is_some()
    }

    /// Whether the tree holds a directory at `path`.
    pub fn is_dir(&self, path: &Vec<String>) -> (r: bool)
        ensures
            r == (self@.contains_key(path.deep_view()) && self@[path.deep_view()] is Dir),
    {
        match self.get(path) {
            Some(node) => node.is_dir(),
            None => false,
        }
    }

    /// Whether the tree holds a regular file at `path`.
    pub fn is_file(&self, path: &Vec<String>) -> (r: bool)
        ensures
            r == (self@.contains_key(path.deep_view()) && self@[path.deep_view()] is File),
    {
        match self.get(path) {
            Some(node) => !node.is_dir(),
            None => false,
        }
    }

    /// Takes whatever the tree holds at `path` out of it.
    pub fn remove(&mut self, path: &Vec<String>)
        ensures
            final(self)@ == old(self)@.remove(path.deep_view()),
    {
        proof {
            use_type_invariant(&*self);
        }
        let ghost start = self.listing();
        let mut entries: Vec<TreeEntry> = Vec::new();
        core::mem::swap(&mut self.entries, &mut entries);
        assert(bindings_of(entries@) =~= start);
        let mut i: usize = 0;
        while i < entries.len()
            invariant
                i <= entries.len(),
                distinct(bindings_of(entries@)),
                overlay(bindings_of(entries@)).remove(path.deep_view()) == overlay(start).remove(
                    path.deep_view(),
                ),
                forall|j: int|
                    0 <= j < i ==> (#[trigger] bindings_of(entries@)[j]).0 != path.deep_view(),
            decreases entries.len() - i,
        {
            if same_path(&entries[i].path, path) {
                let ghost before = bindings_of(entries@);
                entries.remove(i);
                proof {
                    let after = bindings_of(entries@);
                    assert(after =~= before.remove(i as int));
                    lemma_drop_binding(before, path.deep_view(), i as int);
                    assert forall|a: int, b: int| 0 <= a < b < after.len() implies (
                    #[trigger] after[a]).0 != (#[trigger] after[b]).0 by {
                        let a0 = if a < i { a } else { a + 1 };
                        let b0 = if b < i { b } else { b + 1 };
                        assert(after[a] == before[a0]);
                        assert(after[b] == before[b0]);
                    }
                }
            } else {
                i += 1;
            }
        }
        proof {
            lemma_unbound_absent(bindings_of(entries@), path.deep_view());
            assert(overlay(bindings_of(entries@)).remove(path.deep_view()) =~= overlay(
                bindings_of(entries@),
            ));
        }
        let ghost kept = bindings_of(entries@);
        self.entries = entries;
        assert(self.listing() =~= kept);
    }

    /// Binds `path` to `node`, in place of whatever the tree held there.
    pub fn insert(&mut self, path: Vec<String>, node: Node)
        ensures
            final(self)@ == old(self)@.insert(path.deep_view(), node@),
    {
        self.remove(&path);
        proof {
            use_type_invariant(&*self);
        }
        let ghost before = self.listing();
        let ghost key = path.deep_view();
        let ghost value = node@;
        let mut entries: Vec<TreeEntry> = Vec::new();
        core::mem::swap(&mut self.entries, &mut entries);
        assert(bindings_of(entries@) =~= before);
        entries.push(TreeEntry { path, node });
        let ghost after = bindings_of(entries@);
        proof {
            assert(after =~= before.push((key, value)));
            assert(after.drop_last() =~= before);
            assert forall|a: int, b: int| 0 <= a < b < after.len() implies (#[trigger] after[a]).0
                != (#[trigger] after[b]).0 by {
                if b == before.len() {
                    lemma_listed_is_bound(before, a);
                } else {
                    assert(after[a] == before[a]);
                    assert(after[b] == before[b]);
                }
            }
        }
        self.entries = entries;
        proof {
            assert(self.listing() =~= after);
            assert(self@ =~= old(self)@.insert(key, value));
        }
    }

    /// Takes over every binding of `other`, in place of whatever this tree
    /// held at the same path.
    pub fn absorb(&mut self, other: FileTree)
        ensures
            final(self)@ == old(self)@.union_prefer_right(other@),
    {
        proof {
            use_type_invariant(&other);
        }
        let ghost all = other.listing();
        let mut rest = other.entries;
        assert(bindings_of(rest@) =~= all);
        while rest.len() > 0
            invariant
                distinct(bindings_of(rest@)),
                self@.union_prefer_right(overlay(bindings_of(rest@))) == old(
                    self,
                )@.union_prefer_right(overlay(all)),
            decreases rest.len(),
        {
            let ghost held = self@;
            let ghost left = bindings_of(rest@);
            match rest.pop() {
                Some(entry) => {
                    let ghost key = entry.path.deep_view();
                    let ghost value = entry.node@;
                    proof {
                        assert(bindings_of(rest@) =~= left.drop_last());
                        assert(left.last() == (key, value));
                        assert(left[left.len() - 1] == left.last());
                        assert forall|a: int| 0 <= a < left.len() - 1 implies (
                        #[trigger] left.drop_last()[a]).0 != key by {
                            assert(left.drop_last()[a] == left[a]);
                        }
                        lemma_unbound_absent(left.drop_last(), key);
                        assert(distinct(left.drop_last())) by {
                            assert forall|a: int, b: int|
                                0 <= a < b < left.drop_last().len() implies (
                            #[trigger] left.drop_last()[a]).0 != (
                            #[trigger] left.drop_last()[b]).0 by {
                                assert(left.drop_last()[a] == left[a]);
                                assert(left.drop_last()[b] == left[b]);
                            }
                        }
                    }
                    self.insert(entry.path, entry.node);
                    proof {
                        assert(held.insert(key, value).union_prefer_right(
                            overlay(left.drop_last()),
                        ) =~= held.union_prefer_right(overlay(left)));
                    }
                },
                None => {},
            }
        }
        proof {
            assert(self@.union_prefer_right(overlay(bindings_of(rest@))) =~= self@);
        }
    }

    /// A copy of this tree.
    pub fn duplicate(&self) -> (r: FileTree)
        ensures
            r@ == self@,
            r.listing() == self.listing(),
    {
        let mut out: Vec<TreeEntry> = Vec::new();
        let mut i: usize = 0;
        while i < self.entries.len()
            invariant
                i <= self.entries.len(),
                out.len() == i,
                forall|j: int|
                    0 <= j < i ==> out[j].path.deep_view() == self.entries[j].path.deep_view()
                        && out[j].node@ == self.entries[j].node@,
            decreases self.entries.len() - i,
        {
            let path = copy_path(&self.entries[i].path);
            let node = self.entries[i].node.duplicate();
            out.push(TreeEntry { path, node });
            i += 1;
        }
        proof {
            use_type_invariant(self);
            assert(Seq::new(
                out.len() as nat,
                |i: int| (out[i].path.deep_view(), out[i].node@),
            ) =~= self.listing());
        }
        let r = FileTree { entries: out };
        assert(r.listing() =~= self.listing());
        r
    }
}

/// One step from a tree to another: a path that is to hold a node, or a path
/// that is to hold nothing.
#[derive(Debug, Clone, PartialEq, Eq)]
pub enum Change {
    Put(Vec<String>, Node),
    Remove(Vec<String>),
}

/// The mathematical value of a [`Change`].
pub enum ChangeView {
    Put(Seq<Seq<char>>, NodeView),
    Remove(Seq<Seq<char>>),
}

impl View for Change {
    type V = ChangeView;

    open spec fn view(&self) -> ChangeView {
        match self {
            Change::Put(path, node) => ChangeView::Put(path.deep_view(), node@),
            Change::Remove(path) => ChangeView::Remove(path.deep_view()),
        }
    }
}

/// The values of a run of changes.
pub open spec fn changes_view(changes: Seq<Change>) -> Seq<ChangeView> {
    Seq::new(changes.len(), |i: int| changes[i]@)
}

/// The map after the changes were made to it, one after the other.
pub open spec fn applied(m: Map<Seq<Seq<char>>, NodeView>, changes: Seq<ChangeView>) -> Map<
    Seq<Seq<char>>,
    NodeView,
>
    decreases changes.len(),
{
    if changes.len() == 0 {
        m
    } else {
        let front = applied(m, changes.drop_last());
        match changes.last() {
            ChangeView::Put(path, node) => front.insert(path, node),
            ChangeView::Remove(path) => front.remove(path),
        }
    }
}

/// One of the first `n` bindings is for `path`.
pub open spec fn listed_before(
    items: Seq<(Seq<Seq<char>>, NodeView)>,
    n: int,
    path: Seq<Seq<char>>,
) -> bool {
    exists|j: int| 0 <= j < n && j < items.len() && (#[trigger] items[j]).0 == path
}

/// The map `before` with what `after` holds at the paths of the first `n`
/// bindings of `items`.
pub open spec fn partly_put(
    before: Map<Seq<Seq<char>>, NodeView>,
    after: Map<Seq<Seq<char>>, NodeView>,
    items: Seq<(Seq<Seq<char>>, NodeView)>,
    n: int,
) -> Map<Seq<Seq<char>>, NodeView> {
    Map::new(
        |q: Seq<Seq<char>>| listed_before(items, n, q) || before.contains_key(q),
        |q: Seq<Seq<char>>|
            if listed_before(items, n, q) {
                after[q]
            } else {
                before[q]
            },
    )
}

/// The map `after`, and what `before` holds besides at paths that are not
/// among those of the first `n` bindings of `items`.
pub open spec fn partly_pruned(
    before: Map<Seq<Seq<char>>, NodeView>,
    after: Map<Seq<Seq<char>>, NodeView>,
    items: Seq<(Seq<Seq<char>>, NodeView)>,
    n: int,
) -> Map<Seq<Seq<char>>, NodeView> {
    Map::new(
        |q: Seq<Seq<char>>|
            after.contains_key(q) || (before.contains_key(q) && !listed_before(items, n, q)),
        |q: Seq<Seq<char>>|
            if after.contains_key(q) {
                after[q]
            } else {
                before[q]
            },
    )
}

/// The paths of the first `n + 1` bindings are those of the first `n` and the
/// path of the binding after them.
pub proof fn lemma_listed_one_more(items: Seq<(Seq<Seq<char>>, NodeView)>, n: int)
    requires
        0 <= n < items.len(),
    ensures
        forall|q: Seq<Seq<char>>| #[trigger]
            listed_before(items, n + 1, q) <==> listed_before(items, n, q) || q == items[n].0,
{
    assert forall|q: Seq<Seq<char>>| #[trigger]
        listed_before(items, n + 1, q) <==> listed_before(items, n, q) || q == items[n].0 by {
        if listed_before(items, n + 1, q) {
            let j = choose|j: int| 0 <= j < n + 1 && j < items.len() && (#[trigger] items[j]).0 == q;
            if j < n {
                assert(listed_before(items, n, q));
            }
        }
        if q == items[n].0 {
            assert(items[n].0 == q);
        }
        if listed_before(items, n, q) {
            let j = choose|j: int| 0 <= j < n && j < items.len() && (#[trigger] items[j]).0 == q;
            assert(items[j].0 == q);
        }
    }
}

/// The paths of all bindings are the paths of the map.
pub proof fn lemma_listed_all(items: Seq<(Seq<Seq<char>>, NodeView)>)
    ensures
        forall|q: Seq<Seq<char>>| #[trigger]
            listed_before(items, items.len() as int, q) <==> overlay(items).contains_key(q),
{
    assert forall|q: Seq<Seq<char>>| #[trigger]
        listed_before(items, items.len() as int, q) <==> overlay(items).contains_key(q) by {
        if overlay(items).contains_key(q) {
            lemma_bound_is_listed(items, q);
            let j = choose|j: int| 0 <= j < items.len() && (#[trigger] items[j]).0 == q;
            assert(items[j].0 == q);
        }
        if listed_before(items, items.len() as int, q) {
            let j = choose|j: int|
                0 <= j < items.len() && j < items.len() && (#[trigger] items[j]).0 == q;
            lemma_listed_is_bound(items, j);
        }
    }
}

/// Whether two byte strings are equal.
pub fn same_bytes(a: &Vec<u8>, b: &Vec<u8>) -> (r: bool)
    ensures
        r == (a@ == b@),
{
    if a.len() != b.len() {
        return false;
    }
    let mut i: usize = 0;
    while i < a.len()
        invariant
            i <= a.len(),
            a.len() == b.len(),
            forall|j: int| 0 <= j < i ==> a[j] == b[j],
        decreases a.len() - i,
    {
        if a[i] != b[i] {
            return false;
        }
        i += 1;
    }
    assert(a@ =~= b@);
    true
}

impl Node {
    /// Whether two nodes are of the same kind and, if regular files, hold the
    /// same bytes.
    pub fn same_as(&self, other: &Node) -> (r: bool)
        ensures
            r == (self@ == other@),
    {
        match (self, other) {
            (Node::Dir, Node::Dir) => true,
            (Node::File(a), Node::File(b)) => same_bytes(a, b),
            _ => false,
        }
    }
}

/// The change is one that the way from `before` to `after` needs: it puts
/// what `after` holds at a path where `before` does not hold the same, or it
/// removes a path that `before` holds and `after` does not.
pub open spec fn needed(
    before: Map<Seq<Seq<char>>, NodeView>,
    after: Map<Seq<Seq<char>>, NodeView>,
    change: ChangeView,
) -> bool {
    match change {
        ChangeView::Put(path, node) => after.contains_key(path) && after[path] == node && !(
        before.contains_key(path) && before[path] == node),
        ChangeView::Remove(path) => before.contains_key(path) && !after.contains_key(path),
    }
}

/// The changes that lead from one tree to another: every path that is to
/// hold something that it does not hold yet, with what it is to hold, and
/// then every path that is to hold nothing any more. No change is made that
/// is not needed.
pub fn changes(before: &FileTree, after: &FileTree) -> (r: Vec<Change>)
    ensures
        applied(before@, changes_view(r@)) == after@,
        forall|i: int| 0 <= i < r.len() ==> needed(before@, after@, (#[trigger] r[i])@),
{
    let mut out: Vec<Change> = Vec::new();
    let n = after.len();
    let mut i: usize = 0;
    proof {
        assert(changes_view(out@) =~= Seq::empty());
        assert(before@ =~= partly_put(before@, after@, after.listing(), 0));
    }
    while i < n
        invariant
            i <= n == after.listing().len(),
            applied(before@, changes_view(out@)) == partly_put(
                before@,
                after@,
                after.listing(),
                i as int,
            ),
            forall|j: int| 0 <= j < out.len() ==> needed(before@, after@, (#[trigger] out[j])@),
        decreases n - i,
    {
        let path = after.path_of(i);
        let ghost p = path.deep_view();
        let ghost held = applied(before@, changes_view(out@));
        let ghost so_far = changes_view(out@);
        proof {
            lemma_listed_is_bound(after.listing(), i as int);
            lemma_listed_one_more(after.listing(), i as int);
        }
        let wanted = match after.get(path) {
            Some(node) => node,
            None => after.node_of(i),
        };
        let there = match before.get(path) {
            Some(node) => node.same_as(wanted),
            None => false,
        };
        if !there {
            out.push(Change::Put(copy_path(path), wanted.duplicate()));
            proof {
                assert(changes_view(out@).drop_last() =~= so_far);
                assert(changes_view(out@).last() == ChangeView::Put(p, after@[p]));
                assert(held.insert(p, after@[p]) =~= partly_put(
                    before@,
                    after@,
                    after.listing(),
                    i + 1,
                ));
            }
        } else {
            assert(held =~= partly_put(before@, after@, after.listing(), i + 1));
        }
        i += 1;
    }
    let m = before.len();
    let mut k: usize = 0;
    proof {
        lemma_listed_all(after.listing());
        assert(partly_put(before@, after@, after.listing(), n as int) =~= partly_pruned(
            before@,
            after@,
            before.listing(),
            0,
        ));
    }
    while k < m
        invariant
            k <= m == before.listing().len(),
            applied(before@, changes_view(out@)) == partly_pruned(
                before@,
                after@,
                before.listing(),
                k as int,
            ),
            forall|j: int| 0 <= j < out.len() ==> needed(before@, after@, (#[trigger] out[j])@),
        decreases m - k,
    {
        let path = before.path_of(k);
        let ghost p = path.deep_view();
        let ghost held = applied(before@, changes_view(out@));
        let ghost so_far = changes_view(out@);
        proof {
            lemma_listed_is_bound(before.listing(), k as int);
            lemma_listed_one_more(before.listing(), k as int);
        }
        if !after.contains(path) {
            out.push(Change::Remove(copy_path(path)));
            proof {
                assert(changes_view(out@).drop_last() =~= so_far);
                assert(changes_view(out@).last() == ChangeView::Remove(p));
                assert(held.remove(p) =~= partly_pruned(
                    before@,
                    after@,
                    before.listing(),
                    k + 1,
                ));
            }
        } else {
            assert(held =~= partly_pruned(before@, after@, before.listing(), k + 1));
        }
        k += 1;
    }
    proof {
        lemma_listed_all(before.listing());
        assert(partly_pruned(before@, after@, before.listing(), m as int) =~= after@);
    }
    out
}

} // verus!
