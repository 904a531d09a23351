//! Moving files and directories within a tree: recursive copy, and the move
//! that deletes its source only once the copy has been checked against it.

use crate::tree::{
    copy_bytes, copy_path, has_prefix, lemma_bound_is_listed, lemma_listed_is_bound, overlay,
    reroot, same_bytes, FileTree, Node, NodeView,
};
use md5::{Digest, Md5};
use vstd::prelude::*;

verus! {

/// Why a transfer did not take place.
#[derive(Debug, Clone, PartialEq, Eq)]
pub enum TransferError {
    /// Nothing is at the path that was to be copied.
    SourceMissing(Vec<String>),
    /// A regular file is at a path where a directory is needed.
    NotADirectory(Vec<String>),
    /// A directory is at a path where a regular file is needed.
    IsADirectory(Vec<String>),
    /// Nothing is at the path of the directory in which a file was to be made.
    ParentMissing(Vec<String>),
    /// The copy does not have the digest of its source.
    Md5Mismatch,
}

/// The mathematical value of a [`TransferError`].
pub enum TransferFault {
    SourceMissing(Seq<Seq<char>>),
    NotADirectory(Seq<Seq<char>>),
    IsADirectory(Seq<Seq<char>>),
    ParentMissing(Seq<Seq<char>>),
    Md5Mismatch,
}

impl View for TransferError {
    type V = TransferFault;

    open spec fn view(&self) -> TransferFault {
        match self {
            TransferError::SourceMissing(p) => TransferFault::SourceMissing(p.deep_view()),
            TransferError::NotADirectory(p) => TransferFault::NotADirectory(p.deep_view()),
            TransferError::IsADirectory(p) => TransferFault::IsADirectory(p.deep_view()),
            TransferError::ParentMissing(p) => TransferFault::ParentMissing(p.deep_view()),
            TransferError::Md5Mismatch => TransferFault::Md5Mismatch,
        }
    }
}

/// The map holds a regular file at `path`.
pub open spec fn file_at(m: Map<Seq<Seq<char>>, NodeView>, path: Seq<Seq<char>>) -> bool {
    m.contains_key(path) && m[path] is File
}

/// The map holds a directory at `path`.
pub open spec fn dir_at(m: Map<Seq<Seq<char>>, NodeView>, path: Seq<Seq<char>>) -> bool {
    m.contains_key(path) && m[path] is Dir
}

/// The bytes of the regular file at `path`.
pub open spec fn bytes_at(m: Map<Seq<Seq<char>>, NodeView>, path: Seq<Seq<char>>) -> Seq<u8> {
    m[path]->File_0
}

/// The MD5 digest of a byte string.
pub uninterp spec fn md5_of(data: Seq<u8>) -> Seq<u8>;

/// Computes the MD5 digest of `data` with `md5::Md5::digest`. The contract
/// claims only that the digest is a function of the bytes.
#[verifier::external_body]
fn md5_digest(data: &Vec<u8>) -> (digest: Vec<u8>)
    ensures
        digest@ == md5_of(data@),
{
    Md5::digest(data.as_slice()).to_vec()
}

/// The fault `e` is the one that keeps the file at `path` from being read:
/// nothing is there, or a directory is.
pub open spec fn read_fault(
    m: Map<Seq<Seq<char>>, NodeView>,
    path: Seq<Seq<char>>,
    e: TransferFault,
) -> bool {
    match e {
        TransferFault::SourceMissing(p) => p == path && !m.contains_key(path),
        TransferFault::IsADirectory(p) => p == path && dir_at(m, path),
        _ => false,
    }
}

/// The MD5 digest of the regular file at `path`.
pub fn md5_from_file(tree: &FileTree, path: &Vec<String>) -> (r: Result<Vec<u8>, TransferError>)
    ensures
        match r {
            Ok(digest) => file_at(tree@, path.deep_view()) && digest@ == md5_of(
                bytes_at(tree@, path.deep_view()),
            ),
            Err(e) => read_fault(tree@, path.deep_view(), e@),
        },
{
    match tree.get(path) {
        Some(Node::File(bytes)) => Ok(md5_digest(bytes)),
        Some(Node::Dir) => Err(TransferError::IsADirectory(copy_path(path))),
        None => Err(TransferError::SourceMissing(copy_path(path))),
    }
}

/// `path` cut down to its first `n` names.
pub(crate) fn path_prefix(path: &Vec<String>, n: usize) -> (r: Vec<String>)
    requires
        n <= path.len(),
    ensures
        r.deep_view() == path.deep_view().take(n as int),
{
    let mut out: Vec<String> = Vec::new();
    let mut i: usize = 0;
    assert(out.deep_view() =~= path.deep_view().take(0));
    while i < n
        invariant
            i <= n <= path.len(),
            out.deep_view() == path.deep_view().take(i as int),
        decreases n - i,
    {
        let ghost before = out.deep_view();
        out.push(path[i].clone());
        assert(out.deep_view() =~= before.push(path[i as int]@));
        assert(out.deep_view() =~= path.deep_view().take(i + 1));
        i += 1;
    }
    out
}

/// The map after directories have been made at the first `n` prefixes of
/// `path`: the root, then one name more at a time.
pub open spec fn dirs_made(
    m: Map<Seq<Seq<char>>, NodeView>,
    path: Seq<Seq<char>>,
    n: int,
) -> Map<Seq<Seq<char>>, NodeView> {
    Map::new(
        |q: Seq<Seq<char>>| m.contains_key(q) || (q.is_prefix_of(path) && q.len() < n),
        |q: Seq<Seq<char>>|
            if q.is_prefix_of(path) && q.len() < n {
                NodeView::Dir
            } else {
                m[q]
            },
    )
}

/// None of the first `n` prefixes of `path` is a regular file.
pub open spec fn dirs_free(m: Map<Seq<Seq<char>>, NodeView>, path: Seq<Seq<char>>, n: int) -> bool {
    forall|k: int| 0 <= k < n && k <= path.len() ==> !file_at(m, #[trigger] path.take(k))
}

/// The fault `e` is the one that stands in the way of making the directories
/// down to `path`: the shortest prefix of `path` that is a regular file.
pub open spec fn dirs_fault(
    m: Map<Seq<Seq<char>>, NodeView>,
    path: Seq<Seq<char>>,
    e: TransferFault,
) -> bool {
    e matches TransferFault::NotADirectory(p) && p.is_prefix_of(path) && file_at(m, p) && dirs_free(
        m,
        path,
        p.len() as int,
    )
}

/// Makes a directory at `path` and at every prefix of it that the tree lacks.
/// Stops at the shortest prefix that is a regular file, and leaves in place
/// the directories made above it.
pub fn create_dir_all(tree: &mut FileTree, path: &Vec<String>) -> (r: Result<(), TransferError>)
    ensures
        match r {
            Ok(()) => dirs_free(old(tree)@, path.deep_view(), path.len() + 1) && final(tree)@
                == dirs_made(old(tree)@, path.deep_view(), path.len() + 1),
            Err(e) => dirs_fault(old(tree)@, path.deep_view(), e@) && final(tree)@ == dirs_made(
                old(tree)@,
                path.deep_view(),
                e@->NotADirectory_0.len() as int,
            ),
        },
{
    let mut k: usize = 0;
    assert(tree@ =~= dirs_made(old(tree)@, path.deep_view(), 0));
    loop
        invariant_except_break
            k <= path.len(),
            dirs_free(old(tree)@, path.deep_view(), k as int),
            tree@ == dirs_made(old(tree)@, path.deep_view(), k as int),
        ensures
            dirs_free(old(tree)@, path.deep_view(), path.len() + 1),
            tree@ == dirs_made(old(tree)@, path.deep_view(), path.len() + 1),
        decreases path.len() - k,
    {
        let prefix = path_prefix(path, k);
        let ghost p = prefix.deep_view();
        assert(p.is_prefix_of(path.deep_view())) by {
            assert(path.deep_view().subrange(0, k as int) =~= p);
        }
        proof {
            assert forall|j: int| 0 <= j <= path.len() && j != k implies path.deep_view().take(j)
                != p by {
                assert(path.deep_view().take(j).len() != p.len());
            }
        }
        if tree.is_file(&prefix) {
            assert(file_at(old(tree)@, p));
            return Err(TransferError::NotADirectory(prefix));
        }
        tree.insert(prefix, Node::Dir);
        proof {
            assert forall|q: Seq<Seq<char>>| q.is_prefix_of(path.deep_view()) && q.len() == k
                implies q == p by {
                assert(q =~= path.deep_view().subrange(0, k as int));
            }
            assert(tree@ =~= dirs_made(old(tree)@, path.deep_view(), k + 1));
            assert(!file_at(old(tree)@, p));
        }
        if k == path.len() {
            break;
        }
        k += 1;
    }
    Ok(())
}

/// The map after the regular file at `from` has been copied to `to`, where
/// the copy left the bytes `landed`.
pub open spec fn landed_at(
    m: Map<Seq<Seq<char>>, NodeView>,
    to: Seq<Seq<char>>,
    landed: Seq<u8>,
) -> Map<Seq<Seq<char>>, NodeView> {
    m.insert(to, NodeView::File(landed))
}

/// A file can be made at `path`: a directory is at the path above it. The
/// root has no path above it.
pub open spec fn has_room(m: Map<Seq<Seq<char>>, NodeView>, path: Seq<Seq<char>>) -> bool {
    path.len() == 0 || dir_at(m, path.drop_last())
}

/// The fault `e` is the one that keeps a file from being made at `path`:
/// nothing is at the path above it, or a regular file is.
pub open spec fn room_fault(
    m: Map<Seq<Seq<char>>, NodeView>,
    path: Seq<Seq<char>>,
    e: TransferFault,
) -> bool {
    path.len() > 0 && match e {
        TransferFault::ParentMissing(p) => p == path.drop_last() && !m.contains_key(p),
        TransferFault::NotADirectory(p) => p == path.drop_last() && file_at(m, p),
        _ => false,
    }
}

/// Whether a file can be made at `path`.
pub fn check_room(tree: &FileTree, path: &Vec<String>) -> (r: Result<(), TransferError>)
    ensures
        match r {
            Ok(()) => has_room(tree@, path.deep_view()),
            Err(e) => room_fault(tree@, path.deep_view(), e@),
        },
{
    if path.len() == 0 {
        return Ok(());
    }
    let above = path_prefix(path, path.len() - 1);
    assert(above.deep_view() =~= path.deep_view().drop_last());
    match tree.get(&above) {
        None => Err(TransferError::ParentMissing(above)),
        Some(node) => {
            if node.is_dir() {
                Ok(())
            } else {
                Err(TransferError::NotADirectory(above))
            }
        },
    }
}

/// A copy from `from` to `to` can be made: a regular file is at `from`, no
/// directory is at `to`, and a directory is at the path above `to`.
pub open spec fn can_copy_file(
    m: Map<Seq<Seq<char>>, NodeView>,
    from: Seq<Seq<char>>,
    to: Seq<Seq<char>>,
) -> bool {
    file_at(m, from) && !dir_at(m, to) && has_room(m, to)
}

/// After a copy from `from` to `to` that left the bytes `landed`, source and
/// copy have the same digest. The source is read after the copy was made.
pub open spec fn digests_agree(
    m: Map<Seq<Seq<char>>, NodeView>,
    from: Seq<Seq<char>>,
    to: Seq<Seq<char>>,
    landed: Seq<u8>,
) -> bool {
    md5_of(bytes_at(landed_at(m, to, landed), from)) == md5_of(landed)
}

/// The fault `e` is the one that stands in the way of the verified move from
/// `from` to `to`, where the copy leaves the bytes `landed`.
pub open spec fn move_fault(
    m: Map<Seq<Seq<char>>, NodeView>,
    from: Seq<Seq<char>>,
    to: Seq<Seq<char>>,
    landed: Seq<u8>,
    e: TransferFault,
) -> bool {
    match e {
        TransferFault::SourceMissing(p) => p == from && !m.contains_key(from),
        TransferFault::IsADirectory(p) => if dir_at(m, from) {
            p == from
        } else {
            p == to && file_at(m, from) && dir_at(m, to)
        },
        TransferFault::Md5Mismatch => can_copy_file(m, from, to) && !digests_agree(
            m,
            from,
            to,
            landed,
        ),
        _ => file_at(m, from) && !dir_at(m, to) && room_fault(m, to, e),
    }
}

/// The verified move. The regular file at `from` is copied to `to`, where a
/// directory has to be at the path above `to` and where the copy leaves the
/// bytes `landed`; the digests of the source and of the
/// copy are compared; the source is taken away only if they agree. Where they
/// do not, the copy stays and so does the source. Where no copy can be made,
/// the tree is left as it was.
///
/// Two consequences are stated with the contract. A copy whose digest is not
/// that of the source makes the move fail, and the source is still there
/// afterwards. A faithful copy makes the move succeed, and the source is gone
/// afterwards.
pub fn cut_file(
    tree: &mut FileTree,
    from: &Vec<String>,
    to: &Vec<String>,
    landed: &Vec<u8>,
) -> (r: Result<(), TransferError>)
    ensures
        match r {
            Ok(()) => can_copy_file(old(tree)@, from.deep_view(), to.deep_view()) && digests_agree(
                old(tree)@,
                from.deep_view(),
                to.deep_view(),
                landed@,
            ) && final(tree)@ == landed_at(old(tree)@, to.deep_view(), landed@).remove(
                from.deep_view(),
            ),
            Err(e) => move_fault(old(tree)@, from.deep_view(), to.deep_view(), landed@, e@)
                && final(tree)@ == if e@ is Md5Mismatch {
                landed_at(old(tree)@, to.deep_view(), landed@)
            } else {
                old(tree)@
            },
        },
        can_copy_file(old(tree)@, from.deep_view(), to.deep_view()) && from.deep_view()
            != to.deep_view() && md5_of(bytes_at(old(tree)@, from.deep_view())) != md5_of(landed@)
            ==> r is Err && final(tree)@.contains_key(from.deep_view()),
        can_copy_file(old(tree)@, from.deep_view(), to.deep_view()) && landed@ == bytes_at(
            old(tree)@,
            from.deep_view(),
        ) ==> r is Ok && !final(tree)@.contains_key(from.deep_view()),
{
    match tree.get(from) {
        None => {
            return Err(TransferError::SourceMissing(copy_path(from)));
        },
        Some(node) => {
            if node.is_dir() {
                return Err(TransferError::IsADirectory(copy_path(from)));
            }
        },
    }
    if tree.is_dir(to) {
        return Err(TransferError::IsADirectory(copy_path(to)));
    }
    match check_room(tree, to) {
        Err(e) => {
            return Err(e);
        },
        Ok(()) => {},
    }
    tree.insert(copy_path(to), Node::File(copy_bytes(landed)));
    let source_digest = match md5_from_file(tree, from) {
        Ok(digest) => digest,
        Err(e) => {
            return Err(e);
        },
    };
    let copy_digest = match md5_from_file(tree, to) {
        Ok(digest) => digest,
        Err(e) => {
            return Err(e);
        },
    };
    if !same_bytes(&source_digest, &copy_digest) {
        return Err(TransferError::Md5Mismatch);
    }
    tree.remove(from);
    Ok(())
}

/// What one binding adds to the size of what lies at or below `path`: the
/// number of its bytes, if it is a regular file at or below `path`.
pub open spec fn counted(item: (Seq<Seq<char>>, NodeView), path: Seq<Seq<char>>) -> nat {
    if path.is_prefix_of(item.0) {
        match item.1 {
            NodeView::File(bytes) => bytes.len(),
            NodeView::Dir => 0,
        }
    } else {
        0
    }
}

/// The number of bytes in the regular files, among the given bindings, that
/// lie at or below `path`.
pub open spec fn size_below(items: Seq<(Seq<Seq<char>>, NodeView)>, path: Seq<Seq<char>>) -> nat
    decreases items.len(),
{
    if items.len() == 0 {
        0
    } else {
        size_below(items.drop_last(), path) + counted(items.last(), path)
    }
}

/// The number of bytes in the regular files at or below `src`: the size of
/// `src` itself if it is a regular file, the size of all that it holds if it
/// is a directory. A size that does not fit is given as the largest that
/// does.
pub fn get_total_size(tree: &FileTree, src: &Vec<String>) -> (r: Result<u64, TransferError>)
    ensures
        match r {
            Ok(total) => tree@.contains_key(src.deep_view()) && total == if size_below(
                tree.listing(),
                src.deep_view(),
            ) <= u64::MAX {
                size_below(tree.listing(), src.deep_view())
            } else {
                u64::MAX as nat
            },
            Err(e) => e@ == TransferFault::SourceMissing(src.deep_view()) && !tree@.contains_key(
                src.deep_view(),
            ),
        },
{
    if !tree.contains(src) {
        return Err(TransferError::SourceMissing(copy_path(src)));
    }
    let ghost items = tree.listing();
    let ghost s = src.deep_view();
    let n = tree.len();
    let mut total: u64 = 0;
    let mut i: usize = 0;
    assert(items.take(0) =~= Seq::empty());
    while i < n
        invariant
            i <= n == items.len(),
            items == tree.listing(),
            s == src.deep_view(),
            total == if size_below(items.take(i as int), s) <= u64::MAX {
                size_below(items.take(i as int), s)
            } else {
                u64::MAX as nat
            },
        decreases n - i,
    {
        proof {
            assert(items.take(i + 1).drop_last() =~= items.take(i as int));
            assert(items.take(i + 1).last() == items[i as int]);
        }
        if has_prefix(tree.path_of(i), src) {
            match tree.node_of(i) {
                Node::File(bytes) => {
                    let size = bytes.len() as u64;
                    if total > u64::MAX - size {
                        total = u64::MAX;
                    } else {
                        total = total + size;
                    }
                },
                Node::Dir => {},
            }
        }
        i += 1;
    }
    assert(items.take(n as int) =~= items);
    Ok(total)
}

/// The path from which a copy of `src` to `dst` fills the path `q`.
pub open spec fn source_of(
    src: Seq<Seq<char>>,
    dst: Seq<Seq<char>>,
    q: Seq<Seq<char>>,
) -> Seq<Seq<char>> {
    src + q.skip(dst.len() as int)
}

/// What a copy of the directory at `src` brings to `dst`: under each path at
/// or below `dst`, what the map holds at the matching path at or below `src`.
pub open spec fn moved(
    m: Map<Seq<Seq<char>>, NodeView>,
    src: Seq<Seq<char>>,
    dst: Seq<Seq<char>>,
) -> Map<Seq<Seq<char>>, NodeView> {
    Map::new(
        |q: Seq<Seq<char>>| dst.is_prefix_of(q) && m.contains_key(source_of(src, dst, q)),
        |q: Seq<Seq<char>>| m[source_of(src, dst, q)],
    )
}

/// A copy of the directory at `src` to `dst` would put a directory where a
/// regular file is, or a regular file where a directory is, at `q`.
pub open spec fn clash_at(
    m: Map<Seq<Seq<char>>, NodeView>,
    src: Seq<Seq<char>>,
    dst: Seq<Seq<char>>,
    q: Seq<Seq<char>>,
) -> bool {
    &&& dst.is_prefix_of(q)
    &&& m.contains_key(source_of(src, dst, q))
    &&& m.contains_key(q)
    &&& (m[source_of(src, dst, q)] is Dir) != (m[q] is Dir)
}

/// The copy from `src` to `dst` can be made: something is at `src`; if it is
/// a regular file, no directory is at `dst` and a directory is at the path
/// above `dst`; if it is a directory, `dst` is there or a directory is at the
/// path above it, and nothing at or below `src` meets a node of the other
/// kind at its destination.
pub open spec fn can_copy(
    m: Map<Seq<Seq<char>>, NodeView>,
    src: Seq<Seq<char>>,
    dst: Seq<Seq<char>>,
) -> bool {
    &&& m.contains_key(src)
    &&& if m[src] is File {
        !dir_at(m, dst) && has_room(m, dst)
    } else {
        (m.contains_key(dst) || has_room(m, dst)) && forall|q: Seq<Seq<char>>|
            !clash_at(m, src, dst, q)
    }
}

/// The map after the copy from `src` to `dst`: a regular file lands at `dst`
/// itself; a directory is merged into `dst`, entry by entry, over what is
/// there.
pub open spec fn copied(
    m: Map<Seq<Seq<char>>, NodeView>,
    src: Seq<Seq<char>>,
    dst: Seq<Seq<char>>,
) -> Map<Seq<Seq<char>>, NodeView> {
    if m[src] is File {
        m.insert(dst, m[src])
    } else {
        m.union_prefer_right(moved(m, src, dst))
    }
}

/// The fault `e` is one that stands in the way of the copy from `src` to
/// `dst`.
pub open spec fn copy_fault(
    m: Map<Seq<Seq<char>>, NodeView>,
    src: Seq<Seq<char>>,
    dst: Seq<Seq<char>>,
    e: TransferFault,
) -> bool {
    match e {
        TransferFault::SourceMissing(p) => p == src && !m.contains_key(src),
        TransferFault::NotADirectory(q) => if file_at(m, src) {
            !dir_at(m, dst) && room_fault(m, dst, e)
        } else {
            dir_at(m, src) && ((clash_at(m, src, dst, q) && file_at(m, q)) || (!m.contains_key(
                dst,
            ) && room_fault(m, dst, e)))
        },
        TransferFault::IsADirectory(q) => if file_at(m, src) {
            q == dst && dir_at(m, dst)
        } else {
            dir_at(m, src) && clash_at(m, src, dst, q) && dir_at(m, q)
        },
        TransferFault::ParentMissing(q) => if file_at(m, src) {
            !dir_at(m, dst) && room_fault(m, dst, e)
        } else {
            dir_at(m, src) && !m.contains_key(dst) && room_fault(m, dst, e)
        },
        TransferFault::Md5Mismatch => false,
    }
}

/// The copy from `src` to `dst` writes at `q`.
pub open spec fn filled(
    m: Map<Seq<Seq<char>>, NodeView>,
    src: Seq<Seq<char>>,
    dst: Seq<Seq<char>>,
    q: Seq<Seq<char>>,
) -> bool {
    if m[src] is File {
        q == dst
    } else {
        dst.is_prefix_of(q) && m.contains_key(source_of(src, dst, q))
    }
}

/// A copy merges and never deletes. Whatever the tree held before the copy
/// from `src` to `dst` it holds afterwards, and holds unchanged wherever the
/// copy did not write; where the copy wrote, the tree holds what the source
/// held at the matching place.
pub proof fn lemma_copy_merges(
    m: Map<Seq<Seq<char>>, NodeView>,
    src: Seq<Seq<char>>,
    dst: Seq<Seq<char>>,
    q: Seq<Seq<char>>,
)
    requires
        m.contains_key(src),
    ensures
        m.contains_key(q) ==> copied(m, src, dst).contains_key(q),
        m.contains_key(q) && !filled(m, src, dst, q) ==> copied(m, src, dst)[q] == m[q],
        filled(m, src, dst, q) ==> copied(m, src, dst).contains_key(q) && copied(m, src, dst)[q]
            == if m[src] is File {
            m[src]
        } else {
            m[source_of(src, dst, q)]
        },
{
}

/// The copy can be made exactly when no fault stands in its way.
pub proof fn lemma_copy_fault_bars(
    m: Map<Seq<Seq<char>>, NodeView>,
    src: Seq<Seq<char>>,
    dst: Seq<Seq<char>>,
    e: TransferFault,
)
    requires
        copy_fault(m, src, dst, e),
    ensures
        !can_copy(m, src, dst),
{
}

/// A path at or below `src` has exactly one destination at or below `dst`,
/// and a path elsewhere has none.
pub proof fn lemma_destination(
    src: Seq<Seq<char>>,
    dst: Seq<Seq<char>>,
    p: Seq<Seq<char>>,
    q: Seq<Seq<char>>,
)
    ensures
        src.is_prefix_of(p) ==> ((dst.is_prefix_of(q) && source_of(src, dst, q) == p) <==> q == dst
            + p.skip(src.len() as int)),
        !src.is_prefix_of(p) ==> source_of(src, dst, q) != p,
{
    let target = dst + p.skip(src.len() as int);
    if src.is_prefix_of(p) {
        assert(p =~= src + p.skip(src.len() as int));
        if q == target {
            assert(q.subrange(0, dst.len() as int) =~= dst);
            assert(q.skip(dst.len() as int) =~= p.skip(src.len() as int));
        }
        if dst.is_prefix_of(q) && source_of(src, dst, q) == p {
            assert(p.skip(src.len() as int) =~= q.skip(dst.len() as int));
            assert(q =~= dst + q.skip(dst.len() as int));
        }
    } else {
        if source_of(src, dst, q) == p {
            assert(p.subrange(0, src.len() as int) =~= src);
        }
    }
}

/// What a copy of the contents of the directory at `src` brings to `dst`:
/// under each path below `dst`, what the map holds at the matching path
/// below `src`.
pub open spec fn moved_below(
    m: Map<Seq<Seq<char>>, NodeView>,
    src: Seq<Seq<char>>,
    dst: Seq<Seq<char>>,
) -> Map<Seq<Seq<char>>, NodeView> {
    Map::new(
        |q: Seq<Seq<char>>|
            q != dst && dst.is_prefix_of(q) && m.contains_key(source_of(src, dst, q)),
        |q: Seq<Seq<char>>| m[source_of(src, dst, q)],
    )
}

/// Nothing below `src` meets a node of the other kind at its destination
/// below `dst`.
pub open spec fn can_copy_content(
    m: Map<Seq<Seq<char>>, NodeView>,
    src: Seq<Seq<char>>,
    dst: Seq<Seq<char>>,
) -> bool {
    forall|q: Seq<Seq<char>>| q != dst ==> !clash_at(m, src, dst, q)
}

/// The fault `e` is one that stands in the way of copying the contents of
/// `src` to `dst`.
pub open spec fn content_fault(
    m: Map<Seq<Seq<char>>, NodeView>,
    src: Seq<Seq<char>>,
    dst: Seq<Seq<char>>,
    e: TransferFault,
) -> bool {
    match e {
        TransferFault::NotADirectory(q) => q != dst && clash_at(m, src, dst, q) && file_at(m, q),
        TransferFault::IsADirectory(q) => q != dst && clash_at(m, src, dst, q) && dir_at(m, q),
        _ => false,
    }
}

/// Copies what lies below `src` to the same place below `dst`, over what is
/// there; nothing is taken away. Fails where a directory would come to lie on
/// a regular file, or a regular file on a directory. On failure the tree is
/// left as it was.
pub fn copy_dir_content(tree: &mut FileTree, src: &Vec<String>, dst: &Vec<String>) -> (r: Result<
    (),
    TransferError,
>)
    ensures
        match r {
            Ok(()) => can_copy_content(old(tree)@, src.deep_view(), dst.deep_view()) && final(tree)@ == old(tree)@.union_prefer_right(
                moved_below(old(tree)@, src.deep_view(), dst.deep_view()),
            ),
            Err(e) => content_fault(old(tree)@, src.deep_view(), dst.deep_view(), e@) && final(tree)@ == old(tree)@,
        },
{
    let ghost m = tree@;
    let ghost s = src.deep_view();
    let ghost d = dst.deep_view();
    let mut additions = FileTree::new();
    let n = tree.len();
    let mut i: usize = 0;
    assert(tree.listing().take(0) =~= Seq::empty());
    while i < n
        invariant
            i <= n == tree.listing().len(),
            tree@ == m,
            m == old(tree)@,
            s == src.deep_view(),
            d == dst.deep_view(),
            forall|q: Seq<Seq<char>>| #[trigger]
                additions@.contains_key(q) <==> q != d && d.is_prefix_of(q) && overlay(
                    tree.listing().take(i as int),
                ).contains_key(source_of(s, d, q)),
            forall|q: Seq<Seq<char>>| #[trigger]
                additions@.contains_key(q) ==> additions@[q] == overlay(
                    tree.listing().take(i as int),
                )[source_of(s, d, q)],
            forall|j: int|
                0 <= j < i && s.is_prefix_of((#[trigger] tree.listing()[j]).0)
                    && tree.listing()[j].0 != s ==> !clash_at(
                    m,
                    s,
                    d,
                    d + tree.listing()[j].0.skip(s.len() as int),
                ),
        decreases n - i,
    {
        let path = tree.path_of(i);
        let ghost p = path.deep_view();
        let ghost before = overlay(tree.listing().take(i as int));
        let ghost held = additions@;
        proof {
            assert(tree.listing().take(i + 1).drop_last() =~= tree.listing().take(i as int));
            assert(tree.listing().take(i + 1).last() == tree.listing()[i as int]);
            if s.is_prefix_of(p) {
                lemma_below(s, d, p);
            }
        }
        if has_prefix(path, src) && path.len() > src.len() {
            let target = reroot(path, src.len(), dst);
            let ghost t = target.deep_view();
            proof {
                lemma_destination(s, d, p, t);
                lemma_listed_is_bound(tree.listing(), i as int);
            }
            match tree.get(&target) {
                Some(there) => {
                    let from_dir = match tree.get(path) {
                        Some(here) => here.is_dir(),
                        None => there.is_dir(),
                    };
                    if there.is_dir() != from_dir {
                        if there.is_dir() {
                            return Err(TransferError::IsADirectory(target));
                        } else {
                            return Err(TransferError::NotADirectory(target));
                        }
                    }
                },
                None => {},
            }
            additions.insert(target, tree.node_of(i).duplicate());
            proof {
                assert forall|q: Seq<Seq<char>>| #[trigger]
                    additions@.contains_key(q) <==> q != d && d.is_prefix_of(q) && overlay(
                        tree.listing().take(i + 1),
                    ).contains_key(source_of(s, d, q)) by {
                    lemma_destination(s, d, p, q);
                    assert(held.contains_key(q) <==> q != d && d.is_prefix_of(q)
                        && before.contains_key(source_of(s, d, q)));
                }
                assert forall|q: Seq<Seq<char>>| #[trigger]
                    additions@.contains_key(q) implies additions@[q] == overlay(
                    tree.listing().take(i + 1),
                )[source_of(s, d, q)] by {
                    lemma_destination(s, d, p, q);
                    if q != t {
                        assert(held.contains_key(q));
                    }
                }
            }
        } else {
            proof {
                assert forall|q: Seq<Seq<char>>| #[trigger]
                    additions@.contains_key(q) <==> q != d && d.is_prefix_of(q) && overlay(
                        tree.listing().take(i + 1),
                    ).contains_key(source_of(s, d, q)) by {
                    lemma_destination(s, d, p, q);
                    assert(held.contains_key(q) <==> q != d && d.is_prefix_of(q)
                        && before.contains_key(source_of(s, d, q)));
                }
                assert forall|q: Seq<Seq<char>>| #[trigger]
                    additions@.contains_key(q) implies additions@[q] == overlay(
                    tree.listing().take(i + 1),
                )[source_of(s, d, q)] by {
                    lemma_destination(s, d, p, q);
                    assert(held.contains_key(q));
                }
            }
        }
        i += 1;
    }
    proof {
        assert(tree.listing().take(n as int) =~= tree.listing());
        assert(additions@ =~= moved_below(m, s, d));
        assert forall|q: Seq<Seq<char>>| q != d implies !clash_at(m, s, d, q) by {
            if clash_at(m, s, d, q) {
                let from = source_of(s, d, q);
                lemma_bound_is_listed(tree.listing(), from);
                let j = choose|j: int|
                    0 <= j < tree.listing().len() && (#[trigger] tree.listing()[j]).0 == from;
                assert(from.subrange(0, s.len() as int) =~= s);
                lemma_destination(s, d, from, q);
                lemma_below(s, d, from);
            }
        }
    }
    tree.absorb(additions);
    Ok(())
}

/// The destination of a path at or below `src` is `dst` itself exactly when
/// the path is `src` itself.
pub proof fn lemma_below(src: Seq<Seq<char>>, dst: Seq<Seq<char>>, p: Seq<Seq<char>>)
    requires
        src.is_prefix_of(p),
    ensures
        p == src <==> p.len() == src.len(),
        p == src <==> dst + p.skip(src.len() as int) == dst,
{
    if p.len() == src.len() {
        assert(p =~= src);
    }
    if dst + p.skip(src.len() as int) == dst {
        assert((dst + p.skip(src.len() as int)).len() == dst.len());
    }
    if p == src {
        assert(dst + p.skip(src.len() as int) =~= dst);
    }
}

/// Recursive copy. A regular file at `src` is copied to `dst`, where a
/// directory has to be at the path above `dst`. A directory at
/// `src` is merged into `dst`: `dst` is made if it is missing, for which a
/// directory has to be at the path above it, and everything
/// below `src` is copied to the same place below `dst`, over what is there;
/// nothing is taken away. On failure the tree is left as it was.
pub fn copy_dir(tree: &mut FileTree, src: &Vec<String>, dst: &Vec<String>) -> (r: Result<
    (),
    TransferError,
>)
    ensures
        match r {
            Ok(()) => can_copy(old(tree)@, src.deep_view(), dst.deep_view()) && final(tree)@
                == copied(old(tree)@, src.deep_view(), dst.deep_view()),
            Err(e) => copy_fault(old(tree)@, src.deep_view(), dst.deep_view(), e@) && final(tree)@
                == old(tree)@,
        },
{
    let ghost m = tree@;
    let ghost s = src.deep_view();
    let ghost d = dst.deep_view();
    match tree.get(src) {
        None => {
            return Err(TransferError::SourceMissing(copy_path(src)));
        },
        Some(node) => {
            if !node.is_dir() {
                let copy = node.duplicate();
                if tree.is_dir(dst) {
                    return Err(TransferError::IsADirectory(copy_path(dst)));
                }
                match check_room(tree, dst) {
                    Err(e) => {
                        return Err(e);
                    },
                    Ok(()) => {},
                }
                tree.insert(copy_path(dst), copy);
                return Ok(());
            }
        },
    }
    proof {
        assert(source_of(s, d, d) =~= s);
        assert(d.is_prefix_of(d));
    }
    if tree.is_file(dst) {
        return Err(TransferError::NotADirectory(copy_path(dst)));
    }
    if !tree.contains(dst) {
        match check_room(tree, dst) {
            Err(e) => {
                return Err(e);
            },
            Ok(()) => {},
        }
    }
    match copy_dir_content(tree, src, dst) {
        Err(e) => {
            return Err(e);
        },
        Ok(()) => {},
    }
    if !tree.contains(dst) {
        tree.insert(copy_path(dst), Node::Dir);
    }
    proof {
        assert(tree@ =~= copied(m, s, d));
    }
    Ok(())
}

/// The part of `text` that starts at `at` and is `len` long.
pub open spec fn window(text: Seq<char>, at: int, len: int) -> Seq<char> {
    text.subrange(at, at + len)
}

/// `part` occurs somewhere in `text`.
pub open spec fn has_infix(text: Seq<char>, part: Seq<char>) -> bool {
    exists|at: int|
        0 <= at && at + part.len() <= text.len() && #[trigger] window(text, at, part.len() as int)
            == part
}

/// Whether `part` occurs somewhere in `text`.
pub fn contains_text(text: &str, part: &str) -> (r: bool)
    ensures
        r == has_infix(text@, part@),
{
    let n = text.unicode_len();
    let m = part.unicode_len();
    if m > n {
        return false;
    }
    if m == 0 {
        assert(window(text@, 0, 0) =~= part@);
        return true;
    }
    let mut at: usize = 0;
    while at <= n - m
        invariant
            0 < m <= n,
            n == text@.len(),
            m == part@.len(),
            at <= n - m + 1,
            forall|k: int| 0 <= k < at ==> window(text@, k, m as int) != part@,
        decreases n - m + 1 - at,
    {
        let mut j: usize = 0;
        let mut same = true;
        while j < m
            invariant_except_break
                same,
                forall|l: int| 0 <= l < j ==> text@[at + l] == part@[l],
            invariant
                j <= m,
                at + m <= n,
                n == text@.len(),
                m == part@.len(),
            ensures
                same ==> forall|l: int| 0 <= l < m ==> text@[at + l] == part@[l],
                !same ==> window(text@, at as int, m as int) != part@,
            decreases m - j,
        {
            if text.get_char(at + j) != part.get_char(j) {
                same = false;
                assert(window(text@, at as int, m as int)[j as int] != part@[j as int]);
                break;
            }
            j += 1;
        }
        if same {
            assert(window(text@, at as int, m as int) =~= part@);
            return true;
        }
        at += 1;
    }
    false
}

/// The names that a stage picks files by.
#[derive(Debug, Clone, Copy, PartialEq, Eq, Structural)]
pub enum NameFilter {
    /// Signature files: a name that holds `.RSA`, `.MF` or `.SF`.
    Signature,
    /// Bytecode files: a name that holds `.dex`.
    Bytecode,
}

/// The filter lets the name through.
pub open spec fn passes(filter: NameFilter, name: Seq<char>) -> bool {
    match filter {
        NameFilter::Signature => has_infix(name, ".RSA"@) || has_infix(name, ".MF"@) || has_infix(
            name,
            ".SF"@,
        ),
        NameFilter::Bytecode => has_infix(name, ".dex"@),
    }
}

impl NameFilter {
    /// Whether the filter lets `name` through.
    pub fn matches(self, name: &str) -> (r: bool)
        ensures
            r == passes(self, name@),
    {
        match self {
            NameFilter::Signature => contains_text(name, ".RSA") || contains_text(name, ".MF")
                || contains_text(name, ".SF"),
            NameFilter::Bytecode => contains_text(name, ".dex"),
        }
    }
}

/// `q` is a regular file that lies directly in the directory `dir` and whose
/// name the filter lets through.
pub open spec fn selected(
    m: Map<Seq<Seq<char>>, NodeView>,
    dir: Seq<Seq<char>>,
    filter: NameFilter,
    q: Seq<Seq<char>>,
) -> bool {
    &&& q.len() == dir.len() + 1
    &&& dir.is_prefix_of(q)
    &&& file_at(m, q)
    &&& passes(filter, q.last())
}

/// One of `paths` is `q`.
pub open spec fn names(paths: Seq<Vec<String>>, q: Seq<Seq<char>>) -> bool {
    exists|k: int| 0 <= k < paths.len() && (#[trigger] paths[k]).deep_view() == q
}

/// The regular files that lie directly in `dir` and whose names the filter
/// lets through.
pub fn matching_files(tree: &FileTree, dir: &Vec<String>, filter: NameFilter) -> (r: Vec<
    Vec<String>,
>)
    ensures
        forall|k: int|
            0 <= k < r.len() ==> selected(tree@, dir.deep_view(), filter, (#[trigger] r[k]).deep_view()),
        forall|q: Seq<Seq<char>>| selected(tree@, dir.deep_view(), filter, q) ==> names(r@, q),
{
    let mut found: Vec<Vec<String>> = Vec::new();
    let n = tree.len();
    let mut i: usize = 0;
    while i < n
        invariant
            i <= n == tree.listing().len(),
            forall|k: int|
                0 <= k < found.len() ==> selected(
                    tree@,
                    dir.deep_view(),
                    filter,
                    (#[trigger] found[k]).deep_view(),
                ),
            forall|j: int|
                0 <= j < i && selected(
                    tree@,
                    dir.deep_view(),
                    filter,
                    (#[trigger] tree.listing()[j]).0,
                ) ==> names(found@, tree.listing()[j].0),
        decreases n - i,
    {
        let path = tree.path_of(i);
        let ghost p = path.deep_view();
        if path.len() > 0 && path.len() - 1 == dir.len() && has_prefix(path, dir) && tree.is_file(
            path,
        ) && filter.matches(path[path.len() - 1].as_str()) {
            assert(p.last() == path[path.len() - 1]@);
            let ghost before = found@;
            found.push(copy_path(path));
            proof {
                assert forall|j: int|
                    0 <= j < i && selected(
                        tree@,
                        dir.deep_view(),
                        filter,
                        (#[trigger] tree.listing()[j]).0,
                    ) implies names(found@, tree.listing()[j].0) by {
                    let k = choose|k: int|
                        0 <= k < before.len() && (#[trigger] before[k]).deep_view()
                            == tree.listing()[j].0;
                    assert(found@[k] == before[k]);
                }
                assert(found@[found.len() - 1].deep_view() == p);
            }
        } else {
            assert(!selected(tree@, dir.deep_view(), filter, p)) by {
                if p.len() > 0 {
                    assert(p.last() == path[path.len() - 1]@);
                }
            }
        }
        i += 1;
    }
    proof {
        assert forall|q: Seq<Seq<char>>| selected(tree@, dir.deep_view(), filter, q) implies names(
            found@,
            q,
        ) by {
            lemma_bound_is_listed(tree.listing(), q);
        }
    }
    found
}

/// The map without the regular files that lie directly in `dir` and whose
/// names the filter lets through.
pub open spec fn stripped(
    m: Map<Seq<Seq<char>>, NodeView>,
    dir: Seq<Seq<char>>,
    filter: NameFilter,
) -> Map<Seq<Seq<char>>, NodeView> {
    m.remove_keys(Set::new(|q: Seq<Seq<char>>| selected(m, dir, filter, q)))
}

/// Takes away the regular files that lie directly in `dir` and whose names
/// the filter lets through. Directories stay, whatever they are called.
pub fn remove_matching(tree: &mut FileTree, dir: &Vec<String>, filter: NameFilter)
    ensures
        final(tree)@ == stripped(old(tree)@, dir.deep_view(), filter),
{
    let doomed = matching_files(tree, dir, filter);
    let ghost m = tree@;
    let mut k: usize = 0;
    while k < doomed.len()
        invariant
            k <= doomed.len(),
            forall|q: Seq<Seq<char>>|
                tree@.contains_key(q) <==> m.contains_key(q) && !names(doomed@.take(k as int), q),
            forall|q: Seq<Seq<char>>| tree@.contains_key(q) ==> tree@[q] == m[q],
        decreases doomed.len() - k,
    {
        let ghost before = tree@;
        tree.remove(&doomed[k]);
        proof {
            let gone = doomed[k as int].deep_view();
            let earlier = doomed@.take(k as int);
            let now = doomed@.take(k + 1);
            assert(now[k as int] == doomed@[k as int]);
            assert forall|q: Seq<Seq<char>>| names(now, q) <==> names(earlier, q) || q == gone by {
                if names(earlier, q) {
                    let w = choose|w: int|
                        0 <= w < earlier.len() && (#[trigger] earlier[w]).deep_view() == q;
                    assert(now[w] == earlier[w]);
                }
                if names(now, q) {
                    let w = choose|w: int| 0 <= w < now.len() && (#[trigger] now[w]).deep_view() == q;
                    if w < k {
                        assert(earlier[w] == now[w]);
                    }
                }
            }
            assert forall|q: Seq<Seq<char>>|
                tree@.contains_key(q) <==> m.contains_key(q) && !names(now, q) by {
                assert(before.contains_key(q) <==> m.contains_key(q) && !names(earlier, q));
                assert(names(now, q) <==> names(earlier, q) || q == gone);
            }
        }
        k += 1;
    }
    proof {
        assert(doomed@.take(doomed.len() as int) =~= doomed@);
        assert forall|q: Seq<Seq<char>>| names(doomed@, q) implies selected(
            m,
            dir.deep_view(),
            filter,
            q,
        ) by {
            let w = choose|w: int| 0 <= w < doomed@.len() && (#[trigger] doomed@[w]).deep_view() == q;
        }
        assert(tree@ =~= stripped(m, dir.deep_view(), filter));
    }
}

/// What gathering brings to the directory `to`: under each name that the
/// filter lets through, the regular file of that name in `dir`.
pub open spec fn gathered(
    m: Map<Seq<Seq<char>>, NodeView>,
    dir: Seq<Seq<char>>,
    to: Seq<Seq<char>>,
    filter: NameFilter,
) -> Map<Seq<Seq<char>>, NodeView> {
    Map::new(
        |t: Seq<Seq<char>>|
            t.len() == to.len() + 1 && to.is_prefix_of(t) && selected(
                m,
                dir,
                filter,
                dir.push(t.last()),
            ),
        |t: Seq<Seq<char>>| m[dir.push(t.last())],
    )
}

/// None of the files to gather meets a directory of its own name in `to`.
pub open spec fn can_gather(
    m: Map<Seq<Seq<char>>, NodeView>,
    dir: Seq<Seq<char>>,
    to: Seq<Seq<char>>,
    filter: NameFilter,
) -> bool {
    forall|q: Seq<Seq<char>>| selected(m, dir, filter, q) ==> !dir_at(m, #[trigger] to.push(q.last()))
}

/// The fault `e` is one that stands in the way of gathering: a directory in
/// `to` that has the name of a file to gather.
pub open spec fn gather_fault(
    m: Map<Seq<Seq<char>>, NodeView>,
    dir: Seq<Seq<char>>,
    to: Seq<Seq<char>>,
    filter: NameFilter,
    e: TransferFault,
) -> bool {
    e matches TransferFault::IsADirectory(t) && t.len() == to.len() + 1 && to.is_prefix_of(t)
        && selected(m, dir, filter, dir.push(t.last())) && dir_at(m, t)
}

/// Copies into the directory `to` the regular files that lie directly in
/// `dir` and whose names the filter lets through, each under its own name.
/// On failure the tree is left as it was.
pub fn copy_matching(
    tree: &mut FileTree,
    dir: &Vec<String>,
    to: &Vec<String>,
    filter: NameFilter,
) -> (r: Result<(), TransferError>)
    ensures
        match r {
            Ok(()) => can_gather(old(tree)@, dir.deep_view(), to.deep_view(), filter) && final(tree)@ == old(tree)@.union_prefer_right(
                gathered(old(tree)@, dir.deep_view(), to.deep_view(), filter),
            ),
            Err(e) => gather_fault(old(tree)@, dir.deep_view(), to.deep_view(), filter, e@)
                && final(tree)@ == old(tree)@,
        },
{
    let picks = matching_files(tree, dir, filter);
    let ghost m = tree@;
    let ghost d = dir.deep_view();
    let ghost o = to.deep_view();
    let mut additions = FileTree::new();
    let mut k: usize = 0;
    while k < picks.len()
        invariant
            k <= picks.len(),
            tree@ == m,
            m == old(tree)@,
            d == dir.deep_view(),
            o == to.deep_view(),
            forall|j: int|
                0 <= j < picks.len() ==> selected(m, d, filter, (#[trigger] picks[j]).deep_view()),
            forall|q: Seq<Seq<char>>| selected(m, d, filter, q) ==> names(picks@, q),
            forall|t: Seq<Seq<char>>| #[trigger]
                additions@.contains_key(t) <==> t.len() == o.len() + 1 && o.is_prefix_of(t)
                    && names(picks@.take(k as int), d.push(t.last())),
            forall|t: Seq<Seq<char>>| #[trigger]
                additions@.contains_key(t) ==> additions@[t] == m[d.push(t.last())],
            forall|j: int|
                0 <= j < k ==> !dir_at(m, o.push((#[trigger] picks[j]).deep_view().last())),
        decreases picks.len() - k,
    {
        let pick = &picks[k];
        let ghost p = pick.deep_view();
        assert(selected(m, d, filter, p));
        assert(p =~= d.push(p.last()));
        let name = pick[pick.len() - 1].as_str();
        let target = crate::tree::child(to, name);
        let ghost t0 = target.deep_view();
        assert(t0.last() == p.last());
        assert(o.is_prefix_of(t0)) by {
            assert(t0.subrange(0, o.len() as int) =~= o);
        }
        if tree.is_dir(&target) {
            return Err(TransferError::IsADirectory(target));
        }
        let node = match tree.get(pick) {
            Some(found) => found.duplicate(),
            None => Node::Dir,
        };
        let ghost held = additions@;
        additions.insert(target, node);
        proof {
            let earlier = picks@.take(k as int);
            let now = picks@.take(k + 1);
            assert(now[k as int] == picks@[k as int]);
            assert forall|q: Seq<Seq<char>>| names(now, q) <==> names(earlier, q) || q == p by {
                if names(earlier, q) {
                    let w = choose|w: int|
                        0 <= w < earlier.len() && (#[trigger] earlier[w]).deep_view() == q;
                    assert(now[w] == earlier[w]);
                }
                if names(now, q) {
                    let w = choose|w: int| 0 <= w < now.len() && (#[trigger] now[w]).deep_view() == q;
                    if w < k {
                        assert(earlier[w] == now[w]);
                    }
                }
            }
            assert forall|t: Seq<Seq<char>>| #[trigger]
                additions@.contains_key(t) <==> t.len() == o.len() + 1 && o.is_prefix_of(t)
                    && names(now, d.push(t.last())) by {
                if t.len() == o.len() + 1 && o.is_prefix_of(t) && d.push(t.last()) == p {
                    assert(d.push(t.last()).last() == t.last());
                    assert(t =~= o.push(t.last()));
                }
                if t == t0 {
                    assert(d.push(t.last()) =~= p);
                }
                assert(held.contains_key(t) <==> t.len() == o.len() + 1 && o.is_prefix_of(t)
                    && names(earlier, d.push(t.last())));
            }
            assert forall|t: Seq<Seq<char>>| #[trigger]
                additions@.contains_key(t) implies additions@[t] == m[d.push(t.last())] by {
                if t != t0 {
                    assert(held.contains_key(t));
                } else {
                    assert(d.push(t.last()) =~= p);
                }
            }
        }
        k += 1;
    }
    proof {
        assert(picks@.take(picks.len() as int) =~= picks@);
        assert forall|q: Seq<Seq<char>>| names(picks@, q) implies selected(m, d, filter, q) by {
            let w = choose|w: int| 0 <= w < picks@.len() && (#[trigger] picks@[w]).deep_view() == q;
        }
        assert(additions@ =~= gathered(m, d, o, filter));
        assert forall|q: Seq<Seq<char>>| selected(m, d, filter, q) implies !dir_at(
            m,
            #[trigger] o.push(q.last()),
        ) by {
            assert(names(picks@, q));
            let w = choose|w: int| 0 <= w < picks@.len() && (#[trigger] picks@[w]).deep_view() == q;
            assert(picks[w].deep_view() == q);
        }
    }
    tree.absorb(additions);
    Ok(())
}

} // verus!
