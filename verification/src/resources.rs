//! The stage between unpacking the linked package and packing the module:
//! what was decoded into the output directory is laid out, below the module
//! directory, the way the bundle builder expects it.

use crate::file_path::{push_name, steps, steps_of, PathName};
use crate::transfer::{
    can_copy, can_copy_file, can_gather, copied, copy_dir, copy_fault, copy_matching,
    create_dir_all, cut_file, digests_agree, dirs_fault, dirs_free, dirs_made, file_at, gather_fault,
    gathered, landed_at, lemma_copy_fault_bars, lemma_copy_merges, move_fault, passes, remove_matching, selected,
    stripped, NameFilter, TransferError, TransferFault,
};
use crate::tree::{FileTree, NodeView};
use vstd::prelude::*;

verus! {

/// The name of the manifest file.
pub open spec fn manifest_name() -> Seq<char> {
    "AndroidManifest.xml"@
}

/// The map with directories made down to `path`, if no regular file is in the
/// way.
pub open spec fn after_dirs(
    state: Option<Map<Seq<Seq<char>>, NodeView>>,
    path: Seq<Seq<char>>,
) -> Option<Map<Seq<Seq<char>>, NodeView>> {
    match state {
        Some(m) => if dirs_free(m, path, path.len() as int + 1) {
            Some(dirs_made(m, path, path.len() as int + 1))
        } else {
            None
        },
        None => None,
    }
}

/// The map after the verified move from `from` to `to`, if the move can be
/// made and the copy, which left the bytes `landed`, has the digest of its
/// source.
pub open spec fn after_move(
    state: Option<Map<Seq<Seq<char>>, NodeView>>,
    from: Seq<Seq<char>>,
    to: Seq<Seq<char>>,
    landed: Seq<u8>,
) -> Option<Map<Seq<Seq<char>>, NodeView>> {
    match state {
        Some(m) => if can_copy_file(m, from, to) && digests_agree(m, from, to, landed) {
            Some(landed_at(m, to, landed).remove(from))
        } else {
            None
        },
        None => None,
    }
}

/// The map after the part that the output directory has at `src` was taken
/// over to `dst`: unchanged where there is nothing at `src`; otherwise with
/// directories made down to `dst` and `src` copied into it.
pub open spec fn after_part(
    state: Option<Map<Seq<Seq<char>>, NodeView>>,
    src: Seq<Seq<char>>,
    dst: Seq<Seq<char>>,
) -> Option<Map<Seq<Seq<char>>, NodeView>> {
    match state {
        Some(m) => if !m.contains_key(src) {
            Some(m)
        } else {
            match after_dirs(Some(m), dst) {
                Some(made) => if can_copy(made, src, dst) {
                    Some(copied(made, src, dst))
                } else {
                    None
                },
                None => None,
            }
        },
        None => None,
    }
}

/// The map after the package's own `META-INF` was taken over, as any other
/// part is, and the signature files that lie directly in the copy were taken
/// away. Where the package has no `META-INF`, nothing changes.
pub open spec fn after_signatures(state: Option<Map<Seq<Seq<char>>, NodeView>>) -> Option<
    Map<Seq<Seq<char>>, NodeView>,
> {
    match state {
        Some(m) => if !m.contains_key(steps(PathName::Meta)) {
            Some(m)
        } else {
            match after_part(Some(m), steps(PathName::Meta), steps(PathName::NewMeta)) {
                Some(taken) => Some(stripped(taken, steps(PathName::NewMeta), NameFilter::Signature)),
                None => None,
            }
        },
        None => None,
    }
}

/// The map after the bytecode files that lie directly in the output directory
/// were copied into the module's bytecode directory.
pub open spec fn after_bytecode(state: Option<Map<Seq<Seq<char>>, NodeView>>) -> Option<
    Map<Seq<Seq<char>>, NodeView>,
> {
    match state {
        Some(m) => if can_gather(m, steps(PathName::Root), steps(PathName::Dex), NameFilter::Bytecode) {
            Some(
                m.union_prefer_right(
                    gathered(m, steps(PathName::Root), steps(PathName::Dex), NameFilter::Bytecode),
                ),
            )
        } else {
            None
        },
        None => None,
    }
}

/// Where the manifest lies after the package shell was unpacked.
pub open spec fn manifest_source() -> Seq<Seq<char>> {
    steps(PathName::BaseDir).push(manifest_name())
}

/// Where the bundle builder looks for the manifest.
pub open spec fn manifest_target() -> Seq<Seq<char>> {
    steps(PathName::Manifest).push(manifest_name())
}

/// The number of steps that the stage takes.
pub open spec fn step_count() -> int {
    10
}

/// The map after one step of the stage, the one numbered `index`. In order:
/// the manifest's directory is made; the manifest is moved into it, with
/// verification; assets and native libraries are taken over; the module's
/// catch-all directory is made; files of unknown kind and Kotlin metadata are
/// taken over; `META-INF` is taken over without its signature files; the
/// bytecode directory is made; the bytecode files are copied into it.
pub open spec fn step(
    state: Option<Map<Seq<Seq<char>>, NodeView>>,
    landed: Seq<u8>,
    index: int,
) -> Option<Map<Seq<Seq<char>>, NodeView>> {
    if index == 0 {
        after_dirs(state, steps(PathName::Manifest))
    } else if index == 1 {
        after_move(state, manifest_source(), manifest_target(), landed)
    } else if index == 2 {
        after_part(state, steps(PathName::Assets), steps(PathName::NewAssets))
    } else if index == 3 {
        after_part(state, steps(PathName::Lib), steps(PathName::NewLib))
    } else if index == 4 {
        after_dirs(state, steps(PathName::BaseRoot))
    } else if index == 5 {
        after_part(state, steps(PathName::Unknown), steps(PathName::NewUnknown))
    } else if index == 6 {
        after_part(state, steps(PathName::Kotlin), steps(PathName::NewKotlin))
    } else if index == 7 {
        after_signatures(state)
    } else if index == 8 {
        after_dirs(state, steps(PathName::Dex))
    } else {
        after_bytecode(state)
    }
}

/// The map after the first `count` steps of the stage, if none of them
/// failed.
pub open spec fn after_steps(
    m: Map<Seq<Seq<char>>, NodeView>,
    landed: Seq<u8>,
    count: int,
) -> Option<Map<Seq<Seq<char>>, NodeView>>
    decreases count,
{
    if count <= 0 {
        Some(m)
    } else {
        step(after_steps(m, landed, count - 1), landed, count - 1)
    }
}

/// The map after the whole stage, if no step failed.
pub open spec fn resources_copied(m: Map<Seq<Seq<char>>, NodeView>, landed: Seq<u8>) -> Option<
    Map<Seq<Seq<char>>, NodeView>,
> {
    after_steps(m, landed, step_count())
}

/// The fault `e` is one that stands in the way of taking the part at `src`
/// over to `dst`.
pub open spec fn part_fault(
    m: Map<Seq<Seq<char>>, NodeView>,
    src: Seq<Seq<char>>,
    dst: Seq<Seq<char>>,
    e: TransferFault,
) -> bool {
    m.contains_key(src) && match after_dirs(Some(m), dst) {
        Some(made) => copy_fault(made, src, dst, e),
        None => dirs_fault(m, dst, e),
    }
}

/// The fault `e` is one that stands in the way of the step numbered `index`,
/// taken on the map `m`.
pub open spec fn step_fault(
    m: Map<Seq<Seq<char>>, NodeView>,
    landed: Seq<u8>,
    index: int,
    e: TransferFault,
) -> bool {
    if index == 0 {
        dirs_fault(m, steps(PathName::Manifest), e)
    } else if index == 1 {
        move_fault(m, manifest_source(), manifest_target(), landed, e)
    } else if index == 2 {
        part_fault(m, steps(PathName::Assets), steps(PathName::NewAssets), e)
    } else if index == 3 {
        part_fault(m, steps(PathName::Lib), steps(PathName::NewLib), e)
    } else if index == 4 {
        dirs_fault(m, steps(PathName::BaseRoot), e)
    } else if index == 5 {
        part_fault(m, steps(PathName::Unknown), steps(PathName::NewUnknown), e)
    } else if index == 6 {
        part_fault(m, steps(PathName::Kotlin), steps(PathName::NewKotlin), e)
    } else if index == 7 {
        part_fault(m, steps(PathName::Meta), steps(PathName::NewMeta), e)
    } else if index == 8 {
        dirs_fault(m, steps(PathName::Dex), e)
    } else {
        gather_fault(m, steps(PathName::Root), steps(PathName::Dex), NameFilter::Bytecode, e)
    }
}

/// The stage failed at the step numbered `index` with the fault `e`: the
/// steps before it went through, and `e` stands in the way of this one.
pub open spec fn failed_at(
    m: Map<Seq<Seq<char>>, NodeView>,
    landed: Seq<u8>,
    index: int,
    e: TransferFault,
) -> bool {
    &&& 0 <= index < step_count()
    &&& after_steps(m, landed, index) matches Some(reached)
    &&& step_fault(reached, landed, index, e)
}

/// A step that a fault stands in the way of does not go through, and neither
/// does the stage.
pub proof fn lemma_fault_stops_stage(
    m: Map<Seq<Seq<char>>, NodeView>,
    landed: Seq<u8>,
    index: int,
    e: TransferFault,
)
    requires
        failed_at(m, landed, index, e),
    ensures
        after_steps(m, landed, index + 1) is None,
        resources_copied(m, landed) is None,
{
    let reached = after_steps(m, landed, index)->0;
    lemma_step_fault_bars(reached, landed, index, e);
    lemma_none_stays(m, landed, index + 1, step_count());
}

/// A file among the prefixes of `path` bars the making of directories down
/// to `path`.
pub proof fn lemma_dirs_fault_bars(
    m: Map<Seq<Seq<char>>, NodeView>,
    path: Seq<Seq<char>>,
    e: TransferFault,
)
    requires
        dirs_fault(m, path, e),
    ensures
        after_dirs(Some(m), path) is None,
{
    let p = e->NotADirectory_0;
    assert(path.take(p.len() as int) =~= p);
}

/// A fault that stands in the way of taking a part over bars it.
pub proof fn lemma_part_fault_bars(
    m: Map<Seq<Seq<char>>, NodeView>,
    src: Seq<Seq<char>>,
    dst: Seq<Seq<char>>,
    e: TransferFault,
)
    requires
        part_fault(m, src, dst, e),
    ensures
        after_part(Some(m), src, dst) is None,
{
    match after_dirs(Some(m), dst) {
        Some(made) => {
            lemma_copy_fault_bars(made, src, dst, e);
        },
        None => {},
    }
}

/// A fault that stands in the way of a step bars it.
pub proof fn lemma_step_fault_bars(
    m: Map<Seq<Seq<char>>, NodeView>,
    landed: Seq<u8>,
    index: int,
    e: TransferFault,
)
    requires
        0 <= index < step_count(),
        step_fault(m, landed, index, e),
    ensures
        step(Some(m), landed, index) is None,
{
    if index == 0 {
        lemma_dirs_fault_bars(m, steps(PathName::Manifest), e);
    } else if index == 1 {
    } else if index == 2 {
        lemma_part_fault_bars(m, steps(PathName::Assets), steps(PathName::NewAssets), e);
    } else if index == 3 {
        lemma_part_fault_bars(m, steps(PathName::Lib), steps(PathName::NewLib), e);
    } else if index == 4 {
        lemma_dirs_fault_bars(m, steps(PathName::BaseRoot), e);
    } else if index == 5 {
        lemma_part_fault_bars(m, steps(PathName::Unknown), steps(PathName::NewUnknown), e);
    } else if index == 6 {
        lemma_part_fault_bars(m, steps(PathName::Kotlin), steps(PathName::NewKotlin), e);
    } else if index == 7 {
        lemma_part_fault_bars(m, steps(PathName::Meta), steps(PathName::NewMeta), e);
    } else if index == 8 {
        lemma_dirs_fault_bars(m, steps(PathName::Dex), e);
    } else {
        let t = e->IsADirectory_0;
        let dir = steps(PathName::Root);
        let to = steps(PathName::Dex);
        let q = dir.push(t.last());
        assert(q.last() == t.last());
        assert(to.push(q.last()) =~= t);
    }
}

/// Once a step has failed, no later state exists.
pub proof fn lemma_none_stays(
    m: Map<Seq<Seq<char>>, NodeView>,
    landed: Seq<u8>,
    from: int,
    to: int,
)
    requires
        from <= to,
        after_steps(m, landed, from) is None,
    ensures
        after_steps(m, landed, to) is None,
    decreases to - from,
{
    if from < to {
        lemma_none_stays(m, landed, from, to - 1);
    }
}

/// What the tree holds when the stage begins it still holds when the stage
/// comes to `META-INF`, but for the manifest, which has moved.
pub proof fn lemma_early_steps_keep(
    m: Map<Seq<Seq<char>>, NodeView>,
    landed: Seq<u8>,
    count: int,
    q: Seq<Seq<char>>,
)
    requires
        0 <= count <= 7,
        m.contains_key(q),
        q != manifest_source(),
        after_steps(m, landed, count) is Some,
    ensures
        after_steps(m, landed, count)->0.contains_key(q),
    decreases count,
{
    if count > 0 {
        let index = count - 1;
        let before = after_steps(m, landed, index);
        lemma_early_steps_keep(m, landed, index, q);
        let b = before->0;
        if index == 2 {
            lemma_part_keeps(b, steps(PathName::Assets), steps(PathName::NewAssets), q);
        } else if index == 3 {
            lemma_part_keeps(b, steps(PathName::Lib), steps(PathName::NewLib), q);
        } else if index == 5 {
            lemma_part_keeps(b, steps(PathName::Unknown), steps(PathName::NewUnknown), q);
        } else if index == 6 {
            lemma_part_keeps(b, steps(PathName::Kotlin), steps(PathName::NewKotlin), q);
        }
    }
}

/// Taking a part over takes nothing away.
pub proof fn lemma_part_keeps(
    m: Map<Seq<Seq<char>>, NodeView>,
    src: Seq<Seq<char>>,
    dst: Seq<Seq<char>>,
    q: Seq<Seq<char>>,
)
    requires
        m.contains_key(q),
        after_part(Some(m), src, dst) is Some,
    ensures
        after_part(Some(m), src, dst)->0.contains_key(q),
{
    if m.contains_key(src) {
        let made = after_dirs(Some(m), dst)->0;
        lemma_copy_merges(made, src, dst, q);
    }
}

/// No signature file is left in the copy of `META-INF`. Where the output
/// directory holds the package's own `META-INF` and the stage goes through,
/// no regular file that lies directly in the module's `META-INF` afterwards
/// has `.RSA`, `.MF` or `.SF` in its name.
pub proof fn lemma_no_signature_file_remains(
    m: Map<Seq<Seq<char>>, NodeView>,
    landed: Seq<u8>,
    name: Seq<char>,
)
    requires
        m.contains_key(steps(PathName::Meta)),
        resources_copied(m, landed) is Some,
    ensures
        file_at(resources_copied(m, landed)->0, steps(PathName::NewMeta).push(name)) ==> !passes(
            NameFilter::Signature,
            name,
        ),
{
    reveal_with_fuel(steps, 4);
    reveal_with_fuel(after_steps, 4);
    let q = steps(PathName::NewMeta).push(name);
    let meta = steps(PathName::Meta);
    let new_meta = steps(PathName::NewMeta);
    let dex = steps(PathName::Dex);
    assert(new_meta.len() == 4);
    assert(dex.len() == 2);
    assert(q.last() == name);
    assert(new_meta.is_prefix_of(q)) by {
        assert(q.subrange(0, new_meta.len() as int) =~= new_meta);
    }
    let s10 = after_steps(m, landed, 10);
    let s9 = after_steps(m, landed, 9);
    let s8 = after_steps(m, landed, 8);
    let s7 = after_steps(m, landed, 7);
    assert(s10 == step(s9, landed, 9));
    assert(s9 == step(s8, landed, 8));
    assert(s8 == step(s7, landed, 7));
    assert(s7 is Some);
    assert(meta != manifest_source()) by {
        assert(meta[1] == "META-INF"@);
        assert(manifest_source()[1] == "AndroidManifest.xml"@);
        reveal_strlit("META-INF");
        reveal_strlit("AndroidManifest.xml");
        assert("META-INF"@.len() != "AndroidManifest.xml"@.len());
    }
    lemma_early_steps_keep(m, landed, 7, meta);
    let taken = after_part(s7, meta, new_meta)->0;
    assert(s8->0 == stripped(taken, new_meta, NameFilter::Signature));
    if file_at(s10->0, q) {
        assert(!q.is_prefix_of(dex));
        assert(file_at(s9->0, q));
        assert(file_at(s8->0, q));
        assert(file_at(taken, q));
        assert(!selected(taken, new_meta, NameFilter::Signature, q));
    }
}

/// Takes the part that the tree has at `src` over to `dst`: where there is
/// nothing at `src`, nothing happens; otherwise directories are made down to
/// `dst` and `src` is copied into it.
pub fn copy_part(tree: &mut FileTree, src: &Vec<String>, dst: &Vec<String>) -> (r: Result<
    (),
    TransferError,
>)
    ensures
        match r {
            Ok(()) => after_part(Some(old(tree)@), src.deep_view(), dst.deep_view()) == Some(
                final(tree)@,
            ),
            Err(e) => part_fault(old(tree)@, src.deep_view(), dst.deep_view(), e@),
        },
{
    if !tree.contains(src) {
        return Ok(());
    }
    match create_dir_all(tree, dst) {
        Err(e) => {
            return Err(e);
        },
        Ok(()) => {},
    }
    copy_dir(tree, src, dst)
}

/// Lays out below the module directory what was decoded into the output
/// directory. `tree` is the output directory; `manifest_copy` holds the
/// bytes that the copy of the manifest left at its destination.
///
/// The steps are those of [`step`], in that order; the first that fails ends
/// the stage, and its fault is returned.
pub fn copy_resources(tree: FileTree, manifest_copy: &Vec<u8>) -> (r: Result<
    FileTree,
    TransferError,
>)
    ensures
        match r {
            Ok(laid_out) => resources_copied(tree@, manifest_copy@) == Some(laid_out@),
            Err(e) => resources_copied(tree@, manifest_copy@) is None && exists|index: int|
                failed_at(tree@, manifest_copy@, index, e@),
        },
{
    let ghost m = tree@;
    let ghost l = manifest_copy@;
    let mut t = tree;
    assert(after_steps(m, l, 0) == Some(t@));

    let manifest_dir = steps_of(PathName::Manifest);
    match create_dir_all(&mut t, &manifest_dir) {
        Err(e) => {
            proof {
                assert(failed_at(m, l, 0, e@));
                lemma_fault_stops_stage(m, l, 0, e@);
            }
            return Err(e);
        },
        Ok(()) => {},
    }
    assert(after_steps(m, l, 1) == Some(t@));

    let mut from = steps_of(PathName::BaseDir);
    push_name(&mut from, "AndroidManifest.xml");
    let mut to = steps_of(PathName::Manifest);
    push_name(&mut to, "AndroidManifest.xml");
    match cut_file(&mut t, &from, &to, manifest_copy) {
        Err(e) => {
            proof {
                assert(failed_at(m, l, 1, e@));
                lemma_fault_stops_stage(m, l, 1, e@);
            }
            return Err(e);
        },
        Ok(()) => {},
    }
    assert(after_steps(m, l, 2) == Some(t@));

    match copy_part(&mut t, &steps_of(PathName::Assets), &steps_of(PathName::NewAssets)) {
        Err(e) => {
            proof {
                assert(failed_at(m, l, 2, e@));
                lemma_fault_stops_stage(m, l, 2, e@);
            }
            return Err(e);
        },
        Ok(()) => {},
    }
    assert(after_steps(m, l, 3) == Some(t@));

    match copy_part(&mut t, &steps_of(PathName::Lib), &steps_of(PathName::NewLib)) {
        Err(e) => {
            proof {
                assert(failed_at(m, l, 3, e@));
                lemma_fault_stops_stage(m, l, 3, e@);
            }
            return Err(e);
        },
        Ok(()) => {},
    }
    assert(after_steps(m, l, 4) == Some(t@));

    match create_dir_all(&mut t, &steps_of(PathName::BaseRoot)) {
        Err(e) => {
            proof {
                assert(failed_at(m, l, 4, e@));
                lemma_fault_stops_stage(m, l, 4, e@);
            }
            return Err(e);
        },
        Ok(()) => {},
    }
    assert(after_steps(m, l, 5) == Some(t@));

    match copy_part(&mut t, &steps_of(PathName::Unknown), &steps_of(PathName::NewUnknown)) {
        Err(e) => {
            proof {
                assert(failed_at(m, l, 5, e@));
                lemma_fault_stops_stage(m, l, 5, e@);
            }
            return Err(e);
        },
        Ok(()) => {},
    }
    assert(after_steps(m, l, 6) == Some(t@));

    match copy_part(&mut t, &steps_of(PathName::Kotlin), &steps_of(PathName::NewKotlin)) {
        Err(e) => {
            proof {
                assert(failed_at(m, l, 6, e@));
                lemma_fault_stops_stage(m, l, 6, e@);
            }
            return Err(e);
        },
        Ok(()) => {},
    }
    assert(after_steps(m, l, 7) == Some(t@));

    let meta = steps_of(PathName::Meta);
    let new_meta = steps_of(PathName::NewMeta);
    let had_meta = t.contains(&meta);
    match copy_part(&mut t, &meta, &new_meta) {
        Err(e) => {
            proof {
                assert(failed_at(m, l, 7, e@));
                lemma_fault_stops_stage(m, l, 7, e@);
            }
            return Err(e);
        },
        Ok(()) => {},
    }
    if had_meta {
        remove_matching(&mut t, &new_meta, NameFilter::Signature);
    }
    assert(after_steps(m, l, 8) == Some(t@));

    match create_dir_all(&mut t, &steps_of(PathName::Dex)) {
        Err(e) => {
            proof {
                assert(failed_at(m, l, 8, e@));
                lemma_fault_stops_stage(m, l, 8, e@);
            }
            return Err(e);
        },
        Ok(()) => {},
    }
    assert(after_steps(m, l, 9) == Some(t@));

    match copy_matching(&mut t, &steps_of(PathName::Root), &steps_of(PathName::Dex), NameFilter::Bytecode) {
        Err(e) => {
            proof {
                assert(failed_at(m, l, 9, e@));
                lemma_fault_stops_stage(m, l, 9, e@);
            }
            return Err(e);
        },
        Ok(()) => {},
    }
    assert(after_steps(m, l, 10) == Some(t@));
    Ok(t)
}

} // verus!
