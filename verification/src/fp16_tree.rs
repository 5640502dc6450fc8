//! What a cache holds, as a tree of names, and what a walk lists of it.
use crate::fp16_cache::{
    artifact_less, is_listing, later_numbers, listed_before, listing_is_strict_total, next_name,
    own_file, rearranged, records, relative, same_artifact, sorted_artifacts, CacheArtifact,
    CacheWalk, EntryKind, WalkFrame, WalkStep, MAX_CACHE_DIRECTORY_DEPTH,
};
use crate::fp16_corpus::InputMetadata;
use crate::order::{is_permutation, orders_are_complete, rearranging_keeps_the_values};
use crate::paths::views;
use vstd::prelude::*;
use vstd::utf8::*;

verus! {

/// What lies at a path of a cache.
pub enum Node {
    File { metadata: InputMetadata, sha256: Seq<char>, size: u64 },
    Directory { names: Seq<Seq<u8>>, private: bool },
    Other,
}

/// A cache that does not change: what lies at each path from it. The cache itself
/// has the empty path.
pub type Tree = spec_fn(Seq<char>) -> Node;

/// The paths of the regular files among a directory's names from `at` on, and
/// below them, down to `reach` more directories. The experiment's own files do not
/// count.
pub open spec fn files_from(
    tree: Tree,
    prefix: Seq<char>,
    names: Seq<Seq<u8>>,
    at: int,
    reach: nat,
) -> Seq<Seq<char>>
    decreases reach, names.len() - at,
{
    if at < 0 || at >= names.len() {
        Seq::empty()
    } else {
        let behind = files_from(tree, prefix, names, at + 1, reach);
        let name = decode_utf8(names[at]);
        let path = relative(prefix, name);
        if !valid_utf8(names[at]) || own_file(prefix, name) {
            behind
        } else {
            match tree(path) {
                Node::File { .. } => seq![path] + behind,
                Node::Directory { names: inner, .. } => if reach > 0 {
                    files_from(tree, path, inner, 0, (reach - 1) as nat) + behind
                } else {
                    behind
                },
                Node::Other => behind,
            }
        }
    }
}

/// The paths of the regular files of a cache, down to `reach` directories below it.
pub open spec fn files_of(tree: Tree, reach: nat) -> Seq<Seq<char>> {
    match tree(Seq::empty()) {
        Node::Directory { names, .. } => files_from(tree, Seq::empty(), names, 0, reach),
        _ => Seq::empty(),
    }
}

/// A directory's names from `at` on, and those below them, are all text and name
/// nothing but the user's own private files and directories.
pub open spec fn all_private_from(
    tree: Tree,
    user: u32,
    prefix: Seq<char>,
    names: Seq<Seq<u8>>,
    at: int,
    reach: nat,
) -> bool
    decreases reach, names.len() - at,
{
    if at < 0 || at >= names.len() {
        true
    } else {
        let name = decode_utf8(names[at]);
        let path = relative(prefix, name);
        &&& valid_utf8(names[at])
        &&& own_file(prefix, name) || (match tree(path) {
            Node::File { metadata, size, .. } => CacheWalk::private_file(metadata, user)
                && metadata.stamp.length == size,
            Node::Directory { names: inner, private } => private && (reach > 0 ==> all_private_from(
                tree,
                user,
                path,
                inner,
                0,
                (reach - 1) as nat,
            )),
            Node::Other => false,
        })
        &&& all_private_from(tree, user, prefix, names, at + 1, reach)
    }
}

pub open spec fn all_private(tree: Tree, user: u32, reach: nat) -> bool {
    tree(Seq::empty()) matches Node::Directory { names, .. } ==> all_private_from(
        tree,
        user,
        Seq::empty(),
        names,
        0,
        reach,
    )
}

/// What kind of entry lies at a path.
pub open spec fn kind_of(node: Node) -> EntryKind {
    match node {
        Node::File { .. } => EntryKind::Regular,
        Node::Directory { .. } => EntryKind::Directory,
        Node::Other => EntryKind::Other,
    }
}

/// `after` follows `before` with what the tree holds where the walk is.
pub open spec fn advances(tree: Tree, user: u32, before: CacheWalk, after: CacheWalk) -> bool {
    let node = tree(before.path());
    &&& after.wf()
    &&& match before.step {
        WalkStep::List => tree(before.entering@) matches Node::Directory { names, .. }
            && before.listed_to(names, after),
        WalkStep::Inspect => before.inspected_to(kind_of(node), after),
        WalkStep::EnterDirectory => node matches Node::Directory { private, .. }
            && before.entered_to(private, after),
        WalkStep::OpenFile => node matches Node::File { metadata, .. } && before.file_opened_to(
            metadata,
            user,
            after,
        ),
        WalkStep::Digest => node matches Node::File { metadata, sha256, size }
            && before.digested_to(sha256, size, metadata.stamp, after),
        WalkStep::Leave => before.left_to(after),
        WalkStep::Finished => false,
        WalkStep::Failed(_) => false,
    }
}

/// `walks` are the states of a walk over an unchanging tree, from its start.
pub open spec fn is_walk(tree: Tree, user: u32, walks: Seq<CacheWalk>) -> bool {
    &&& walks.len() > 0
    &&& walks[0].wf()
    &&& walks[0].step == WalkStep::List
    &&& walks[0].frames@.len() == 0
    &&& walks[0].artifacts@.len() == 0
    &&& walks[0].entering@.len() == 0
    &&& forall|i: int|
        0 <= i < walks.len() - 1 ==> advances(tree, user, #[trigger] walks[i], walks[i + 1])
}

/// The paths of artifacts.
pub open spec fn paths_of(artifacts: Seq<CacheArtifact>) -> Seq<Seq<char>> {
    artifacts.map_values(|artifact: CacheArtifact| artifact.relative_name@)
}

/// An artifact is recorded as the file that lies at its path.
pub open spec fn is_recorded(tree: Tree, artifact: CacheArtifact) -> bool {
    tree(artifact.relative_name@) matches Node::File { metadata, sha256, size } && records(
        artifact,
        artifact.relative_name@,
        metadata,
        sha256,
        size,
    )
}

/// What is left of the directories on the way to where a walk is, the deepest
/// first.
spec fn pending(tree: Tree, frames: Seq<WalkFrame>, reach: nat) -> Seq<Seq<char>>
    decreases frames.len(),
{
    if frames.len() == 0 {
        Seq::empty()
    } else {
        let frame = frames.last();
        files_from(
            tree,
            frame.prefix@,
            views(frame.names@),
            frame.next as int,
            (reach - (frames.len() - 1)) as nat,
        ) + pending(tree, frames.drop_last(), reach)
    }
}

spec fn pending_private(tree: Tree, user: u32, frames: Seq<WalkFrame>, reach: nat) -> bool
    decreases frames.len(),
{
    frames.len() == 0 || {
        let frame = frames.last();
        &&& all_private_from(
            tree,
            user,
            frame.prefix@,
            views(frame.names@),
            frame.next as int,
            (reach - (frames.len() - 1)) as nat,
        )
        &&& pending_private(tree, user, frames.drop_last(), reach)
    }
}

/// The files that a walk has still to list.
spec fn coming(tree: Tree, walk: CacheWalk, reach: nat) -> Seq<Seq<char>> {
    let above = pending(tree, walk.frames@, reach);
    match (walk.step, tree(walk.entering@)) {
        (WalkStep::List, Node::Directory { names, .. }) => files_from(
            tree,
            walk.entering@,
            names,
            0,
            (reach - walk.frames@.len()) as nat,
        ) + above,
        _ => above,
    }
}

spec fn coming_private(tree: Tree, user: u32, walk: CacheWalk, reach: nat) -> bool {
    let above = pending_private(tree, user, walk.frames@, reach);
    match (walk.step, tree(walk.entering@)) {
        (WalkStep::List, Node::Directory { names, .. }) => all_private_from(
            tree,
            user,
            walk.entering@,
            names,
            0,
            (reach - walk.frames@.len()) as nat,
        ) && above,
        _ => above,
    }
}

/// What holds of every state of a walk that has not failed.
spec fn is_accounted(tree: Tree, user: u32, walk: CacheWalk, reach: nat) -> bool {
    walk.step !is Failed ==> {
        &&& paths_of(walk.artifacts@) + coming(tree, walk, reach) == files_of(tree, reach)
        &&& coming_private(tree, user, walk, reach) ==> all_private(tree, user, reach)
        &&& forall|i: int|
            0 <= i < walk.artifacts@.len() ==> is_recorded(tree, #[trigger] walk.artifacts@[i])
        &&& walk.step is EnterDirectory ==> tree(walk.path()) is Directory
        &&& walk.step is OpenFile || walk.step is Digest ==> tree(walk.path()) is File
        &&& walk.step is Digest ==> (tree(walk.path()) matches Node::File { metadata, .. }
            && walk.opened == Some(metadata) && CacheWalk::private_file(metadata, user))
        &&& walk.at_name() ==> !own_file(walk.top().prefix@, walk.name())
        &&& walk.step is Leave || walk.step is Finished ==> is_done(walk)
        &&& walk.step is Finished ==> walk.frames@.len() == 1
    }
}

/// The directory that a walk is in has no more names to look at.
spec fn is_done(walk: CacheWalk) -> bool {
    let names = views(walk.top().names@);
    walk.frames@.len() > 0 && next_name(walk.top().prefix@, names, walk.top().next as int)
        >= names.len()
}

/// Names that the walk passes over add nothing.
proof fn passed_names_add_nothing(
    tree: Tree,
    user: u32,
    prefix: Seq<char>,
    names: Seq<Seq<u8>>,
    at: int,
    reach: nat,
)
    requires
        0 <= at,
    ensures
        ({
            let next = next_name(prefix, names, at);
            &&& at <= next
            &&& files_from(tree, prefix, names, at, reach) == files_from(
                tree,
                prefix,
                names,
                next,
                reach,
            )
            &&& all_private_from(tree, user, prefix, names, at, reach) == all_private_from(
                tree,
                user,
                prefix,
                names,
                next,
                reach,
            )
            &&& next < names.len() && valid_utf8(names[next]) ==> !own_file(
                prefix,
                decode_utf8(names[next]),
            )
        }),
    decreases names.len() - at,
{
    if at < names.len() && valid_utf8(names[at]) && own_file(prefix, decode_utf8(names[at])) {
        passed_names_add_nothing(tree, user, prefix, names, at + 1, reach);
    }
}

proof fn steps_keep_accounts(
    tree: Tree,
    user: u32,
    before: CacheWalk,
    after: CacheWalk,
    reach: nat,
)
    requires
        reach >= MAX_CACHE_DIRECTORY_DEPTH,
        before.wf(),
        is_accounted(tree, user, before, reach),
        advances(tree, user, before, after),
    ensures
        is_accounted(tree, user, after, reach),
{
    let depth = (before.frames@.len() - 1) as nat;
    let left = (reach - depth) as nat;
    let prefix = before.top().prefix@;
    let names = views(before.top().names@);
    let at = before.top().next as int;
    match before.step {
        WalkStep::List => {
            let inner = views(after.top().names@);
            let within = (reach - before.frames@.len()) as nat;
            passed_names_add_nothing(tree, user, before.entering@, inner, 0, within);
            let next = after.top().next as int;
            assert(after.frames@.drop_last() == before.frames@);
            assert(pending(tree, after.frames@, reach) =~= files_from(
                tree,
                before.entering@,
                inner,
                0,
                within,
            ) + pending(tree, before.frames@, reach));
            assert(pending_private(tree, user, after.frames@, reach) == (all_private_from(
                tree,
                user,
                before.entering@,
                inner,
                0,
                within,
            ) && pending_private(tree, user, before.frames@, reach)));
            if after.step is Inspect {
                assert(inner[next] == after.top().names@[next]@);
            }
        },
        WalkStep::Leave => {
            passed_names_add_nothing(tree, user, prefix, names, at, left);
            let above = before.frames@[before.frames@.len() - 2];
            let over = before.frames@.drop_last();
            assert(over.last() == above);
            passed_names_add_nothing(
                tree,
                user,
                above.prefix@,
                views(above.names@),
                above.next as int,
                (left + 1) as nat,
            );
            assert(pending(tree, before.frames@, reach) =~= pending(tree, over, reach));
            assert(pending(tree, after.frames@, reach) =~= pending(tree, over, reach));
            assert(pending_private(tree, user, before.frames@, reach) == pending_private(
                tree,
                user,
                over,
                reach,
            ));
            assert(pending_private(tree, user, after.frames@, reach) == pending_private(
                tree,
                user,
                over,
                reach,
            ));
            let next = after.top().next as int;
            if after.step is Inspect {
                assert(views(after.top().names@)[next] == after.top().names@[next]@);
            }
        },
        WalkStep::Digest => {
            if after.step !is Failed {
                passed_names_add_nothing(tree, user, prefix, names, at + 1, left);
                assert(names[at] == before.top().names@[at]@);
                let path = before.path();
                assert(paths_of(after.artifacts@) =~= paths_of(before.artifacts@) + seq![path]) by {
                    assert(after.artifacts@ =~= before.artifacts@.push(after.artifacts@.last()));
                }
                let rest = pending(tree, before.frames@.drop_last(), reach);
                let behind = files_from(tree, prefix, names, at + 1, left);
                assert(pending(tree, before.frames@, reach) =~= seq![path] + (behind + rest));
                assert(pending(tree, after.frames@, reach) =~= behind + rest);
                assert(paths_of(before.artifacts@) + (seq![path] + (behind + rest)) =~= paths_of(
                    after.artifacts@,
                ) + (behind + rest));
                assert forall|i: int| 0 <= i < after.artifacts@.len() implies is_recorded(
                    tree,
                    #[trigger] after.artifacts@[i],
                ) by {
                    if i < before.artifacts@.len() {
                        assert(after.artifacts@.drop_last()[i] == before.artifacts@[i]);
                    }
                }
            }
        },
        WalkStep::EnterDirectory => {
            if after.step is List {
                assert(names[at] == before.top().names@[at]@);
                let path = before.path();
                let rest = pending(tree, before.frames@.drop_last(), reach);
                let behind = files_from(tree, prefix, names, at + 1, left);
                match tree(path) {
                    Node::Directory { names: inner, .. } => {
                        let within = files_from(tree, path, inner, 0, (left - 1) as nat);
                        assert(pending(tree, before.frames@, reach) =~= (within + behind) + rest);
                        assert(pending(tree, after.frames@, reach) =~= behind + rest);
                        assert((within + behind) + rest =~= within + (behind + rest));
                    },
                    _ => {},
                }
            }
        },
        _ => {},
    }
}

proof fn walks_are_accounted(tree: Tree, user: u32, walks: Seq<CacheWalk>, at: int, reach: nat)
    requires
        reach >= MAX_CACHE_DIRECTORY_DEPTH,
        is_walk(tree, user, walks),
        tree(Seq::empty()) is Directory,
        0 <= at < walks.len(),
    ensures
        walks[at].wf(),
        is_accounted(tree, user, walks[at], reach),
    decreases at,
{
    if at == 0 {
        assert(walks[0].entering@ =~= Seq::empty());
        assert(paths_of(walks[0].artifacts@) =~= Seq::empty());
        let all = files_of(tree, reach);
        assert(all + pending(tree, walks[0].frames@, reach) =~= all);
        assert(Seq::<Seq<char>>::empty() + all =~= all);
    } else {
        walks_are_accounted(tree, user, walks, at - 1, reach);
        assert(advances(tree, user, walks[at - 1], walks[at - 1 + 1]));
        steps_keep_accounts(tree, user, walks[at - 1], walks[at], reach);
    }
}

/// The names in a directory differ, are not empty and hold no slash.
pub open spec fn are_proper(names: Seq<Seq<u8>>) -> bool {
    &&& names.no_duplicates()
    &&& forall|i: int|
        0 <= i < names.len() && valid_utf8(#[trigger] names[i]) ==> decode_utf8(names[i]).len() > 0
            && !decode_utf8(names[i]).contains('/')
}

/// Every directory of a tree has proper names.
pub open spec fn is_proper(tree: Tree) -> bool {
    forall|path: Seq<char>|
        #![trigger tree(path)]
        tree(path) matches Node::Directory { names, .. } ==> are_proper(names)
}

/// `path` is `base` or lies below it.
spec fn descends(path: Seq<char>, base: Seq<char>) -> bool {
    &&& base.len() <= path.len()
    &&& path.take(base.len() as int) == base
    &&& path.len() > base.len() ==> path[base.len() as int] == '/'
}

/// `path` lies at or below one of a directory's names from `at` on.
spec fn descends_from(
    path: Seq<char>,
    prefix: Seq<char>,
    names: Seq<Seq<u8>>,
    at: int,
) -> bool {
    exists|k: int|
        at <= k < names.len() && valid_utf8(#[trigger] names[k]) && descends(
            path,
            relative(prefix, decode_utf8(names[k])),
        )
}

/// Below different names of a directory lie different paths.
proof fn names_part_paths(path: Seq<char>, prefix: Seq<char>, left: Seq<char>, right: Seq<char>)
    requires
        !left.contains('/'),
        !right.contains('/'),
        descends(path, relative(prefix, left)),
        descends(path, relative(prefix, right)),
    ensures
        left == right,
{
    reveal_strlit("/");
    let start: int = if prefix.len() == 0 {
        0
    } else {
        prefix.len() as int + 1
    };
    let first = relative(prefix, left);
    let second = relative(prefix, right);
    assert(first.len() == start + left.len() && second.len() == start + right.len());
    assert(first.skip(start) =~= left);
    assert(second.skip(start) =~= right);
    if left.len() < right.len() {
        assert(right[left.len() as int] == second[first.len() as int]);
        assert(second[first.len() as int] == path.take(second.len() as int)[first.len() as int]);
        assert(right[left.len() as int] == '/');
    } else if right.len() < left.len() {
        assert(left[right.len() as int] == first[second.len() as int]);
        assert(first[second.len() as int] == path.take(first.len() as int)[second.len() as int]);
        assert(left[right.len() as int] == '/');
    }
}

/// Going below a name stays below it.
proof fn inner_paths_descend(path: Seq<char>, base: Seq<char>, name: Seq<char>)
    requires
        base.len() > 0,
        descends(path, relative(base, name)),
    ensures
        descends(path, base),
{
    reveal_strlit("/");
    let whole = relative(base, name);
    assert(path.take(base.len() as int) =~= path.take(whole.len() as int).take(base.len() as int));
    assert(whole.take(base.len() as int) =~= base);
    assert(path[base.len() as int] == path.take(whole.len() as int)[base.len() as int]);
}

proof fn listed_paths_descend(
    tree: Tree,
    prefix: Seq<char>,
    names: Seq<Seq<u8>>,
    at: int,
    reach: nat,
    place: int,
)
    requires
        is_proper(tree),
        are_proper(names),
        0 <= at,
        0 <= place < files_from(tree, prefix, names, at, reach).len(),
    ensures
        descends_from(files_from(tree, prefix, names, at, reach)[place], prefix, names, at),
    decreases reach, names.len() - at, 1int,
{
    let found = files_from(tree, prefix, names, at, reach)[place];
    let part = part_of(tree, prefix, names, at, reach);
    files_are_parted(tree, prefix, names, at, reach);
    if place < part.len() {
        assert(found == part[place]);
        part_descends(tree, prefix, names, at, reach, place);
        assert(valid_utf8(names[at]));
    } else {
        listed_paths_descend(tree, prefix, names, at + 1, reach, place - part.len());
        let k = choose|k: int|
            at + 1 <= k < names.len() && valid_utf8(#[trigger] names[k]) && descends(
                found,
                relative(prefix, decode_utf8(names[k])),
            );
        assert(valid_utf8(names[k]));
    }
}

/// What one name of a directory adds to the list.
spec fn part_of(
    tree: Tree,
    prefix: Seq<char>,
    names: Seq<Seq<u8>>,
    at: int,
    reach: nat,
) -> Seq<Seq<char>> {
    let name = decode_utf8(names[at]);
    let path = relative(prefix, name);
    if !valid_utf8(names[at]) || own_file(prefix, name) {
        Seq::empty()
    } else {
        match tree(path) {
            Node::File { .. } => seq![path],
            Node::Directory { names: inner, .. } => if reach > 0 {
                files_from(tree, path, inner, 0, (reach - 1) as nat)
            } else {
                Seq::empty()
            },
            Node::Other => Seq::empty(),
        }
    }
}

proof fn files_are_parted(
    tree: Tree,
    prefix: Seq<char>,
    names: Seq<Seq<u8>>,
    at: int,
    reach: nat,
)
    requires
        0 <= at < names.len(),
    ensures
        files_from(tree, prefix, names, at, reach) == part_of(tree, prefix, names, at, reach)
            + files_from(tree, prefix, names, at + 1, reach),
{
    let behind = files_from(tree, prefix, names, at + 1, reach);
    assert(Seq::<Seq<char>>::empty() + behind =~= behind);
}

proof fn part_descends(
    tree: Tree,
    prefix: Seq<char>,
    names: Seq<Seq<u8>>,
    at: int,
    reach: nat,
    place: int,
)
    requires
        is_proper(tree),
        are_proper(names),
        0 <= at < names.len(),
        0 <= place < part_of(tree, prefix, names, at, reach).len(),
    ensures
        valid_utf8(names[at]),
        descends(
            part_of(tree, prefix, names, at, reach)[place],
            relative(prefix, decode_utf8(names[at])),
        ),
    decreases reach, names.len() - at, 0int,
{
    reveal_strlit("/");
    let found = part_of(tree, prefix, names, at, reach)[place];
    let path = relative(prefix, decode_utf8(names[at]));
    match tree(path) {
        Node::File { .. } => {
            assert(path.take(path.len() as int) =~= path);
        },
        Node::Directory { names: inner, .. } => {
            assert(path.len() > 0);
            listed_paths_descend(tree, path, inner, 0, (reach - 1) as nat, place);
            let k = choose|k: int|
                0 <= k < inner.len() && valid_utf8(#[trigger] inner[k]) && descends(
                    found,
                    relative(path, decode_utf8(inner[k])),
                );
            inner_paths_descend(found, path, decode_utf8(inner[k]));
        },
        Node::Other => {},
    }
}

proof fn files_differ(
    tree: Tree,
    prefix: Seq<char>,
    names: Seq<Seq<u8>>,
    at: int,
    reach: nat,
)
    requires
        is_proper(tree),
        are_proper(names),
        0 <= at,
    ensures
        files_from(tree, prefix, names, at, reach).no_duplicates(),
    decreases reach, names.len() - at,
{
    if at < names.len() {
        let part = part_of(tree, prefix, names, at, reach);
        let behind = files_from(tree, prefix, names, at + 1, reach);
        let all = files_from(tree, prefix, names, at, reach);
        files_are_parted(tree, prefix, names, at, reach);
        files_differ(tree, prefix, names, at + 1, reach);
        let path = relative(prefix, decode_utf8(names[at]));
        assert(part.no_duplicates()) by {
            match tree(path) {
                Node::Directory { names: inner, .. } => {
                    if reach > 0 {
                        files_differ(tree, path, inner, 0, (reach - 1) as nat);
                    }
                },
                _ => {},
            }
        }
        assert forall|i: int, j: int| 0 <= i < j < all.len() implies all[i] != all[j] by {
            if j < part.len() {
                assert(all[i] == part[i] && all[j] == part[j]);
            } else if i >= part.len() {
                assert(all[i] == behind[i - part.len()] && all[j] == behind[j - part.len()]);
            } else if all[i] == all[j] {
                let found = all[i];
                assert(found == part[i] && found == behind[j - part.len()]);
                part_descends(tree, prefix, names, at, reach, i);
                listed_paths_descend(tree, prefix, names, at + 1, reach, j - part.len());
                let k = choose|k: int|
                    at + 1 <= k < names.len() && valid_utf8(#[trigger] names[k]) && descends(
                        found,
                        relative(prefix, decode_utf8(names[k])),
                    );
                names_part_paths(found, prefix, decode_utf8(names[at]), decode_utf8(names[k]));
                decode_utf8_encode_utf8(names[at]);
                decode_utf8_encode_utf8(names[k]);
                assert(names[at] == names[k]);
            }
        }
    }
}

/// A walk over a tree that does not change, and that finishes, has listed every
/// regular file of the cache exactly once, however deep it lies, with its size and
/// digest; only the two files that the experiment puts into the cache itself are
/// left out. Nothing else than private files and directories lies in the cache.
pub proof fn finished_walks_list_every_file(
    tree: Tree,
    user: u32,
    walks: Seq<CacheWalk>,
    reach: nat,
)
    requires
        is_proper(tree),
        tree(Seq::empty()) is Directory,
        is_walk(tree, user, walks),
        walks.last().step is Finished,
        reach >= MAX_CACHE_DIRECTORY_DEPTH,
    ensures
        paths_of(walks.last().artifacts@) == files_of(tree, reach),
        paths_of(walks.last().artifacts@).no_duplicates(),
        forall|i: int|
            0 <= i < walks.last().artifacts@.len() ==> is_recorded(
                tree,
                #[trigger] walks.last().artifacts@[i],
            ),
        all_private(tree, user, reach),
{
    let last = walks.last();
    walks_are_accounted(tree, user, walks, walks.len() - 1, reach);
    let names = views(last.top().names@);
    passed_names_add_nothing(
        tree,
        user,
        last.top().prefix@,
        names,
        last.top().next as int,
        reach,
    );
    assert(last.frames@.drop_last().len() == 0);
    assert(pending(tree, last.frames@.drop_last(), reach) =~= Seq::empty());
    assert(pending(tree, last.frames@, reach) =~= Seq::empty());
    assert(pending_private(tree, user, last.frames@, reach)) by {
        assert(pending_private(tree, user, last.frames@.drop_last(), reach));
    }
    assert(paths_of(last.artifacts@) + Seq::<Seq<char>>::empty() =~= paths_of(last.artifacts@));
    match tree(Seq::empty()) {
        Node::Directory { names: top, .. } => {
            files_differ(tree, Seq::empty(), top, 0, reach);
        },
        _ => {},
    }
}

/// The inventory of a cache that did not change while it was walked lists every
/// regular file of it exactly once, in order, as it lies there, and each of them is
/// private.
pub proof fn inventories_list_every_file(
    tree: Tree,
    user: u32,
    walks: Seq<CacheWalk>,
    inventory: Seq<CacheArtifact>,
    reach: nat,
)
    requires
        is_proper(tree),
        tree(Seq::empty()) is Directory,
        is_walk(tree, user, walks),
        walks.last().step is Finished,
        sorted_artifacts(walks.last().artifacts@, inventory),
        reach >= MAX_CACHE_DIRECTORY_DEPTH,
    ensures
        paths_of(inventory).to_multiset() == files_of(tree, reach).to_multiset(),
        paths_of(inventory).no_duplicates(),
        forall|i: int|
            0 <= i < inventory.len() ==> is_recorded(tree, #[trigger] inventory[i])
                && inventory[i].mode % 64 == 0,
        forall|i: int, j: int|
            0 <= i < j < inventory.len() ==> !artifact_less(
                #[trigger] inventory[j],
                #[trigger] inventory[i],
            ),
{
    let artifacts = walks.last().artifacts@;
    let paths = paths_of(artifacts);
    let listed = paths_of(inventory);
    let less = |a: int, b: int| listed_before(artifacts, a, b);
    finished_walks_list_every_file(tree, user, walks, reach);
    walks_are_accounted(tree, user, walks, walks.len() - 1, reach);
    let order = choose|order: Seq<usize>|
        is_listing(order, artifacts) && #[trigger] rearranged(artifacts, inventory, order);
    listing_is_strict_total(artifacts);
    orders_are_complete(order, artifacts.len(), less);
    assert(is_permutation(order));
    rearranging_keeps_the_values(paths, order);
    assert forall|i: int| 0 <= i < inventory.len() implies same_artifact(
        #[trigger] inventory[i],
        artifacts[order[i] as int],
    ) && is_recorded(tree, inventory[i]) && inventory[i].mode % 64 == 0 by {
        assert(is_recorded(tree, artifacts[order[i] as int]));
    }
    assert(listed =~= order.map_values(|index: usize| paths[index as int]));
    assert forall|i: int, j: int|
        0 <= i < listed.len() && 0 <= j < listed.len() && i != j implies listed[i] != listed[j] by {
        assert(order[i] != order[j]);
        assert(paths[order[i] as int] != paths[order[j] as int]);
    }
    assert forall|i: int, j: int| 0 <= i < j < inventory.len() implies !artifact_less(
        #[trigger] inventory[j],
        #[trigger] inventory[i],
    ) by {
        let a = order[i] as int;
        let b = order[j] as int;
        assert(less(a, b));
        assert(!less(b, a));
        assert(same_artifact(inventory[i], artifacts[a]));
        assert(same_artifact(inventory[j], artifacts[b]));
        assert(later_numbers(inventory[i]) == later_numbers(artifacts[a]));
        assert(later_numbers(inventory[j]) == later_numbers(artifacts[b]));
        assert(!artifact_less(artifacts[b], artifacts[a]));
    }
}

} // verus!
