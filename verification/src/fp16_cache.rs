//! The compiled networks that the workers of the precision experiment leave in
//! their caches: how a cache is walked, what may lie in it, and when it counts
//! as unchanged.
use crate::fp16_corpus::{
    is_private_directory, private_directory, verify_hash_coherence, ArtifactStamp, InputMetadata,
};
use crate::order::{
    bytes_before, bytes_less, bytes_less_irreflexive, bytes_less_total, bytes_less_transitive,
    is_order, key_less, key_less_is_strict_total, order_by, strict_total,
};
use crate::paths::views;
use crate::text::{bytes_end_with, bytes_eq, ends_with, str_eq, utf8_text};
use vstd::prelude::*;
use vstd::string::*;
use vstd::utf8::*;

verus! {

pub const MAX_CACHE_ARTIFACTS: usize = 4096;

pub const MAX_CACHE_ARTIFACT_BYTES: u64 = 536870912;

pub const MAX_TOTAL_CACHE_BYTES: u64 = 1073741824;

pub const MAX_DIRECTORY_ENTRIES: usize = 8192;

pub const MAX_CACHE_DIRECTORY_DEPTH: usize = 16;

/// One file of a cache.
#[derive(Debug)]
pub struct CacheArtifact {
    pub relative_name: String,
    pub size: u64,
    pub sha256: String,
    pub device: u64,
    pub inode: u64,
    pub mode: u32,
    pub mtime: i64,
    pub mtime_nsec: i64,
    pub ctime: i64,
    pub ctime_nsec: i64,
}

#[derive(Clone, Copy, Debug, PartialEq, Eq, Structural)]
pub enum CacheError {
    DirectoryEntryLimit,
    DepthLimit,
    NameNonUtf8,
    DirectoryNotPrivate,
    ArtifactLimit,
    ArtifactNotPrivate,
    NonRegularArtifact,
    ChangedDuringHash,
    TotalSizeOverflow,
    TotalSizeLimit,
    MxrInventoryEmpty,
    InventoryChanged,
    ChangedBeforeReadOnly,
    ReadOnlyInventoryChanged,
    ReadOnlyMismatch,
}

/// The entries of a directory that are not the directory itself or its parent.
pub open spec fn real_entry(name: Seq<u8>) -> bool {
    name != seq![46u8] && name != seq![46u8, 46u8]
}

pub open spec fn real_entries(names: Seq<Seq<u8>>) -> Seq<Seq<u8>> {
    names.filter(|name: Seq<u8>| real_entry(name))
}

fn is_real_entry(name: &[u8]) -> (found: bool)
    ensures
        found == real_entry(name@),
{
    if name.len() == 1 && name[0] == 46 {
        assert(name@ =~= seq![46u8]);
        return false;
    }
    if name.len() == 2 && name[0] == 46 && name[1] == 46 {
        assert(name@ =~= seq![46u8, 46u8]);
        return false;
    }
    true
}

/// `order` puts byte strings in order.
pub open spec fn is_byte_order(order: Seq<usize>, keys: Seq<Seq<u8>>) -> bool {
    is_order(order, keys.len(), |a: int, b: int| key_less(keys, a, b))
}

/// `after` is `before` in the order that `order` gives.
pub open spec fn arranged(before: Seq<Seq<u8>>, after: Seq<Seq<u8>>, order: Seq<usize>) -> bool {
    after.len() == order.len() && forall|i: int|
        0 <= i < after.len() ==> #[trigger] after[i] == before[order[i] as int]
}

/// `after` is `before`, in order.
pub open spec fn sorted_from(before: Seq<Seq<u8>>, after: Seq<Seq<u8>>) -> bool {
    exists|order: Seq<usize>|
        is_byte_order(order, before) && #[trigger] arranged(before, after, order)
}

fn copy_bytes(bytes: &[u8]) -> (copy: Vec<u8>)
    ensures
        copy@ == bytes@,
{
    let mut copy: Vec<u8> = Vec::new();
    copy.extend_from_slice(bytes);
    assert(copy@ =~= bytes@);
    copy
}

fn sort_names(names: &Vec<Vec<u8>>) -> (sorted: Vec<Vec<u8>>)
    ensures
        sorted_from(views(names@), views(sorted@)),
{
    let ghost keys = views(names@);
    let ghost less = |a: int, b: int| key_less(keys, a, b);
    let before = |a: usize, b: usize| -> (r: bool)
        requires
            a < names@.len(),
            b < names@.len(),
        ensures
            r == key_less(views(names@), a as int, b as int),
        {
            assert(views(names@)[a as int] == names@[a as int]@);
            assert(views(names@)[b as int] == names@[b as int]@);
            bytes_before(names[a].as_slice(), names[b].as_slice()) || (a < b && bytes_eq(
                names[a].as_slice(),
                names[b].as_slice(),
            ))
        };
    proof {
        key_less_is_strict_total(keys);
    }
    let order = order_by(names.len(), &before, Ghost(less));
    let mut sorted: Vec<Vec<u8>> = Vec::new();
    let mut index: usize = 0;
    while index < order.len()
        invariant
            index <= order@.len(),
            order@.len() == names@.len(),
            forall|i: int| 0 <= i < order@.len() ==> (#[trigger] order@[i]) < names@.len(),
            sorted@.len() == index,
            forall|i: int|
                0 <= i < index ==> (#[trigger] sorted@[i])@ == names@[order@[i] as int]@,
        decreases order.len() - index,
    {
        sorted.push(copy_bytes(names[order[index]].as_slice()));
        index = index + 1;
    }
    proof {
        assert(is_byte_order(order@, keys));
        assert forall|i: int| 0 <= i < sorted@.len() implies #[trigger] views(sorted@)[i]
            == keys[order@[i] as int] by {
            assert(sorted@[i]@ == names@[order@[i] as int]@);
        }
        assert(arranged(keys, views(sorted@), order@));
    }
    sorted
}

/// The names in a directory, in order. There may not be too many.
pub fn directory_names(entries: &Vec<Vec<u8>>) -> (names: Result<Vec<Vec<u8>>, CacheError>)
    ensures
        match names {
            Ok(sorted) => real_entries(views(entries@)).len() <= MAX_DIRECTORY_ENTRIES
                && sorted_from(real_entries(views(entries@)), views(sorted@)),
            Err(error) => real_entries(views(entries@)).len() > MAX_DIRECTORY_ENTRIES && error
                == CacheError::DirectoryEntryLimit,
        },
{
    let ghost all = views(entries@);
    let ghost keep = |name: Seq<u8>| real_entry(name);
    let mut kept: Vec<Vec<u8>> = Vec::new();
    let mut index: usize = 0;
    proof {
        reveal(Seq::filter);
        assert(views(kept@) =~= Seq::empty());
        assert(all.take(0).filter(keep) =~= Seq::empty());
    }
    while index < entries.len()
        invariant
            index <= entries@.len(),
            all == views(entries@),
            keep == |name: Seq<u8>| real_entry(name),
            views(kept@) == all.take(index as int).filter(keep),
        decreases entries.len() - index,
    {
        let ghost longer = all.take(index + 1);
        let ghost before = views(kept@);
        proof {
            reveal(Seq::filter);
            assert(longer.drop_last() =~= all.take(index as int));
            assert(longer.last() == entries@[index as int]@);
        }
        if is_real_entry(entries[index].as_slice()) {
            kept.push(copy_bytes(entries[index].as_slice()));
            assert(views(kept@) =~= before.push(entries@[index as int]@));
        }
        index = index + 1;
    }
    assert(all.take(all.len() as int) =~= all);
    assert(views(kept@).len() == kept@.len());
    if kept.len() > MAX_DIRECTORY_ENTRIES {
        return Err(CacheError::DirectoryEntryLimit);
    }
    Ok(sort_names(&kept))
}

/// A directory on the way from the cache to where the walk is.
#[derive(Debug)]
pub struct WalkFrame {
    /// The path from the cache, empty for the cache itself.
    pub prefix: String,
    pub names: Vec<Vec<u8>>,
    pub next: usize,
}

/// What the walk of a cache needs next.
#[derive(Clone, Copy, Debug, PartialEq, Eq, Structural)]
pub enum WalkStep {
    /// The names in the directory that was entered last.
    List,
    /// What kind of entry the current name is.
    Inspect,
    /// The current name opened as a directory.
    EnterDirectory,
    /// The current name opened as a file.
    OpenFile,
    /// The digest of the file that was opened.
    Digest,
    /// The directory that was entered last is done with.
    Leave,
    Finished,
    Failed(CacheError),
}

#[derive(Clone, Copy, Debug, PartialEq, Eq, Structural)]
pub enum EntryKind {
    Directory,
    Regular,
    Other,
}

/// A walk of a cache.
pub struct CacheWalk {
    pub frames: Vec<WalkFrame>,
    pub artifacts: Vec<CacheArtifact>,
    pub entering: String,
    pub opened: Option<InputMetadata>,
    pub step: WalkStep,
}

/// Names in the cache itself that the experiment puts there.
pub open spec fn own_file(prefix: Seq<char>, name: Seq<char>) -> bool {
    prefix.len() == 0 && (name == ".exclusive.lock"@ || name == "provenance.json"@)
}

/// The path of a name from the cache.
pub open spec fn relative(prefix: Seq<char>, name: Seq<char>) -> Seq<char> {
    if prefix.len() == 0 {
        name
    } else {
        prefix + "/"@ + name
    }
}

/// The first name from `at` on that the walk looks at: names that are not UTF-8
/// stop it, the experiment's own files do not count.
pub open spec fn next_name(prefix: Seq<char>, names: Seq<Seq<u8>>, at: int) -> int
    decreases names.len() - at,
{
    if 0 <= at < names.len() && valid_utf8(names[at]) && own_file(prefix, decode_utf8(names[at])) {
        next_name(prefix, names, at + 1)
    } else {
        at
    }
}

/// The step that follows once a directory's names from `at` on are left.
pub open spec fn step_at(
    prefix: Seq<char>,
    names: Seq<Seq<u8>>,
    at: int,
    is_cache: bool,
) -> WalkStep {
    let next = next_name(prefix, names, at);
    if next >= names.len() {
        if is_cache {
            WalkStep::Finished
        } else {
            WalkStep::Leave
        }
    } else if !valid_utf8(names[next]) {
        WalkStep::Failed(CacheError::NameNonUtf8)
    } else {
        WalkStep::Inspect
    }
}

/// `after` is `before` moved to the first name from `at` on that the walk looks
/// at, and `step` is what that name asks for. Where there is none, or one that
/// stops the walk, it stays at `at`.
pub open spec fn settled(
    before: WalkFrame,
    at: int,
    is_cache: bool,
    after: WalkFrame,
    step: WalkStep,
) -> bool {
    &&& after.prefix@ == before.prefix@
    &&& views(after.names@) == views(before.names@)
    &&& step == step_at(before.prefix@, views(before.names@), at, is_cache)
    &&& after.next == (if step is Inspect {
        next_name(before.prefix@, views(before.names@), at)
    } else {
        at
    })
}

/// An artifact as it is recorded: what was known before it was hashed, and the
/// digest.
pub open spec fn records(
    artifact: CacheArtifact,
    name: Seq<char>,
    before: InputMetadata,
    sha256: Seq<char>,
    size: u64,
) -> bool {
    &&& artifact.relative_name@ == name
    &&& artifact.size == size
    &&& artifact.sha256@ == sha256
    &&& artifact.device == before.stamp.device
    &&& artifact.inode == before.stamp.inode
    &&& artifact.mode == before.mode % 4096
    &&& artifact.mtime == before.stamp.mtime
    &&& artifact.mtime_nsec == before.stamp.mtime_nsec
    &&& artifact.ctime == before.stamp.ctime
    &&& artifact.ctime_nsec == before.stamp.ctime_nsec
}

impl CacheWalk {
    /// The directory that the walk is in.
    pub open spec fn top(&self) -> WalkFrame {
        self.frames@.last()
    }

    /// The name that the walk looks at.
    pub open spec fn name(&self) -> Seq<char> {
        decode_utf8(self.top().names@[self.top().next as int]@)
    }

    /// The path of the name that the walk looks at.
    pub open spec fn path(&self) -> Seq<char> {
        relative(self.top().prefix@, self.name())
    }

    /// A name is at hand where one is needed, the depth and the number of
    /// artifacts are within their limits, and every artifact that was recorded
    /// was private.
    pub open spec fn wf(&self) -> bool {
        &&& self.frames@.len() <= MAX_CACHE_DIRECTORY_DEPTH + 1
        &&& self.artifacts@.len() <= MAX_CACHE_ARTIFACTS
        &&& (self.step is List ==> self.frames@.len() <= MAX_CACHE_DIRECTORY_DEPTH)
        &&& (self.step is Leave ==> self.frames@.len() >= 2)
        &&& (self.at_name() ==> self.frames@.len() >= 1 && self.top().next
            < self.top().names@.len() && valid_utf8(
            self.top().names@[self.top().next as int]@,
        ))
        &&& (self.step is OpenFile ==> self.artifacts@.len() < MAX_CACHE_ARTIFACTS)
        &&& (self.step is Digest ==> self.artifacts@.len() < MAX_CACHE_ARTIFACTS
            && self.opened is Some)
        &&& forall|i: int|
            0 <= i < self.artifacts@.len() ==> (#[trigger] self.artifacts@[i]).mode % 64 == 0
        &&& self.opened matches Some(metadata) ==> metadata.mode % 64 == 0
    }

    /// Whether the step is about the current name.
    pub open spec fn at_name(&self) -> bool {
        self.step is Inspect || self.step is EnterDirectory || self.step is OpenFile
            || self.step is Digest
    }

    /// `after` has taken the names of the directory that `self` entered last.
    pub open spec fn listed_to(&self, names: Seq<Seq<u8>>, after: CacheWalk) -> bool {
        &&& after.artifacts == self.artifacts
        &&& after.frames@.len() == self.frames@.len() + 1
        &&& after.frames@.drop_last() == self.frames@
        &&& after.top().prefix@ == self.entering@
        &&& views(after.top().names@) == names
        &&& settled(after.top(), 0, self.frames@.len() == 0, after.top(), after.step)
    }

    /// `after` has taken the kind of the name that `self` looks at.
    pub open spec fn inspected_to(&self, kind: EntryKind, after: CacheWalk) -> bool {
        &&& after.frames == self.frames
        &&& after.artifacts == self.artifacts
        &&& after.step == (match kind {
            EntryKind::Directory => WalkStep::EnterDirectory,
            EntryKind::Regular => if self.artifacts@.len() == MAX_CACHE_ARTIFACTS {
                WalkStep::Failed(CacheError::ArtifactLimit)
            } else {
                WalkStep::OpenFile
            },
            EntryKind::Other => WalkStep::Failed(CacheError::NonRegularArtifact),
        })
    }

    /// `after` has taken the directory that `self` opened: its names come next,
    /// and above it the name behind it.
    pub open spec fn entered_to(&self, private: bool, after: CacheWalk) -> bool {
        &&& after.artifacts == self.artifacts
        &&& after.step == (if !private {
            WalkStep::Failed(CacheError::DirectoryNotPrivate)
        } else if self.frames@.len() > MAX_CACHE_DIRECTORY_DEPTH {
            WalkStep::Failed(CacheError::DepthLimit)
        } else {
            WalkStep::List
        })
        &&& after.step is Failed ==> after.frames == self.frames
        &&& after.step is List ==> {
            &&& after.entering@ == self.path()
            &&& after.frames@.len() == self.frames@.len()
            &&& after.frames@.drop_last() == self.frames@.drop_last()
            &&& after.top().prefix == self.top().prefix
            &&& after.top().names == self.top().names
            &&& after.top().next == self.top().next + 1
        }
    }

    /// `after` has gone on in the directory above the one that `self` is done
    /// with.
    pub open spec fn left_to(&self, after: CacheWalk) -> bool {
        let above = self.frames@[self.frames@.len() - 2];
        &&& after.artifacts == self.artifacts
        &&& after.frames@.len() == self.frames@.len() - 1
        &&& after.frames@.drop_last() == self.frames@.drop_last().drop_last()
        &&& settled(above, above.next as int, self.frames@.len() == 2, after.top(), after.step)
    }

    /// `after` has taken the file that `self` opened.
    pub open spec fn file_opened_to(
        &self,
        metadata: InputMetadata,
        user: u32,
        after: CacheWalk,
    ) -> bool {
        &&& after.frames == self.frames
        &&& after.artifacts == self.artifacts
        &&& after.step == (if Self::private_file(metadata, user) {
            WalkStep::Digest
        } else {
            WalkStep::Failed(CacheError::ArtifactNotPrivate)
        })
        &&& after.step is Digest ==> after.opened == Some(metadata)
    }

    /// `after` has taken the digest of the file that `self` opened: where the file
    /// stayed what it was, it is recorded and the name behind it comes next.
    pub open spec fn digested_to(
        &self,
        sha256: Seq<char>,
        size: u64,
        stamp: ArtifactStamp,
        after: CacheWalk,
    ) -> bool {
        let before = self.opened->0;
        if before.stamp == stamp && before.stamp.length == size {
            &&& after.frames@.len() == self.frames@.len()
            &&& after.frames@.drop_last() == self.frames@.drop_last()
            &&& settled(
                self.top(),
                self.top().next + 1,
                self.frames@.len() == 1,
                after.top(),
                after.step,
            )
            &&& after.artifacts@.len() == self.artifacts@.len() + 1
            &&& after.artifacts@.drop_last() == self.artifacts@
            &&& records(after.artifacts@.last(), self.path(), before, sha256, size)
        } else {
            &&& after.step == WalkStep::Failed(CacheError::ChangedDuringHash)
            &&& after.artifacts == self.artifacts
        }
    }

    /// Begins with the cache itself.
    pub fn begin() -> (walk: Self)
        ensures
            walk.wf(),
            walk.step == WalkStep::List,
            walk.frames@.len() == 0,
            walk.artifacts@.len() == 0,
            walk.entering@.len() == 0,
            walk.opened is None,
    {
        let entering = "".to_owned();
        proof {
            reveal_strlit("");
        }
        CacheWalk {
            frames: Vec::new(),
            artifacts: Vec::new(),
            entering,
            opened: None,
            step: WalkStep::List,
        }
    }

    /// Moves to the first name that the walk looks at, from the current one on.
    fn settle(&mut self)
        requires
            old(self).frames@.len() >= 1,
            old(self).frames@.len() <= MAX_CACHE_DIRECTORY_DEPTH + 1,
            old(self).artifacts@.len() <= MAX_CACHE_ARTIFACTS,
            forall|i: int|
                0 <= i < old(self).artifacts@.len() ==> (#[trigger] old(self).artifacts@[i]).mode
                    % 64 == 0,
        ensures
            final(self).wf(),
            final(self).artifacts == old(self).artifacts,
            final(self).frames@.len() == old(self).frames@.len(),
            final(self).frames@.drop_last() == old(self).frames@.drop_last(),
            settled(
                old(self).top(),
                old(self).top().next as int,
                old(self).frames@.len() == 1,
                final(self).top(),
                final(self).step,
            ),
    {
        let ghost before = *self;
        let ghost names = views(before.top().names@);
        let ghost prefix = before.top().prefix@;
        let ghost start = before.top().next as int;
        let ghost is_cache = before.frames@.len() == 1;
        let at_cache: bool = self.frames.len() == 1;
        self.opened = None;
        let mut frame: WalkFrame = match self.frames.pop() {
            Some(frame) => frame,
            None => {
                return;
            },
        };
        let count: usize = frame.names.len();
        let mut next: usize = frame.next;
        let mut found: Option<CacheError> = None;
        let mut looking = true;
        let empty_prefix = frame.prefix.as_str().is_empty();
        while looking && next < count
            invariant
                frame == before.top(),
                names == views(frame.names@),
                prefix == frame.prefix@,
                count == names.len(),
                count == frame.names@.len(),
                empty_prefix == (prefix.len() == 0),
                next_name(prefix, names, start) == next_name(prefix, names, next as int),
                !looking ==> next_name(prefix, names, next as int) == next && next < count
                    && valid_utf8(names[next as int]) == found is None,
                looking ==> found is None,
                found is Some ==> found == Some(CacheError::NameNonUtf8),
            decreases count - next, (if looking { 1int } else { 0int }),
        {
            assert(names[next as int] == frame.names@[next as int]@);
            match utf8_text(frame.names[next].as_slice()) {
                None => {
                    found = Some(CacheError::NameNonUtf8);
                    looking = false;
                },
                Some(name) => {
                    if empty_prefix && (str_eq(name.as_str(), ".exclusive.lock") || str_eq(
                        name.as_str(),
                        "provenance.json",
                    )) {
                        next = next + 1;
                    } else {
                        looking = false;
                    }
                },
            }
        }
        if looking {
            self.step = if at_cache {
                WalkStep::Finished
            } else {
                WalkStep::Leave
            };
        } else {
            self.step = match found {
                Some(error) => WalkStep::Failed(error),
                None => {
                    frame.next = next;
                    WalkStep::Inspect
                },
            };
        }
        self.frames.push(frame);
        assert(self.frames@.drop_last() =~= before.frames@.drop_last());
    }

    /// Takes the names of the directory that was entered last.
    pub fn listed(&mut self, names: Vec<Vec<u8>>)
        requires
            old(self).wf(),
            old(self).step is List,
        ensures
            final(self).wf(),
            old(self).listed_to(views(names@), *final(self)),
    {
        let prefix = self.entering.as_str().to_owned();
        let ghost before = self.frames@;
        self.frames.push(WalkFrame { prefix, names, next: 0 });
        assert(self.frames@.drop_last() =~= before);
        self.settle();
    }

    /// Takes the kind of the current name: directories are entered, files are
    /// opened while there may be more artifacts, and nothing else may be there.
    pub fn inspected(&mut self, kind: EntryKind)
        requires
            old(self).wf(),
            old(self).step is Inspect,
        ensures
            final(self).wf(),
            old(self).inspected_to(kind, *final(self)),
    {
        self.step = match kind {
            EntryKind::Directory => WalkStep::EnterDirectory,
            EntryKind::Regular => {
                if self.artifacts.len() == MAX_CACHE_ARTIFACTS {
                    WalkStep::Failed(CacheError::ArtifactLimit)
                } else {
                    WalkStep::OpenFile
                }
            },
            EntryKind::Other => WalkStep::Failed(CacheError::NonRegularArtifact),
        };
    }

    /// The current name as text.
    pub fn current_name(&self) -> (name: String)
        requires
            self.wf(),
            self.at_name(),
        ensures
            name@ == self.name(),
    {
        let frame = &self.frames[self.frames.len() - 1];
        match utf8_text(frame.names[frame.next].as_slice()) {
            Some(name) => name,
            None => "".to_owned(),
        }
    }

    /// The current name's path from the cache.
    pub fn current_path(&self) -> (path: String)
        requires
            self.wf(),
            self.at_name(),
        ensures
            path@ == self.path(),
    {
        let name = self.current_name();
        let prefix = self.frames[self.frames.len() - 1].prefix.as_str();
        if prefix.is_empty() {
            return name;
        }
        let mut path = prefix.to_owned();
        path.append("/");
        path.append(name.as_str());
        path
    }

    fn leave_name(&mut self)
        requires
            old(self).wf(),
            old(self).at_name(),
        ensures
            final(self).frames@.len() == old(self).frames@.len(),
            final(self).frames@.drop_last() == old(self).frames@.drop_last(),
            final(self).top().prefix == old(self).top().prefix,
            final(self).top().names == old(self).top().names,
            final(self).top().next == old(self).top().next + 1,
            final(self).artifacts == old(self).artifacts,
            final(self).entering == old(self).entering,
            final(self).step == old(self).step,
    {
        let ghost before = self.frames@;
        match self.frames.pop() {
            Some(frame) => {
                let count: usize = frame.names.len();
                assert(frame.next < count);
                let next = WalkFrame {
                    prefix: frame.prefix,
                    names: frame.names,
                    next: frame.next + 1,
                };
                self.frames.push(next);
            },
            None => {},
        }
        assert(self.frames@.drop_last() =~= before.drop_last());
    }

    /// Takes a directory that was opened: it must be private, and not too deep.
    pub fn entered(&mut self, is_dir: bool, uid: u32, user: u32, mode: u32)
        requires
            old(self).wf(),
            old(self).step is EnterDirectory,
        ensures
            final(self).wf(),
            old(self).entered_to(private_directory(is_dir, uid, user, mode), *final(self)),
    {
        if !is_private_directory(is_dir, uid, user, mode) {
            self.step = WalkStep::Failed(CacheError::DirectoryNotPrivate);
            return;
        }
        if self.frames.len() > MAX_CACHE_DIRECTORY_DEPTH {
            self.step = WalkStep::Failed(CacheError::DepthLimit);
            return;
        }
        let path = self.current_path();
        self.leave_name();
        self.entering = path;
        self.opened = None;
        self.step = WalkStep::List;
    }

    /// Goes on in the directory above, with the entry behind the one that was
    /// left.
    pub fn left(&mut self)
        requires
            old(self).wf(),
            old(self).step is Leave,
        ensures
            final(self).wf(),
            old(self).left_to(*final(self)),
    {
        let ghost before = self.frames@;
        let _frame = self.frames.pop();
        assert(self.frames@ =~= before.drop_last());
        self.settle();
    }

    /// Whether a file may lie in a cache: a regular file of the user's own that
    /// nobody else can use.
    pub open spec fn private_file(metadata: InputMetadata, user: u32) -> bool {
        metadata.is_file && metadata.uid == user && metadata.mode % 64 == 0
    }

    /// Takes a file that was opened.
    pub fn file_opened(&mut self, metadata: InputMetadata, user: u32)
        requires
            old(self).wf(),
            old(self).step is OpenFile,
        ensures
            final(self).wf(),
            old(self).file_opened_to(metadata, user, *final(self)),
    {
        if !metadata.is_file || metadata.uid != user || metadata.mode % 64 != 0 {
            self.opened = None;
            self.step = WalkStep::Failed(CacheError::ArtifactNotPrivate);
            return;
        }
        self.opened = Some(metadata);
        self.step = WalkStep::Digest;
    }

    /// Takes the digest of the file that was opened. It is recorded if the file
    /// stayed what it was.
    pub fn digested(&mut self, sha256: String, size: u64, after: ArtifactStamp)
        requires
            old(self).wf(),
            old(self).step is Digest,
        ensures
            final(self).wf(),
            old(self).digested_to(sha256@, size, after, *final(self)),
    {
        let before: InputMetadata = match self.opened {
            Some(metadata) => metadata,
            None => {
                return;
            },
        };
        if !verify_hash_coherence(&before.stamp, &after, size) {
            self.step = WalkStep::Failed(CacheError::ChangedDuringHash);
            return;
        }
        let path = self.current_path();
        let ghost earlier = self.artifacts@;
        assert(before.mode % 4096 % 64 == before.mode % 64);
        self.leave_name();
        self.artifacts.push(
            CacheArtifact {
                relative_name: path,
                size,
                sha256,
                device: before.stamp.device,
                inode: before.stamp.inode,
                mode: before.mode % 4096,
                mtime: before.stamp.mtime,
                mtime_nsec: before.stamp.mtime_nsec,
                ctime: before.stamp.ctime,
                ctime_nsec: before.stamp.ctime_nsec,
            },
        );
        proof {
            assert(self.artifacts@.drop_last() =~= earlier);
            assert forall|i: int| 0 <= i < self.artifacts@.len() implies (
            #[trigger] self.artifacts@[i]).mode % 64 == 0 by {
                if i < earlier.len() {
                    assert(self.artifacts@[i] == earlier[i]);
                }
            }
        }
        self.settle();
    }
}

/// Two artifacts hold the same.
pub open spec fn same_artifact(left: CacheArtifact, right: CacheArtifact) -> bool {
    &&& left.relative_name@ == right.relative_name@
    &&& left.size == right.size
    &&& left.sha256@ == right.sha256@
    &&& left.device == right.device
    &&& left.inode == right.inode
    &&& left.mode == right.mode
    &&& left.mtime == right.mtime
    &&& left.mtime_nsec == right.mtime_nsec
    &&& left.ctime == right.ctime
    &&& left.ctime_nsec == right.ctime_nsec
}

/// The numbers of an artifact behind its digest, in order of their weight.
pub open spec fn later_numbers(artifact: CacheArtifact) -> Seq<int> {
    seq![
        artifact.device as int,
        artifact.inode as int,
        artifact.mode as int,
        artifact.mtime as int,
        artifact.mtime_nsec as int,
        artifact.ctime as int,
        artifact.ctime_nsec as int,
    ]
}

/// Whether a list of numbers comes before another of the same length: it is
/// smaller at the first place where they differ.
pub open spec fn numbers_less(left: Seq<int>, right: Seq<int>) -> bool
    decreases left.len(),
{
    left.len() > 0 && right.len() > 0 && (left[0] < right[0] || (left[0] == right[0]
        && numbers_less(left.skip(1), right.skip(1))))
}

/// Artifacts are in order by name, size, digest, and then by the other numbers.
pub open spec fn artifact_less(left: CacheArtifact, right: CacheArtifact) -> bool {
    let left_name = encode_utf8(left.relative_name@);
    let right_name = encode_utf8(right.relative_name@);
    let left_digest = encode_utf8(left.sha256@);
    let right_digest = encode_utf8(right.sha256@);
    bytes_less(left_name, right_name) || (left_name == right_name && (left.size < right.size || (
    left.size == right.size && (bytes_less(left_digest, right_digest) || (left_digest
        == right_digest && numbers_less(later_numbers(left), later_numbers(right)))))))
}

/// The order of artifacts by number; equal artifacts keep theirs.
pub open spec fn listed_before(artifacts: Seq<CacheArtifact>, a: int, b: int) -> bool {
    artifact_less(artifacts[a], artifacts[b]) || (!artifact_less(artifacts[b], artifacts[a]) && a
        < b)
}

proof fn number_lists_are_ordered(left: Seq<int>, middle: Seq<int>, right: Seq<int>)
    requires
        left.len() == middle.len() == right.len(),
    ensures
        !numbers_less(left, left),
        left != middle ==> numbers_less(left, middle) || numbers_less(middle, left),
        numbers_less(left, middle) && numbers_less(middle, right) ==> numbers_less(left, right),
    decreases left.len(),
{
    if left.len() > 0 {
        number_lists_are_ordered(left.skip(1), middle.skip(1), right.skip(1));
        if left != middle && left[0] == middle[0] {
            if left.skip(1) == middle.skip(1) {
                assert(left =~= middle) by {
                    assert forall|i: int| 0 <= i < left.len() implies left[i] == middle[i] by {
                        if i > 0 {
                            assert(left.skip(1)[i - 1] == middle.skip(1)[i - 1]);
                        }
                    }
                }
            }
        }
    } else {
        assert(left =~= middle);
    }
}

/// Equal places in the order mean equal artifacts, but for the encodings of
/// names and digests.
spec fn equal_keys(left: CacheArtifact, right: CacheArtifact) -> bool {
    encode_utf8(left.relative_name@) == encode_utf8(right.relative_name@) && left.size == right.size
        && encode_utf8(left.sha256@) == encode_utf8(right.sha256@) && later_numbers(left)
        == later_numbers(right)
}

proof fn artifacts_are_ordered(left: CacheArtifact, middle: CacheArtifact, right: CacheArtifact)
    ensures
        !artifact_less(left, left),
        !equal_keys(left, middle) ==> artifact_less(left, middle) || artifact_less(middle, left),
        artifact_less(left, middle) ==> !artifact_less(middle, left),
        artifact_less(left, middle) && artifact_less(middle, right) ==> artifact_less(left, right),
{
    let names = (
        encode_utf8(left.relative_name@),
        encode_utf8(middle.relative_name@),
        encode_utf8(right.relative_name@),
    );
    let digests = (
        encode_utf8(left.sha256@),
        encode_utf8(middle.sha256@),
        encode_utf8(right.sha256@),
    );
    byte_strings_are_ordered(names.0, names.1, names.2);
    byte_strings_are_ordered(digests.0, digests.1, digests.2);
    byte_strings_are_ordered(names.1, names.0, names.1);
    byte_strings_are_ordered(digests.1, digests.0, digests.1);
    number_lists_are_ordered(later_numbers(left), later_numbers(middle), later_numbers(right));
    number_lists_are_ordered(later_numbers(left), later_numbers(middle), later_numbers(left));
}

proof fn byte_strings_are_ordered(left: Seq<u8>, middle: Seq<u8>, right: Seq<u8>)
    ensures
        !bytes_less(left, left),
        left != middle ==> bytes_less(left, middle) || bytes_less(middle, left),
        bytes_less(left, middle) ==> !bytes_less(middle, left),
        bytes_less(left, middle) && bytes_less(middle, right) ==> bytes_less(left, right),
{
    bytes_less_irreflexive(left);
    bytes_less_total(left, middle);
    if bytes_less(left, middle) && bytes_less(middle, right) {
        bytes_less_transitive(left, middle, right);
    }
    if bytes_less(left, middle) && bytes_less(middle, left) {
        bytes_less_transitive(left, middle, left);
    }
}

/// Artifacts can be put in order.
pub proof fn listing_is_strict_total(artifacts: Seq<CacheArtifact>)
    ensures
        strict_total(artifacts.len(), |a: int, b: int| listed_before(artifacts, a, b)),
{
    let less = |a: int, b: int| listed_before(artifacts, a, b);
    assert forall|a: int, b: int|
        0 <= a < artifacts.len() && 0 <= b < artifacts.len() && a != b implies #[trigger] less(a, b)
        || less(b, a) by {
        artifacts_are_ordered(artifacts[a], artifacts[b], artifacts[a]);
    }
    assert forall|a: int, b: int|
        0 <= a < artifacts.len() && 0 <= b < artifacts.len() && #[trigger] less(
            a,
            b,
        ) implies !less(b, a) by {
        artifacts_are_ordered(artifacts[a], artifacts[b], artifacts[a]);
        artifacts_are_ordered(artifacts[b], artifacts[a], artifacts[b]);
    }
    assert forall|a: int, b: int, c: int|
        0 <= a < artifacts.len() && 0 <= b < artifacts.len() && 0 <= c < artifacts.len()
            && #[trigger] less(a, b) && #[trigger] less(b, c) implies less(a, c) by {
        places_are_transitive(artifacts[a], artifacts[b], artifacts[c]);
    }
}

/// Not coming after is transitive, and strictly where one step is.
proof fn places_are_transitive(first: CacheArtifact, second: CacheArtifact, third: CacheArtifact)
    ensures
        !artifact_less(second, first) && !artifact_less(third, second) ==> !artifact_less(
            third,
            first,
        ),
        artifact_less(first, second) && !artifact_less(third, second) ==> artifact_less(
            first,
            third,
        ),
        !artifact_less(second, first) && artifact_less(second, third) ==> artifact_less(
            first,
            third,
        ),
{
    artifacts_are_ordered(first, second, third);
    artifacts_are_ordered(second, third, first);
    artifacts_are_ordered(third, first, second);
    artifacts_are_ordered(third, second, first);
    artifacts_are_ordered(second, first, third);
    artifacts_are_ordered(first, third, second);
}

fn artifact_comes_before(left: &CacheArtifact, right: &CacheArtifact) -> (before: bool)
    ensures
        before == artifact_less(*left, *right),
{
    let left_name = left.relative_name.as_str().as_bytes();
    let right_name = right.relative_name.as_str().as_bytes();
    if bytes_before(left_name, right_name) {
        return true;
    }
    if !bytes_eq(left_name, right_name) {
        return false;
    }
    if left.size != right.size {
        return left.size < right.size;
    }
    let left_digest = left.sha256.as_str().as_bytes();
    let right_digest = right.sha256.as_str().as_bytes();
    if bytes_before(left_digest, right_digest) {
        return true;
    }
    if !bytes_eq(left_digest, right_digest) {
        return false;
    }
    proof {
        reveal_with_fuel(numbers_less, 8);
    }
    if left.device != right.device {
        return left.device < right.device;
    }
    if left.inode != right.inode {
        return left.inode < right.inode;
    }
    if left.mode != right.mode {
        return left.mode < right.mode;
    }
    if left.mtime != right.mtime {
        return left.mtime < right.mtime;
    }
    if left.mtime_nsec != right.mtime_nsec {
        return left.mtime_nsec < right.mtime_nsec;
    }
    if left.ctime != right.ctime {
        return left.ctime < right.ctime;
    }
    left.ctime_nsec < right.ctime_nsec
}

/// `after` holds the artifacts of `before` in the order that `order` gives.
pub open spec fn rearranged(
    before: Seq<CacheArtifact>,
    after: Seq<CacheArtifact>,
    order: Seq<usize>,
) -> bool {
    after.len() == order.len() && forall|i: int|
        0 <= i < after.len() ==> same_artifact(#[trigger] after[i], before[order[i] as int])
}

pub open spec fn is_listing(order: Seq<usize>, artifacts: Seq<CacheArtifact>) -> bool {
    is_order(order, artifacts.len(), |a: int, b: int| listed_before(artifacts, a, b))
}

/// `after` holds the artifacts of `before`, in order.
pub open spec fn sorted_artifacts(before: Seq<CacheArtifact>, after: Seq<CacheArtifact>) -> bool {
    exists|order: Seq<usize>|
        is_listing(order, before) && #[trigger] rearranged(before, after, order)
}

fn copy_text(text: &String) -> (copy: String)
    ensures
        copy@ == text@,
{
    text.as_str().to_owned()
}

fn copy_artifact(artifact: &CacheArtifact) -> (copy: CacheArtifact)
    ensures
        same_artifact(copy, *artifact),
{
    CacheArtifact {
        relative_name: copy_text(&artifact.relative_name),
        size: artifact.size,
        sha256: copy_text(&artifact.sha256),
        device: artifact.device,
        inode: artifact.inode,
        mode: artifact.mode,
        mtime: artifact.mtime,
        mtime_nsec: artifact.mtime_nsec,
        ctime: artifact.ctime,
        ctime_nsec: artifact.ctime_nsec,
    }
}

fn sort_artifacts(artifacts: &Vec<CacheArtifact>) -> (sorted: Vec<CacheArtifact>)
    ensures
        sorted_artifacts(artifacts@, sorted@),
        sorted@.len() == artifacts@.len(),
{
    let ghost less = |a: int, b: int| listed_before(artifacts@, a, b);
    let before = |a: usize, b: usize| -> (r: bool)
        requires
            a < artifacts@.len(),
            b < artifacts@.len(),
        ensures
            r == listed_before(artifacts@, a as int, b as int),
        {
            artifact_comes_before(&artifacts[a], &artifacts[b]) || (a < b
                && !artifact_comes_before(&artifacts[b], &artifacts[a]))
        };
    proof {
        listing_is_strict_total(artifacts@);
    }
    let order = order_by(artifacts.len(), &before, Ghost(less));
    let mut sorted: Vec<CacheArtifact> = Vec::new();
    let mut index: usize = 0;
    while index < order.len()
        invariant
            index <= order@.len(),
            order@.len() == artifacts@.len(),
            forall|i: int| 0 <= i < order@.len() ==> (#[trigger] order@[i]) < artifacts@.len(),
            sorted@.len() == index,
            forall|i: int|
                0 <= i < index ==> same_artifact(
                    #[trigger] sorted@[i],
                    artifacts@[order@[i] as int],
                ),
        decreases order.len() - index,
    {
        sorted.push(copy_artifact(&artifacts[order[index]]));
        index = index + 1;
    }
    assert(is_listing(order@, artifacts@));
    assert(rearranged(artifacts@, sorted@, order@));
    sorted
}

/// The sizes of artifacts, added up.
pub open spec fn total_size(artifacts: Seq<CacheArtifact>) -> nat
    decreases artifacts.len(),
{
    if artifacts.len() == 0 {
        0
    } else {
        total_size(artifacts.drop_last()) + artifacts.last().size as nat
    }
}

proof fn totals_grow(artifacts: Seq<CacheArtifact>, count: int)
    requires
        0 <= count <= artifacts.len(),
    ensures
        total_size(artifacts.take(count)) <= total_size(artifacts),
    decreases artifacts.len(),
{
    if count == artifacts.len() {
        assert(artifacts.take(count) =~= artifacts);
    } else {
        assert(artifacts.drop_last().take(count) =~= artifacts.take(count));
        totals_grow(artifacts.drop_last(), count);
    }
}

/// Whether a compiled network is among the artifacts.
pub open spec fn holds_compiled(artifacts: Seq<CacheArtifact>) -> bool {
    exists|i: int|
        0 <= i < artifacts.len() && is_compiled((#[trigger] artifacts[i]).relative_name@)
}

pub open spec fn is_compiled(name: Seq<char>) -> bool {
    ends_with(encode_utf8(name), encode_utf8(".mxr"@))
}

/// Why artifacts do not make up a cache: they are too large together, or no
/// compiled network is among them.
pub open spec fn inventory_error(artifacts: Seq<CacheArtifact>) -> Option<CacheError> {
    if total_size(artifacts) > u64::MAX {
        Some(CacheError::TotalSizeOverflow)
    } else if total_size(artifacts) > MAX_TOTAL_CACHE_BYTES {
        Some(CacheError::TotalSizeLimit)
    } else if !holds_compiled(artifacts) {
        Some(CacheError::MxrInventoryEmpty)
    } else {
        None
    }
}

/// The inventory of a cache whose artifacts have been recorded, in order.
pub fn complete_inventory(artifacts: &Vec<CacheArtifact>) -> (inventory: Result<
    Vec<CacheArtifact>,
    CacheError,
>)
    ensures
        match inventory {
            Ok(sorted) => inventory_error(artifacts@) is None && sorted_artifacts(
                artifacts@,
                sorted@,
            ),
            Err(error) => inventory_error(artifacts@) == Some(error),
        },
{
    let sorted = sort_artifacts(artifacts);
    let mut total: u64 = 0;
    let mut compiled = false;
    let mut index: usize = 0;
    assert(artifacts@.take(0) =~= Seq::empty());
    while index < artifacts.len()
        invariant
            index <= artifacts@.len(),
            total == total_size(artifacts@.take(index as int)),
            compiled == exists|i: int|
                0 <= i < index && is_compiled((#[trigger] artifacts@[i]).relative_name@),
        decreases artifacts.len() - index,
    {
        let ghost longer = artifacts@.take(index + 1);
        proof {
            assert(longer.drop_last() =~= artifacts@.take(index as int));
            assert(longer.last() == artifacts@[index as int]);
            totals_grow(artifacts@, index + 1);
        }
        total = match total.checked_add(artifacts[index].size) {
            Some(sum) => sum,
            None => {
                return Err(CacheError::TotalSizeOverflow);
            },
        };
        if bytes_end_with(
            artifacts[index].relative_name.as_str().as_bytes(),
            ".mxr".as_bytes(),
        ) {
            assert(is_compiled(artifacts@[index as int].relative_name@));
            compiled = true;
        }
        index = index + 1;
    }
    assert(artifacts@.take(index as int) =~= artifacts@);
    if total > MAX_TOTAL_CACHE_BYTES {
        return Err(CacheError::TotalSizeLimit);
    }
    if !compiled {
        return Err(CacheError::MxrInventoryEmpty);
    }
    Ok(sorted)
}

/// An inventory that is complete lists every artifact of the walk in order, is
/// within the size limit, and holds a compiled network.
pub proof fn inventories_are_bounded(artifacts: Seq<CacheArtifact>)
    requires
        inventory_error(artifacts) is None,
    ensures
        total_size(artifacts) <= MAX_TOTAL_CACHE_BYTES,
        artifacts.len() > 0,
{
    if artifacts.len() == 0 {
        assert(!holds_compiled(artifacts));
    }
}

/// Two inventories hold the same artifacts in the same order.
pub open spec fn same_inventory(left: Seq<CacheArtifact>, right: Seq<CacheArtifact>) -> bool {
    left.len() == right.len() && forall|i: int|
        0 <= i < left.len() ==> same_artifact(#[trigger] left[i], right[i])
}

fn artifacts_match(left: &CacheArtifact, right: &CacheArtifact) -> (same: bool)
    ensures
        same == same_artifact(*left, *right),
{
    str_eq(left.relative_name.as_str(), right.relative_name.as_str()) && left.size == right.size
        && str_eq(left.sha256.as_str(), right.sha256.as_str()) && left.device == right.device
        && left.inode == right.inode && left.mode == right.mode && left.mtime == right.mtime
        && left.mtime_nsec == right.mtime_nsec && left.ctime == right.ctime && left.ctime_nsec
        == right.ctime_nsec
}

/// Whether a cache still holds what it held.
pub fn verify_cache_inventory(actual: &Vec<CacheArtifact>, expected: &Vec<CacheArtifact>) -> (result:
    Result<(), CacheError>)
    ensures
        result == (if same_inventory(actual@, expected@) {
            Ok(())
        } else {
            Err(CacheError::InventoryChanged)
        }),
{
    if actual.len() != expected.len() {
        return Err(CacheError::InventoryChanged);
    }
    let mut index: usize = 0;
    while index < actual.len()
        invariant
            index <= actual@.len(),
            actual@.len() == expected@.len(),
            forall|i: int| 0 <= i < index ==> same_artifact(#[trigger] actual@[i], expected@[i]),
        decreases actual.len() - index,
    {
        if !artifacts_match(&actual[index], &expected[index]) {
            assert(!same_inventory(actual@, expected@));
            return Err(CacheError::InventoryChanged);
        }
        index = index + 1;
    }
    Ok(())
}

/// Whether an artifact that is about to be made read-only is the one that was
/// recorded.
pub fn check_before_read_only(stamp: &ArtifactStamp, artifact: &CacheArtifact) -> (result: Result<
    (),
    CacheError,
>)
    ensures
        result == (if stamp.device == artifact.device && stamp.inode == artifact.inode
            && stamp.length == artifact.size && stamp.mtime == artifact.mtime && stamp.mtime_nsec
            == artifact.mtime_nsec && stamp.ctime == artifact.ctime && stamp.ctime_nsec
            == artifact.ctime_nsec {
            Ok(())
        } else {
            Err(CacheError::ChangedBeforeReadOnly)
        }),
{
    if stamp.device != artifact.device || stamp.inode != artifact.inode || stamp.length
        != artifact.size || stamp.mtime != artifact.mtime || stamp.mtime_nsec
        != artifact.mtime_nsec || stamp.ctime != artifact.ctime || stamp.ctime_nsec
        != artifact.ctime_nsec {
        return Err(CacheError::ChangedBeforeReadOnly);
    }
    Ok(())
}

/// The same file with the same content, now readable to its owner only. Its
/// change time may differ.
pub open spec fn made_read_only(before: CacheArtifact, after: CacheArtifact) -> bool {
    &&& before.relative_name@ == after.relative_name@
    &&& before.size == after.size
    &&& before.sha256@ == after.sha256@
    &&& before.device == after.device
    &&& before.inode == after.inode
    &&& before.mtime == after.mtime
    &&& before.mtime_nsec == after.mtime_nsec
    &&& after.mode == 0o400
}

fn is_made_read_only(before: &CacheArtifact, after: &CacheArtifact) -> (done: bool)
    ensures
        done == made_read_only(*before, *after),
{
    str_eq(before.relative_name.as_str(), after.relative_name.as_str()) && before.size == after.size
        && str_eq(before.sha256.as_str(), after.sha256.as_str()) && before.device == after.device
        && before.inode == after.inode && before.mtime == after.mtime && before.mtime_nsec
        == after.mtime_nsec && after.mode == 0o400
}

/// Whether making a cache read-only changed nothing else.
pub fn check_read_only(generated: &Vec<CacheArtifact>, readonly: &Vec<CacheArtifact>) -> (result:
    Result<(), CacheError>)
    ensures
        result == (if generated@.len() != readonly@.len() {
            Err(CacheError::ReadOnlyInventoryChanged)
        } else if forall|i: int|
            0 <= i < generated@.len() ==> made_read_only(#[trigger] generated@[i], readonly@[i]) {
            Ok(())
        } else {
            Err(CacheError::ReadOnlyMismatch)
        }),
{
    if generated.len() != readonly.len() {
        return Err(CacheError::ReadOnlyInventoryChanged);
    }
    let mut index: usize = 0;
    while index < generated.len()
        invariant
            index <= generated@.len(),
            generated@.len() == readonly@.len(),
            forall|i: int|
                0 <= i < index ==> made_read_only(#[trigger] generated@[i], readonly@[i]),
        decreases generated.len() - index,
    {
        if !is_made_read_only(&generated[index], &readonly[index]) {
            assert(!made_read_only(generated@[index as int], readonly@[index as int]));
            return Err(CacheError::ReadOnlyMismatch);
        }
        index = index + 1;
    }
    Ok(())
}


/// Files that are found to be the same agree in everything that is known of them, and a
/// list of files agrees with another only file by file.
pub proof fn like_inventories_agree_in_everything(
    left: Seq<CacheArtifact>,
    right: Seq<CacheArtifact>,
    i: int,
)
    requires
        0 <= i < left.len(),
    ensures
        same_inventory(left, right) ==> {
            &&& left.len() == right.len()
            &&& left[i].relative_name@ == right[i].relative_name@
            &&& left[i].size == right[i].size
            &&& left[i].sha256@ == right[i].sha256@
            &&& left[i].device == right[i].device
            &&& left[i].inode == right[i].inode
            &&& left[i].mode == right[i].mode
            &&& left[i].mtime == right[i].mtime
            &&& left[i].mtime_nsec == right[i].mtime_nsec
            &&& left[i].ctime == right[i].ctime
            &&& left[i].ctime_nsec == right[i].ctime_nsec
        },
        same_inventory(left, left),
{
    if same_inventory(left, right) {
        assert(same_artifact(left[i], right[i]));
    }
}

/// A file that was made read-only is the same file with the same content, may only be
/// read, and only by its owner.
pub proof fn read_only_files_keep_their_content(before: CacheArtifact, after: CacheArtifact)
    ensures
        made_read_only(before, after) <==> {
            &&& after.mode == 256
            &&& after.relative_name@ == before.relative_name@
            &&& after.size == before.size && after.sha256@ == before.sha256@
            &&& after.device == before.device && after.inode == before.inode
            &&& after.mtime == before.mtime && after.mtime_nsec == before.mtime_nsec
        },
{
}

/// Files are listed by name; those of one name by size, and those of one name and size
/// by digest.
pub proof fn files_are_listed_by_name(left: CacheArtifact, right: CacheArtifact)
    ensures
        bytes_less(encode_utf8(left.relative_name@), encode_utf8(right.relative_name@))
            ==> artifact_less(left, right) && !artifact_less(right, left),
        left.relative_name@ == right.relative_name@ && left.size < right.size ==> artifact_less(
            left,
            right,
        ) && !artifact_less(right, left),
        left.relative_name@ == right.relative_name@ && left.size == right.size && bytes_less(
            encode_utf8(left.sha256@),
            encode_utf8(right.sha256@),
        ) ==> artifact_less(left, right) && !artifact_less(right, left),
        same_artifact(left, right) ==> !artifact_less(left, right),
{
    bytes_less_total(encode_utf8(left.relative_name@), encode_utf8(right.relative_name@));
    bytes_less_irreflexive(encode_utf8(left.relative_name@));
    bytes_less_irreflexive(encode_utf8(right.relative_name@));
    bytes_less_total(encode_utf8(left.sha256@), encode_utf8(right.sha256@));
    bytes_less_irreflexive(encode_utf8(left.sha256@));
    if same_artifact(left, right) {
        assert(later_numbers(left) =~= later_numbers(right));
        equal_numbers_are_not_less(later_numbers(left));
    }
}

proof fn equal_numbers_are_not_less(numbers: Seq<int>)
    ensures
        !numbers_less(numbers, numbers),
    decreases numbers.len(),
{
    if numbers.len() > 0 {
        equal_numbers_are_not_less(numbers.skip(1));
    }
}

/// An inventory is accepted exactly where its files together have at most a gigabyte and
/// one of them is a compiled model.
pub proof fn inventories_hold_a_compiled_model(artifacts: Seq<CacheArtifact>)
    ensures
        inventory_error(artifacts) is None <==> total_size(artifacts) <= 1073741824 && exists|i: int|
            0 <= i < artifacts.len() && ends_with(
                encode_utf8((#[trigger] artifacts[i]).relative_name@),
                seq![46u8, 109u8, 120u8, 114u8],
            ),
        artifacts.len() > 0 ==> total_size(artifacts) == total_size(artifacts.drop_last())
            + artifacts.last().size,
        artifacts.len() == 0 ==> total_size(artifacts) == 0,
{
    reveal_strlit(".mxr");
    is_ascii_chars_encode_utf8(".mxr"@);
    assert(encode_utf8(".mxr"@) =~= seq![46u8, 109u8, 120u8, 114u8]);
}

/// A file belongs into the inventory only where it is the user's and nobody else may
/// touch it.
pub proof fn listed_files_are_the_users(metadata: InputMetadata, user: u32)
    ensures
        CacheWalk::private_file(metadata, user) <==> metadata.is_file && metadata.uid == user
            && metadata.mode & 0o077 == 0,
{
    let mode = metadata.mode;
    assert(mode % 64 == 0 <==> mode & 0o077 == 0) by (bit_vector);
}

/// What is noted of a file is what was found: its name, digest and size, where it lies,
/// its permissions, and when it was changed.
pub proof fn records_note_what_was_found(
    artifact: CacheArtifact,
    name: Seq<char>,
    before: InputMetadata,
    sha256: Seq<char>,
    size: u64,
)
    requires
        records(artifact, name, before, sha256, size),
    ensures
        artifact.relative_name@ == name && artifact.sha256@ == sha256 && artifact.size == size,
        artifact.device == before.stamp.device && artifact.inode == before.stamp.inode,
        artifact.mode == before.mode & 0o7777,
        artifact.mtime == before.stamp.mtime && artifact.mtime_nsec == before.stamp.mtime_nsec,
        artifact.ctime == before.stamp.ctime && artifact.ctime_nsec == before.stamp.ctime_nsec,
{
    let mode = before.mode;
    assert(mode % 4096 == mode & 0o7777) by (bit_vector);
}

/// In the cache itself the two files that belong to the experiment are passed over, and
/// nothing else; below it nothing is.
pub proof fn only_own_files_are_passed_over(prefix: Seq<char>, names: Seq<Seq<u8>>, at: int)
    requires
        0 <= at <= names.len(),
    ensures
        at <= next_name(prefix, names, at) <= names.len(),
        forall|i: int|
            at <= i < next_name(prefix, names, at) ==> prefix.len() == 0 && (#[trigger] names[i]
                == encode_utf8(".exclusive.lock"@) || names[i] == encode_utf8("provenance.json"@)),
        next_name(prefix, names, at) < names.len() && prefix.len() == 0 ==> {
            let name = names[next_name(prefix, names, at)];
            name != encode_utf8(".exclusive.lock"@) && name != encode_utf8("provenance.json"@)
        },
    decreases names.len() - at,
{
    encode_utf8_valid_utf8(".exclusive.lock"@);
    encode_utf8_valid_utf8("provenance.json"@);
    encode_utf8_decode_utf8(".exclusive.lock"@);
    encode_utf8_decode_utf8("provenance.json"@);
    if at < names.len() && valid_utf8(names[at]) && own_file(prefix, decode_utf8(names[at])) {
        decode_utf8_encode_utf8(names[at]);
        only_own_files_are_passed_over(prefix, names, at + 1);
    }
}

/// A directory's names are those of its entries, but for the directory itself and the one
/// above it, in order and each as often as it stands there.
pub proof fn names_are_those_of_the_entries(entries: Seq<Seq<u8>>, sorted: Seq<Seq<u8>>)
    requires
        sorted_from(real_entries(entries), sorted),
    ensures
        sorted.len() == real_entries(entries).len(),
        forall|i: int, j: int|
            0 <= i < j < sorted.len() ==> !bytes_less(#[trigger] sorted[j], #[trigger] sorted[i]),
        forall|i: int|
            0 <= i < sorted.len() ==> entries.contains(#[trigger] sorted[i]) && sorted[i] != seq![
                46u8,
            ] && sorted[i] != seq![46u8, 46u8],
        real_entries(entries).len() <= usize::MAX ==> forall|i: int|
            0 <= i < entries.len() && #[trigger] entries[i] != seq![46u8] && entries[i] != seq![
                46u8,
                46u8,
            ] ==> sorted.contains(entries[i]),
{
    broadcast use vstd::seq_lib::group_filter_ensures;

    let keep = |name: Seq<u8>| real_entry(name);
    let kept = real_entries(entries);
    let order = choose|order: Seq<usize>|
        is_byte_order(order, kept) && #[trigger] arranged(kept, sorted, order);
    let less = |a: int, b: int| key_less(kept, a, b);
    key_less_is_strict_total(kept);
    assert forall|i: int, j: int| 0 <= i < j < sorted.len() implies !bytes_less(
        #[trigger] sorted[j],
        #[trigger] sorted[i],
    ) by {
        assert(less(order[i] as int, order[j] as int));
        bytes_less_total(kept[order[i] as int], kept[order[j] as int]);
    }
    assert forall|i: int| 0 <= i < sorted.len() implies entries.contains(#[trigger] sorted[i])
        && sorted[i] != seq![46u8] && sorted[i] != seq![46u8, 46u8] by {
        assert(sorted[i] == kept[order[i] as int]);
        assert(entries.filter(keep).contains(sorted[i]));
        entries.lemma_filter_contains_rev(keep, sorted[i]);
        assert(keep(entries.filter(keep)[order[i] as int]));
    }
    if kept.len() <= usize::MAX {
        crate::order::orders_are_complete(order, kept.len(), less);
        assert forall|i: int|
            0 <= i < entries.len() && #[trigger] entries[i] != seq![46u8] && entries[i] != seq![
                46u8,
                46u8,
            ] implies sorted.contains(entries[i]) by {
            assert(keep(entries[i]));
            assert(entries.filter(keep).contains(entries[i]));
            let k = kept.index_of(entries[i]);
            assert(order.contains(k as usize));
            let n = order.index_of(k as usize);
            assert(order[n] == k);
            assert(sorted[n] == entries[i]);
        }
    }
}

} // verus!
