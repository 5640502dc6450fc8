//! What a worker of the precision experiment ran with: the libraries of the
//! provider stack, and everything that its result depends on.
use crate::digest::digest_text;
use crate::fp16_args::ParentConfig;
use crate::fp16_corpus::{
    corpus_digest, corpus_encoding, verify_corpus_digest, InputMetadata, PinnedCorpus,
};
use crate::fp16_environment::{
    text_views, variable_views, EnvironmentAttestation, Precision, Variable,
};
use crate::order::{bytes_before, is_order, key_less, key_less_is_strict_total, order_by};
use crate::paths::{file_name, final_name, is_below, is_same_path, lies_below, same_path};
use crate::text::{
    ascii_lowercase, bytes_contain, bytes_eq, bytes_start_with, chars_of, contains, decode_lossy, is_white,
    lossy_text, lowercase, starts_with, str_eq, string_of, utf8_text, white,
};
use vstd::prelude::*;
use vstd::string::*;
use vstd::utf8::*;

verus! {

pub const ORT_CRATE_VERSION: &'static str = "2.0.0-rc.12";

pub const MAX_PROC_MAPS_BYTES: usize = 4194304;

pub const MAX_RUNTIME_LIBRARIES: usize = 64;

pub const MAX_RUNTIME_LIBRARY_BYTES: u64 = 1073741824;

/// Whether a file name, in small letters, is that of a library of the provider
/// stack.
pub open spec fn is_stack_name(lowered: Seq<u8>) -> bool {
    ||| contains(lowered, encode_utf8("onnxruntime"@))
    ||| starts_with(lowered, encode_utf8("libmigraphx"@))
    ||| starts_with(lowered, encode_utf8("libamdhip64"@))
    ||| starts_with(lowered, encode_utf8("libhsa-runtime64"@))
    ||| starts_with(lowered, encode_utf8("librocblas"@))
    ||| starts_with(lowered, encode_utf8("libmiopen"@))
    ||| starts_with(lowered, encode_utf8("libhiprtc"@))
    ||| starts_with(lowered, encode_utf8("librocsolver"@))
    ||| starts_with(lowered, encode_utf8("librocrand"@))
    ||| starts_with(lowered, encode_utf8("librocfft"@))
}

/// The bytes of a name in small letters.
pub open spec fn lowered(name: Seq<char>) -> Seq<u8> {
    encode_utf8(lowercase(name))
}

pub fn is_provider_stack_library(name: &str) -> (found: bool)
    ensures
        found == is_stack_name(lowered(name@)),
{
    let lower = ascii_lowercase(name);
    let bytes = lower.as_str().as_bytes();
    bytes_contain(bytes, "onnxruntime".as_bytes()) || bytes_start_with(
        bytes,
        "libmigraphx".as_bytes(),
    ) || bytes_start_with(bytes, "libamdhip64".as_bytes()) || bytes_start_with(
        bytes,
        "libhsa-runtime64".as_bytes(),
    ) || bytes_start_with(bytes, "librocblas".as_bytes()) || bytes_start_with(
        bytes,
        "libmiopen".as_bytes(),
    ) || bytes_start_with(bytes, "libhiprtc".as_bytes()) || bytes_start_with(
        bytes,
        "librocsolver".as_bytes(),
    ) || bytes_start_with(bytes, "librocrand".as_bytes()) || bytes_start_with(
        bytes,
        "librocfft".as_bytes(),
    )
}

#[derive(Clone, Copy, Debug, PartialEq, Eq, Structural)]
pub enum StackError {
    MapsSizeLimit,
    MapsNonUtf8,
    LibraryNameInvalid,
    LibraryDeleted,
    LibraryCountLimit,
    PathNotTrusted,
    LibraryNotTrusted,
    Incomplete,
    Mismatch,
}

/// The first place from `at` on that holds no white space, or the end.
pub open spec fn word_start(text: Seq<char>, at: int) -> int
    decreases text.len() - at,
{
    if 0 <= at < text.len() && is_white(text[at]) {
        word_start(text, at + 1)
    } else {
        at
    }
}

/// The first place from `at` on that holds white space, or the end.
pub open spec fn word_end(text: Seq<char>, at: int) -> int
    decreases text.len() - at,
{
    if 0 <= at < text.len() && !is_white(text[at]) {
        word_end(text, at + 1)
    } else {
        at
    }
}

/// The word with the number `count`, from zero, among those from `at` on.
pub open spec fn nth_word(text: Seq<char>, at: int, count: nat) -> Option<Seq<char>>
    decreases count,
{
    let start = word_start(text, at);
    if start >= text.len() {
        None
    } else if count == 0 {
        Some(text.subrange(start, word_end(text, start)))
    } else {
        nth_word(text, word_end(text, start), (count - 1) as nat)
    }
}

/// The place of the first line feed from `at` on, or the end.
pub open spec fn line_end(text: Seq<char>, at: int) -> int
    decreases text.len() - at,
{
    if 0 <= at < text.len() && text[at] != '\n' {
        line_end(text, at + 1)
    } else {
        at
    }
}

/// The line that begins at `at`, without the carriage return that may stand
/// before its line feed.
pub open spec fn line_at(text: Seq<char>, at: int) -> Seq<char> {
    let end = line_end(text, at);
    if at < end < text.len() && text[end - 1] == '\r' {
        text.subrange(at, end - 1)
    } else {
        text.subrange(at, end)
    }
}

/// Whether a line ends with the mark of a file that is gone.
pub open spec fn is_deleted(line: Seq<char>) -> bool {
    let mark = " (deleted)"@;
    mark.len() <= line.len() && line.skip(line.len() - mark.len()) == mark
}

/// What a line of the memory map names: the sixth word, if it is a path, and if
/// its file is a library of the provider stack that still exists.
pub open spec fn library_in(line: Seq<char>) -> Result<Option<Seq<char>>, StackError> {
    match nth_word(line, 0, 5) {
        None => Ok(None),
        Some(path) => if path.len() == 0 || path[0] != '/' {
            Ok(None)
        } else {
            match final_name(encode_utf8(path)) {
                None => Err(StackError::LibraryNameInvalid),
                Some(name) => if !valid_utf8(name) {
                    Err(StackError::LibraryNameInvalid)
                } else if !is_stack_name(lowered(decode_utf8(name))) {
                    Ok(None)
                } else if is_deleted(line) {
                    Err(StackError::LibraryDeleted)
                } else {
                    Ok(Some(path))
                }
            }
        },
    }
}

/// Whether a path is among others, by the names along it.
pub open spec fn is_listed(paths: Seq<Seq<char>>, path: Seq<char>) -> bool {
    exists|i: int|
        0 <= i < paths.len() && same_path(encode_utf8(#[trigger] paths[i]), encode_utf8(path))
}

/// The libraries in the lines from `at` on, each once, behind those in `so_far`.
pub open spec fn libraries_from(text: Seq<char>, at: int, so_far: Seq<Seq<char>>) -> Result<
    Seq<Seq<char>>,
    StackError,
>
    decreases text.len() - at,
{
    if at < 0 || at >= text.len() {
        Ok(so_far)
    } else {
        let next = line_end(text, at) + 1;
        match library_in(line_at(text, at)) {
            Err(error) => Err(error),
            Ok(found) => {
                let listed = match found {
                    Some(path) => if is_listed(so_far, path) {
                        so_far
                    } else {
                        so_far.push(path)
                    },
                    None => so_far,
                };
                if at < next <= text.len() {
                    libraries_from(text, next, listed)
                } else {
                    Ok(listed)
                }
            },
        }
    }
}

/// The libraries of the provider stack in a memory map.
pub open spec fn mapped_libraries(maps: Seq<u8>) -> Result<Seq<Seq<char>>, StackError> {
    if maps.len() > MAX_PROC_MAPS_BYTES {
        Err(StackError::MapsSizeLimit)
    } else if !valid_utf8(maps) {
        Err(StackError::MapsNonUtf8)
    } else {
        match libraries_from(decode_utf8(maps), 0, Seq::empty()) {
            Err(error) => Err(error),
            Ok(paths) => if paths.len() > MAX_RUNTIME_LIBRARIES {
                Err(StackError::LibraryCountLimit)
            } else {
                Ok(paths)
            },
        }
    }
}

fn find_word(text: &Vec<char>, count: usize) -> (word: Option<(usize, usize)>)
    ensures
        match word {
            Some((start, end)) => start <= end <= text@.len() && nth_word(text@, 0, count as nat)
                == Some(text@.subrange(start as int, end as int)),
            None => nth_word(text@, 0, count as nat) is None,
        },
{
    let mut at: usize = 0;
    let mut left: usize = count;
    loop
        invariant
            at <= text@.len(),
            nth_word(text@, 0, count as nat) == nth_word(text@, at as int, left as nat),
        decreases left,
    {
        let mut start: usize = at;
        while start < text.len() && white(text[start])
            invariant
                at <= start <= text@.len(),
                word_start(text@, at as int) == word_start(text@, start as int),
            decreases text.len() - start,
        {
            start = start + 1;
        }
        if start == text.len() {
            return None;
        }
        let mut end: usize = start;
        while end < text.len() && !white(text[end])
            invariant
                start <= end <= text@.len(),
                word_end(text@, start as int) == word_end(text@, end as int),
            decreases text.len() - end,
        {
            end = end + 1;
        }
        if left == 0 {
            return Some((start, end));
        }
        left = left - 1;
        at = end;
    }
}

fn copy_chars(text: &Vec<char>, start: usize, end: usize) -> (part: Vec<char>)
    requires
        start <= end <= text@.len(),
    ensures
        part@ == text@.subrange(start as int, end as int),
{
    let mut part: Vec<char> = Vec::new();
    part.extend_from_slice(vstd::slice::slice_subrange(text.as_slice(), start, end));
    assert(part@ =~= text@.subrange(start as int, end as int));
    part
}

fn line_is_deleted(line: &Vec<char>) -> (found: bool)
    ensures
        found == is_deleted(line@),
{
    let mark = chars_of(" (deleted)");
    if mark.len() > line.len() {
        return false;
    }
    let start: usize = line.len() - mark.len();
    let tail = copy_chars(line, start, line.len());
    assert(tail@ =~= line@.skip(start as int));
    let mut index: usize = 0;
    while index < mark.len()
        invariant
            index <= mark@.len(),
            mark@ == " (deleted)"@,
            start == line@.len() - mark@.len(),
            tail@ == line@.skip(start as int),
            mark@.len() == tail@.len(),
            forall|i: int| 0 <= i < index ==> mark@[i] == tail@[i],
        decreases mark.len() - index,
    {
        if mark[index] != tail[index] {
            assert(tail@ != mark@);
            return false;
        }
        index = index + 1;
    }
    assert(tail@ =~= mark@);
    true
}

/// The library that a line of the memory map names.
fn read_line(line: &Vec<char>) -> (library: Result<Option<String>, StackError>)
    ensures
        match library {
            Ok(Some(path)) => library_in(line@) == Ok::<Option<Seq<char>>, StackError>(
                Some(path@),
            ),
            Ok(None) => library_in(line@) == Ok::<Option<Seq<char>>, StackError>(None),
            Err(error) => library_in(line@) == Err::<Option<Seq<char>>, StackError>(error),
        },
{
    let (start, end): (usize, usize) = match find_word(line, 5) {
        None => {
            return Ok(None);
        },
        Some(word) => word,
    };
    let word = copy_chars(line, start, end);
    if word.len() == 0 || word[0] != '/' {
        return Ok(None);
    }
    let path = string_of(word.as_slice());
    let name_bytes = match file_name(path.as_str().as_bytes()) {
        None => {
            return Err(StackError::LibraryNameInvalid);
        },
        Some(name) => name,
    };
    let name = match utf8_text(name_bytes.as_slice()) {
        None => {
            return Err(StackError::LibraryNameInvalid);
        },
        Some(name) => name,
    };
    if !is_provider_stack_library(name.as_str()) {
        return Ok(None);
    }
    if line_is_deleted(line) {
        return Err(StackError::LibraryDeleted);
    }
    Ok(Some(path))
}

fn path_is_listed(paths: &Vec<String>, path: &str) -> (listed: bool)
    ensures
        listed == is_listed(text_views(paths@), path@),
{
    let mut index: usize = 0;
    while index < paths.len()
        invariant
            index <= paths@.len(),
            forall|i: int|
                0 <= i < index ==> !same_path(
                    encode_utf8(#[trigger] text_views(paths@)[i]),
                    encode_utf8(path@),
                ),
        decreases paths.len() - index,
    {
        if is_same_path(paths[index].as_str().as_bytes(), path.as_bytes()) {
            assert(text_views(paths@)[index as int] == paths@[index as int]@);
            return true;
        }
        index = index + 1;
    }
    false
}

/// What was found is what a memory map lists.
pub open spec fn found_is(
    found: Result<Vec<String>, StackError>,
    wanted: Result<Seq<Seq<char>>, StackError>,
) -> bool {
    match wanted {
        Ok(paths) => found matches Ok(list) && text_views(list@) == paths,
        Err(error) => found == Err::<Vec<String>, StackError>(error),
    }
}

/// The libraries of the provider stack that a memory map lists, each once, in
/// the order in which they first occur.
pub fn provider_library_paths(maps: &[u8]) -> (paths: Result<Vec<String>, StackError>)
    ensures
        found_is(paths, mapped_libraries(maps@)),
{
    if maps.len() > MAX_PROC_MAPS_BYTES {
        return Err(StackError::MapsSizeLimit);
    }
    let decoded = match utf8_text(maps) {
        None => {
            return Err(StackError::MapsNonUtf8);
        },
        Some(decoded) => decoded,
    };
    let text = chars_of(decoded.as_str());
    let mut paths: Vec<String> = Vec::new();
    assert(text_views(paths@) =~= Seq::empty());
    let mut at: usize = 0;
    while at < text.len()
        invariant
            at <= text@.len(),
            libraries_from(text@, 0, Seq::empty()) == libraries_from(
                text@,
                at as int,
                text_views(paths@),
            ),
            text@ == decode_utf8(maps@),
            valid_utf8(maps@),
            maps@.len() <= MAX_PROC_MAPS_BYTES,
        decreases text.len() - at,
    {
        let mut end: usize = at;
        while end < text.len() && text[end] != '\n'
            invariant
                at <= end <= text@.len(),
                line_end(text@, at as int) == line_end(text@, end as int),
            decreases text.len() - end,
        {
            end = end + 1;
        }
        let stop: usize = if end < text.len() && end > at && text[end - 1] == '\r' {
            end - 1
        } else {
            end
        };
        let line = copy_chars(&text, at, stop);
        assert(line@ == line_at(text@, at as int));
        let found = match read_line(&line) {
            Ok(found) => found,
            Err(error) => {
                return Err(error);
            },
        };
        let ghost before = text_views(paths@);
        match found {
            Some(path) => {
                if !path_is_listed(&paths, path.as_str()) {
                    let ghost shown = path@;
                    paths.push(path);
                    assert(text_views(paths@) =~= before.push(shown));
                }
            },
            None => {},
        }
        if end == text.len() {
            at = end;
        } else {
            at = end + 1;
        }
    }
    if paths.len() > MAX_RUNTIME_LIBRARIES {
        return Err(StackError::LibraryCountLimit);
    }
    Ok(paths)
}

/// The digest of a library that a worker had mapped.
#[derive(Debug)]
pub struct RuntimeLibraryDigest {
    pub name: String,
    pub path: String,
    pub sha256: String,
    pub size: u64,
}

/// Whether a path lies where the system installs libraries.
pub open spec fn is_trusted_path(path: Seq<u8>) -> bool {
    &&& path.len() > 0 && path[0] == 47
    &&& (lies_below(path, encode_utf8("/usr/lib"@)) || lies_below(
        path,
        encode_utf8("/usr/local/lib"@),
    ) || lies_below(path, encode_utf8("/lib"@)) || lies_below(path, encode_utf8("/opt/rocm"@)))
}

/// Whether a library may be hashed by its path: it lies where the system
/// installs libraries.
pub fn runtime_library_path_is_trusted(path: &[u8]) -> (trusted: bool)
    ensures
        trusted == is_trusted_path(path@),
{
    path.len() > 0 && path[0] == 47 && (is_below(path, "/usr/lib".as_bytes()) || is_below(
        path,
        "/usr/local/lib".as_bytes(),
    ) || is_below(path, "/lib".as_bytes()) || is_below(path, "/opt/rocm".as_bytes()))
}

/// Whether an opened library can only be changed by the administrator: a
/// regular file of theirs, not writable by its group or by others.
pub open spec fn is_trusted_file(metadata: InputMetadata) -> bool {
    metadata.is_file && metadata.uid == 0 && (metadata.mode / 16) % 2 == 0 && (metadata.mode / 2)
        % 2 == 0
}

pub fn runtime_library_is_trusted(metadata: &InputMetadata) -> (trusted: bool)
    ensures
        trusted == is_trusted_file(*metadata),
{
    metadata.is_file && metadata.uid == 0 && (metadata.mode / 16) % 2 == 0 && (metadata.mode / 2)
        % 2 == 0
}

/// The entry of a library that was hashed: its file name and its path as they
/// are shown.
pub fn runtime_library(path: &[u8], sha256: String, size: u64) -> (library: Option<
    RuntimeLibraryDigest,
>)
    ensures
        match library {
            Some(entry) => final_name(path@) matches Some(name) && entry.name@ == lossy_text(name)
                && entry.path@ == lossy_text(path@) && entry.sha256 == sha256 && entry.size == size,
            None => final_name(path@) is None,
        },
{
    match file_name(path) {
        None => None,
        Some(name) => Some(
            RuntimeLibraryDigest {
                name: decode_lossy(name.as_slice()),
                path: decode_lossy(path),
                sha256,
                size,
            },
        ),
    }
}

/// The libraries of the provider stack, by path, and which parts are there.
#[derive(Debug)]
pub struct ProviderStackProvenance {
    pub libraries: Vec<RuntimeLibraryDigest>,
    pub has_ort_core: bool,
    pub has_ort_migraphx_provider: bool,
    pub has_migraphx: bool,
    pub has_hip: bool,
    pub has_rocm_runtime: bool,
}

/// Two entries hold the same.
pub open spec fn same_library(left: RuntimeLibraryDigest, right: RuntimeLibraryDigest) -> bool {
    left.name@ == right.name@ && left.path@ == right.path@ && left.sha256@ == right.sha256@
        && left.size == right.size
}

pub open spec fn path_keys(libraries: Seq<RuntimeLibraryDigest>) -> Seq<Seq<u8>> {
    libraries.map_values(|library: RuntimeLibraryDigest| encode_utf8(library.path@))
}

/// `after` holds the entries of `before` in the order that `order` gives.
pub open spec fn arranged(
    before: Seq<RuntimeLibraryDigest>,
    after: Seq<RuntimeLibraryDigest>,
    order: Seq<usize>,
) -> bool {
    after.len() == order.len() && forall|i: int|
        0 <= i < after.len() ==> same_library(#[trigger] after[i], before[order[i] as int])
}

/// `after` holds the entries of `before` by path, equal paths in their order.
pub open spec fn sorted_by_path(
    before: Seq<RuntimeLibraryDigest>,
    after: Seq<RuntimeLibraryDigest>,
) -> bool {
    exists|order: Seq<usize>|
        is_path_order(order, path_keys(before)) && #[trigger] arranged(before, after, order)
}

pub open spec fn is_path_order(order: Seq<usize>, keys: Seq<Seq<u8>>) -> bool {
    is_order(order, keys.len(), |a: int, b: int| key_less(keys, a, b))
}

fn copy_text(text: &String) -> (copy: String)
    ensures
        copy@ == text@,
{
    text.as_str().to_owned()
}

fn copy_library(library: &RuntimeLibraryDigest) -> (copy: RuntimeLibraryDigest)
    ensures
        same_library(copy, *library),
{
    RuntimeLibraryDigest {
        name: copy_text(&library.name),
        path: copy_text(&library.path),
        sha256: copy_text(&library.sha256),
        size: library.size,
    }
}

fn sort_libraries(libraries: &Vec<RuntimeLibraryDigest>) -> (sorted: Vec<RuntimeLibraryDigest>)
    ensures
        sorted_by_path(libraries@, sorted@),
        sorted@.len() == libraries@.len(),
{
    let ghost keys = path_keys(libraries@);
    let ghost less = |a: int, b: int| key_less(keys, a, b);
    let before = |a: usize, b: usize| -> (r: bool)
        requires
            a < libraries@.len(),
            b < libraries@.len(),
        ensures
            r == key_less(path_keys(libraries@), a as int, b as int),
        {
            let left = libraries[a].path.as_str();
            let right = libraries[b].path.as_str();
            assert(path_keys(libraries@)[a as int] == encode_utf8(left@));
            assert(path_keys(libraries@)[b as int] == encode_utf8(right@));
            bytes_before(left.as_bytes(), right.as_bytes()) || (a < b && bytes_eq(
                left.as_bytes(),
                right.as_bytes(),
            ))
        };
    proof {
        key_less_is_strict_total(keys);
    }
    let order = order_by(libraries.len(), &before, Ghost(less));
    let mut sorted: Vec<RuntimeLibraryDigest> = Vec::new();
    let mut index: usize = 0;
    while index < order.len()
        invariant
            index <= order@.len(),
            order@.len() == libraries@.len(),
            forall|i: int| 0 <= i < order@.len() ==> (#[trigger] order@[i]) < libraries@.len(),
            sorted@.len() == index,
            forall|i: int|
                0 <= i < index ==> same_library(
                    #[trigger] sorted@[i],
                    libraries@[order@[i] as int],
                ),
        decreases order.len() - index,
    {
        sorted.push(copy_library(&libraries[order[index]]));
        index = index + 1;
    }
    assert(is_path_order(order@, keys));
    assert(arranged(libraries@, sorted@, order@));
    sorted
}

/// Whether a library is the core of the inference runtime.
pub open spec fn is_ort_core(name: Seq<char>) -> bool {
    starts_with(lowered(name), encode_utf8("libonnxruntime.so"@)) && !contains(
        lowered(name),
        encode_utf8("providers"@),
    )
}

pub open spec fn is_ort_migraphx_provider(name: Seq<char>) -> bool {
    contains(lowered(name), encode_utf8("onnxruntime_providers_migraphx"@))
}

/// Whether a library's name begins like this.
pub open spec fn begins_with(name: Seq<char>, prefix: Seq<char>) -> bool {
    starts_with(lowered(name), encode_utf8(prefix))
}

pub open spec fn lists_ort_core(libraries: Seq<RuntimeLibraryDigest>) -> bool {
    exists|i: int| 0 <= i < libraries.len() && is_ort_core((#[trigger] libraries[i]).name@)
}

pub open spec fn lists_ort_migraphx_provider(libraries: Seq<RuntimeLibraryDigest>) -> bool {
    exists|i: int|
        0 <= i < libraries.len() && is_ort_migraphx_provider((#[trigger] libraries[i]).name@)
}

/// Whether a list holds a library whose name begins like this.
pub open spec fn lists(libraries: Seq<RuntimeLibraryDigest>, prefix: Seq<char>) -> bool {
    exists|i: int| 0 <= i < libraries.len() && begins_with((#[trigger] libraries[i]).name@, prefix)
}

/// Whether a list of libraries makes up a whole stack.
pub open spec fn lists_all_parts(libraries: Seq<RuntimeLibraryDigest>) -> bool {
    lists_ort_core(libraries) && lists_ort_migraphx_provider(libraries) && lists(
        libraries,
        "libmigraphx"@,
    ) && lists(libraries, "libamdhip64"@) && lists(libraries, "libhsa-runtime64"@)
}

/// A stack is complete: no part is missing.
pub open spec fn is_complete(stack: ProviderStackProvenance) -> bool {
    stack.libraries@.len() > 0 && stack.has_ort_core && stack.has_ort_migraphx_provider
        && stack.has_migraphx && stack.has_hip && stack.has_rocm_runtime
}

pub fn validate_provider_stack(stack: &ProviderStackProvenance) -> (result: Result<(), StackError>)
    ensures
        result == (if is_complete(*stack) {
            Ok(())
        } else {
            Err(StackError::Incomplete)
        }),
{
    if stack.libraries.len() == 0 || !stack.has_ort_core || !stack.has_ort_migraphx_provider
        || !stack.has_migraphx || !stack.has_hip || !stack.has_rocm_runtime {
        return Err(StackError::Incomplete);
    }
    Ok(())
}

proof fn parts_of_longer_list(
    shorter: Seq<RuntimeLibraryDigest>,
    longer: Seq<RuntimeLibraryDigest>,
    entry: RuntimeLibraryDigest,
)
    requires
        longer.len() == shorter.len() + 1,
        longer.last() == entry,
        forall|i: int| 0 <= i < shorter.len() ==> longer[i] == shorter[i],
    ensures
        lists_ort_core(longer) == (lists_ort_core(shorter) || is_ort_core(entry.name@)),
        lists_ort_migraphx_provider(longer) == (lists_ort_migraphx_provider(shorter)
            || is_ort_migraphx_provider(entry.name@)),
        forall|prefix: Seq<char>| #[trigger]
            lists(longer, prefix) == (lists(shorter, prefix) || begins_with(entry.name@, prefix)),
{
    let last = shorter.len() as int;
    assert(longer[last] == entry);
    if lists_ort_core(shorter) {
        let i = choose|i: int| 0 <= i < last && is_ort_core((#[trigger] shorter[i]).name@);
        assert(is_ort_core(longer[i].name@));
    }
    if lists_ort_migraphx_provider(shorter) {
        let i = choose|i: int|
            0 <= i < last && is_ort_migraphx_provider((#[trigger] shorter[i]).name@);
        assert(is_ort_migraphx_provider(longer[i].name@));
    }
    assert forall|prefix: Seq<char>| #[trigger]
        lists(longer, prefix) == (lists(shorter, prefix) || begins_with(entry.name@, prefix)) by {
        if lists(shorter, prefix) {
            let i = choose|i: int|
                0 <= i < last && begins_with((#[trigger] shorter[i]).name@, prefix);
            assert(begins_with(longer[i].name@, prefix));
        }
    }
}

/// The provider stack that hashed libraries make up.
pub fn provider_stack_of(libraries: &Vec<RuntimeLibraryDigest>) -> (stack: Result<
    ProviderStackProvenance,
    StackError,
>)
    ensures
        match stack {
            Ok(complete) => lists_all_parts(libraries@) && is_complete(complete) && sorted_by_path(
                libraries@,
                complete.libraries@,
            ),
            Err(error) => !lists_all_parts(libraries@) && error == StackError::Incomplete,
        },
{
    let sorted = sort_libraries(libraries);
    let mut core = false;
    let mut provider = false;
    let mut migraphx = false;
    let mut hip = false;
    let mut rocm = false;
    let mut index: usize = 0;
    while index < libraries.len()
        invariant
            index <= libraries@.len(),
            core == lists_ort_core(libraries@.take(index as int)),
            provider == lists_ort_migraphx_provider(libraries@.take(index as int)),
            migraphx == lists(libraries@.take(index as int), "libmigraphx"@),
            hip == lists(libraries@.take(index as int), "libamdhip64"@),
            rocm == lists(libraries@.take(index as int), "libhsa-runtime64"@),
        decreases libraries.len() - index,
    {
        let lower = ascii_lowercase(libraries[index].name.as_str());
        let name = lower.as_str().as_bytes();
        let ghost done = libraries@.take(index as int);
        let ghost longer = libraries@.take(index + 1);
        let ghost entry = libraries@[index as int];
        proof {
            assert(name@ == lowered(entry.name@));
            assert(longer[index as int] == entry);
            assert forall|i: int| 0 <= i < index implies longer[i] == done[i] by {}
            parts_of_longer_list(done, longer, entry);
        }
        core = core || (bytes_start_with(name, "libonnxruntime.so".as_bytes()) && !bytes_contain(
            name,
            "providers".as_bytes(),
        ));
        provider = provider || bytes_contain(name, "onnxruntime_providers_migraphx".as_bytes());
        migraphx = migraphx || bytes_start_with(name, "libmigraphx".as_bytes());
        hip = hip || bytes_start_with(name, "libamdhip64".as_bytes());
        rocm = rocm || bytes_start_with(name, "libhsa-runtime64".as_bytes());
        index = index + 1;
    }
    assert(libraries@.take(index as int) =~= libraries@);
    let stack = ProviderStackProvenance {
        libraries: sorted,
        has_ort_core: core,
        has_ort_migraphx_provider: provider,
        has_migraphx: migraphx,
        has_hip: hip,
        has_rocm_runtime: rocm,
    };
    validate_provider_stack(&stack)?;
    Ok(stack)
}

/// Two lists hold the same entries in the same order.
pub open spec fn same_libraries(
    left: Seq<RuntimeLibraryDigest>,
    right: Seq<RuntimeLibraryDigest>,
) -> bool {
    left.len() == right.len() && forall|i: int|
        0 <= i < left.len() ==> same_library(#[trigger] left[i], right[i])
}

/// Two stacks hold the same libraries and the same parts.
pub open spec fn same_stack(left: ProviderStackProvenance, right: ProviderStackProvenance) -> bool {
    &&& same_libraries(left.libraries@, right.libraries@)
    &&& left.has_ort_core == right.has_ort_core
    &&& left.has_ort_migraphx_provider == right.has_ort_migraphx_provider
    &&& left.has_migraphx == right.has_migraphx
    &&& left.has_hip == right.has_hip
    &&& left.has_rocm_runtime == right.has_rocm_runtime
}

fn libraries_match(left: &Vec<RuntimeLibraryDigest>, right: &Vec<RuntimeLibraryDigest>) -> (same:
    bool)
    ensures
        same == same_libraries(left@, right@),
{
    if left.len() != right.len() {
        return false;
    }
    let mut index: usize = 0;
    while index < left.len()
        invariant
            index <= left@.len(),
            left@.len() == right@.len(),
            forall|i: int| 0 <= i < index ==> same_library(#[trigger] left@[i], right@[i]),
        decreases left.len() - index,
    {
        let a = &left[index];
        let b = &right[index];
        if !str_eq(a.name.as_str(), b.name.as_str()) || !str_eq(a.path.as_str(), b.path.as_str())
            || !str_eq(a.sha256.as_str(), b.sha256.as_str()) || a.size != b.size {
            assert(!same_library(left@[index as int], right@[index as int]));
            return false;
        }
        index = index + 1;
    }
    true
}

fn stacks_match(left: &ProviderStackProvenance, right: &ProviderStackProvenance) -> (same: bool)
    ensures
        same == same_stack(*left, *right),
{
    left.has_ort_core == right.has_ort_core && left.has_ort_migraphx_provider
        == right.has_ort_migraphx_provider && left.has_migraphx == right.has_migraphx
        && left.has_hip == right.has_hip && left.has_rocm_runtime == right.has_rocm_runtime
        && libraries_match(&left.libraries, &right.libraries)
}

/// Whether a worker ran with the stack that was expected; both must be complete.
pub fn verify_provider_stack_match(
    expected: &ProviderStackProvenance,
    actual: &ProviderStackProvenance,
) -> (result: Result<(), StackError>)
    ensures
        result == (if !is_complete(*expected) || !is_complete(*actual) {
            Err(StackError::Incomplete)
        } else if !same_stack(*expected, *actual) {
            Err(StackError::Mismatch)
        } else {
            Ok(())
        }),
{
    validate_provider_stack(expected)?;
    validate_provider_stack(actual)?;
    if !stacks_match(expected, actual) {
        return Err(StackError::Mismatch);
    }
    Ok(())
}

/// Everything that a worker's result depends on.
#[derive(Debug)]
pub struct Provenance {
    pub precision: Precision,
    pub detector_digest: String,
    pub recognizer_digest: String,
    pub ort_crate_version: String,
    pub ort_api_version: u32,
    pub ort_runtime_version: String,
    pub configured_gpu_target: String,
    pub hsa_override: String,
    pub recognition_threshold_bits: u32,
    pub inference_threads: usize,
    pub provider_name: String,
    pub graph_optimization_level: String,
    pub provider_api_fp16: bool,
    pub provider_api_fp8: bool,
    pub provider_api_int8: bool,
    pub provider_api_exhaustive_tune: bool,
    pub environment: EnvironmentAttestation,
    pub corpus_digest: String,
    pub provider_stack: ProviderStackProvenance,
}

/// Two attestations hold the same variables and clear the same ones.
pub open spec fn same_environment(left: EnvironmentAttestation, right: EnvironmentAttestation) -> bool {
    variable_views(left.set@) == variable_views(right.set@) && text_views(left.cleared@)
        == text_views(right.cleared@)
}

fn environments_match(left: &EnvironmentAttestation, right: &EnvironmentAttestation) -> (same: bool)
    ensures
        same == same_environment(*left, *right),
{
    if left.set.len() != right.set.len() || left.cleared.len() != right.cleared.len() {
        assert(variable_views(left.set@).len() == left.set@.len());
        assert(variable_views(right.set@).len() == right.set@.len());
        assert(text_views(left.cleared@).len() == left.cleared@.len());
        assert(text_views(right.cleared@).len() == right.cleared@.len());
        return false;
    }
    let mut index: usize = 0;
    while index < left.set.len()
        invariant
            index <= left.set@.len(),
            left.set@.len() == right.set@.len(),
            forall|i: int|
                0 <= i < index ==> #[trigger] variable_views(left.set@)[i] == variable_views(
                    right.set@,
                )[i],
        decreases left.set.len() - index,
    {
        let a: &Variable = &left.set[index];
        let b: &Variable = &right.set[index];
        if !str_eq(a.key.as_str(), b.key.as_str()) || !str_eq(a.value.as_str(), b.value.as_str()) {
            assert(variable_views(left.set@)[index as int] != variable_views(
                right.set@,
            )[index as int]);
            return false;
        }
        index = index + 1;
    }
    assert(variable_views(left.set@) =~= variable_views(right.set@));
    let mut at: usize = 0;
    while at < left.cleared.len()
        invariant
            at <= left.cleared@.len(),
            left.cleared@.len() == right.cleared@.len(),
            forall|i: int|
                0 <= i < at ==> #[trigger] text_views(left.cleared@)[i] == text_views(
                    right.cleared@,
                )[i],
        decreases left.cleared.len() - at,
    {
        if !str_eq(left.cleared[at].as_str(), right.cleared[at].as_str()) {
            assert(text_views(left.cleared@)[at as int] != text_views(right.cleared@)[at as int]);
            return false;
        }
        at = at + 1;
    }
    assert(text_views(left.cleared@) =~= text_views(right.cleared@));
    true
}

/// Two provenances hold the same.
pub open spec fn same_provenance(left: Provenance, right: Provenance) -> bool {
    &&& left.precision == right.precision
    &&& left.detector_digest@ == right.detector_digest@
    &&& left.recognizer_digest@ == right.recognizer_digest@
    &&& left.ort_crate_version@ == right.ort_crate_version@
    &&& left.ort_api_version == right.ort_api_version
    &&& left.ort_runtime_version@ == right.ort_runtime_version@
    &&& left.configured_gpu_target@ == right.configured_gpu_target@
    &&& left.hsa_override@ == right.hsa_override@
    &&& left.recognition_threshold_bits == right.recognition_threshold_bits
    &&& left.inference_threads == right.inference_threads
    &&& left.provider_name@ == right.provider_name@
    &&& left.graph_optimization_level@ == right.graph_optimization_level@
    &&& left.provider_api_fp16 == right.provider_api_fp16
    &&& left.provider_api_fp8 == right.provider_api_fp8
    &&& left.provider_api_int8 == right.provider_api_int8
    &&& left.provider_api_exhaustive_tune == right.provider_api_exhaustive_tune
    &&& same_environment(left.environment, right.environment)
    &&& left.corpus_digest@ == right.corpus_digest@
    &&& same_stack(left.provider_stack, right.provider_stack)
}

pub fn provenance_matches(left: &Provenance, right: &Provenance) -> (same: bool)
    ensures
        same == same_provenance(*left, *right),
{
    left.precision == right.precision && str_eq(
        left.detector_digest.as_str(),
        right.detector_digest.as_str(),
    ) && str_eq(left.recognizer_digest.as_str(), right.recognizer_digest.as_str()) && str_eq(
        left.ort_crate_version.as_str(),
        right.ort_crate_version.as_str(),
    ) && left.ort_api_version == right.ort_api_version && str_eq(
        left.ort_runtime_version.as_str(),
        right.ort_runtime_version.as_str(),
    ) && str_eq(left.configured_gpu_target.as_str(), right.configured_gpu_target.as_str())
        && str_eq(left.hsa_override.as_str(), right.hsa_override.as_str())
        && left.recognition_threshold_bits == right.recognition_threshold_bits
        && left.inference_threads == right.inference_threads && str_eq(
        left.provider_name.as_str(),
        right.provider_name.as_str(),
    ) && str_eq(left.graph_optimization_level.as_str(), right.graph_optimization_level.as_str())
        && left.provider_api_fp16 == right.provider_api_fp16 && left.provider_api_fp8
        == right.provider_api_fp8 && left.provider_api_int8 == right.provider_api_int8
        && left.provider_api_exhaustive_tune == right.provider_api_exhaustive_tune
        && environments_match(&left.environment, &right.environment) && str_eq(
        left.corpus_digest.as_str(),
        right.corpus_digest.as_str(),
    ) && stacks_match(&left.provider_stack, &right.provider_stack)
}

/// What a worker must report: the run's own inputs and settings, the versions
/// and the threads that the program was built for, the arm's precision and no
/// other, the attested environment, and a complete provider stack.
pub open spec fn is_expected_provenance(
    provenance: Provenance,
    output_digest: Seq<char>,
    config: ParentConfig,
    corpus: PinnedCorpus,
    precision: Precision,
    environment: EnvironmentAttestation,
    api_version: u32,
    threads: usize,
) -> bool {
    let digest = digest_text(corpus_encoding(corpus));
    &&& provenance.precision == precision
    &&& provenance.detector_digest@ == corpus.detector_digest@
    &&& provenance.recognizer_digest@ == corpus.recognizer_digest@
    &&& provenance.ort_crate_version@ == ORT_CRATE_VERSION@
    &&& provenance.ort_api_version == api_version
    &&& provenance.ort_runtime_version@.len() > 0
    &&& provenance.configured_gpu_target@ == config.configured_gpu_target@
    &&& provenance.hsa_override@ == config.hsa_override@
    &&& provenance.recognition_threshold_bits == config.threshold
    &&& provenance.inference_threads == threads
    &&& provenance.provider_name@ == "migraphx"@
    &&& provenance.graph_optimization_level@ == "level2"@
    &&& provenance.provider_api_fp16 == (precision == Precision::Fp16)
    &&& !provenance.provider_api_fp8
    &&& !provenance.provider_api_int8
    &&& !provenance.provider_api_exhaustive_tune
    &&& same_environment(provenance.environment, environment)
    &&& provenance.corpus_digest@ == digest
    &&& output_digest == digest
    &&& is_complete(provenance.provider_stack)
}

/// Whether a worker ran with what it was meant to run with.
pub fn verify_output_provenance(
    provenance: &Provenance,
    output_digest: &str,
    config: &ParentConfig,
    corpus: &PinnedCorpus,
    precision: Precision,
    environment: &EnvironmentAttestation,
    api_version: u32,
    threads: usize,
) -> (valid: bool)
    ensures
        valid == is_expected_provenance(
            *provenance,
            output_digest@,
            *config,
            *corpus,
            precision,
            *environment,
            api_version,
            threads,
        ),
{
    let digest = corpus_digest(corpus);
    provenance.precision == precision && str_eq(
        provenance.detector_digest.as_str(),
        corpus.detector_digest.as_str(),
    ) && str_eq(provenance.recognizer_digest.as_str(), corpus.recognizer_digest.as_str())
        && str_eq(provenance.ort_crate_version.as_str(), ORT_CRATE_VERSION)
        && provenance.ort_api_version == api_version && !provenance.ort_runtime_version.as_str().is_empty()
        && str_eq(
        provenance.configured_gpu_target.as_str(),
        config.configured_gpu_target.as_str(),
    ) && str_eq(provenance.hsa_override.as_str(), config.hsa_override.as_str())
        && provenance.recognition_threshold_bits == config.threshold
        && provenance.inference_threads == threads && str_eq(
        provenance.provider_name.as_str(),
        "migraphx",
    ) && str_eq(provenance.graph_optimization_level.as_str(), "level2")
        && provenance.provider_api_fp16 == precision.fp16() && !provenance.provider_api_fp8
        && !provenance.provider_api_int8 && !provenance.provider_api_exhaustive_tune
        && environments_match(&provenance.environment, environment) && verify_corpus_digest(
        digest.as_str(),
        provenance.corpus_digest.as_str(),
    ) && verify_corpus_digest(digest.as_str(), output_digest) && validate_provider_stack(
        &provenance.provider_stack,
    ).is_ok()
}


/// A library may be used from four places of the system, and only where the system's
/// administrator has it and nobody else may write it.
pub proof fn libraries_are_the_administrators(path: Seq<u8>, metadata: InputMetadata)
    ensures
        is_trusted_path(path) <==> path.len() > 0 && path[0] == 47 && (lies_below(
            path,
            encode_utf8("/usr/lib"@),
        ) || lies_below(path, encode_utf8("/usr/local/lib"@)) || lies_below(
            path,
            encode_utf8("/lib"@),
        ) || lies_below(path, encode_utf8("/opt/rocm"@))),
        is_trusted_file(metadata) <==> metadata.is_file && metadata.uid == 0 && metadata.mode & 0o022
            == 0,
{
    let mode = metadata.mode;
    assert(((mode / 16) % 2 == 0 && (mode / 2) % 2 == 0) <==> mode & 0o022 == 0) by (bit_vector);
}

/// Where two workers are found to have run alike, nothing of what they report differs.
pub proof fn like_provenance_agrees_in_everything(left: Provenance, right: Provenance, i: int)
    requires
        same_provenance(left, right),
    ensures
        left.precision == right.precision,
        left.detector_digest@ == right.detector_digest@,
        left.recognizer_digest@ == right.recognizer_digest@,
        left.ort_crate_version@ == right.ort_crate_version@,
        left.ort_api_version == right.ort_api_version,
        left.ort_runtime_version@ == right.ort_runtime_version@,
        left.configured_gpu_target@ == right.configured_gpu_target@,
        left.hsa_override@ == right.hsa_override@,
        left.recognition_threshold_bits == right.recognition_threshold_bits,
        left.inference_threads == right.inference_threads,
        left.provider_name@ == right.provider_name@,
        left.graph_optimization_level@ == right.graph_optimization_level@,
        left.provider_api_fp16 == right.provider_api_fp16,
        left.provider_api_fp8 == right.provider_api_fp8,
        left.provider_api_int8 == right.provider_api_int8,
        left.provider_api_exhaustive_tune == right.provider_api_exhaustive_tune,
        left.corpus_digest@ == right.corpus_digest@,
        left.environment.set@.len() == right.environment.set@.len(),
        0 <= i < left.environment.set@.len() ==> left.environment.set@[i].key@
            == right.environment.set@[i].key@ && left.environment.set@[i].value@
            == right.environment.set@[i].value@,
        left.environment.cleared@.len() == right.environment.cleared@.len(),
        0 <= i < left.environment.cleared@.len() ==> left.environment.cleared@[i]@
            == right.environment.cleared@[i]@,
        left.provider_stack.libraries@.len() == right.provider_stack.libraries@.len(),
        0 <= i < left.provider_stack.libraries@.len() ==> {
            let one = left.provider_stack.libraries@[i];
            let other = right.provider_stack.libraries@[i];
            one.name@ == other.name@ && one.path@ == other.path@ && one.sha256@ == other.sha256@
                && one.size == other.size
        },
        left.provider_stack.has_ort_core == right.provider_stack.has_ort_core,
        left.provider_stack.has_ort_migraphx_provider
            == right.provider_stack.has_ort_migraphx_provider,
        left.provider_stack.has_migraphx == right.provider_stack.has_migraphx,
        left.provider_stack.has_hip == right.provider_stack.has_hip,
        left.provider_stack.has_rocm_runtime == right.provider_stack.has_rocm_runtime,
{
    let one = variable_views(left.environment.set@);
    let other = variable_views(right.environment.set@);
    assert(one.len() == left.environment.set@.len() && other.len()
        == right.environment.set@.len());
    if 0 <= i < left.environment.set@.len() {
        assert(one[i] == (left.environment.set@[i].key@, left.environment.set@[i].value@));
        assert(other[i] == (right.environment.set@[i].key@, right.environment.set@[i].value@));
    }
    let names = text_views(left.environment.cleared@);
    assert(names.len() == left.environment.cleared@.len());
    assert(text_views(right.environment.cleared@).len() == right.environment.cleared@.len());
    if 0 <= i < left.environment.cleared@.len() {
        assert(names[i] == left.environment.cleared@[i]@);
        assert(text_views(right.environment.cleared@)[i] == right.environment.cleared@[i]@);
    }
}

/// Of a worker's output, what counts as expected: the pinned models and pictures, the
/// configured target, threshold and threads, the one provider and level, half precision
/// exactly in its own arm, nothing else switched on, and a complete set of libraries.
pub proof fn expected_output_is_of_this_run(
    provenance: Provenance,
    output_digest: Seq<char>,
    config: ParentConfig,
    corpus: PinnedCorpus,
    precision: Precision,
    environment: EnvironmentAttestation,
    api_version: u32,
    threads: usize,
)
    requires
        is_expected_provenance(
            provenance,
            output_digest,
            config,
            corpus,
            precision,
            environment,
            api_version,
            threads,
        ),
    ensures
        provenance.precision == precision,
        provenance.provider_api_fp16 <==> precision == Precision::Fp16,
        !provenance.provider_api_fp8 && !provenance.provider_api_int8
            && !provenance.provider_api_exhaustive_tune,
        provenance.detector_digest@ == corpus.detector_digest@,
        provenance.recognizer_digest@ == corpus.recognizer_digest@,
        provenance.corpus_digest@ == output_digest,
        provenance.ort_crate_version@ == "2.0.0-rc.12"@,
        provenance.ort_api_version == api_version,
        provenance.ort_runtime_version@.len() > 0,
        provenance.configured_gpu_target@ == config.configured_gpu_target@,
        provenance.hsa_override@ == config.hsa_override@,
        provenance.recognition_threshold_bits == config.threshold,
        provenance.inference_threads == threads,
        provenance.provider_name@ == "migraphx"@,
        provenance.graph_optimization_level@ == "level2"@,
        provenance.provider_stack.libraries@.len() > 0,
        provenance.provider_stack.has_ort_core,
        provenance.provider_stack.has_ort_migraphx_provider,
        provenance.provider_stack.has_migraphx,
        provenance.provider_stack.has_hip,
        provenance.provider_stack.has_rocm_runtime,
        variable_views(provenance.environment.set@) == variable_views(environment.set@),
        text_views(provenance.environment.cleared@) == text_views(environment.cleared@),
{
}

/// A set of libraries is complete exactly where it has the runtime itself, which is none
/// of its providers, the runtime's provider, and the three libraries below that.
pub proof fn complete_stacks_have_all_parts(libraries: Seq<RuntimeLibraryDigest>)
    ensures
        lists_all_parts(libraries) <==> {
            &&& exists|i: int|
                0 <= i < libraries.len() && starts_with(
                    encode_utf8(lowercase((#[trigger] libraries[i]).name@)),
                    encode_utf8("libonnxruntime.so"@),
                ) && !contains(
                    encode_utf8(lowercase(libraries[i].name@)),
                    encode_utf8("providers"@),
                )
            &&& exists|i: int|
                0 <= i < libraries.len() && contains(
                    encode_utf8(lowercase((#[trigger] libraries[i]).name@)),
                    encode_utf8("onnxruntime_providers_migraphx"@),
                )
            &&& exists|i: int|
                0 <= i < libraries.len() && starts_with(
                    encode_utf8(lowercase((#[trigger] libraries[i]).name@)),
                    encode_utf8("libmigraphx"@),
                )
            &&& exists|i: int|
                0 <= i < libraries.len() && starts_with(
                    encode_utf8(lowercase((#[trigger] libraries[i]).name@)),
                    encode_utf8("libamdhip64"@),
                )
            &&& exists|i: int|
                0 <= i < libraries.len() && starts_with(
                    encode_utf8(lowercase((#[trigger] libraries[i]).name@)),
                    encode_utf8("libhsa-runtime64"@),
                )
        },
{
}

/// A library is one of those listed.
pub open spec fn is_among(
    library: RuntimeLibraryDigest,
    libraries: Seq<RuntimeLibraryDigest>,
) -> bool {
    exists|k: int| 0 <= k < libraries.len() && same_library(library, #[trigger] libraries[k])
}

/// Sorting libraries by path keeps every one of them and puts none before one whose path
/// comes first.
pub proof fn sorted_libraries_are_in_order(
    before: Seq<RuntimeLibraryDigest>,
    after: Seq<RuntimeLibraryDigest>,
)
    requires
        sorted_by_path(before, after),
    ensures
        after.len() == before.len(),
        forall|i: int, j: int|
            0 <= i < j < after.len() ==> !crate::order::bytes_less(
                encode_utf8((#[trigger] after[j]).path@),
                encode_utf8((#[trigger] after[i]).path@),
            ),
        forall|i: int| 0 <= i < after.len() ==> is_among(#[trigger] after[i], before),
        before.len() <= usize::MAX ==> forall|k: int|
            0 <= k < before.len() ==> is_among(#[trigger] before[k], after),
{
    let keys = path_keys(before);
    let order = choose|order: Seq<usize>|
        is_path_order(order, keys) && #[trigger] arranged(before, after, order);
    key_less_is_strict_total(keys);
    let less = |a: int, b: int| key_less(keys, a, b);
    assert forall|i: int, j: int| 0 <= i < j < after.len() implies !crate::order::bytes_less(
        encode_utf8((#[trigger] after[j]).path@),
        encode_utf8((#[trigger] after[i]).path@),
    ) by {
        let a = order[i] as int;
        let b = order[j] as int;
        assert(less(a, b));
        assert(keys[a] == encode_utf8(before[a].path@) && keys[b] == encode_utf8(before[b].path@));
        assert(same_library(after[i], before[a]) && same_library(after[j], before[b]));
        crate::order::bytes_less_total(keys[a], keys[b]);
    }
    assert forall|i: int| 0 <= i < after.len() implies is_among(#[trigger] after[i], before) by {
        let a = order[i] as int;
        assert(same_library(after[i], before[a]));
    }
    if before.len() <= usize::MAX {
        crate::order::orders_are_complete(order, keys.len(), less);
        assert forall|k: int| 0 <= k < before.len() implies is_among(#[trigger] before[k], after) by {
            assert(order.contains(k as usize));
            let i = order.index_of(k as usize);
            assert(order[i] == k);
            assert(same_library(after[i], before[k]));
        }
    }
}


proof fn words_start_behind_white(text: Seq<char>, at: int, start: int)
    requires
        0 <= at <= start <= text.len(),
        forall|i: int| at <= i < start ==> is_white(#[trigger] text[i]),
        start < text.len() ==> !is_white(text[start]),
    ensures
        word_start(text, at) == start,
    decreases start - at,
{
    if at < start {
        words_start_behind_white(text, at + 1, start);
    }
}

proof fn words_end_before_white(text: Seq<char>, at: int, end: int)
    requires
        0 <= at <= end <= text.len(),
        forall|i: int| at <= i < end ==> !is_white(#[trigger] text[i]),
        end < text.len() ==> is_white(text[end]),
    ensures
        word_end(text, at) == end,
    decreases end - at,
{
    if at < end {
        words_end_before_white(text, at + 1, end);
    }
}

proof fn places_shift(text: Seq<char>, at: int, from: int)
    requires
        0 <= from <= at <= text.len(),
    ensures
        word_start(text, at) == word_start(text.skip(from), at - from) + from,
        word_end(text, at) == word_end(text.skip(from), at - from) + from,
        at <= word_start(text, at) <= text.len(),
        at <= word_end(text, at) <= text.len(),
    decreases text.len() - at,
{
    if at < text.len() {
        assert(text.skip(from)[at - from] == text[at]);
        places_shift(text, at + 1, from);
    }
}

proof fn words_shift(text: Seq<char>, at: int, from: int, count: nat)
    requires
        0 <= from <= at <= text.len(),
    ensures
        nth_word(text, at, count) == nth_word(text.skip(from), at - from, count),
    decreases count,
{
    let start = word_start(text, at);
    places_shift(text, at, from);
    places_shift(text, start, from);
    let end = word_end(text, start);
    if start < text.len() {
        if count == 0 {
            assert(text.subrange(start, end) =~= text.skip(from).subrange(
                start - from,
                end - from,
            ));
        } else {
            words_shift(text, end, from, (count - 1) as nat);
        }
    }
}

/// The words of a text are what stands between white space: the first is the first that
/// is not white, and those behind it are the words of the rest. White space alone has no
/// words.
pub proof fn words_stand_between_white(
    blank: Seq<char>,
    word: Seq<char>,
    rest: Seq<char>,
    count: nat,
)
    requires
        forall|i: int| 0 <= i < blank.len() ==> is_white(#[trigger] blank[i]),
        word.len() > 0,
        forall|i: int| 0 <= i < word.len() ==> !is_white(#[trigger] word[i]),
        rest.len() > 0 ==> is_white(rest[0]),
    ensures
        nth_word(blank + word + rest, 0, 0) == Some(word),
        nth_word(blank + word + rest, 0, count + 1) == nth_word(rest, 0, count),
        nth_word(blank, 0, count) is None,
{
    let text = blank + word + rest;
    let start = blank.len() as int;
    let end = start + word.len();
    assert forall|i: int| 0 <= i < start implies is_white(#[trigger] text[i]) by {
        assert(text[i] == blank[i]);
    }
    assert(text[start] == word[0]);
    words_start_behind_white(text, 0, start);
    assert forall|i: int| start <= i < end implies !is_white(#[trigger] text[i]) by {
        assert(text[i] == word[i - start]);
    }
    if end < text.len() {
        assert(text[end] == rest[0]);
    }
    words_end_before_white(text, start, end);
    assert(text.subrange(start, end) =~= word);
    assert(text.skip(end) =~= rest);
    words_shift(text, end, end, count);
    words_start_behind_white(blank, 0, start);
}

proof fn lines_run_to_their_break(text: Seq<char>, at: int, end: int)
    requires
        0 <= at <= end <= text.len(),
        forall|i: int| at <= i < end ==> #[trigger] text[i] != '\n',
        end < text.len() ==> text[end] == '\n',
    ensures
        line_end(text, at) == end,
    decreases end - at,
{
    if at < end {
        lines_run_to_their_break(text, at + 1, end);
    }
}

/// A line runs to the next break, or to the end, without the break itself, and without a
/// carriage return right before a break.
pub proof fn lines_run_between_breaks(text: Seq<char>, at: int, end: int)
    requires
        0 <= at <= end <= text.len(),
        forall|i: int| at <= i < end ==> #[trigger] text[i] != '\n',
        end < text.len() ==> text[end] == '\n',
    ensures
        at < end < text.len() && text[end - 1] == '\r' ==> line_at(text, at) == text.subrange(
            at,
            end - 1,
        ),
        at == end || end == text.len() || text[end - 1] != '\r' ==> line_at(text, at)
            == text.subrange(at, end),
{
    lines_run_to_their_break(text, at, end);
}

/// The libraries that are looked for are known by their names: anything of the runtime,
/// and nine others by how they begin.
pub proof fn stack_libraries_are_known_by_name(name: Seq<u8>)
    ensures
        is_stack_name(name) <==> {
            ||| contains(name, encode_utf8("onnxruntime"@))
            ||| starts_with(name, encode_utf8("libmigraphx"@))
            ||| starts_with(name, encode_utf8("libamdhip64"@))
            ||| starts_with(name, encode_utf8("libhsa-runtime64"@))
            ||| starts_with(name, encode_utf8("librocblas"@))
            ||| starts_with(name, encode_utf8("libmiopen"@))
            ||| starts_with(name, encode_utf8("libhiprtc"@))
            ||| starts_with(name, encode_utf8("librocsolver"@))
            ||| starts_with(name, encode_utf8("librocrand"@))
            ||| starts_with(name, encode_utf8("librocfft"@))
        },
{
}

/// A line of the map names a library exactly where its sixth word is an absolute path
/// whose last name is one that is looked for, and the file is still there.
pub proof fn lines_name_their_library(line: Seq<char>, path: Seq<char>)
    ensures
        library_in(line) == Ok::<Option<Seq<char>>, StackError>(Some(path)) <==> {
            &&& nth_word(line, 0, 5) == Some(path)
            &&& path.len() > 0 && path[0] == '/'
            &&& final_name(encode_utf8(path)) matches Some(name) && valid_utf8(name)
                && is_stack_name(encode_utf8(lowercase(decode_utf8(name))))
            &&& !is_deleted(line)
        },
        library_in(line) == Err::<Option<Seq<char>>, StackError>(StackError::LibraryDeleted) <==> {
            &&& nth_word(line, 0, 5) matches Some(found) && found.len() > 0 && found[0] == '/' && (
            final_name(encode_utf8(found)) matches Some(name) && valid_utf8(name) && is_stack_name(
                encode_utf8(lowercase(decode_utf8(name))),
            ))
            &&& is_deleted(line)
        },
        nth_word(line, 0, 5) is None ==> library_in(line) == Ok::<Option<Seq<char>>, StackError>(
            None,
        ),
{
}


/// A line begins here: at the start, or behind a break.
pub open spec fn line_begins(text: Seq<char>, at: int) -> bool {
    0 <= at < text.len() && (at == 0 || text[at - 1] == '\n')
}

/// A library was named by one of the lines from a place on.
pub open spec fn is_named_from(text: Seq<char>, from: int, path: Seq<char>) -> bool {
    exists|at: int|
        from <= at && #[trigger] line_begins(text, at) && library_in(line_at(text, at)) == Ok::<
            Option<Seq<char>>,
            StackError,
        >(Some(path))
}

proof fn line_ends_at_its_break(text: Seq<char>, at: int)
    requires
        0 <= at <= text.len(),
    ensures
        at <= line_end(text, at) <= text.len(),
        forall|i: int| at <= i < line_end(text, at) ==> #[trigger] text[i] != '\n',
        line_end(text, at) < text.len() ==> text[line_end(text, at)] == '\n',
    decreases text.len() - at,
{
    if at < text.len() && text[at] != '\n' {
        line_ends_at_its_break(text, at + 1);
    }
}

proof fn all_lines_are_read(text: Seq<char>, at: int, so_far: Seq<Seq<char>>)
    requires
        0 <= at <= text.len(),
        at == text.len() || line_begins(text, at),
        libraries_from(text, at, so_far) is Ok,
    ensures
        ({
            let paths = libraries_from(text, at, so_far)->Ok_0;
            &&& so_far.len() <= paths.len() && paths.take(so_far.len() as int) == so_far
            &&& forall|from: int|
                at <= from && #[trigger] line_begins(text, from) ==> (library_in(
                    line_at(text, from),
                ) matches Ok(found) && (found matches Some(path) ==> is_listed(paths, path)))
            &&& forall|i: int|
                so_far.len() <= i < paths.len() ==> is_named_from(text, at, #[trigger] paths[i])
            &&& forall|i: int, j: int|
                0 <= i < j < paths.len() && so_far.len() <= j ==> !same_path(
                    encode_utf8(#[trigger] paths[i]),
                    encode_utf8(#[trigger] paths[j]),
                )
        }),
    decreases text.len() - at,
{
    let paths = libraries_from(text, at, so_far)->Ok_0;
    if at == text.len() {
        assert(so_far.take(so_far.len() as int) =~= so_far);
    } else {
        line_ends_at_its_break(text, at);
        let end = line_end(text, at);
        let next = end + 1;
        let found = library_in(line_at(text, at))->Ok_0;
        let listed = match found {
            Some(path) => if is_listed(so_far, path) {
                so_far
            } else {
                so_far.push(path)
            },
            None => so_far,
        };
        assert(listed.take(so_far.len() as int) =~= so_far);
        if next <= text.len() {
            all_lines_are_read(text, next, listed);
            assert(paths.take(so_far.len() as int) =~= paths.take(listed.len() as int).take(
                so_far.len() as int,
            ));
        } else {
            assert(paths == listed);
            assert(paths.take(so_far.len() as int) =~= so_far);
        }
        assert forall|i: int| 0 <= i < listed.len() implies paths[i] == #[trigger] listed[i] by {
            if next <= text.len() {
                assert(paths.take(listed.len() as int)[i] == paths[i]);
            }
        }
        assert(found matches Some(path) ==> is_listed(paths, path)) by {
            if found is Some {
                let path = found->0;
                if is_listed(so_far, path) {
                    let i = choose|i: int|
                        0 <= i < so_far.len() && same_path(
                            encode_utf8(#[trigger] so_far[i]),
                            encode_utf8(path),
                        );
                    assert(listed[i] == so_far[i]);
                    assert(paths[i] == listed[i]);
                } else {
                    assert(listed[so_far.len() as int] == path);
                    assert(paths[so_far.len() as int] == path);
                }
            }
        }
        assert forall|from: int| at <= from && #[trigger] line_begins(text, from) implies (
        library_in(line_at(text, from)) matches Ok(other) && (other matches Some(path) ==> is_listed(
            paths,
            path,
        ))) by {
            if from > at && from <= end {
                assert(text[from - 1] != '\n');
            }
        }
        assert forall|i: int| so_far.len() <= i < paths.len() implies is_named_from(
            text,
            at,
            #[trigger] paths[i],
        ) by {
            if i < listed.len() {
                assert(paths[i] == listed[i]);
                assert(line_begins(text, at));
            } else {
                assert(is_named_from(text, next, paths[i]));
                let from = choose|from: int|
                    next <= from && #[trigger] line_begins(text, from) && library_in(
                        line_at(text, from),
                    ) == Ok::<Option<Seq<char>>, StackError>(Some(paths[i]));
                assert(line_begins(text, from));
            }
        }
        assert forall|i: int, j: int|
            0 <= i < j < paths.len() && so_far.len() <= j implies !same_path(
            encode_utf8(#[trigger] paths[i]),
            encode_utf8(#[trigger] paths[j]),
        ) by {
            if j < listed.len() {
                assert(paths[j] == listed[j] && paths[i] == listed[i]);
                assert(so_far[i] == listed[i]);
                if same_path(encode_utf8(so_far[i]), encode_utf8(listed[j])) {
                    assert(is_listed(so_far, listed[j]));
                }
            }
        }
    }
}

/// The libraries of a map are those that its lines name, each once: every line's is
/// listed, whatever is listed stands in some line, and no two of them are the same path.
pub proof fn maps_list_the_libraries_of_their_lines(text: Seq<char>)
    requires
        libraries_from(text, 0, Seq::empty()) is Ok,
    ensures
        ({
            let paths = libraries_from(text, 0, Seq::empty())->Ok_0;
            &&& forall|at: int| #[trigger]
                line_begins(text, at) ==> (library_in(line_at(text, at)) matches Ok(found) && (
                found matches Some(path) ==> is_listed(paths, path)))
            &&& forall|i: int|
                0 <= i < paths.len() ==> is_named_from(text, 0, #[trigger] paths[i])
            &&& forall|i: int, j: int|
                0 <= i < j < paths.len() ==> !same_path(
                    encode_utf8(#[trigger] paths[i]),
                    encode_utf8(#[trigger] paths[j]),
                )
        }),
{
    all_lines_are_read(text, 0, Seq::empty());
}

/// A map is read exactly where it is text of at most four megabytes whose lines can all
/// be read, and names at most 64 libraries.
pub proof fn maps_are_bounded(maps: Seq<u8>)
    ensures
        mapped_libraries(maps) is Ok <==> {
            &&& maps.len() <= 4194304 && valid_utf8(maps)
            &&& libraries_from(decode_utf8(maps), 0, Seq::empty()) matches Ok(paths) && paths.len()
                <= 64
        },
        mapped_libraries(maps) matches Ok(paths) ==> libraries_from(
            decode_utf8(maps),
            0,
            Seq::empty(),
        ) == Ok::<Seq<Seq<char>>, StackError>(paths),
{
}

} // verus!
