//! Where a run of the precision experiment keeps its files.
use crate::digest::{hex_chars, hex_encode};
use crate::paths::{
    contained_path, dot_dot, final_name, is_below, is_contained_path, lies_below, names,
    path_names, views,
};
use crate::text::{decimal, push_decimal, utf8_text};
use vstd::prelude::*;
use vstd::string::*;
use vstd::utf8::*;

verus! {

pub const MAX_CLEANUP_DEPTH: usize = 20;

#[derive(Clone, Copy, Debug, PartialEq, Eq, Structural)]
pub enum LayoutError {
    RootMustBeAbsolute,
    UnsafeRelativePath,
    InsecureRoot,
    RepositoryPathRejected,
    OutputNameMissing,
    CleanupDepthLimit,
}

/// Whether every name along a path leads downwards.
pub open spec fn leads_down(path: Seq<u8>) -> bool {
    names(path).len() > 0 && forall|i: int|
        0 <= i < names(path).len() ==> #[trigger] names(path)[i] != dot_dot()
}

fn all_lead_down(parts: &Vec<Vec<u8>>) -> (down: bool)
    ensures
        down == (parts@.len() > 0 && forall|i: int|
            0 <= i < views(parts@).len() ==> #[trigger] views(parts@)[i] != dot_dot()),
{
    if parts.len() == 0 {
        return false;
    }
    let mut index: usize = 0;
    while index < parts.len()
        invariant
            index <= parts@.len(),
            forall|i: int| 0 <= i < index ==> #[trigger] views(parts@)[i] != dot_dot(),
        decreases parts.len() - index,
    {
        let part = &parts[index];
        if part.len() == 2 && part[0] == 46 && part[1] == 46 {
            assert(views(parts@)[index as int] =~= dot_dot());
            return false;
        }
        assert(views(parts@)[index as int] != dot_dot()) by {
            assert(views(parts@)[index as int] == parts@[index as int]@);
        }
        index = index + 1;
    }
    true
}

/// The names along the path of an experiment's root: an absolute UTF-8 path that
/// leads downwards from the top.
pub fn experiment_root_names(path: &[u8]) -> (parts: Result<Vec<Vec<u8>>, LayoutError>)
    ensures
        match parts {
            Ok(list) => path@.len() > 0 && path@[0] == 47 && valid_utf8(path@) && leads_down(path@)
                && views(list@) == names(path@),
            Err(LayoutError::RootMustBeAbsolute) => path@.len() == 0 || path@[0] != 47,
            Err(LayoutError::UnsafeRelativePath) => path@.len() > 0 && path@[0] == 47 && !(
            valid_utf8(path@) && leads_down(path@)),
            Err(_) => false,
        },
{
    if path.len() == 0 || path[0] != 47 {
        return Err(LayoutError::RootMustBeAbsolute);
    }
    let parts = path_names(path);
    assert(views(parts@).len() == parts@.len());
    if utf8_text(path).is_none() || !all_lead_down(&parts) {
        return Err(LayoutError::UnsafeRelativePath);
    }
    Ok(parts)
}

/// Whether a root that was opened may be used: private, and not inside the
/// program's own sources.
pub fn check_experiment_root(private: bool, path: &[u8], repository: &[u8]) -> (result: Result<
    (),
    LayoutError,
>)
    ensures
        result == (if !private {
            Err(LayoutError::InsecureRoot)
        } else if lies_below(path@, repository@) {
            Err(LayoutError::RepositoryPathRejected)
        } else {
            Ok(())
        }),
{
    if !private {
        return Err(LayoutError::InsecureRoot);
    }
    if is_below(path, repository) {
        return Err(LayoutError::RepositoryPathRejected);
    }
    Ok(())
}

/// Where an output goes: the names of the directories on the way, and its own.
pub fn output_place(path: &[u8]) -> (place: Result<(Vec<Vec<u8>>, Vec<u8>), LayoutError>)
    ensures
        match place {
            Ok((parents, name)) => contained_path(path@) && final_name(path@) == Some(name@)
                && views(parents@) == names(path@).drop_last(),
            Err(LayoutError::UnsafeRelativePath) => !contained_path(path@),
            Err(LayoutError::OutputNameMissing) => contained_path(path@) && final_name(path@)
                is None,
            Err(_) => false,
        },
{
    if !is_contained_path(path) {
        return Err(LayoutError::UnsafeRelativePath);
    }
    let mut parts = path_names(path);
    let ghost all = views(parts@);
    assert(all.len() == parts@.len());
    match parts.pop() {
        None => Err(LayoutError::OutputNameMissing),
        Some(name) => {
            assert(views(parts@) =~= all.drop_last());
            assert(name@ == all.last());
            if name.len() == 2 && name[0] == 46 && name[1] == 46 {
                assert(name@ =~= dot_dot());
                return Err(LayoutError::OutputNameMissing);
            }
            assert(name@ != dot_dot());
            Ok((parts, name))
        },
    }
}

/// What a run is reported by: its identity in hexadecimal.
pub fn run_id(identity: &[u8]) -> (id: String)
    ensures
        id@ == hex_chars(identity@),
{
    hex_encode(identity)
}

/// The name of a run's directory: what it is reported by behind a mark.
pub fn run_name(identity: &[u8]) -> (name: String)
    ensures
        name@ == "run-"@ + hex_chars(identity@),
{
    let mut name = "run-".to_owned();
    let text = run_id(identity);
    name.append(text.as_str());
    name
}

/// The name of an output while it is written.
pub fn temporary_name(identity: &[u8]) -> (name: String)
    ensures
        name@ == ".tmp-"@ + hex_chars(identity@),
{
    let mut name = ".tmp-".to_owned();
    let text = hex_encode(identity);
    name.append(text.as_str());
    name
}

/// The name of a pair's directory: its number in at least two digits.
pub fn pair_directory(pair: usize) -> (name: String)
    ensures
        name@ == "pair-"@ + (if pair < 10 {
            "0"@
        } else {
            Seq::empty()
        }) + decimal(pair as nat),
{
    let mut name = "pair-".to_owned();
    if pair < 10 {
        name.append("0");
    }
    push_decimal(&mut name, pair as u64);
    proof {
        if pair >= 10 {
            assert("pair-"@ + Seq::<char>::empty() =~= "pair-"@);
        }
    }
    name
}

/// How deep a directory may lie that is cleaned up.
pub fn check_cleanup_depth(depth: usize) -> (result: Result<(), LayoutError>)
    ensures
        result == (if depth > MAX_CLEANUP_DEPTH {
            Err(LayoutError::CleanupDepthLimit)
        } else {
            Ok(())
        }),
{
    if depth > MAX_CLEANUP_DEPTH {
        return Err(LayoutError::CleanupDepthLimit);
    }
    Ok(())
}


/// A path leads down exactly where it names something and none of its names goes up.
pub proof fn paths_that_lead_down_never_go_up(path: Seq<u8>)
    ensures
        leads_down(path) <==> names(path).len() > 0 && !names(path).contains(seq![46u8, 46u8]),
{
    if leads_down(path) && names(path).contains(seq![46u8, 46u8]) {
        let k = names(path).index_of(seq![46u8, 46u8]);
        assert(names(path)[k] == dot_dot());
    }
    if !names(path).contains(seq![46u8, 46u8]) {
        assert forall|i: int| 0 <= i < names(path).len() implies #[trigger] names(path)[i]
            != dot_dot() by {
            assert(names(path).contains(names(path)[i]));
        }
    }
}

} // verus!
