//! Rules on path names, as byte strings.
use crate::text::{bytes_eq, utf8_text};
use vstd::prelude::*;
use vstd::utf8::*;

verus! {

/// The views of a sequence of byte vectors.
pub open spec fn views(parts: Seq<Vec<u8>>) -> Seq<Seq<u8>> {
    parts.map_values(|part: Vec<u8>| part@)
}

/// The slash-separated segments of a path, empty ones included.
pub open spec fn segments(path: Seq<u8>) -> Seq<Seq<u8>>
    decreases path.len(),
{
    if path.len() == 0 {
        seq![Seq::<u8>::empty()]
    } else {
        let before = segments(path.drop_last());
        if path.last() == 47 {
            before.push(Seq::<u8>::empty())
        } else {
            before.drop_last().push(before.last().push(path.last()))
        }
    }
}

/// The segment `.`.
pub open spec fn dot() -> Seq<u8> {
    seq![46u8]
}

/// The segment `..`.
pub open spec fn dot_dot() -> Seq<u8> {
    seq![46u8, 46u8]
}

/// Splits a path at its slashes.
pub fn split_segments(path: &[u8]) -> (parts: Vec<Vec<u8>>)
    ensures
        views(parts@) == segments(path@),
        parts.len() >= 1,
{
    let mut done: Vec<Vec<u8>> = Vec::new();
    let mut current: Vec<u8> = Vec::new();
    let mut index: usize = 0;
    assert(views(done@).push(current@) =~= segments(path@.take(0)));
    while index < path.len()
        invariant
            index <= path.len(),
            views(done@).push(current@) == segments(path@.take(index as int)),
        decreases path.len() - index,
    {
        let ghost before = segments(path@.take(index as int));
        let byte: u8 = path[index];
        proof {
            assert(path@.take(index + 1).drop_last() =~= path@.take(index as int));
            assert(before.drop_last() =~= views(done@));
            assert(before.last() == current@);
        }
        if byte == 47 {
            let ghost finished = current@;
            let ghost earlier = views(done@);
            done.push(current);
            current = Vec::new();
            assert(views(done@) =~= earlier.push(finished));
        } else {
            current.push(byte);
        }
        index = index + 1;
        assert(views(done@).push(current@) =~= segments(path@.take(index as int)));
    }
    assert(path@.take(path@.len() as int) =~= path@);
    let ghost earlier = views(done@);
    let ghost last = current@;
    done.push(current);
    assert(views(done@) =~= earlier.push(last));
    done
}

/// An absolute path without a zero byte in which every segment is a name.
pub open spec fn strict_absolute(path: Seq<u8>) -> bool {
    &&& path.len() > 0 && path[0] == 47
    &&& !path.contains(0u8)
    &&& forall|i: int|
        0 <= i < segments(path.skip(1)).len() ==> {
            let segment = #[trigger] segments(path.skip(1))[i];
            segment.len() > 0 && segment != dot() && segment != dot_dot()
        }
}

/// The form that a configuration candidate's path has: absolute, within the
/// length limit, no zero byte, no empty segment and none that is `..`.
pub open spec fn candidate_path(path: Seq<u8>, max_bytes: usize) -> bool {
    &&& path.len() <= max_bytes
    &&& path.len() > 0 && path[0] == 47
    &&& !path.contains(0u8)
    &&& forall|i: int|
        0 <= i < segments(path.skip(1)).len() ==> {
            let segment = #[trigger] segments(path.skip(1))[i];
            segment.len() > 0 && segment != dot_dot()
        }
}

/// A relative UTF-8 path that stays below where it starts: not empty, not
/// absolute, no `..` anywhere and no `.` in front.
pub open spec fn contained_path(path: Seq<u8>) -> bool {
    &&& path.len() > 0 && path[0] != 47
    &&& valid_utf8(path)
    &&& segments(path)[0] != dot()
    &&& forall|i: int|
        0 <= i < segments(path).len() ==> #[trigger] segments(path)[i] != dot_dot()
}

/// The names along a path: its segments but for empty ones and `.`.
pub open spec fn is_name(segment: Seq<u8>) -> bool {
    segment.len() > 0 && segment != dot()
}

pub open spec fn names(path: Seq<u8>) -> Seq<Seq<u8>> {
    segments(path).filter(|segment: Seq<u8>| is_name(segment))
}

fn contains_zero(bytes: &[u8]) -> (found: bool)
    ensures
        found == bytes@.contains(0u8),
{
    let mut index: usize = 0;
    while index < bytes.len()
        invariant
            index <= bytes.len(),
            forall|i: int| 0 <= i < index ==> bytes@[i] != 0,
        decreases bytes.len() - index,
    {
        if bytes[index] == 0 {
            assert(bytes@[index as int] == 0);
            return true;
        }
        index = index + 1;
    }
    false
}

fn is_dot(segment: &[u8]) -> (found: bool)
    ensures
        found == (segment@ == dot()),
{
    if segment.len() == 1 && segment[0] == 46 {
        assert(segment@ =~= dot());
        true
    } else {
        false
    }
}

fn is_dot_dot(segment: &[u8]) -> (found: bool)
    ensures
        found == (segment@ == dot_dot()),
{
    if segment.len() == 2 && segment[0] == 46 && segment[1] == 46 {
        assert(segment@ =~= dot_dot());
        true
    } else {
        false
    }
}

/// Whether `path` is a strict absolute path.
pub fn is_strict_absolute(path: &[u8]) -> (valid: bool)
    ensures
        valid == strict_absolute(path@),
{
    if path.len() == 0 || path[0] != 47 || contains_zero(path) {
        return false;
    }
    let rest = vstd::slice::slice_subrange(path, 1, path.len());
    assert(rest@ =~= path@.skip(1));
    let parts = split_segments(rest);
    let mut index: usize = 0;
    while index < parts.len()
        invariant
            index <= parts.len(),
            views(parts@) == segments(path@.skip(1)),
            forall|i: int|
                0 <= i < index ==> {
                    let segment = #[trigger] segments(path@.skip(1))[i];
                    segment.len() > 0 && segment != dot() && segment != dot_dot()
                },
        decreases parts.len() - index,
    {
        assert(views(parts@)[index as int] == parts@[index as int]@);
        let part = parts[index].as_slice();
        if part.len() == 0 || is_dot(part) || is_dot_dot(part) {
            return false;
        }
        index = index + 1;
    }
    true
}

/// Whether `path` has the form of a configuration candidate's path.
pub fn is_candidate_path(path: &[u8], max_bytes: usize) -> (valid: bool)
    ensures
        valid == candidate_path(path@, max_bytes),
{
    if path.len() > max_bytes || path.len() == 0 || path[0] != 47 || contains_zero(path) {
        return false;
    }
    let rest = vstd::slice::slice_subrange(path, 1, path.len());
    assert(rest@ =~= path@.skip(1));
    let parts = split_segments(rest);
    let mut index: usize = 0;
    while index < parts.len()
        invariant
            index <= parts.len(),
            views(parts@) == segments(path@.skip(1)),
            forall|i: int|
                0 <= i < index ==> {
                    let segment = #[trigger] segments(path@.skip(1))[i];
                    segment.len() > 0 && segment != dot_dot()
                },
        decreases parts.len() - index,
    {
        assert(views(parts@)[index as int] == parts@[index as int]@);
        let part = parts[index].as_slice();
        if part.len() == 0 || is_dot_dot(part) {
            return false;
        }
        index = index + 1;
    }
    true
}

/// Whether `path` is relative and stays below where it starts.
pub fn is_contained_path(path: &[u8]) -> (valid: bool)
    ensures
        valid == contained_path(path@),
{
    if path.len() == 0 || path[0] == 47 {
        return false;
    }
    if utf8_text(path).is_none() {
        return false;
    }
    let parts = split_segments(path);
    assert(views(parts@)[0] == parts@[0]@);
    if is_dot(parts[0].as_slice()) {
        return false;
    }
    let mut index: usize = 0;
    while index < parts.len()
        invariant
            index <= parts.len(),
            views(parts@) == segments(path@),
            forall|i: int| 0 <= i < index ==> #[trigger] segments(path@)[i] != dot_dot(),
        decreases parts.len() - index,
    {
        assert(views(parts@)[index as int] == parts@[index as int]@);
        if is_dot_dot(parts[index].as_slice()) {
            return false;
        }
        index = index + 1;
    }
    true
}

/// The names along a path.
pub fn path_names(path: &[u8]) -> (result: Vec<Vec<u8>>)
    ensures
        views(result@) == names(path@),
{
    let parts = split_segments(path);
    let ghost keep = |segment: Seq<u8>| is_name(segment);
    let mut result: Vec<Vec<u8>> = Vec::new();
    let mut index: usize = 0;
    proof {
        assert(views(parts@).take(0) =~= Seq::<Seq<u8>>::empty());
        reveal(Seq::filter);
        assert(views(result@) =~= views(parts@).take(0).filter(keep));
    }
    while index < parts.len()
        invariant
            index <= parts.len(),
            keep == (|segment: Seq<u8>| is_name(segment)),
            views(result@) == views(parts@).take(index as int).filter(keep),
        decreases parts.len() - index,
    {
        let ghost before = views(result@);
        let ghost so_far = views(parts@).take(index as int);
        proof {
            let next = views(parts@).take(index + 1);
            assert(next.drop_last() =~= so_far);
            assert(next.last() == parts@[index as int]@);
            reveal(Seq::filter);
        }
        let part = parts[index].as_slice();
        if part.len() > 0 && !is_dot(part) {
            let copy = vstd::slice::slice_to_vec(part);
            assert(copy@ =~= part@);
            result.push(copy);
            assert(views(result@) =~= before.push(part@));
        }
        index = index + 1;
    }
    assert(views(parts@).take(parts@.len() as int) =~= views(parts@));
    result
}

fn same_names(left: &Vec<Vec<u8>>, right: &Vec<Vec<u8>>, count: usize) -> (same: bool)
    requires
        count <= left.len(),
        count <= right.len(),
    ensures
        same == (views(left@).take(count as int) == views(right@).take(count as int)),
{
    let mut index: usize = 0;
    while index < count
        invariant
            index <= count <= left.len(),
            count <= right.len(),
            forall|i: int| 0 <= i < index ==> left@[i]@ == right@[i]@,
        decreases count - index,
    {
        if !bytes_eq(left[index].as_slice(), right[index].as_slice()) {
            proof {
                assert(views(left@).take(count as int)[index as int] == left@[index as int]@);
                assert(views(right@).take(count as int)[index as int] == right@[index as int]@);
            }
            return false;
        }
        index = index + 1;
    }
    assert(views(left@).take(count as int) =~= views(right@).take(count as int));
    true
}

/// Two relative paths lead to the same place by name.
pub open spec fn same_path(left: Seq<u8>, right: Seq<u8>) -> bool {
    names(left) == names(right)
}

/// The relative path `path` lies at or below `base`.
pub open spec fn lies_below(path: Seq<u8>, base: Seq<u8>) -> bool {
    names(base).len() <= names(path).len() && names(path).take(names(base).len() as int) == names(
        base,
    )
}

/// Whether two relative paths name the same place.
pub fn is_same_path(left: &[u8], right: &[u8]) -> (same: bool)
    ensures
        same == same_path(left@, right@),
{
    let left_names = path_names(left);
    let right_names = path_names(right);
    proof {
        assert(views(left_names@).take(left_names@.len() as int) =~= views(left_names@));
        assert(views(right_names@).take(right_names@.len() as int) =~= views(right_names@));
        assert(names(left@).len() == left_names@.len());
        assert(names(right@).len() == right_names@.len());
    }
    left_names.len() == right_names.len() && same_names(&left_names, &right_names, left_names.len())
}

/// Whether a relative path lies at or below another.
pub fn is_below(path: &[u8], base: &[u8]) -> (below: bool)
    ensures
        below == lies_below(path@, base@),
{
    let path_parts = path_names(path);
    let base_parts = path_names(base);
    proof {
        assert(views(base_parts@).take(base_parts@.len() as int) =~= views(base_parts@));
        assert(names(path@).len() == path_parts@.len());
        assert(names(base@).len() == base_parts@.len());
    }
    base_parts.len() <= path_parts.len() && same_names(&path_parts, &base_parts, base_parts.len())
}

/// The last name along a path: what follows its last slash, once slashes and
/// segments `.` at its end are left out. A path that ends with `..` has none.
pub open spec fn final_name(path: Seq<u8>) -> Option<Seq<u8>> {
    if names(path).len() == 0 || names(path).last() == dot_dot() {
        None
    } else {
        Some(names(path).last())
    }
}

/// The last name along a path.
pub fn file_name(path: &[u8]) -> (name: Option<Vec<u8>>)
    ensures
        match name {
            Some(bytes) => final_name(path@) == Some(bytes@),
            None => final_name(path@) is None,
        },
{
    let mut parts = path_names(path);
    assert(views(parts@).len() == parts@.len());
    match parts.pop() {
        None => None,
        Some(last) => {
            assert(names(path@).last() == last@);
            if is_dot_dot(last.as_slice()) {
                None
            } else {
                Some(last)
            }
        },
    }
}


/// The bytes from one place to another have no slash among them, and a slash or an end
/// on either side.
pub open spec fn between_slashes(path: Seq<u8>, from: int, to: int) -> bool {
    &&& 0 <= from <= to <= path.len()
    &&& !path.subrange(from, to).contains(47u8)
    &&& from == 0 || path[from - 1] == 47
    &&& to == path.len() || path[to] == 47
}

spec fn stands_before_a_slash(path: Seq<u8>, segment: Seq<u8>) -> bool {
    exists|from: int, to: int| #[trigger]
        between_slashes(path, from, to) && to < path.len() && path.subrange(from, to) == segment
}

spec fn stands_in(path: Seq<u8>, segment: Seq<u8>) -> bool {
    exists|from: int, to: int| #[trigger]
        between_slashes(path, from, to) && path.subrange(from, to) == segment
}

proof fn segments_lie_between_slashes(path: Seq<u8>)
    ensures
        segments(path).len() >= 1,
        exists|from: int| #[trigger] between_slashes(path, from, path.len() as int),
        forall|from: int| #[trigger]
            between_slashes(path, from, path.len() as int) ==> segments(path).last()
                == path.subrange(from, path.len() as int),
        forall|to: int| #[trigger]
            between_slashes(path, 0, to) ==> segments(path)[0] == path.subrange(0, to),
        forall|from: int, to: int| #[trigger]
            between_slashes(path, from, to) && to < path.len() ==> segments(
                path,
            ).drop_last().contains(path.subrange(from, to)),
        forall|i: int|
            0 <= i < segments(path).len() - 1 ==> stands_before_a_slash(path, #[trigger] segments(path)[i]),
    decreases path.len(),
{
    let all = segments(path);
    let end = path.len() as int;
    if end == 0 {
        assert(path.subrange(0, 0) =~= Seq::<u8>::empty());
        assert(between_slashes(path, 0, end));
        assert forall|to: int| #[trigger] between_slashes(path, 0, to) implies all[0]
            == path.subrange(0, to) by {}
    } else {
        let front = path.drop_last();
        let before = segments(front);
        let last = path.last();
        segments_lie_between_slashes(front);
        assert forall|from: int, to: int| 0 <= from <= to < end implies path.subrange(from, to)
            == #[trigger] front.subrange(from, to) by {
            assert(path.subrange(from, to) =~= front.subrange(from, to));
        }
        if last == 47 {
            assert(path.subrange(end, end) =~= Seq::<u8>::empty());
            assert(between_slashes(path, end, end));
            assert forall|from: int| #[trigger] between_slashes(path, from, end) implies all.last()
                == path.subrange(from, end) by {
                if from < end {
                    assert(path.subrange(from, end)[end - 1 - from] == 47);
                }
            }
            assert(all.drop_last() =~= before);
            assert forall|from: int, to: int| #[trigger]
                between_slashes(path, from, to) && to < end implies all.drop_last().contains(
                path.subrange(from, to),
            ) by {
                assert(front.subrange(from, to) == path.subrange(from, to));
                assert(between_slashes(front, from, to));
                if to == front.len() {
                    assert(before[before.len() - 1] == path.subrange(from, to));
                } else {
                    let k = before.drop_last().index_of(front.subrange(from, to));
                    assert(before[k] == path.subrange(from, to));
                }
            }
            assert forall|to: int| #[trigger] between_slashes(path, 0, to) implies all[0]
                == path.subrange(0, to) by {
                if to == end {
                    assert(path.subrange(0, end)[end - 1] == 47);
                } else {
                    assert(front.subrange(0, to) == path.subrange(0, to));
                    assert(between_slashes(front, 0, to));
                }
            }
            assert forall|i: int| 0 <= i < all.len() - 1 implies stands_before_a_slash(path, #[trigger] all[i]) by {
                assert(all[i] == before[i]);
                if i == before.len() - 1 {
                    let from = choose|from: int| #[trigger]
                        between_slashes(front, from, front.len() as int);
                    assert(front.subrange(from, front.len() as int) == path.subrange(
                        from,
                        end - 1,
                    ));
                    assert(between_slashes(path, from, end - 1));
                } else {
                    assert(stands_before_a_slash(front, before[i]));
                    let (from, to) = choose|from: int, to: int| #[trigger]
                        between_slashes(front, from, to) && to < front.len() && front.subrange(
                            from,
                            to,
                        ) == before[i];
                    assert(front.subrange(from, to) == path.subrange(from, to));
                    assert(between_slashes(path, from, to));
                }
            }
        } else {
            let start = choose|from: int| #[trigger]
                between_slashes(front, from, front.len() as int);
            assert(path.subrange(start, end) =~= front.subrange(start, end - 1).push(last));
            assert(between_slashes(path, start, end)) by {
                if path.subrange(start, end).contains(47u8) {
                    let k = path.subrange(start, end).index_of(47u8);
                    assert(k < end - 1 - start);
                    assert(front.subrange(start, end - 1)[k] == 47);
                }
            }
            assert forall|from: int| #[trigger] between_slashes(path, from, end) implies all.last()
                == path.subrange(from, end) by {
                if from < end {
                    assert(between_slashes(front, from, end - 1)) by {
                        if front.subrange(from, end - 1).contains(47u8) {
                            let k = front.subrange(from, end - 1).index_of(47u8);
                            assert(path.subrange(from, end)[k] == 47);
                        }
                    }
                    assert(path.subrange(from, end) =~= front.subrange(from, end - 1).push(last));
                }
            }
            assert(all.drop_last() =~= before.drop_last());
            assert forall|from: int, to: int| #[trigger]
                between_slashes(path, from, to) && to < end implies all.drop_last().contains(
                path.subrange(from, to),
            ) by {
                assert(to < end - 1);
                assert(front.subrange(from, to) == path.subrange(from, to));
                assert(between_slashes(front, from, to));
            }
            assert forall|to: int| #[trigger] between_slashes(path, 0, to) implies all[0]
                == path.subrange(0, to) by {
                if to == end {
                    assert(between_slashes(front, 0, end - 1)) by {
                        if front.subrange(0, end - 1).contains(47u8) {
                            let k = front.subrange(0, end - 1).index_of(47u8);
                            assert(path.subrange(0, end)[k] == 47);
                        }
                    }
                    assert(before[0] == front.subrange(0, end - 1));
                    if before.len() > 1 {
                        let (from, to) = choose|from: int, to: int| #[trigger]
                            between_slashes(front, from, to) && to < front.len()
                                && front.subrange(from, to) == before[0];
                        assert(front.subrange(0, end - 1)[to] == 47);
                    }
                    assert(path.subrange(0, end) =~= front.subrange(0, end - 1).push(last));
                } else {
                    assert(to < end - 1);
                    assert(front.subrange(0, to) == path.subrange(0, to));
                    assert(between_slashes(front, 0, to));
                    assert(before.drop_last().contains(front.subrange(0, to)));
                    assert(before.len() > 1);
                    assert(all[0] == before[0]);
                }
            }
            assert forall|i: int| 0 <= i < all.len() - 1 implies stands_before_a_slash(path, #[trigger] all[i]) by {
                assert(all[i] == before[i]);
                let (from, to) = choose|from: int, to: int| #[trigger]
                    between_slashes(front, from, to) && to < front.len() && front.subrange(from, to)
                        == before[i];
                assert(front.subrange(from, to) == path.subrange(from, to));
                assert(between_slashes(path, from, to));
            }
        }
    }
}

proof fn segments_are_all_between_slashes(path: Seq<u8>)
    ensures
        forall|from: int, to: int| #[trigger]
            between_slashes(path, from, to) ==> segments(path).contains(path.subrange(from, to)),
        forall|i: int|
            0 <= i < segments(path).len() ==> stands_in(path, #[trigger] segments(path)[i]),
{
    let all = segments(path);
    segments_lie_between_slashes(path);
    assert forall|from: int, to: int| #[trigger]
        between_slashes(path, from, to) implies all.contains(path.subrange(from, to)) by {
        if to == path.len() {
            assert(all[all.len() - 1] == path.subrange(from, to));
        } else {
            let k = all.drop_last().index_of(path.subrange(from, to));
            assert(all[k] == path.subrange(from, to));
        }
    }
    assert forall|i: int| 0 <= i < all.len() implies stands_in(path, #[trigger] all[i]) by {
        if i == all.len() - 1 {
            let from = choose|from: int| #[trigger]
                between_slashes(path, from, path.len() as int);
            assert(path.subrange(from, path.len() as int) == all[i]);
        }
    }
}

proof fn slashes_shift(path: Seq<u8>, from: int, to: int)
    requires
        path.len() > 0,
        path[0] == 47,
        1 <= from <= to <= path.len(),
    ensures
        path.skip(1).subrange(from - 1, to - 1) == path.subrange(from, to),
        between_slashes(path, from, to) <==> between_slashes(path.skip(1), from - 1, to - 1),
{
    assert(path.skip(1).subrange(from - 1, to - 1) =~= path.subrange(from, to));
}

/// A path is strictly absolute exactly where it begins with a slash, has no zero byte,
/// and neither nothing, nor a dot, nor two dots stand between two of its slashes or
/// behind the last.
pub proof fn strict_paths_begin_at_the_root(path: Seq<u8>)
    ensures
        strict_absolute(path) <==> {
            &&& path.len() > 0 && path[0] == 47
            &&& forall|i: int| 0 <= i < path.len() ==> #[trigger] path[i] != 0
            &&& forall|from: int, to: int| #[trigger]
                between_slashes(path, from, to) && from > 0 ==> from < to && path.subrange(from, to)
                    != seq![46u8] && path.subrange(from, to) != seq![46u8, 46u8]
        },
{
    if path.len() > 0 && path[0] == 47 {
        let rest = path.skip(1);
        segments_are_all_between_slashes(rest);
        if strict_absolute(path) {
            assert forall|from: int, to: int| #[trigger]
                between_slashes(path, from, to) && from > 0 implies from < to && path.subrange(
                from,
                to,
            ) != seq![46u8] && path.subrange(from, to) != seq![46u8, 46u8] by {
                slashes_shift(path, from, to);
                let k = segments(rest).index_of(path.subrange(from, to));
                assert(segments(rest)[k] == path.subrange(from, to));
            }
            assert forall|i: int| 0 <= i < path.len() implies #[trigger] path[i] != 0 by {
                assert(path.contains(path[i]));
            }
        }
        if forall|from: int, to: int| #[trigger]
            between_slashes(path, from, to) && from > 0 ==> from < to && path.subrange(from, to)
                != seq![46u8] && path.subrange(from, to) != seq![46u8, 46u8] {
            assert forall|i: int| 0 <= i < segments(rest).len() implies {
                let segment = #[trigger] segments(rest)[i];
                segment.len() > 0 && segment != dot() && segment != dot_dot()
            } by {
                assert(stands_in(rest, segments(rest)[i]));
                let (from, to) = choose|from: int, to: int| #[trigger]
                    between_slashes(rest, from, to) && rest.subrange(from, to) == segments(rest)[i];
                slashes_shift(path, from + 1, to + 1);
                assert(between_slashes(path, from + 1, to + 1));
            }
        }
    }
}

/// A path may be a candidate exactly where it is no longer than allowed, begins with a
/// slash, has no zero byte, and neither nothing nor two dots stand between two of its
/// slashes or behind the last.
pub proof fn candidates_begin_at_the_root(path: Seq<u8>, max_bytes: usize)
    ensures
        candidate_path(path, max_bytes) <==> {
            &&& path.len() <= max_bytes
            &&& path.len() > 0 && path[0] == 47
            &&& forall|i: int| 0 <= i < path.len() ==> #[trigger] path[i] != 0
            &&& forall|from: int, to: int| #[trigger]
                between_slashes(path, from, to) && from > 0 ==> from < to && path.subrange(from, to)
                    != seq![46u8, 46u8]
        },
{
    if path.len() > 0 && path[0] == 47 {
        let rest = path.skip(1);
        segments_are_all_between_slashes(rest);
        if candidate_path(path, max_bytes) {
            assert forall|from: int, to: int| #[trigger]
                between_slashes(path, from, to) && from > 0 implies from < to && path.subrange(
                from,
                to,
            ) != seq![46u8, 46u8] by {
                slashes_shift(path, from, to);
                let k = segments(rest).index_of(path.subrange(from, to));
                assert(segments(rest)[k] == path.subrange(from, to));
            }
            assert forall|i: int| 0 <= i < path.len() implies #[trigger] path[i] != 0 by {
                assert(path.contains(path[i]));
            }
        }
        if forall|from: int, to: int| #[trigger]
            between_slashes(path, from, to) && from > 0 ==> from < to && path.subrange(from, to)
                != seq![46u8, 46u8] {
            assert forall|i: int| 0 <= i < segments(rest).len() implies {
                let segment = #[trigger] segments(rest)[i];
                segment.len() > 0 && segment != dot_dot()
            } by {
                assert(stands_in(rest, segments(rest)[i]));
                let (from, to) = choose|from: int, to: int| #[trigger]
                    between_slashes(rest, from, to) && rest.subrange(from, to) == segments(rest)[i];
                slashes_shift(path, from + 1, to + 1);
                assert(between_slashes(path, from + 1, to + 1));
            }
        }
    }
}

/// A path stays within its directory exactly where it is text, is not empty, begins with
/// no slash and no single dot, and nowhere has two dots between slashes.
pub proof fn contained_paths_never_climb(path: Seq<u8>)
    ensures
        contained_path(path) <==> {
            &&& valid_utf8(path)
            &&& path.len() > 0 && path[0] != 47
            &&& forall|from: int, to: int| #[trigger]
                between_slashes(path, from, to) ==> path.subrange(from, to) != seq![46u8, 46u8]
            &&& forall|to: int| #[trigger]
                between_slashes(path, 0, to) ==> path.subrange(0, to) != seq![46u8]
        },
{
    segments_are_all_between_slashes(path);
    segments_lie_between_slashes(path);
    let all = segments(path);
    if contained_path(path) {
        assert forall|from: int, to: int| #[trigger]
            between_slashes(path, from, to) implies path.subrange(from, to) != seq![
            46u8,
            46u8,
        ] by {
            let k = all.index_of(path.subrange(from, to));
            assert(all[k] == path.subrange(from, to));
        }
    }
    if valid_utf8(path) && path.len() > 0 && path[0] != 47 && (forall|from: int, to: int| #[trigger]
        between_slashes(path, from, to) ==> path.subrange(from, to) != seq![46u8, 46u8]) && (
    forall|to: int| #[trigger]
        between_slashes(path, 0, to) ==> path.subrange(0, to) != seq![46u8]) {
        assert forall|i: int| 0 <= i < all.len() implies #[trigger] all[i] != dot_dot() by {
            assert(stands_in(path, all[i]));
        }
        first_segments_begin_the_path(path);
        let to = choose|to: int| #[trigger] between_slashes(path, 0, to);
        assert(all[0] == path.subrange(0, to));
    }
}

proof fn first_segments_begin_the_path(path: Seq<u8>)
    ensures
        exists|to: int| #[trigger] between_slashes(path, 0, to),
    decreases path.len(),
{
    if path.len() == 0 {
        assert(path.subrange(0, 0) =~= Seq::<u8>::empty());
        assert(between_slashes(path, 0, 0));
    } else {
        let front = path.drop_last();
        let end = path.len() as int;
        first_segments_begin_the_path(front);
        let to = choose|to: int| #[trigger] between_slashes(front, 0, to);
        assert(path.subrange(0, to) =~= front.subrange(0, to));
        if to < front.len() || path.last() == 47 {
            assert(between_slashes(path, 0, to));
        } else {
            assert(path.subrange(0, end) =~= front.subrange(0, to).push(path.last()));
            if path.subrange(0, end).contains(47u8) {
                let k = path.subrange(0, end).index_of(47u8);
                assert(front.subrange(0, to)[k] == 47);
            }
            assert(between_slashes(path, 0, end));
        }
    }
}

proof fn segments_of_joined_paths(path: Seq<u8>, rest: Seq<u8>)
    ensures
        segments(path + seq![47u8] + rest) == segments(path) + segments(rest),
        segments(rest).len() >= 1,
    decreases rest.len(),
{
    let joined = path + seq![47u8] + rest;
    if rest.len() == 0 {
        assert(joined.drop_last() =~= path);
        assert(joined.last() == 47);
        assert(segments(path) + segments(rest) =~= segments(path).push(Seq::<u8>::empty()));
    } else {
        segments_of_joined_paths(path, rest.drop_last());
        assert(joined.drop_last() =~= path + seq![47u8] + rest.drop_last());
        assert(joined.last() == rest.last());
        let before = segments(rest.drop_last());
        if rest.last() == 47 {
            assert(segments(path) + before.push(Seq::<u8>::empty()) =~= (segments(path)
                + before).push(Seq::<u8>::empty()));
        } else {
            let grown = before.last().push(rest.last());
            assert((segments(path) + before).last() == before.last());
            assert(segments(path) + before.drop_last().push(grown) =~= (segments(path)
                + before).drop_last().push(grown));
        }
    }
}

/// What a path names: joined by a slash, paths have the names of both, one after the
/// other; and a path without a slash has itself as its one name, unless it is empty or a
/// dot, which name nothing.
pub proof fn joined_paths_have_the_names_of_both(path: Seq<u8>, rest: Seq<u8>)
    ensures
        names(path + seq![47u8] + rest) == names(path) + names(rest),
        !rest.contains(47u8) && rest.len() > 0 && rest != seq![46u8] ==> names(rest) == seq![rest],
        !rest.contains(47u8) && (rest.len() == 0 || rest == seq![46u8]) ==> names(rest).len() == 0,
{
    let named = |segment: Seq<u8>| is_name(segment);
    segments_of_joined_paths(path, rest);
    Seq::filter_distributes_over_add(segments(path), segments(rest), named);
    if !rest.contains(47u8) {
        one_segment_without_slashes(rest);
        reveal_with_fuel(Seq::filter, 2);
        assert(segments(rest).drop_last() =~= Seq::<Seq<u8>>::empty());
        if is_name(rest) {
            assert(names(rest) =~= seq![rest]);
        }
    }
}

proof fn one_segment_without_slashes(path: Seq<u8>)
    requires
        !path.contains(47u8),
    ensures
        segments(path) == seq![path],
    decreases path.len(),
{
    if path.len() > 0 {
        let front = path.drop_last();
        assert(!front.contains(47u8)) by {
            if front.contains(47u8) {
                let k = front.index_of(47u8);
                assert(path[k] == 47);
            }
        }
        assert(path[path.len() - 1] != 47);
        one_segment_without_slashes(front);
        assert(front.push(path.last()) =~= path);
        assert(segments(path) =~= seq![path]);
    } else {
        assert(path =~= Seq::<u8>::empty());
    }
}

/// A path with something behind it lies below it, both are the same where what is behind
/// names nothing, and a path lies below another exactly where both have the same names
/// up to where the other ends.
pub proof fn longer_paths_lie_below(path: Seq<u8>, rest: Seq<u8>)
    ensures
        lies_below(path + seq![47u8] + rest, path),
        same_path(path + seq![47u8] + rest, path) <==> names(rest).len() == 0,
        lies_below(path, path + seq![47u8] + rest) <==> names(rest).len() == 0,
        lies_below(path, rest) && lies_below(rest, path) <==> same_path(path, rest),
        !rest.contains(47u8) && rest.len() > 0 && rest != seq![46u8] && rest != seq![46u8, 46u8]
            ==> final_name(path + seq![47u8] + rest) == Some(rest),
        rest == seq![46u8, 46u8] ==> final_name(path + seq![47u8] + rest) is None,
        names(rest).len() == 0 ==> final_name(path + seq![47u8] + rest) == final_name(path),
{
    let both = path + seq![47u8] + rest;
    joined_paths_have_the_names_of_both(path, rest);
    assert((names(path) + names(rest)).take(names(path).len() as int) =~= names(path));
    if names(rest).len() == 0 {
        assert(names(path) + names(rest) =~= names(path));
        assert(names(path).take(names(both).len() as int) =~= names(both));
    } else {
        assert(names(both).len() > names(path).len());
    }
    if lies_below(path, rest) && lies_below(rest, path) {
        assert(names(path).take(names(rest).len() as int) =~= names(path));
    }
    if same_path(path, rest) {
        assert(names(path).take(names(rest).len() as int) =~= names(rest));
        assert(names(rest).take(names(path).len() as int) =~= names(path));
    }
    if rest == seq![46u8, 46u8] {
        assert(rest.len() == 2);
        assert(!rest.contains(47u8));
        assert(rest != seq![46u8]) by {
            assert(seq![46u8].len() == 1);
        }
    }
}

} // verus!
