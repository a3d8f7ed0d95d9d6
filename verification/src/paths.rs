//! File-name handling for `/`-separated paths, as `std::path::Path` does it on Unix.

use vstd::prelude::*;
use crate::text::{chars_eq, last_index_of, last_index_of_exec, sub_vec};

verus! {

pub open spec fn dot() -> Seq<char> {
    seq!['.']
}

pub open spec fn dot_dot() -> Seq<char> {
    seq!['.', '.']
}

/// `Path::file_name`: the last component of the path, ignoring trailing `/` and `.`
/// components; `None` when the path ends in `..` or has no normal component.
pub open spec fn file_name(s: Seq<char>) -> Option<Seq<char>>
    decreases s.len(),
{
    if s.len() == 0 {
        None
    } else if s.last() == '/' {
        file_name(s.drop_last())
    } else {
        match last_index_of(s, '/') {
            Some(i) => {
                let seg = s.skip(i + 1);
                if seg == dot() && 0 <= i < s.len() {
                    file_name(s.take(i))
                } else if seg == dot_dot() {
                    None
                } else {
                    Some(seg)
                }
            },
            None => {
                if s == dot() || s == dot_dot() {
                    None
                } else {
                    Some(s)
                }
            },
        }
    }
}

/// `Path::extension` applied to a file name: the text after the last `.`, unless the only
/// `.` opens the name.
pub open spec fn name_extension(name: Seq<char>) -> Option<Seq<char>> {
    match last_index_of(name, '.') {
        Some(i) => {
            if i == 0 {
                None
            } else {
                Some(name.skip(i + 1))
            }
        },
        None => None,
    }
}

/// `Path::extension`.
pub open spec fn path_extension(s: Seq<char>) -> Option<Seq<char>> {
    match file_name(s) {
        Some(n) => name_extension(n),
        None => None,
    }
}

/// `rsplit_once('.')` keeping the part before the last dot, or the whole name when it has
/// no dot.
pub open spec fn before_last_dot(s: Seq<char>) -> Seq<char> {
    match last_index_of(s, '.') {
        Some(i) => s.take(i),
        None => s,
    }
}

pub proof fn lemma_last_index_bounds(s: Seq<char>, c: char)
    ensures
        last_index_of(s, c) matches Some(i) ==> 0 <= i < s.len() && s[i] == c,
    decreases s.len(),
{
    if s.len() > 0 && s.last() != c {
        lemma_last_index_bounds(s.drop_last(), c);
    }
}

/// The last component of a path (see `file_name`).
pub fn file_name_exec(s: &[char]) -> (r: Option<Vec<char>>)
    ensures
        match r {
            Some(v) => file_name(s@) == Some(v@),
            None => file_name(s@) is None,
        },
    decreases s@.len(),
{
    if s.len() == 0 {
        return None;
    }
    if s[s.len() - 1] == '/' {
        let t = sub_vec(s, 0, s.len() - 1);
        assert(t@ =~= s@.drop_last());
        return file_name_exec(t.as_slice());
    }
    proof {
        lemma_last_index_bounds(s@, '/');
    }
    match last_index_of_exec(s, '/') {
        Some(i) => {
            let seg = sub_vec(s, i + 1, s.len());
            assert(seg@ =~= s@.skip(i + 1));
            if chars_eq(seg.as_slice(), &['.']) {
                assert(['.']@ =~= dot());
                let t = sub_vec(s, 0, i);
                assert(t@ =~= s@.take(i as int));
                file_name_exec(t.as_slice())
            } else if chars_eq(seg.as_slice(), &['.', '.']) {
                assert(['.', '.']@ =~= dot_dot());
                None
            } else {
                assert(['.']@ =~= dot());
                assert(['.', '.']@ =~= dot_dot());
                Some(seg)
            }
        },
        None => {
            assert(['.']@ =~= dot());
            assert(['.', '.']@ =~= dot_dot());
            if chars_eq(s, &['.']) || chars_eq(s, &['.', '.']) {
                None
            } else {
                Some(sub_vec(s, 0, s.len()))
            }
        },
    }
}

/// The extension of a file name (see `name_extension`).
pub fn name_extension_exec(name: &[char]) -> (r: Option<Vec<char>>)
    ensures
        match r {
            Some(v) => name_extension(name@) == Some(v@),
            None => name_extension(name@) is None,
        },
{
    proof {
        lemma_last_index_bounds(name@, '.');
    }
    match last_index_of_exec(name, '.') {
        Some(i) => {
            if i == 0 {
                None
            } else {
                assert(i < name.len());
                let v = sub_vec(name, i + 1, name.len());
                assert(v@ =~= name@.skip(i + 1));
                Some(v)
            }
        },
        None => None,
    }
}

/// The extension of a path (see `path_extension`).
pub fn path_extension_exec(s: &[char]) -> (r: Option<Vec<char>>)
    ensures
        match r {
            Some(v) => path_extension(s@) == Some(v@),
            None => path_extension(s@) is None,
        },
{
    match file_name_exec(s) {
        Some(n) => name_extension_exec(n.as_slice()),
        None => None,
    }
}

/// The part of `s` before its last dot (see `before_last_dot`).
pub fn before_last_dot_exec(s: &[char]) -> (r: Vec<char>)
    ensures
        r@ == before_last_dot(s@),
{
    proof {
        lemma_last_index_bounds(s@, '.');
    }
    match last_index_of_exec(s, '.') {
        Some(i) => {
            let v = sub_vec(s, 0, i);
            assert(v@ =~= s@.take(i as int));
            v
        },
        None => {
            let v = sub_vec(s, 0, s.len());
            assert(v@ =~= s@);
            v
        },
    }
}

} // verus!
