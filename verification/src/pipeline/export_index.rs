//! The plain archive index: which entry of which archive holds each id, by whole-token match.

use vstd::prelude::*;

use crate::paths::{path_extension, path_extension_exec};
use crate::pipeline::index::ZipIndex;
use crate::pipeline::zip::{id_appears_as_token, id_appears_as_token_spec, token_search_defined, token_search_defined_exec};
use crate::strmap::StrMap;
use crate::text::{chars_of, string_of, string_views, to_lowercase, unicode_lowercase};

verus! {

/// The first of `ids` that the lower-case entry name holds as a whole token.
pub open spec fn first_token_id(lower: Seq<char>, ids: Seq<Seq<char>>) -> Option<Seq<char>>
    decreases ids.len(),
{
    if ids.len() == 0 {
        None
    } else if id_appears_as_token_spec(lower, ids[0]) {
        Some(ids[0])
    } else {
        first_token_id(lower, ids.drop_first())
    }
}

/// The token searches for `ids`, up to the first match, stay on character boundaries.
pub open spec fn token_ids_defined(lower: Seq<char>, ids: Seq<Seq<char>>) -> bool
    decreases ids.len(),
{
    ids.len() == 0 || (token_search_defined(lower, ids[0]) && (!id_appears_as_token_spec(lower, ids[0])
        ==> token_ids_defined(lower, ids.drop_first())))
}

/// The extension recorded for an entry, `zip` when it has none.
pub open spec fn export_ext(name: Seq<char>) -> Seq<char> {
    match path_extension(name) {
        Some(e) => e,
        None => "zip"@,
    }
}

/// Indexing the entries of archive `z` in order: each entry is recorded under the first id
/// it names; a later entry replaces an earlier one.
pub open spec fn export_index_names(
    m: Map<Seq<char>, (usize, usize, Seq<char>)>,
    names: Seq<Seq<char>>,
    z: usize,
    ids: Seq<Seq<char>>,
) -> Map<Seq<char>, (usize, usize, Seq<char>)>
    decreases names.len(),
{
    if names.len() == 0 {
        m
    } else {
        let prev = export_index_names(m, names.drop_last(), z, ids);
        let n = names.last();
        match first_token_id(unicode_lowercase(n), ids) {
            Some(id) => prev.insert(id, (z, (names.len() - 1) as usize, export_ext(n))),
            None => prev,
        }
    }
}

/// Indexing every archive in order.
pub open spec fn export_index_spec(zips: Seq<Seq<Seq<char>>>, ids: Seq<Seq<char>>) -> Map<Seq<char>, (usize, usize, Seq<char>)>
    decreases zips.len(),
{
    if zips.len() == 0 {
        Map::empty()
    } else {
        export_index_names(export_index_spec(zips.drop_last(), ids), zips.last(), (zips.len() - 1) as usize, ids)
    }
}

pub open spec fn name_lists(zips: Seq<Vec<String>>) -> Seq<Seq<Seq<char>>> {
    zips.map_values(|v: Vec<String>| string_views(v@))
}

/// Every entry of every archive can be searched for the ids.
pub open spec fn export_index_defined(zips: Seq<Seq<Seq<char>>>, ids: Seq<Seq<char>>) -> bool {
    forall|z: int, i: int|
        0 <= z < zips.len() && 0 <= i < zips[z].len() ==> token_ids_defined(unicode_lowercase(#[trigger] zips[z][i]), ids)
}

fn first_token_id_exec(lower: &str, ids: &Vec<String>) -> (r: Option<usize>)
    requires
        token_ids_defined(lower@, string_views(ids@)),
    ensures
        match r {
            Some(k) => k < ids@.len() && first_token_id(lower@, string_views(ids@)) == Some(ids@[k as int]@),
            None => first_token_id(lower@, string_views(ids@)) is None,
        },
{
    let ghost iv = string_views(ids@);
    let mut j: usize = 0;
    assert(iv.skip(0) =~= iv);
    while j < ids.len()
        invariant
            j <= ids@.len(),
            iv == string_views(ids@),
            first_token_id(lower@, iv) == first_token_id(lower@, iv.skip(j as int)),
            token_ids_defined(lower@, iv.skip(j as int)),
        decreases ids@.len() - j,
    {
        assert(iv.skip(j as int)[0] == ids@[j as int]@);
        if id_appears_as_token(lower, ids[j].as_str()) {
            return Some(j);
        }
        assert(iv.skip(j as int).drop_first() =~= iv.skip(j + 1));
        j = j + 1;
    }
    None
}

/// Indexes the entry names of the archives (`zips[z]` in archive order) by the ids
/// `ids`, tried in the given order for each entry.
pub fn build_export_zip_index(zips: &Vec<Vec<String>>, ids: &Vec<String>) -> (r: ZipIndex)
    requires
        export_index_defined(name_lists(zips@), string_views(ids@)),
    ensures
        r@ == export_index_spec(name_lists(zips@), string_views(ids@)),
{
    let ghost zv = name_lists(zips@);
    let ghost iv = string_views(ids@);
    let mut index: ZipIndex = StrMap::new();
    let mut z: usize = 0;
    assert(zv.take(0) =~= Seq::<Seq<Seq<char>>>::empty());
    while z < zips.len()
        invariant
            z <= zips@.len(),
            zv == name_lists(zips@),
            iv == string_views(ids@),
            export_index_defined(zv, iv),
            index@ == export_index_spec(zv.take(z as int), iv),
        decreases zips@.len() - z,
    {
        let names = &zips[z];
        let ghost before = index@;
        let ghost nv = string_views(names@);
        assert(zv[z as int] == nv);
        let mut i: usize = 0;
        assert(nv.take(0) =~= Seq::<Seq<char>>::empty());
        while i < names.len()
            invariant
                i <= names@.len(),
                z < zips@.len(),
                zv == name_lists(zips@),
                iv == string_views(ids@),
                nv == string_views(names@),
                zv[z as int] == nv,
                export_index_defined(zv, iv),
                index@ == export_index_names(before, nv.take(i as int), z, iv),
            decreases names@.len() - i,
        {
            let name = &names[i];
            assert(nv[i as int] == name@);
            assert(zv[z as int][i as int] == name@);
            let lower = to_lowercase(name.as_str());
            proof {
                assert(nv.take(i + 1).drop_last() =~= nv.take(i as int));
                assert(nv.take(i + 1).last() == name@);
            }
            let ext = match path_extension_exec(&chars_of(name.as_str())) {
                Some(e) => string_of(&e),
                None => "zip".to_owned(),
            };
            if let Some(k) = first_token_id_exec(lower.as_str(), ids) {
                index.insert(ids[k].clone(), (z, i, ext));
            }
            i = i + 1;
        }
        proof {
            assert(nv.take(names@.len() as int) =~= nv);
            assert(zv.take(z + 1).drop_last() =~= zv.take(z as int));
            assert(zv.take(z + 1).last() == nv);
        }
        z = z + 1;
    }
    assert(zv.take(zips@.len() as int) =~= zv);
    index
}

fn token_ids_defined_exec(lower: &str, ids: &Vec<String>) -> (r: bool)
    ensures
        r == token_ids_defined(lower@, string_views(ids@)),
{
    let ghost iv = string_views(ids@);
    let mut j: usize = 0;
    assert(iv.skip(0) =~= iv);
    while j < ids.len()
        invariant
            j <= ids@.len(),
            iv == string_views(ids@),
            token_ids_defined(lower@, iv) == token_ids_defined(lower@, iv.skip(j as int)),
        decreases ids@.len() - j,
    {
        assert(iv.skip(j as int)[0] == ids@[j as int]@);
        assert(iv.skip(j as int).drop_first() =~= iv.skip(j + 1));
        if !token_search_defined_exec(lower, ids[j].as_str()) {
            return false;
        }
        if id_appears_as_token(lower, ids[j].as_str()) {
            return true;
        }
        j = j + 1;
    }
    true
}

/// The plain index where every entry can be searched; `None` otherwise.
pub fn build_export_zip_index_checked(zips: &Vec<Vec<String>>, ids: &Vec<String>) -> (r: Option<ZipIndex>)
    ensures
        match r {
            Some(m) => export_index_defined(name_lists(zips@), string_views(ids@)) && m@ == export_index_spec(
                name_lists(zips@),
                string_views(ids@),
            ),
            None => !export_index_defined(name_lists(zips@), string_views(ids@)),
        },
{
    let ghost zv = name_lists(zips@);
    let ghost iv = string_views(ids@);
    let mut z: usize = 0;
    while z < zips.len()
        invariant
            z <= zips@.len(),
            zv == name_lists(zips@),
            iv == string_views(ids@),
            forall|zz: int, i: int|
                0 <= zz < z && 0 <= i < zv[zz].len() ==> token_ids_defined(unicode_lowercase(#[trigger] zv[zz][i]), iv),
        decreases zips@.len() - z,
    {
        let names = &zips[z];
        assert(zv[z as int] == string_views(names@));
        let mut i: usize = 0;
        while i < names.len()
            invariant
                i <= names@.len(),
                z < zips@.len(),
                zv == name_lists(zips@),
                iv == string_views(ids@),
                zv[z as int] == string_views(names@),
                forall|zz: int, k: int|
                    0 <= zz < z && 0 <= k < zv[zz].len() ==> token_ids_defined(unicode_lowercase(#[trigger] zv[zz][k]), iv),
                forall|k: int| 0 <= k < i ==> token_ids_defined(unicode_lowercase(#[trigger] zv[z as int][k]), iv),
            decreases names@.len() - i,
        {
            assert(zv[z as int][i as int] == names@[i as int]@);
            let lower = to_lowercase(names[i].as_str());
            if !token_ids_defined_exec(lower.as_str(), ids) {
                return None;
            }
            i = i + 1;
        }
        z = z + 1;
    }
    Some(build_export_zip_index(zips, ids))
}

} // verus!
