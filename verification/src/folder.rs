//! Reading progress back from the output folder: which stage a memory reached in an
//! earlier run, judged by the names of the files it left there.

use vstd::prelude::*;

use crate::metadata::{clean_date_prefix, get_clean_date_prefix};
use crate::models::{MemoryItem, ProcessingState};
use crate::paths::{path_extension, path_extension_exec};
use crate::text::{
    chars_of, concat, contains, contains_exec, ends_with, ends_with_exec, starts_with, starts_with_exec, string_of,
    string_views, to_lowercase, unicode_lowercase,
};

verus! {

/// The names of the files, lower-cased.
pub open spec fn lower_names(names: Seq<Seq<char>>) -> Seq<Seq<char>> {
    names.map_values(|n: Seq<char>| unicode_lowercase(n))
}

/// The finished file of memory `idl` (its lower-case id): it holds `_<id>.` or starts with
/// `<id>.`, and is no intermediate file (`-main`, `-overlay`, `.zip`).
pub open spec fn is_finished_name(f: Seq<char>, idl: Seq<char>) -> bool {
    (contains(f, seq!['_'] + idl + seq!['.']) || starts_with(f, idl + seq!['.'])) && !contains(f, "-main"@)
        && !contains(f, "-overlay"@) && !ends_with(f, ".zip"@)
}

pub open spec fn is_main_name(f: Seq<char>, idl: Seq<char>) -> bool {
    contains(f, idl + "-main"@)
}

pub open spec fn first_finished(names: Seq<Seq<char>>, idl: Seq<char>) -> Option<Seq<char>>
    decreases names.len(),
{
    if names.len() == 0 {
        None
    } else if is_finished_name(names[0], idl) {
        Some(names[0])
    } else {
        first_finished(names.drop_first(), idl)
    }
}

pub open spec fn first_main(names: Seq<Seq<char>>, idl: Seq<char>) -> Option<Seq<char>>
    decreases names.len(),
{
    if names.len() == 0 {
        None
    } else if is_main_name(names[0], idl) {
        Some(names[0])
    } else {
        first_main(names.drop_first(), idl)
    }
}

pub open spec fn any_contains(names: Seq<Seq<char>>, pat: Seq<char>) -> bool {
    exists|k: int| 0 <= k < names.len() && contains(#[trigger] names[k], pat)
}

/// The extension a finished file of the memory would have: the recorded one, else `mp4`
/// for a link that looks like a video, else `jpg`.
pub open spec fn expected_extension(item: MemoryItem) -> Seq<char> {
    match item.extension {
        Some(e) => e@,
        None => {
            let u = unicode_lowercase(item.download_url@);
            if contains(u, ".mp4"@) || contains(u, ".mov"@) || contains(u, "video"@) {
                "mp4"@
            } else {
                "jpg"@
            }
        },
    }
}

/// The name the pipeline gives the finished file, lower-cased.
pub open spec fn expected_finished_name(item: MemoryItem) -> Seq<char> {
    unicode_lowercase(clean_date_prefix(item.original_date@) + seq!['_'] + item.id@ + seq!['.'] + expected_extension(item))
}

/// The finished file found for a memory: the expected name when present, else the first
/// name that looks finished.
pub open spec fn found_finished(names: Seq<Seq<char>>, item: MemoryItem) -> Option<Seq<char>> {
    let ln = lower_names(names);
    if ln.contains(expected_finished_name(item)) {
        Some(expected_finished_name(item))
    } else {
        first_finished(ln, unicode_lowercase(item.id@))
    }
}

/// What an earlier run left for a memory.
pub struct HydrateUpdate {
    pub state: ProcessingState,
    pub extension: Option<String>,
    pub has_overlay: bool,
}

/// The state a memory is restored to from the files in the output folder: completed when
/// its finished file is there, extracted when its main file is, downloaded when its raw
/// archive is; with the extension of the file found and whether an overlay is there.
pub open spec fn hydrate_spec(names: Seq<Seq<char>>, item: MemoryItem) -> Option<(ProcessingState, Option<Seq<char>>, bool)> {
    let ln = lower_names(names);
    let idl = unicode_lowercase(item.id@);
    let overlay = any_contains(ln, idl + "-overlay"@);
    match found_finished(names, item) {
        Some(f) => Some((ProcessingState::Completed, path_extension(f), overlay)),
        None => match first_main(ln, idl) {
            Some(m) => Some((ProcessingState::Extracted, path_extension(m), overlay)),
            None => if any_contains(ln, idl + "-raw.zip"@) {
                Some((ProcessingState::Downloaded, None, overlay))
            } else {
                None
            },
        },
    }
}

proof fn lemma_any_contains_lower(names: Seq<Seq<char>>, pat: Seq<char>)
    ensures
        any_contains(lower_names(names), pat) <==> exists|k: int|
            0 <= k < names.len() && contains(unicode_lowercase(#[trigger] names[k]), pat),
{
    let ln = lower_names(names);
    if any_contains(ln, pat) {
        let k = choose|k: int| 0 <= k < ln.len() && contains(#[trigger] ln[k], pat);
        assert(ln[k] == unicode_lowercase(names[k]));
    }
    if exists|k: int| 0 <= k < names.len() && contains(unicode_lowercase(#[trigger] names[k]), pat) {
        let k = choose|k: int| 0 <= k < names.len() && contains(unicode_lowercase(#[trigger] names[k]), pat);
        assert(ln[k] == unicode_lowercase(names[k]));
    }
}

/// Whatever state a memory is restored to, its overlay flag says exactly whether some file
/// name, lower-cased, holds `<lower-case id>-overlay`; and it is restored to a state only
/// from a finished file, a main file or its raw archive.
pub proof fn lemma_hydrate_overlay(names: Seq<Seq<char>>, item: MemoryItem)
    ensures
        hydrate_spec(names, item) matches Some(t) ==> (t.2 <==> exists|k: int|
            0 <= k < names.len() && contains(unicode_lowercase(#[trigger] names[k]), unicode_lowercase(item.id@) + "-overlay"@)),
        hydrate_spec(names, item) matches Some(t) ==> t.0 == ProcessingState::Completed || t.0 == ProcessingState::Extracted
            || t.0 == ProcessingState::Downloaded,
{
    lemma_any_contains_lower(names, unicode_lowercase(item.id@) + "-overlay"@);
}

fn lower_all(names: &Vec<String>) -> (r: Vec<Vec<char>>)
    ensures
        r@.len() == names@.len(),
        forall|k: int| 0 <= k < names@.len() ==> (#[trigger] r@[k])@ == unicode_lowercase(names@[k]@),
{
    let mut r: Vec<Vec<char>> = Vec::new();
    let mut i: usize = 0;
    while i < names.len()
        invariant
            i <= names@.len(),
            r@.len() == i,
            forall|k: int| 0 <= k < i ==> (#[trigger] r@[k])@ == unicode_lowercase(names@[k]@),
        decreases names@.len() - i,
    {
        let l = to_lowercase(names[i].as_str());
        r.push(chars_of(l.as_str()));
        i = i + 1;
    }
    r
}

fn any_contains_exec(ln: &Vec<Vec<char>>, pat: &[char]) -> (r: bool)
    ensures
        r == exists|k: int| 0 <= k < ln@.len() && contains((#[trigger] ln@[k])@, pat@),
{
    let mut i: usize = 0;
    while i < ln.len()
        invariant
            i <= ln@.len(),
            forall|k: int| 0 <= k < i ==> !contains((#[trigger] ln@[k])@, pat@),
        decreases ln@.len() - i,
    {
        if contains_exec(&ln[i], pat) {
            return true;
        }
        i = i + 1;
    }
    false
}

fn is_finished_exec(f: &[char], marker: &[char], marker_alt: &[char]) -> (r: bool)
    ensures
        r == ((contains(f@, marker@) || starts_with(f@, marker_alt@)) && !contains(f@, "-main"@) && !contains(f@, "-overlay"@)
            && !ends_with(f@, ".zip"@)),
{
    (contains_exec(f, marker) || starts_with_exec(f, marker_alt)) && !contains_exec(f, &chars_of("-main"))
        && !contains_exec(f, &chars_of("-overlay")) && !ends_with_exec(f, &chars_of(".zip"))
}

/// The state to restore memory `item` to from the names of the files in the output folder
/// (see `hydrate_spec`).
pub fn hydrate_decision(names: &Vec<String>, item: &MemoryItem) -> (r: Option<HydrateUpdate>)
    ensures
        match r {
            Some(u) => hydrate_spec(string_views(names@), *item) == Some(
                (
                    u.state,
                    match u.extension {
                        Some(e) => Some(e@),
                        None => None,
                    },
                    u.has_overlay,
                ),
            ),
            None => hydrate_spec(string_views(names@), *item) is None,
        },
        r matches Some(u) ==> (u.has_overlay <==> exists|k: int|
            0 <= k < names@.len() && contains(unicode_lowercase((#[trigger] names@[k])@), unicode_lowercase(item.id@) + "-overlay"@)),
{
    let ghost nv = string_views(names@);
    proof {
        lemma_any_contains_lower(nv, unicode_lowercase(item.id@) + "-overlay"@);
        assert forall|k: int| 0 <= k < names@.len() implies #[trigger] names@[k]@ == nv[k] by {}
    }
    let ghost ln = lower_names(nv);
    let lower = lower_all(names);
    assert forall|k: int| 0 <= k < ln.len() implies lower@[k]@ == #[trigger] ln[k] by {
        assert(nv[k] == names@[k]@);
    }
    let idl_s = to_lowercase(item.id.as_str());
    let idl = chars_of(idl_s.as_str());
    let under = vec!['_'];
    let dot = vec!['.'];
    let marker = concat(&concat(&under, &idl), &dot);
    let marker_alt = concat(&idl, &dot);
    let main_marker = concat(&idl, &chars_of("-main"));
    let overlay_marker = concat(&idl, &chars_of("-overlay"));
    let zip_marker = concat(&idl, &chars_of("-raw.zip"));
    proof {
        assert(under@ =~= seq!['_']);
        assert(dot@ =~= seq!['.']);
    }
    let overlay = any_contains_exec(&lower, &overlay_marker);
    assert(overlay == any_contains(ln, unicode_lowercase(item.id@) + "-overlay"@)) by {
        if overlay {
            let k = choose|k: int| 0 <= k < lower@.len() && contains((#[trigger] lower@[k])@, overlay_marker@);
            assert(contains(ln[k], overlay_marker@));
        } else {
            assert forall|k: int| 0 <= k < ln.len() implies !contains(#[trigger] ln[k], overlay_marker@) by {
                assert(lower@[k]@ == ln[k]);
            }
        }
    }
    // The expected finished name.
    let date = get_clean_date_prefix(item.original_date.as_str());
    let ext: String = match &item.extension {
        Some(e) => e.clone(),
        None => {
            let u = to_lowercase(item.download_url.as_str());
            let uc = chars_of(u.as_str());
            if contains_exec(&uc, &chars_of(".mp4")) || contains_exec(&uc, &chars_of(".mov")) || contains_exec(
                &uc,
                &chars_of("video"),
            ) {
                "mp4".to_owned()
            } else {
                "jpg".to_owned()
            }
        },
    };
    let full = concat(
        &concat(&concat(&concat(&chars_of(date.as_str()), &under), &chars_of(item.id.as_str())), &dot),
        &chars_of(ext.as_str()),
    );
    let expected_s = to_lowercase(string_of(&full).as_str());
    assert(expected_s@ == expected_finished_name(*item));
    let expected = chars_of(expected_s.as_str());
    // Search for the finished file.
    let finished: Option<Vec<char>> = if contains_chars(&lower, &expected) {
        assert(ln.contains(expected@)) by {
            let k = choose|k: int| 0 <= k < lower@.len() && (#[trigger] lower@[k])@ == expected@;
            assert(ln[k] == expected@);
        }
        Some(sub_copy(&expected))
    } else {
        assert(!ln.contains(expected@)) by {
            if ln.contains(expected@) {
                let k = choose|k: int| 0 <= k < ln.len() && ln[k] == expected@;
                assert(lower@[k]@ == expected@);
            }
        }
        match first_finished_exec(&lower, &marker, &marker_alt, Ghost(ln), Ghost(idl@)) {
            Some(k) => Some(sub_copy(&lower[k])),
            None => None,
        }
    };
    assert(match finished {
        Some(f) => found_finished(nv, *item) == Some(f@),
        None => found_finished(nv, *item) is None,
    });
    match finished {
        Some(f) => {
            let e = match path_extension_exec(&f) {
                Some(x) => Some(string_of(&x)),
                None => None,
            };
            Some(HydrateUpdate { state: ProcessingState::Completed, extension: e, has_overlay: overlay })
        },
        None => {
            let mut j: usize = 0;
            assert(ln.skip(0) =~= ln);
            while j < lower.len()
                invariant
                    j <= lower@.len(),
                    lower@.len() == ln.len(),
                    forall|k: int| 0 <= k < ln.len() ==> lower@[k]@ == #[trigger] ln[k],
                    main_marker@ == idl@ + "-main"@,
                    first_main(ln, idl@) == first_main(ln.skip(j as int), idl@),
                    idl@ == unicode_lowercase(item.id@),
                    found_finished(nv, *item) is None,
                    nv == string_views(names@),
                    ln == lower_names(nv),
                    overlay == any_contains(ln, unicode_lowercase(item.id@) + "-overlay"@),
                    overlay <==> exists|k: int|
                        0 <= k < names@.len() && contains(unicode_lowercase((#[trigger] names@[k])@), unicode_lowercase(item.id@) + "-overlay"@),
                decreases lower@.len() - j,
            {
                assert(ln.skip(j as int)[0] == ln[j as int]);
                if contains_exec(&lower[j], &main_marker) {
                    let e = match path_extension_exec(&lower[j]) {
                        Some(x) => Some(string_of(&x)),
                        None => None,
                    };
                    return Some(HydrateUpdate { state: ProcessingState::Extracted, extension: e, has_overlay: overlay });
                }
                assert(ln.skip(j as int).drop_first() =~= ln.skip(j + 1));
                j = j + 1;
            }
            let has_zip = any_contains_exec(&lower, &zip_marker);
            assert(has_zip == any_contains(ln, unicode_lowercase(item.id@) + "-raw.zip"@)) by {
                if has_zip {
                    let k = choose|k: int| 0 <= k < lower@.len() && contains((#[trigger] lower@[k])@, zip_marker@);
                    assert(contains(ln[k], zip_marker@));
                } else {
                    assert forall|k: int| 0 <= k < ln.len() implies !contains(#[trigger] ln[k], zip_marker@) by {
                        assert(lower@[k]@ == ln[k]);
                    }
                }
            }
            if has_zip {
                Some(HydrateUpdate { state: ProcessingState::Downloaded, extension: None, has_overlay: overlay })
            } else {
                None
            }
        },
    }
}

fn contains_chars(v: &Vec<Vec<char>>, x: &Vec<char>) -> (r: bool)
    ensures
        r == exists|k: int| 0 <= k < v@.len() && (#[trigger] v@[k])@ == x@,
{
    let mut i: usize = 0;
    while i < v.len()
        invariant
            i <= v@.len(),
            forall|k: int| 0 <= k < i ==> (#[trigger] v@[k])@ != x@,
        decreases v@.len() - i,
    {
        if crate::text::chars_eq(&v[i], x) {
            return true;
        }
        i = i + 1;
    }
    false
}

fn first_finished_exec(
    lower: &Vec<Vec<char>>,
    marker: &Vec<char>,
    marker_alt: &Vec<char>,
    Ghost(ln): Ghost<Seq<Seq<char>>>,
    Ghost(idl): Ghost<Seq<char>>,
) -> (r: Option<usize>)
    requires
        lower@.len() == ln.len(),
        forall|k: int| 0 <= k < ln.len() ==> lower@[k]@ == #[trigger] ln[k],
        marker@ == seq!['_'] + idl + seq!['.'],
        marker_alt@ == idl + seq!['.'],
    ensures
        match r {
            Some(k) => k < ln.len() && first_finished(ln, idl) == Some(ln[k as int]),
            None => first_finished(ln, idl) is None,
        },
{
    let mut j: usize = 0;
    assert(ln.skip(0) =~= ln);
    while j < lower.len()
        invariant
            j <= lower@.len(),
            lower@.len() == ln.len(),
            forall|k: int| 0 <= k < ln.len() ==> lower@[k]@ == #[trigger] ln[k],
            marker@ == seq!['_'] + idl + seq!['.'],
            marker_alt@ == idl + seq!['.'],
            first_finished(ln, idl) == first_finished(ln.skip(j as int), idl),
        decreases lower@.len() - j,
    {
        assert(ln.skip(j as int)[0] == ln[j as int]);
        if is_finished_exec(&lower[j], marker, marker_alt) {
            return Some(j);
        }
        assert(ln.skip(j as int).drop_first() =~= ln.skip(j + 1));
        j = j + 1;
    }
    None
}

fn sub_copy(v: &Vec<char>) -> (r: Vec<char>)
    ensures
        r@ == v@,
{
    let r = crate::text::sub_vec(v, 0, v.len());
    assert(r@ =~= v@);
    r
}

/// The first of the folder's file names (in listing order) that holds memory `id`'s
/// finished or main file.
pub open spec fn local_media_index(names: Seq<Seq<char>>, id: Seq<char>) -> Option<int>
    decreases names.len(),
{
    if names.len() == 0 {
        None
    } else {
        let f = unicode_lowercase(names[0]);
        let idl = unicode_lowercase(id);
        if is_finished_name(f, idl) || is_main_name(f, idl) {
            Some(0)
        } else {
            match local_media_index(names.drop_first(), id) {
                Some(k) => Some(k + 1),
                None => None,
            }
        }
    }
}

/// The position in `names` of the file that holds memory `memory_id`'s media, if any.
pub fn resolve_local_media_name(names: &Vec<String>, memory_id: &str) -> (r: Option<usize>)
    ensures
        match r {
            Some(k) => local_media_index(string_views(names@), memory_id@) == Some(k as int),
            None => local_media_index(string_views(names@), memory_id@) is None,
        },
{
    let ghost nv = string_views(names@);
    let idl_s = to_lowercase(memory_id);
    let idl = chars_of(idl_s.as_str());
    let under = vec!['_'];
    let dot = vec!['.'];
    let marker = concat(&concat(&under, &idl), &dot);
    let marker_alt = concat(&idl, &dot);
    let main_marker = concat(&idl, &chars_of("-main"));
    proof {
        assert(under@ =~= seq!['_']);
        assert(dot@ =~= seq!['.']);
    }
    let mut j: usize = 0;
    assert(nv.skip(0) =~= nv);
    while j < names.len()
        invariant
            j <= names@.len(),
            nv == string_views(names@),
            marker@ == seq!['_'] + idl@ + seq!['.'],
            marker_alt@ == idl@ + seq!['.'],
            main_marker@ == idl@ + "-main"@,
            idl@ == unicode_lowercase(memory_id@),
            local_media_index(nv, memory_id@) == match local_media_index(nv.skip(j as int), memory_id@) {
                Some(k) => Some(k + j),
                None => None,
            },
        decreases names@.len() - j,
    {
        assert(nv.skip(j as int)[0] == names@[j as int]@);
        let l = to_lowercase(names[j].as_str());
        let lc = chars_of(l.as_str());
        if is_finished_exec(&lc, &marker, &marker_alt) || contains_exec(&lc, &main_marker) {
            return Some(j);
        }
        assert(nv.skip(j as int).drop_first() =~= nv.skip(j + 1));
        j = j + 1;
    }
    None
}

// ---------------------------------------------------------------------------
// Previews and thumbnails taken straight from an export archive
// ---------------------------------------------------------------------------

/// The first of `ids` whose lower-case form occurs in the lower-case entry name.
pub open spec fn first_contained_id(lower_name: Seq<char>, ids: Seq<Seq<char>>) -> Option<Seq<char>>
    decreases ids.len(),
{
    if ids.len() == 0 {
        None
    } else if contains(lower_name, unicode_lowercase(ids[0])) {
        Some(ids[0])
    } else {
        first_contained_id(lower_name, ids.drop_first())
    }
}

/// Where an archive entry goes in the preview folder: `<id>.<ext>` (`bin` when the entry
/// has no extension) for the first memory it names; overlays are not previewed.
pub open spec fn preview_target_spec(name: Seq<char>, ids: Seq<Seq<char>>) -> Option<Seq<char>> {
    let lower = unicode_lowercase(name);
    if contains(lower, "-overlay"@) {
        None
    } else {
        match first_contained_id(lower, ids) {
            Some(id) => Some(
                id + seq!['.'] + match path_extension(name) {
                    Some(e) => e,
                    None => "bin"@,
                },
            ),
            None => None,
        }
    }
}

pub fn preview_target(name: &str, ids: &Vec<String>) -> (r: Option<String>)
    ensures
        match r {
            Some(x) => preview_target_spec(name@, string_views(ids@)) == Some(x@),
            None => preview_target_spec(name@, string_views(ids@)) is None,
        },
{
    let ghost iv = string_views(ids@);
    let lower = to_lowercase(name);
    let lc = chars_of(lower.as_str());
    if contains_exec(&lc, &chars_of("-overlay")) {
        return None;
    }
    let mut j: usize = 0;
    assert(iv.skip(0) =~= iv);
    while j < ids.len()
        invariant
            j <= ids@.len(),
            iv == string_views(ids@),
            lc@ == unicode_lowercase(name@),
            !contains(lc@, "-overlay"@),
            first_contained_id(lc@, iv) == first_contained_id(lc@, iv.skip(j as int)),
        decreases ids@.len() - j,
    {
        assert(iv.skip(j as int)[0] == ids@[j as int]@);
        let idl = to_lowercase(ids[j].as_str());
        if contains_exec(&lc, &chars_of(idl.as_str())) {
            let ext = match path_extension_exec(&chars_of(name)) {
                Some(e) => e,
                None => chars_of("bin"),
            };
            let dot = vec!['.'];
            let out = concat(&concat(&chars_of(ids[j].as_str()), &dot), &ext);
            assert(dot@ =~= seq!['.']);
            assert(out@ =~= ids@[j as int]@ + seq!['.'] + ext@);
            return Some(string_of(&out));
        }
        assert(iv.skip(j as int).drop_first() =~= iv.skip(j + 1));
        j = j + 1;
    }
    None
}

/// The first archive entry whose name holds `id` (case-sensitive), if any.
pub open spec fn first_entry_with(names: Seq<Seq<char>>, id: Seq<char>) -> Option<int>
    decreases names.len(),
{
    if names.len() == 0 {
        None
    } else if contains(names[0], id) {
        Some(0)
    } else {
        match first_entry_with(names.drop_first(), id) {
            Some(k) => Some(k + 1),
            None => None,
        }
    }
}

/// The lower-case extension of an entry, `bin` when it has none.
pub open spec fn entry_ext_lower(name: Seq<char>) -> Seq<char> {
    unicode_lowercase(
        match path_extension(name) {
            Some(e) => e,
            None => "bin"@,
        },
    )
}

/// The entry a thumbnail of memory `id` is made from: its position, lower-case extension,
/// and whether it is a video.
pub fn thumbnail_source(names: &Vec<String>, id: &str) -> (r: Option<(usize, String, bool)>)
    ensures
        match r {
            Some((k, ext, video)) => {
                &&& first_entry_with(string_views(names@), id@) == Some(k as int)
                &&& k < names@.len()
                &&& ext@ == entry_ext_lower(names@[k as int]@)
                &&& video == crate::pipeline::zip::is_video_ext_spec(ext@)
            },
            None => first_entry_with(string_views(names@), id@) is None,
        },
{
    let ghost nv = string_views(names@);
    let idc = chars_of(id);
    let mut j: usize = 0;
    assert(nv.skip(0) =~= nv);
    while j < names.len()
        invariant
            j <= names@.len(),
            nv == string_views(names@),
            idc@ == id@,
            first_entry_with(nv, id@) == match first_entry_with(nv.skip(j as int), id@) {
                Some(k) => Some(k + j),
                None => None,
            },
        decreases names@.len() - j,
    {
        assert(nv.skip(j as int)[0] == names@[j as int]@);
        let n = chars_of(names[j].as_str());
        if contains_exec(&n, &idc) {
            let ext = match path_extension_exec(&n) {
                Some(e) => string_of(&e),
                None => "bin".to_owned(),
            };
            let lower = to_lowercase(ext.as_str());
            let video = crate::pipeline::zip::is_video_ext(lower.as_str());
            return Some((j, lower, video));
        }
        assert(nv.skip(j as int).drop_first() =~= nv.skip(j + 1));
        j = j + 1;
    }
    None
}

} // verus!
