//! Acquire stage decisions: where the raw file of a memory comes from, how its segments are
//! found in the archive index, and the names of the files written on the way.

use vstd::prelude::*;

use crate::metadata::{decimal, decimal_exec};
use crate::models::{MemoryItem, ProcessingState};
use crate::paths::{file_name, file_name_exec, name_extension, name_extension_exec};
use crate::pipeline::index::ZipIndex;
use crate::pipeline::zip::{composite_key_chars, composite_key_spec, extract_id_from_filename, id_from_filename, id_from_filename_defined};
use crate::text::{
    byte_len, byte_len_at_least, byte_prefix, chars_before_byte_exec, chars_of, concat, ends_with,
    ends_with_exec, is_boundary, replace, replace_exec, starts_with, starts_with_exec, string_of, string_views,
    sub_vec,
};

verus! {

// ---------------------------------------------------------------------------
// Raw files already in the output folder
// ---------------------------------------------------------------------------

/// The raw-file names tried first, in order of the known raw extensions.
pub open spec fn raw_file_names(id: Seq<char>) -> Seq<Seq<char>> {
    seq![id + "-raw.zip"@, id + "-raw.mp4"@, id + "-raw.jpg"@, id + "-raw.mov"@]
}

/// The first of `cands` that occurs among `names`.
pub open spec fn first_present(cands: Seq<Seq<char>>, names: Seq<Seq<char>>) -> Option<Seq<char>>
    decreases cands.len(),
{
    if cands.len() == 0 {
        None
    } else if names.contains(cands[0]) {
        Some(cands[0])
    } else {
        first_present(cands.drop_first(), names)
    }
}

/// Whether `x` occurs among `names`.
pub fn contains_string(names: &Vec<String>, x: &String) -> (r: bool)
    ensures
        r == string_views(names@).contains(x@),
{
    let mut j: usize = 0;
    while j < names.len()
        invariant
            j <= names@.len(),
            forall|k: int| 0 <= k < j ==> (#[trigger] names@[k])@ != x@,
        decreases names@.len() - j,
    {
        if names[j] == *x {
            assert(string_views(names@)[j as int] == x@);
            return true;
        }
        j = j + 1;
    }
    assert(!string_views(names@).contains(x@)) by {
        if string_views(names@).contains(x@) {
            let k = choose|k: int| 0 <= k < string_views(names@).len() && string_views(names@)[k] == x@;
            assert(names@[k]@ == x@);
        }
    }
    false
}

/// The first of `cands` (given as strings) present among `names`.
pub fn first_present_exec(cands: &Vec<String>, names: &Vec<String>) -> (r: Option<String>)
    ensures
        match r {
            Some(x) => first_present(string_views(cands@), string_views(names@)) == Some(x@),
            None => first_present(string_views(cands@), string_views(names@)) is None,
        },
{
    let ghost cv = string_views(cands@);
    let ghost nv = string_views(names@);
    let mut i: usize = 0;
    assert(cv.skip(0) =~= cv);
    while i < cands.len()
        invariant
            i <= cands@.len(),
            cv == string_views(cands@),
            nv == string_views(names@),
            first_present(cv, nv) == first_present(cv.skip(i as int), nv),
        decreases cands@.len() - i,
    {
        assert(cv.skip(i as int)[0] == cands@[i as int]@);
        if contains_string(names, &cands[i]) {
            return Some(cands[i].clone());
        }
        assert(cv.skip(i as int).drop_first() =~= cv.skip(i + 1));
        i = i + 1;
    }
    None
}

fn join3(a: &[char], b: &str) -> (r: String)
    ensures
        r@ == a@ + b@,
{
    string_of(&concat(a, &chars_of(b)))
}

/// The raw file of memory `id` already present among `dir_names` (the names in the output
/// folder), looked up by the known raw extensions in order.
pub fn find_raw_file_fast(dir_names: &Vec<String>, id: &str) -> (r: Option<String>)
    ensures
        match r {
            Some(x) => first_present(raw_file_names(id@), string_views(dir_names@)) == Some(x@),
            None => first_present(raw_file_names(id@), string_views(dir_names@)) is None,
        },
{
    let idc = chars_of(id);
    let mut cands: Vec<String> = Vec::new();
    cands.push(join3(&idc, "-raw.zip"));
    cands.push(join3(&idc, "-raw.mp4"));
    cands.push(join3(&idc, "-raw.jpg"));
    cands.push(join3(&idc, "-raw.mov"));
    assert(string_views(cands@) =~= raw_file_names(id@));
    first_present_exec(&cands, dir_names)
}

/// A raw file of memory `id` under another extension: starts with `<id>-raw.` and is not
/// a partial download (`.tmp`).
pub open spec fn is_raw_by_prefix(name: Seq<char>, id: Seq<char>) -> bool {
    starts_with(name, id + "-raw."@) && !ends_with(name, ".tmp"@)
}

/// The first name (in listing order) that `is_raw_by_prefix` accepts.
pub open spec fn first_raw_by_prefix(names: Seq<Seq<char>>, id: Seq<char>) -> Option<Seq<char>>
    decreases names.len(),
{
    if names.len() == 0 {
        None
    } else if is_raw_by_prefix(names[0], id) {
        Some(names[0])
    } else {
        first_raw_by_prefix(names.drop_first(), id)
    }
}

/// The first entry of the folder listing `dir_names` that is a raw file of memory `id`.
pub fn find_raw_by_prefix(dir_names: &Vec<String>, id: &str) -> (r: Option<String>)
    ensures
        match r {
            Some(x) => first_raw_by_prefix(string_views(dir_names@), id@) == Some(x@),
            None => first_raw_by_prefix(string_views(dir_names@), id@) is None,
        },
{
    let ghost nv = string_views(dir_names@);
    let prefix = concat(&chars_of(id), &chars_of("-raw."));
    let tmp = chars_of(".tmp");
    let mut i: usize = 0;
    assert(nv.skip(0) =~= nv);
    while i < dir_names.len()
        invariant
            i <= dir_names@.len(),
            nv == string_views(dir_names@),
            prefix@ == id@ + "-raw."@,
            tmp@ == ".tmp"@,
            first_raw_by_prefix(nv, id@) == first_raw_by_prefix(nv.skip(i as int), id@),
        decreases dir_names@.len() - i,
    {
        let n = chars_of(dir_names[i].as_str());
        assert(nv.skip(i as int)[0] == n@);
        if starts_with_exec(&n, &prefix) && !ends_with_exec(&n, &tmp) {
            return Some(dir_names[i].clone());
        }
        assert(nv.skip(i as int).drop_first() =~= nv.skip(i + 1));
        i = i + 1;
    }
    None
}

/// Where the acquire stage takes the raw file of a memory from.
#[derive(Clone, Debug)]
pub enum AcquirePlan {
    /// A raw file already in the output folder.
    Existing(String),
    /// Extract the memory from the export archives.
    FromArchives,
    /// Download it from the CDN.
    Download,
    /// The memory is past unpacking; no raw file is needed (an empty raw path is kept).
    NotNeeded,
    /// A downloaded memory whose raw file is gone.
    Missing,
}

/// A raw file of memory `id` among `names`: by known extension first, else by prefix.
pub open spec fn existing_raw(names: Seq<Seq<char>>, id: Seq<char>) -> Option<Seq<char>> {
    match first_present(raw_file_names(id), names) {
        Some(f) => Some(f),
        None => first_raw_by_prefix(names, id),
    }
}

/// The acquire stage's choice: a raw file already in the folder; failing that, a pending
/// memory is taken from the archives when there are any, else downloaded; a memory past
/// the download needs no raw file; a downloaded one without its raw file is an error.
pub fn acquire_plan(item: &MemoryItem, dir_names: &Vec<String>, has_archives: bool) -> (p: AcquirePlan)
    ensures
        match p {
            AcquirePlan::Existing(x) => existing_raw(string_views(dir_names@), item.id@) == Some(x@),
            AcquirePlan::FromArchives => existing_raw(string_views(dir_names@), item.id@) is None
                && item.state == ProcessingState::Pending && has_archives,
            AcquirePlan::Download => existing_raw(string_views(dir_names@), item.id@) is None
                && item.state == ProcessingState::Pending && !has_archives,
            AcquirePlan::NotNeeded => existing_raw(string_views(dir_names@), item.id@) is None
                && item.state != ProcessingState::Pending && item.state != ProcessingState::Downloaded,
            AcquirePlan::Missing => existing_raw(string_views(dir_names@), item.id@) is None
                && item.state == ProcessingState::Downloaded,
        },
{
    if let Some(f) = find_raw_file_fast(dir_names, item.id.as_str()) {
        return AcquirePlan::Existing(f);
    }
    if let Some(f) = find_raw_by_prefix(dir_names, item.id.as_str()) {
        return AcquirePlan::Existing(f);
    }
    if item.state == ProcessingState::Pending {
        if has_archives {
            AcquirePlan::FromArchives
        } else {
            AcquirePlan::Download
        }
    } else if item.state != ProcessingState::Downloaded {
        AcquirePlan::NotNeeded
    } else {
        AcquirePlan::Missing
    }
}

// ---------------------------------------------------------------------------
// Segments in the archive index
// ---------------------------------------------------------------------------

/// The ids whose media make up a memory: its segments when there are several, else its id.
pub open spec fn segment_ids_spec(item: MemoryItem) -> Seq<Seq<char>> {
    match item.segment_ids {
        Some(v) => if v@.len() > 1 { string_views(v@) } else { seq![item.id@] },
        None => seq![item.id@],
    }
}

pub fn segment_ids_for(item: &MemoryItem) -> (r: Vec<String>)
    ensures
        string_views(r@) == segment_ids_spec(*item),
{
    match &item.segment_ids {
        Some(v) if v.len() > 1 => crate::pipeline::index::copy_strings(v),
        _ => {
            let mut r: Vec<String> = Vec::new();
            r.push(item.id.clone());
            assert(string_views(r@) =~= seq![item.id@]);
            r
        },
    }
}

/// The keys under which a segment is looked up, in order: `date|id`, then the day alone
/// (`YYYY-MM-DD|id`, when the date has at least ten bytes), then `|id` when there is no date.
pub open spec fn lookup_keys(clean_date: Seq<char>, id: Seq<char>) -> Seq<Seq<char>> {
    seq![composite_key_spec(Some(clean_date), id)] + (if byte_len(clean_date) >= 10 {
        seq![composite_key_spec(Some(byte_prefix(clean_date, 10)), id)]
    } else {
        Seq::empty()
    }) + (if clean_date.len() == 0 {
        seq![composite_key_spec(None, id)]
    } else {
        Seq::empty()
    })
}

/// The entry found under the first of `keys` that the index holds.
pub open spec fn first_hit<V>(m: Map<Seq<char>, V>, keys: Seq<Seq<char>>) -> Option<V>
    decreases keys.len(),
{
    if keys.len() == 0 {
        None
    } else if m.dom().contains(keys[0]) {
        Some(m[keys[0]])
    } else {
        first_hit(m, keys.drop_first())
    }
}

/// Slicing the date's first ten bytes must fall between characters.
pub open spec fn date_sliceable(clean_date: Seq<char>) -> bool {
    byte_len(clean_date) >= 10 ==> is_boundary(clean_date, 10)
}

fn get_entry(idx: &ZipIndex, key: &[char]) -> (r: Option<(usize, usize, String)>)
    ensures
        match r {
            Some(e) => idx@.dom().contains(key@) && idx@[key@] == (e.0, e.1, e.2@),
            None => !idx@.dom().contains(key@),
        },
{
    let k = string_of(key);
    match idx.get(k.as_str()) {
        Some(e) => Some((e.0, e.1, e.2.clone())),
        None => None,
    }
}

/// Finds segment `id` of a memory dated `clean_date` in the main-media (or overlay) index:
/// the entry under the first of `lookup_keys` that is present.
pub fn lookup_entry(idx: &ZipIndex, clean_date: &str, id: &str) -> (r: Option<(usize, usize, String)>)
    requires
        date_sliceable(clean_date@),
    ensures
        match r {
            Some(e) => first_hit(idx@, lookup_keys(clean_date@, id@)) == Some((e.0, e.1, e.2@)),
            None => first_hit(idx@, lookup_keys(clean_date@, id@)) is None,
        },
{
    let d = chars_of(clean_date);
    let idc = chars_of(id);
    let ghost keys = lookup_keys(clean_date@, id@);
    let exact = composite_key_chars(Some(d.as_slice()), idc.as_slice());
    if let Some(e) = get_entry(idx, &exact) {
        return Some(e);
    }
    if byte_len_at_least(&d, 10) {
        let k = chars_before_byte_exec(&d, 10).unwrap();
        let day = sub_vec(&d, 0, k);
        assert(day@ =~= byte_prefix(clean_date@, 10)) by {
            crate::text::lemma_boundary_unique(clean_date@, 10, k as int, crate::text::chars_before_byte(clean_date@, 10));
        }
        let key = composite_key_chars(Some(day.as_slice()), idc.as_slice());
        assert(d@.len() > 0) by {
            if d@.len() == 0 {
                assert(byte_len(d@) == 0);
            }
        }
        assert(keys =~= seq![exact@, key@]);
        proof {
            reveal_with_fuel(first_hit, 3);
        }
        get_entry(idx, &key)
    } else if d.len() == 0 {
        let key = composite_key_chars(None, idc.as_slice());
        assert(keys =~= seq![exact@, key@]);
        proof {
            reveal_with_fuel(first_hit, 3);
        }
        get_entry(idx, &key)
    } else {
        assert(keys =~= seq![exact@]);
        proof {
            reveal_with_fuel(first_hit, 2);
        }
        None
    }
}

/// The keys tried when one memory is extracted from one archive: with a date, `date|id` and
/// then the day alone (dates of at least ten bytes); without a date, only `|id`.
pub open spec fn export_lookup_keys(clean_date: Option<Seq<char>>, id: Seq<char>) -> Seq<Seq<char>> {
    match clean_date {
        Some(d) => seq![composite_key_spec(Some(d), id)] + (if byte_len(d) >= 10 {
            seq![composite_key_spec(Some(byte_prefix(d, 10)), id)]
        } else {
            Seq::empty()
        }),
        None => seq![composite_key_spec(None, id)],
    }
}

/// Finds memory `id` in an index for extraction from one archive (see `export_lookup_keys`):
/// a dated memory never falls back to the undated key, so a memory of another month with
/// the same id is not taken.
pub fn lookup_export_entry(idx: &ZipIndex, clean_date: Option<&str>, id: &str) -> (r: Option<(usize, usize, String)>)
    requires
        clean_date matches Some(d) ==> date_sliceable(d@),
    ensures
        ({
            let keys = export_lookup_keys(
                match clean_date {
                    Some(d) => Some(d@),
                    None => None,
                },
                id@,
            );
            match r {
                Some(e) => first_hit(idx@, keys) == Some((e.0, e.1, e.2@)),
                None => first_hit(idx@, keys) is None,
            }
        }),
{
    let idc = chars_of(id);
    match clean_date {
        Some(date) => {
            let d = chars_of(date);
            let exact = composite_key_chars(Some(d.as_slice()), idc.as_slice());
            if let Some(e) = get_entry(idx, &exact) {
                return Some(e);
            }
            if byte_len_at_least(&d, 10) {
                let k = chars_before_byte_exec(&d, 10).unwrap();
                let day = sub_vec(&d, 0, k);
                assert(day@ =~= byte_prefix(date@, 10)) by {
                    crate::text::lemma_boundary_unique(date@, 10, k as int, crate::text::chars_before_byte(date@, 10));
                }
                let key = composite_key_chars(Some(day.as_slice()), idc.as_slice());
                assert(export_lookup_keys(Some(date@), id@) =~= seq![exact@, key@]);
                proof {
                    reveal_with_fuel(first_hit, 3);
                }
                get_entry(idx, &key)
            } else {
                assert(export_lookup_keys(Some(date@), id@) =~= seq![exact@]);
                proof {
                    reveal_with_fuel(first_hit, 2);
                }
                None
            }
        },
        None => {
            let key = composite_key_chars(None, idc.as_slice());
            assert(export_lookup_keys(None, id@) =~= seq![key@]);
            proof {
                reveal_with_fuel(first_hit, 2);
            }
            get_entry(idx, &key)
        },
    }
}

/// A lookup with the exact `date|id` key finds what the index holds under that key.
pub proof fn lemma_lookup_exact(m: Map<Seq<char>, (usize, usize, Seq<char>)>, clean_date: Seq<char>, id: Seq<char>)
    requires
        m.dom().contains(composite_key_spec(Some(clean_date), id)),
    ensures
        first_hit(m, lookup_keys(clean_date, id)) == Some(m[composite_key_spec(Some(clean_date), id)]),
{
}

// ---------------------------------------------------------------------------
// Names of the files written
// ---------------------------------------------------------------------------

/// `<id>-seg<i>.<ext>`: segment `i` of a split video.
pub fn segment_file_name(id: &str, i: usize, ext: &str) -> (r: String)
    ensures
        r@ == id@ + "-seg"@ + decimal(i as nat) + seq!['.'] + ext@,
{
    let a = concat(&chars_of(id), &chars_of("-seg"));
    let b = concat(&a, &decimal_exec(i as u64));
    let dot = vec!['.'];
    let c = concat(&concat(&b, &dot), &chars_of(ext));
    assert(c@ =~= id@ + "-seg"@ + decimal(i as nat) + seq!['.'] + ext@);
    string_of(&c)
}

/// `<id>-raw.<ext>`: the raw file of a memory.
pub fn raw_file_name(id: &str, ext: &str) -> (r: String)
    ensures
        r@ == id@ + "-raw."@ + ext@,
{
    let a = concat(&chars_of(id), &chars_of("-raw."));
    string_of(&concat(&a, &chars_of(ext)))
}

/// `<id>-overlay.<ext>`: an overlay taken from the archives.
pub fn overlay_file_name(id: &str, ext: &str) -> (r: String)
    ensures
        r@ == id@ + "-overlay."@ + ext@,
{
    let a = concat(&chars_of(id), &chars_of("-overlay."));
    string_of(&concat(&a, &chars_of(ext)))
}

/// The id the overlay is looked up by: the one in the first segment's entry name when it
/// has one, else the memory's id.
pub open spec fn overlay_lookup_id_spec(first_entry: Option<Seq<char>>, id: Seq<char>) -> Seq<char> {
    match first_entry {
        Some(n) => match id_from_filename(n) {
            Some(x) => x,
            None => id,
        },
        None => id,
    }
}

pub fn overlay_lookup_id(first_entry: Option<&str>, id: &str) -> (r: String)
    requires
        first_entry matches Some(n) ==> id_from_filename_defined(n@),
    ensures
        r@ == overlay_lookup_id_spec(
            match first_entry {
                Some(n) => Some(n@),
                None => None,
            },
            id@,
        ),
{
    match first_entry {
        Some(n) => match extract_id_from_filename(n) {
            Some(x) => x,
            None => id.to_owned(),
        },
        None => id.to_owned(),
    }
}

// ---------------------------------------------------------------------------
// Joining video segments
// ---------------------------------------------------------------------------

/// One line of ffmpeg's concat list: `file '<path>'`, with `\` written as `/`.
pub open spec fn concat_line(p: Seq<char>) -> Seq<char> {
    "file '"@ + replace(p, seq!['\\'], seq!['/']) + seq!['\'']
}

/// The lines for all segments, separated by newlines.
pub open spec fn concat_list_spec(paths: Seq<Seq<char>>) -> Seq<char>
    decreases paths.len(),
{
    if paths.len() == 0 {
        Seq::empty()
    } else if paths.len() == 1 {
        concat_line(paths[0])
    } else {
        concat_list_spec(paths.drop_last()) + seq!['\n'] + concat_line(paths.last())
    }
}

/// The contents of ffmpeg's concat list for the segment files `paths`.
pub fn concat_list_content(paths: &Vec<String>) -> (r: String)
    ensures
        r@ == concat_list_spec(string_views(paths@)),
{
    let ghost pv = string_views(paths@);
    let mut out: Vec<char> = Vec::new();
    let mut i: usize = 0;
    let head = chars_of("file '");
    let bs = vec!['\\'];
    let fs = vec!['/'];
    while i < paths.len()
        invariant
            i <= paths@.len(),
            pv == string_views(paths@),
            head@ == "file '"@,
            bs@ == seq!['\\'],
            fs@ == seq!['/'],
            out@ == concat_list_spec(pv.take(i as int)),
        decreases paths@.len() - i,
    {
        let p = chars_of(paths[i].as_str());
        let fixed = replace_exec(&p, &bs, &fs);
        let mut line = concat(&head, &fixed);
        line.push('\'');
        assert(line@ =~= concat_line(pv[i as int]));
        assert(pv.take(i + 1).drop_last() =~= pv.take(i as int));
        if i == 0 {
            out = line;
            assert(pv.take(1) =~= seq![pv[0]]);
        } else {
            out.push('\n');
            out = concat(&out, &line);
        }
        i = i + 1;
    }
    assert(pv.take(paths@.len() as int) =~= pv);
    string_of(&out)
}

/// `Path::file_stem` of a file name: the part before the last dot, unless that dot opens
/// the name.
pub open spec fn name_stem(name: Seq<char>) -> Seq<char> {
    match name_extension(name) {
        Some(e) => name.take(name.len() - e.len() - 1),
        None => name,
    }
}

/// The concat list's file name: `<stem of the output>.txt`, or `ffmpeg_concat_list.txt`
/// when the output path has no file name.
pub open spec fn concat_list_name_spec(output: Seq<char>) -> Seq<char> {
    match file_name(output) {
        Some(n) => name_stem(n) + ".txt"@,
        None => "ffmpeg_concat_list.txt"@,
    }
}

pub fn concat_list_name(output_path: &str) -> (r: String)
    ensures
        r@ == concat_list_name_spec(output_path@),
{
    let o = chars_of(output_path);
    match file_name_exec(&o) {
        Some(n) => {
            proof {
                crate::paths::lemma_last_index_bounds(n@, '.');
            }
            let stem = match name_extension_exec(&n) {
                Some(e) => sub_vec(&n, 0, n.len() - e.len() - 1),
                None => sub_vec(&n, 0, n.len()),
            };
            assert(stem@ =~= name_stem(n@));
            string_of(&concat(&stem, &chars_of(".txt")))
        },
        None => "ffmpeg_concat_list.txt".to_owned(),
    }
}

} // verus!
