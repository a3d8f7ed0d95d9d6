//! Extract stage decisions: finding files unpacked by an earlier run, and sorting the
//! entries of a downloaded memory archive into main media and overlay.

use vstd::prelude::*;

use crate::models::{output_extension, MemoryItem, ProcessingState};
use crate::paths::{path_extension, path_extension_exec};
use crate::pipeline::acquire::{first_present, first_present_exec};
use crate::text::{
    chars_eq, chars_of, concat, contains, contains_exec, ends_with, ends_with_exec, eq_ignore_ascii_case,
    eq_ignore_ascii_case_exec, string_of, string_views,
};

verus! {

fn join(a: &[char], b: &str) -> (r: String)
    ensures
        r@ == a@ + b@,
{
    string_of(&concat(a, &chars_of(b)))
}

/// `<date>_<id>` and `<id>`: the two name stems an unpacked file may have.
pub open spec fn dated(date: Seq<char>, id: Seq<char>) -> Seq<char> {
    date + seq!['_'] + id
}

/// The names tried for the unpacked main file, in order: with and without the date, with
/// `ext`, then with `alt_ext` when given.
pub open spec fn main_candidates(id: Seq<char>, date: Seq<char>, ext: Seq<char>, alt: Option<Seq<char>>) -> Seq<Seq<char>> {
    seq![dated(date, id) + "-main."@ + ext, id + "-main."@ + ext] + match alt {
        Some(a) => seq![dated(date, id) + "-main."@ + a, id + "-main."@ + a],
        None => Seq::empty(),
    }
}

/// The names tried for an unpacked overlay, in order.
pub open spec fn overlay_candidates(id: Seq<char>, date: Seq<char>) -> Seq<Seq<char>> {
    seq![
        dated(date, id) + "-overlay.png"@,
        id + "-overlay.png"@,
        dated(date, id) + "-overlay.jpg"@,
        id + "-overlay.jpg"@,
    ]
}

/// The unpacked main file of memory `id` among `dir_names` (the names in the output folder).
pub fn try_find_main(dir_names: &Vec<String>, id: &str, clean_date: &str, ext: &str, alt_ext: Option<&str>) -> (r: Option<String>)
    ensures
        match r {
            Some(x) => first_present(
                main_candidates(id@, clean_date@, ext@, match alt_ext { Some(a) => Some(a@), None => None }),
                string_views(dir_names@),
            ) == Some(x@),
            None => first_present(
                main_candidates(id@, clean_date@, ext@, match alt_ext { Some(a) => Some(a@), None => None }),
                string_views(dir_names@),
            ) is None,
        },
{
    let idc = chars_of(id);
    let under = vec!['_'];
    let d = concat(&concat(&chars_of(clean_date), &under), &idc);
    let mut cands: Vec<String> = Vec::new();
    let m = chars_of("-main.");
    cands.push(join(&concat(&d, &m), ext));
    cands.push(join(&concat(&idc, &m), ext));
    if let Some(a) = alt_ext {
        cands.push(join(&concat(&d, &m), a));
        cands.push(join(&concat(&idc, &m), a));
    }
    assert(under@ =~= seq!['_']);
    assert(cands@[0]@ =~= dated(clean_date@, id@) + "-main."@ + ext@);
    assert(string_views(cands@) =~~= main_candidates(id@, clean_date@, ext@, match alt_ext { Some(a) => Some(a@), None => None }));
    first_present_exec(&cands, dir_names)
}

/// An overlay unpacked for memory `id` among `dir_names`.
pub fn try_find_overlay(dir_names: &Vec<String>, id: &str, clean_date: &str) -> (r: Option<String>)
    ensures
        match r {
            Some(x) => first_present(overlay_candidates(id@, clean_date@), string_views(dir_names@)) == Some(x@),
            None => first_present(overlay_candidates(id@, clean_date@), string_views(dir_names@)) is None,
        },
{
    let idc = chars_of(id);
    let under = vec!['_'];
    let d = concat(&concat(&chars_of(clean_date), &under), &idc);
    let mut cands: Vec<String> = Vec::new();
    cands.push(join(&d, "-overlay.png"));
    cands.push(join(&idc, "-overlay.png"));
    cands.push(join(&d, "-overlay.jpg"));
    cands.push(join(&idc, "-overlay.jpg"));
    assert(under@ =~= seq!['_']);
    assert(cands@[0]@ =~= dated(clean_date@, id@) + "-overlay.png"@);
    assert(cands@[2]@ =~= dated(clean_date@, id@) + "-overlay.jpg"@);
    assert(string_views(cands@) =~~= overlay_candidates(id@, clean_date@));
    first_present_exec(&cands, dir_names)
}

/// A video whose output is `mp4` may have been unpacked under `jpg` too.
pub open spec fn alternate_extension(media_type: Seq<char>, ext: Seq<char>) -> Option<Seq<char>> {
    if eq_ignore_ascii_case(media_type, "Video"@) && ext == "mp4"@ {
        Some("jpg"@)
    } else {
        None
    }
}

/// What the extract stage does with a memory.
#[derive(Clone, Debug)]
pub enum ExtractPlan {
    /// Unpack the raw file.
    Unpack,
    /// The raw file is missing.
    RawMissing,
    /// Files unpacked earlier: the main file and the overlay, if any.
    Found(String, Option<String>),
}

/// The extract stage for a memory whose date prefix is `clean_date`: a downloaded memory is
/// unpacked (or its raw file is missing); one past that stage reuses the files an earlier
/// run unpacked, and when its main file is gone it is set back to downloaded and unpacked
/// again.
pub fn extract_plan(item: &mut MemoryItem, clean_date: &str, dir_names: &Vec<String>, raw_exists: bool) -> (p: ExtractPlan)
    ensures
        ({
            let cands = main_candidates(
                old(item).id@,
                clean_date@,
                output_extension(*old(item)),
                alternate_extension(old(item).media_type@, output_extension(*old(item))),
            );
            let found = first_present(cands, string_views(dir_names@));
            let unpack_now = old(item).state == ProcessingState::Downloaded || found is None;
            &&& unpack_now ==> final(item).state == ProcessingState::Downloaded
            &&& !unpack_now ==> final(item).state == old(item).state
            &&& match p {
                ExtractPlan::Unpack => unpack_now && raw_exists,
                ExtractPlan::RawMissing => unpack_now && !raw_exists,
                ExtractPlan::Found(m, ov) => !unpack_now && found == Some(m@) && match ov {
                    Some(o) => first_present(overlay_candidates(old(item).id@, clean_date@), string_views(dir_names@)) == Some(o@),
                    None => first_present(overlay_candidates(old(item).id@, clean_date@), string_views(dir_names@)) is None,
                },
            }
        }),
        crate::pipeline::stages::same_but_state(*final(item), *old(item)),
        final(item).extension == old(item).extension,
        final(item).has_overlay == old(item).has_overlay,
{
    let (_, ext) = item.generated_filename_and_ext();
    let media = chars_of(item.media_type.as_str());
    let is_video = eq_ignore_ascii_case_exec(&media, &chars_of("Video"));
    let e = chars_of(ext.as_str());
    let alt: Option<&str> = if is_video && chars_eq(&e, &chars_of("mp4")) {
        Some("jpg")
    } else {
        None
    };
    let found = if item.state == ProcessingState::Downloaded {
        None
    } else {
        try_find_main(dir_names, item.id.as_str(), clean_date, ext.as_str(), alt)
    };
    match found {
        Some(m) => {
            let ov = try_find_overlay(dir_names, item.id.as_str(), clean_date);
            ExtractPlan::Found(m, ov)
        },
        None => {
            item.state = ProcessingState::Downloaded;
            if raw_exists {
                ExtractPlan::Unpack
            } else {
                ExtractPlan::RawMissing
            }
        },
    }
}

// ---------------------------------------------------------------------------
// Entries of a downloaded memory archive
// ---------------------------------------------------------------------------

/// What an entry of a downloaded memory archive is.
#[derive(Clone, Debug, PartialEq, Eq)]
pub enum EntryKind {
    /// The overlay, saved as `<id>-overlay.png`.
    Overlay,
    /// The main media, saved as `<id>-main.<ext>`.
    Main(String),
    /// Anything else, saved under its own name.
    Other,
}

/// The kind of an entry named `name`: an overlay when the name mentions `overlay`; main
/// media for `.mp4`/`.mov` (video) and `.jpg`/`.jpeg`/`.png` (image) names; else other.
pub open spec fn entry_kind(name: Seq<char>) -> Option<Seq<char>> {
    if contains(name, "overlay"@) {
        None
    } else if ends_with(name, ".mp4"@) {
        Some("mp4"@)
    } else if ends_with(name, ".mov"@) {
        Some("mov"@)
    } else if ends_with(name, ".png"@) {
        Some("png"@)
    } else if ends_with(name, ".jpg"@) || ends_with(name, ".jpeg"@) {
        Some("jpg"@)
    } else {
        None
    }
}

pub fn classify_entry(name: &str) -> (k: EntryKind)
    ensures
        k is Overlay <==> contains(name@, "overlay"@),
        match k {
            EntryKind::Main(e) => entry_kind(name@) == Some(e@),
            _ => entry_kind(name@) is None,
        },
{
    let n = chars_of(name);
    if contains_exec(&n, &chars_of("overlay")) {
        EntryKind::Overlay
    } else if ends_with_exec(&n, &chars_of(".mp4")) {
        EntryKind::Main("mp4".to_owned())
    } else if ends_with_exec(&n, &chars_of(".mov")) {
        EntryKind::Main("mov".to_owned())
    } else if ends_with_exec(&n, &chars_of(".png")) {
        EntryKind::Main("png".to_owned())
    } else if ends_with_exec(&n, &chars_of(".jpg")) || ends_with_exec(&n, &chars_of(".jpeg")) {
        EntryKind::Main("jpg".to_owned())
    } else {
        EntryKind::Other
    }
}

/// A raw file that is not an archive is the main media itself: it is copied to
/// `<id>-main.<ext>`. `None` when the raw file has no extension or is a `.zip`.
pub open spec fn direct_main_name(raw_path: Seq<char>, id: Seq<char>) -> Option<Seq<char>> {
    match path_extension(raw_path) {
        Some(e) => if e != "zip"@ { Some(id + "-main."@ + e) } else { None },
        None => None,
    }
}

pub fn direct_main_name_exec(raw_path: &str, id: &str) -> (r: Option<String>)
    ensures
        match r {
            Some(x) => direct_main_name(raw_path@, id@) == Some(x@),
            None => direct_main_name(raw_path@, id@) is None,
        },
{
    let p = chars_of(raw_path);
    match path_extension_exec(&p) {
        Some(e) => {
            if chars_eq(&e, &chars_of("zip")) {
                None
            } else {
                let a = concat(&chars_of(id), &chars_of("-main."));
                Some(string_of(&concat(&a, &e)))
            }
        },
        None => None,
    }
}

} // verus!
