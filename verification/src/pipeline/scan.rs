//! Fallback searches of an archive's entry names for the main media of a segment, used
//! when the index has no entry for it.

use vstd::prelude::*;

use crate::pipeline::acquire::{date_sliceable, first_hit, lookup_entry, lookup_keys};
use crate::pipeline::index::{zip_views, ZipIndex};
use crate::metadata::{naive_date_midnight, naive_utc_instant, parse_naive, parse_naive_date_midnight, timestamp_in_range};
use crate::paths::{path_extension, path_extension_exec};
use crate::pipeline::zip::{
    date_prefix_defined, date_prefix_defined_exec, date_prefix_of, extract_date_prefix_from_name,
    id_appears_as_token, id_appears_as_token_spec, lemma_date_prefix_normalizable, normalize_date_prefix,
    normalize_date_prefix_spec, normalize_defined, token_search_defined, token_search_defined_exec,
};
use crate::text::{
    boundary_at, byte_len, byte_len_at_least, byte_prefix, chars_before_byte, chars_before_byte_exec, chars_eq, chars_of,
    contains, contains_exec, is_boundary, lemma_boundary_unique, string_of, string_views, sub_vec, to_lowercase,
    unicode_lowercase,
};

verus! {

// ---------------------------------------------------------------------------
// Timestamps of date prefixes
// ---------------------------------------------------------------------------

/// The instant a date prefix of an entry name stands for: the full timestamp when the
/// normalized prefix parses as `YYYY-MM-DD_HH-MM-SS`, else midnight of its first ten bytes
/// read as `YYYY-MM-DD`.
pub open spec fn epoch_of_date_prefix(d: Seq<char>) -> Option<i64> {
    let n = normalize_date_prefix_spec(d);
    if byte_len(n) >= 19 && naive_utc_instant(n, "%Y-%m-%d_%H-%M-%S"@) is Some {
        Some(naive_utc_instant(n, "%Y-%m-%d_%H-%M-%S"@)->0.timestamp)
    } else if byte_len(d) >= 10 {
        naive_date_midnight(byte_prefix(d, 10), "%Y-%m-%d"@)
    } else {
        None
    }
}

/// Unix timestamp of a date prefix (see `epoch_of_date_prefix`).
pub fn date_prefix_to_epoch_seconds(date_prefix: &str) -> (r: Option<i64>)
    requires
        normalize_defined(date_prefix@),
        byte_len(date_prefix@) >= 10 ==> is_boundary(date_prefix@, 10),
    ensures
        r == epoch_of_date_prefix(date_prefix@),
        r matches Some(t) ==> timestamp_in_range(t),
{
    let normalized = normalize_date_prefix(date_prefix);
    let nc = chars_of(normalized.as_str());
    if byte_len_at_least(&nc, 19) {
        if let Some(p) = parse_naive(normalized.as_str(), "%Y-%m-%d_%H-%M-%S") {
            return Some(p.timestamp);
        }
    }
    let d = chars_of(date_prefix);
    if byte_len_at_least(&d, 10) {
        let k = chars_before_byte_exec(&d, 10).unwrap();
        let day = sub_vec(&d, 0, k);
        assert(day@ =~= byte_prefix(date_prefix@, 10)) by {
            lemma_boundary_unique(date_prefix@, 10, k as int, chars_before_byte(date_prefix@, 10));
        }
        let ds = string_of(&day);
        return parse_naive_date_midnight(ds.as_str(), "%Y-%m-%d");
    }
    None
}

// ---------------------------------------------------------------------------
// Search by date and id
// ---------------------------------------------------------------------------

/// The first ten bytes of a date, when they end on a character boundary.
pub open spec fn day_part(d: Seq<char>) -> Option<Seq<char>> {
    if byte_len(d) >= 10 && is_boundary(d, 10) {
        Some(byte_prefix(d, 10))
    } else {
        None
    }
}

/// A file date matches the wanted date exactly, or by its day when a day is given.
pub open spec fn date_matches(file_date: Seq<char>, date_prefix: Seq<char>, date_only: Option<Seq<char>>) -> bool {
    file_date == date_prefix || match (date_only, day_part(file_date)) {
        (Some(x), Some(y)) => y == x,
        _ => false,
    }
}

/// The extension of an entry, `mp4` when it has none.
pub open spec fn scan_ext(name: Seq<char>) -> Seq<char> {
    match path_extension(name) {
        Some(e) => e,
        None => "mp4"@,
    }
}

/// An entry that is not an overlay (by its lowercase name).
pub open spec fn not_overlay(name: Seq<char>) -> bool {
    !contains(unicode_lowercase(name), "-overlay"@)
}

/// An entry that is a main-media file (by its lowercase name).
pub open spec fn is_main_entry(name: Seq<char>) -> bool {
    contains(unicode_lowercase(name), "-main"@)
}

/// An entry the date search accepts: not an overlay, dated as wanted, and naming the
/// segment as a whole token.
pub open spec fn date_scan_hit(name: Seq<char>, date_prefix: Seq<char>, date_only: Option<Seq<char>>, seg: Seq<char>) -> bool {
    &&& not_overlay(name)
    &&& date_prefix_of(name) matches Some(fd) && date_matches(fd, date_prefix, date_only)
    &&& id_appears_as_token_spec(unicode_lowercase(name), seg)
}

/// The date search visits every entry without splitting a character.
pub open spec fn date_scan_defined(names: Seq<Seq<char>>, date_prefix: Seq<char>, date_only: Option<Seq<char>>, seg: Seq<char>) -> bool {
    forall|k: int|
        0 <= k < names.len() && not_overlay(#[trigger] names[k]) ==> {
            &&& date_prefix_defined(names[k])
            &&& (date_prefix_of(names[k]) matches Some(fd) && date_matches(fd, date_prefix, date_only))
                ==> token_search_defined(unicode_lowercase(names[k]), seg)
        }
}

/// The accepted entries of `names` with their extensions: main-media entries in front,
/// latest first; the others after them, in archive order. The search succeeds only
/// when this list has exactly one element.
pub open spec fn date_scan_candidates(names: Seq<Seq<char>>, date_prefix: Seq<char>, date_only: Option<Seq<char>>, seg: Seq<char>) -> Seq<(int, Seq<char>)>
    decreases names.len(),
{
    if names.len() == 0 {
        Seq::empty()
    } else {
        let prev = date_scan_candidates(names.drop_last(), date_prefix, date_only, seg);
        let n = names.last();
        let c = ((names.len() - 1) as int, scan_ext(n));
        if date_scan_hit(n, date_prefix, date_only, seg) {
            if is_main_entry(n) {
                seq![c] + prev
            } else {
                prev.push(c)
            }
        } else {
            prev
        }
    }
}

pub open spec fn cand_views(v: Seq<(usize, String)>) -> Seq<(int, Seq<char>)> {
    v.map_values(|c: (usize, String)| (c.0 as int, c.1@))
}

pub open spec fn opt_date_view(d: Option<&str>) -> Option<Seq<char>> {
    match d {
        Some(x) => Some(x@),
        None => None,
    }
}

fn day_part_exec(d: &[char]) -> (r: Option<Vec<char>>)
    ensures
        match r {
            Some(x) => day_part(d@) == Some(x@),
            None => day_part(d@) is None,
        },
{
    if byte_len_at_least(d, 10) {
        match chars_before_byte_exec(d, 10) {
            Some(k) => {
                let day = sub_vec(d, 0, k);
                assert(day@ =~= byte_prefix(d@, 10)) by {
                    lemma_boundary_unique(d@, 10, k as int, chars_before_byte(d@, 10));
                }
                Some(day)
            },
            None => None,
        }
    } else {
        None
    }
}

fn scan_ext_exec(name: &str) -> (r: String)
    ensures
        r@ == scan_ext(name@),
{
    match path_extension_exec(&chars_of(name)) {
        Some(e) => string_of(&e),
        None => "mp4".to_owned(),
    }
}

/// Searches the entry names of one archive for the main media of segment `seg` dated
/// `date_prefix` (or, when `date_only` is given, on that day). Gives the entry and its
/// extension only when exactly one entry is accepted; `None` when none or several are.
pub fn scan_main_by_date_and_id(names: &Vec<String>, date_prefix: &str, date_only: Option<&str>, seg_id: &str) -> (r: Option<(usize, String)>)
    requires
        date_scan_defined(string_views(names@), date_prefix@, opt_date_view(date_only), seg_id@),
    ensures
        ({
            let c = date_scan_candidates(string_views(names@), date_prefix@, opt_date_view(date_only), seg_id@);
            match r {
                Some((i, e)) => c.len() == 1 && c[0] == (i as int, e@),
                None => c.len() != 1,
            }
        }),
{
    let ghost nv = string_views(names@);
    let ghost dov = opt_date_view(date_only);
    let dp = chars_of(date_prefix);
    let dov_exec: Option<Vec<char>> = match date_only {
        Some(x) => Some(chars_of(x)),
        None => None,
    };
    let overlay = chars_of("-overlay");
    let main = chars_of("-main");
    let mut cands: Vec<(usize, String)> = Vec::new();
    let mut i: usize = 0;
    assert(nv.take(0) =~= Seq::<Seq<char>>::empty());
    while i < names.len()
        invariant
            i <= names@.len(),
            nv == string_views(names@),
            dov == opt_date_view(date_only),
            dp@ == date_prefix@,
            match dov_exec {
                Some(x) => dov == Some(x@),
                None => dov is None,
            },
            overlay@ == "-overlay"@,
            main@ == "-main"@,
            date_scan_defined(nv, date_prefix@, dov, seg_id@),
            cand_views(cands@) == date_scan_candidates(nv.take(i as int), date_prefix@, dov, seg_id@),
        decreases names@.len() - i,
    {
        let name = &names[i];
        let ghost n = name@;
        proof {
            assert(nv.take(i + 1).drop_last() =~= nv.take(i as int));
            assert(nv.take(i + 1).last() == n);
        }
        let lower = to_lowercase(name.as_str());
        let lc = chars_of(lower.as_str());
        if !contains_exec(&lc, &overlay) {
            assert(not_overlay(nv[i as int]));
            if let Some(fd) = extract_date_prefix_from_name(name.as_str()) {
                let fdc = chars_of(fd.as_str());
                let exact = chars_eq(&fdc, &dp);
                let by_day = match (&dov_exec, day_part_exec(&fdc)) {
                    (Some(x), Some(y)) => chars_eq(&y, x),
                    _ => false,
                };
                if exact || by_day {
                    assert(date_matches(fd@, date_prefix@, dov));
                    if id_appears_as_token(lower.as_str(), seg_id) {
                        let ext = scan_ext_exec(name.as_str());
                        let ghost before = cands@;
                        if contains_exec(&lc, &main) {
                            cands.insert(0, (i, ext));
                            assert(cand_views(cands@) =~= seq![(i as int, ext@)] + cand_views(before));
                        } else {
                            cands.push((i, ext));
                            assert(cand_views(cands@) =~= cand_views(before).push((i as int, ext@)));
                        }
                    }
                }
            }
        }
        i = i + 1;
    }
    assert(nv.take(names@.len() as int) =~= nv);
    if cands.len() == 1 {
        let c = cands.remove(0);
        assert(cand_views(cands@.insert(0, c))[0] == (c.0 as int, c.1@));
        Some(c)
    } else {
        None
    }
}

/// Whether the date search can visit every entry without splitting a character.
pub fn date_scan_defined_exec(names: &Vec<String>, date_prefix: &str, date_only: Option<&str>, seg_id: &str) -> (r: bool)
    ensures
        r == date_scan_defined(string_views(names@), date_prefix@, opt_date_view(date_only), seg_id@),
{
    let ghost nv = string_views(names@);
    let ghost dov = opt_date_view(date_only);
    let dp = chars_of(date_prefix);
    let dov_exec: Option<Vec<char>> = match date_only {
        Some(x) => Some(chars_of(x)),
        None => None,
    };
    let overlay = chars_of("-overlay");
    let mut i: usize = 0;
    while i < names.len()
        invariant
            i <= names@.len(),
            nv == string_views(names@),
            dov == opt_date_view(date_only),
            dp@ == date_prefix@,
            match dov_exec {
                Some(x) => dov == Some(x@),
                None => dov is None,
            },
            overlay@ == "-overlay"@,
            forall|k: int|
                0 <= k < i && not_overlay(#[trigger] nv[k]) ==> {
                    &&& date_prefix_defined(nv[k])
                    &&& (date_prefix_of(nv[k]) matches Some(fd) && date_matches(fd, date_prefix@, dov))
                        ==> token_search_defined(unicode_lowercase(nv[k]), seg_id@)
                },
        decreases names@.len() - i,
    {
        let name = &names[i];
        assert(nv[i as int] == name@);
        let lower = to_lowercase(name.as_str());
        let lc = chars_of(lower.as_str());
        if !contains_exec(&lc, &overlay) {
            if !date_prefix_defined_exec(name.as_str()) {
                return false;
            }
            if let Some(fd) = extract_date_prefix_from_name(name.as_str()) {
                let fdc = chars_of(fd.as_str());
                let exact = chars_eq(&fdc, &dp);
                let by_day = match (&dov_exec, day_part_exec(&fdc)) {
                    (Some(x), Some(y)) => chars_eq(&y, x),
                    _ => false,
                };
                if (exact || by_day) && !token_search_defined_exec(lower.as_str(), seg_id) {
                    return false;
                }
            }
        }
        i = i + 1;
    }
    true
}

/// The date search where it is defined; `None` when some entry name would make it split
/// a character.
pub fn scan_main_by_date_and_id_checked(names: &Vec<String>, date_prefix: &str, date_only: Option<&str>, seg_id: &str) -> (r: Option<Option<(usize, String)>>)
    ensures
        ({
            let c = date_scan_candidates(string_views(names@), date_prefix@, opt_date_view(date_only), seg_id@);
            match r {
                Some(Some((i, e))) => date_scan_defined(string_views(names@), date_prefix@, opt_date_view(date_only), seg_id@)
                    && c.len() == 1 && c[0] == (i as int, e@),
                Some(None) => date_scan_defined(string_views(names@), date_prefix@, opt_date_view(date_only), seg_id@)
                    && c.len() != 1,
                None => !date_scan_defined(string_views(names@), date_prefix@, opt_date_view(date_only), seg_id@),
            }
        }),
{
    if date_scan_defined_exec(names, date_prefix, date_only, seg_id) {
        Some(scan_main_by_date_and_id(names, date_prefix, date_only, seg_id))
    } else {
        None
    }
}

// ---------------------------------------------------------------------------
// Search by id, nearest date
// ---------------------------------------------------------------------------

/// The instant in the date prefix of an entry name, when it has one that parses.
pub open spec fn entry_epoch(name: Seq<char>) -> Option<i64> {
    match date_prefix_of(name) {
        Some(d) => epoch_of_date_prefix(d),
        None => None,
    }
}

/// Distance in seconds between the wanted instant and an entry's; entries (or wants)
/// without an instant count as very far (`i64::MAX / 2`).
pub open spec fn entry_diff(name: Seq<char>, target: Option<i64>) -> int {
    match (target, entry_epoch(name)) {
        (Some(t), Some(f)) => if t >= f { t - f } else { f - t },
        _ => 0x3FFF_FFFF_FFFF_FFFF,
    }
}

/// The best entry among `names` for segment `seg`: the non-overlay entry naming the
/// segment whose date is nearest the target, the earliest such entry on ties unless a
/// later tie is a `-main` entry and the best so far is not.
pub open spec fn best_scan(names: Seq<Seq<char>>, target: Option<i64>, seg: Seq<char>) -> Option<(int, Seq<char>, int, bool)>
    decreases names.len(),
{
    if names.len() == 0 {
        None
    } else {
        let prev = best_scan(names.drop_last(), target, seg);
        let n = names.last();
        if not_overlay(n) && id_appears_as_token_spec(unicode_lowercase(n), seg) {
            let c = ((names.len() - 1) as int, scan_ext(n), entry_diff(n, target), is_main_entry(n));
            match prev {
                None => Some(c),
                Some(b) => if c.2 < b.2 || (c.2 == b.2 && c.3 && !b.3) {
                    Some(c)
                } else {
                    prev
                },
            }
        } else {
            prev
        }
    }
}

/// The nearest-date search visits every entry without splitting a character.
pub open spec fn best_scan_defined(names: Seq<Seq<char>>, seg: Seq<char>) -> bool {
    forall|k: int|
        0 <= k < names.len() && not_overlay(#[trigger] names[k]) ==> {
            &&& token_search_defined(unicode_lowercase(names[k]), seg)
            &&& id_appears_as_token_spec(unicode_lowercase(names[k]), seg) ==> date_prefix_defined(names[k])
        }
}

/// A target far enough from the ends of `i64` that its distance to any date chrono can
/// represent fits.
pub open spec fn target_in_range(target: Option<i64>) -> bool {
    target matches Some(t) ==> -0x7FFF_F800_0000_0000 < t < 0x7FFF_F800_0000_0000
}

fn entry_epoch_exec(name: &str) -> (r: Option<i64>)
    requires
        date_prefix_defined(name@),
    ensures
        r == entry_epoch(name@),
        r matches Some(f) ==> timestamp_in_range(f),
{
    match extract_date_prefix_from_name(name) {
        Some(d) => {
            proof {
                lemma_date_prefix_normalizable(name@);
            }
            date_prefix_to_epoch_seconds(d.as_str())
        },
        None => None,
    }
}

/// Searches the entry names of one archive for segment `seg`, whatever their dates, and
/// picks the entry dated nearest `target` (see `best_scan`); with its extension.
pub fn scan_main_by_best_date_match(names: &Vec<String>, target_epoch_seconds: Option<i64>, seg_id: &str) -> (r: Option<(usize, String)>)
    requires
        best_scan_defined(string_views(names@), seg_id@),
        target_in_range(target_epoch_seconds),
    ensures
        match r {
            Some((i, e)) => best_scan(string_views(names@), target_epoch_seconds, seg_id@) matches Some(b)
                && b.0 == i as int && b.1 == e@,
            None => best_scan(string_views(names@), target_epoch_seconds, seg_id@) is None,
        },
{
    let ghost nv = string_views(names@);
    let overlay = chars_of("-overlay");
    let main = chars_of("-main");
    let mut best: Option<(usize, String, i64, bool)> = None;
    let mut i: usize = 0;
    assert(nv.take(0) =~= Seq::<Seq<char>>::empty());
    while i < names.len()
        invariant
            i <= names@.len(),
            nv == string_views(names@),
            overlay@ == "-overlay"@,
            main@ == "-main"@,
            best_scan_defined(nv, seg_id@),
            target_in_range(target_epoch_seconds),
            match best {
                Some(b) => best_scan(nv.take(i as int), target_epoch_seconds, seg_id@) == Some(
                    (b.0 as int, b.1@, b.2 as int, b.3),
                ),
                None => best_scan(nv.take(i as int), target_epoch_seconds, seg_id@) is None,
            },
        decreases names@.len() - i,
    {
        let name = &names[i];
        proof {
            assert(nv.take(i + 1).drop_last() =~= nv.take(i as int));
            assert(nv.take(i + 1).last() == name@);
        }
        let lower = to_lowercase(name.as_str());
        let lc = chars_of(lower.as_str());
        if !contains_exec(&lc, &overlay) {
            assert(not_overlay(nv[i as int]));
            if id_appears_as_token(lower.as_str(), seg_id) {
                let ext = scan_ext_exec(name.as_str());
                let is_main = contains_exec(&lc, &main);
                let diff: i64 = match (target_epoch_seconds, entry_epoch_exec(name.as_str())) {
                    (Some(t), Some(f)) => if t >= f { t - f } else { f - t },
                    _ => 0x3FFF_FFFF_FFFF_FFFF,
                };
                let replace = match &best {
                    None => true,
                    Some(b) => diff < b.2 || (diff == b.2 && is_main && !b.3),
                };
                if replace {
                    best = Some((i, ext, diff, is_main));
                }
            }
        }
        i = i + 1;
    }
    assert(nv.take(names@.len() as int) =~= nv);
    match best {
        Some(b) => Some((b.0, b.1)),
        None => None,
    }
}

/// Whether the nearest-date search can visit every entry without splitting a character.
pub fn best_scan_defined_exec(names: &Vec<String>, seg_id: &str) -> (r: bool)
    ensures
        r == best_scan_defined(string_views(names@), seg_id@),
{
    let ghost nv = string_views(names@);
    let overlay = chars_of("-overlay");
    let mut i: usize = 0;
    while i < names.len()
        invariant
            i <= names@.len(),
            nv == string_views(names@),
            overlay@ == "-overlay"@,
            forall|k: int|
                0 <= k < i && not_overlay(#[trigger] nv[k]) ==> {
                    &&& token_search_defined(unicode_lowercase(nv[k]), seg_id@)
                    &&& id_appears_as_token_spec(unicode_lowercase(nv[k]), seg_id@) ==> date_prefix_defined(nv[k])
                },
        decreases names@.len() - i,
    {
        let name = &names[i];
        assert(nv[i as int] == name@);
        let lower = to_lowercase(name.as_str());
        let lc = chars_of(lower.as_str());
        if !contains_exec(&lc, &overlay) {
            if !token_search_defined_exec(lower.as_str(), seg_id) {
                return false;
            }
            if id_appears_as_token(lower.as_str(), seg_id) && !date_prefix_defined_exec(name.as_str()) {
                return false;
            }
        }
        i = i + 1;
    }
    true
}

/// The nearest-date search where it is defined and the target is in range; `None`
/// otherwise.
pub fn scan_main_by_best_date_match_checked(names: &Vec<String>, target_epoch_seconds: Option<i64>, seg_id: &str) -> (r: Option<Option<(usize, String)>>)
    ensures
        match r {
            Some(Some((i, e))) => best_scan_defined(string_views(names@), seg_id@) && target_in_range(target_epoch_seconds)
                && (best_scan(string_views(names@), target_epoch_seconds, seg_id@) matches Some(b) && b.0 == i as int && b.1 == e@),
            Some(None) => best_scan_defined(string_views(names@), seg_id@) && target_in_range(target_epoch_seconds)
                && best_scan(string_views(names@), target_epoch_seconds, seg_id@) is None,
            None => !best_scan_defined(string_views(names@), seg_id@) || !target_in_range(target_epoch_seconds),
        },
{
    let in_range = match target_epoch_seconds {
        Some(t) => -0x7FFF_F800_0000_0000 < t && t < 0x7FFF_F800_0000_0000,
        None => true,
    };
    if in_range && best_scan_defined_exec(names, seg_id) {
        Some(scan_main_by_best_date_match(names, target_epoch_seconds, seg_id))
    } else {
        None
    }
}

// ---------------------------------------------------------------------------
// Locating a segment across the archives
// ---------------------------------------------------------------------------

/// Why a segment could not be located in the archives.
#[derive(Clone, Copy, Debug, PartialEq, Eq, Structural)]
pub enum LocateError {
    /// The entry names of archive `z` could not be read.
    Unreadable(usize),
    /// Searching the entry names of archive `z` would split a character.
    Unsearchable(usize),
    /// Neither the index nor a search of the archives found the segment.
    NotFound,
}

/// The decision of the first element of `xs` for which `step` decides, `None` when none does.
pub open spec fn first_decision<A, R>(xs: Seq<A>, step: spec_fn(int, A) -> Option<R>) -> Option<R>
    decreases xs.len(),
{
    if xs.len() == 0 {
        None
    } else {
        let prev = first_decision(xs.drop_last(), step);
        if prev is Some {
            prev
        } else {
            step(xs.len() - 1, xs.last())
        }
    }
}

proof fn lemma_first_decision_prefix<A, R>(xs: Seq<A>, step: spec_fn(int, A) -> Option<R>, k: int)
    requires
        0 <= k <= xs.len(),
        first_decision(xs.take(k), step) is Some,
    ensures
        first_decision(xs, step) == first_decision(xs.take(k), step),
    decreases xs.len(),
{
    if k == xs.len() {
        assert(xs.take(k) =~= xs);
    } else {
        assert(xs.drop_last().take(k) =~= xs.take(k));
        lemma_first_decision_prefix(xs.drop_last(), step, k);
    }
}

proof fn lemma_first_decision_step<A, R>(xs: Seq<A>, step: spec_fn(int, A) -> Option<R>, k: int)
    requires
        0 <= k < xs.len(),
        first_decision(xs.take(k), step) is None,
    ensures
        first_decision(xs.take(k + 1), step) == step(k, xs[k]),
{
    assert(xs.take(k + 1).drop_last() =~= xs.take(k));
    assert(xs.take(k + 1).last() == xs[k]);
}

/// The day of a memory's date prefix (its first ten bytes), when it has one.
pub open spec fn day_of(clean_date: Seq<char>) -> Option<Seq<char>> {
    if byte_len(clean_date) >= 10 {
        Some(byte_prefix(clean_date, 10))
    } else {
        None
    }
}

/// What the date search decides at archive `z`: an unreadable or unsearchable archive
/// ends the search with an error, a single accepted entry ends it with that entry.
pub open spec fn date_step(z: int, names: Option<Seq<Seq<char>>>, clean_date: Seq<char>, seg: Seq<char>) -> Option<Result<(usize, usize, Seq<char>), LocateError>> {
    match names {
        None => Some(Err(LocateError::Unreadable(z as usize))),
        Some(n) => if !date_scan_defined(n, clean_date, day_of(clean_date), seg) {
            Some(Err(LocateError::Unsearchable(z as usize)))
        } else {
            let c = date_scan_candidates(n, clean_date, day_of(clean_date), seg);
            if c.len() == 1 {
                Some(Ok((z as usize, c[0].0 as usize, c[0].1)))
            } else {
                None
            }
        },
    }
}

/// What the nearest-date search decides at archive `z`.
pub open spec fn best_step(z: int, names: Option<Seq<Seq<char>>>, target: Option<i64>, seg: Seq<char>) -> Option<Result<(usize, usize, Seq<char>), LocateError>> {
    match names {
        None => Some(Err(LocateError::Unreadable(z as usize))),
        Some(n) => if !best_scan_defined(n, seg) {
            Some(Err(LocateError::Unsearchable(z as usize)))
        } else {
            match best_scan(n, target, seg) {
                Some(b) => Some(Ok((z as usize, b.0 as usize, b.1))),
                None => None,
            }
        },
    }
}

/// The date search over the archives in order.
pub open spec fn date_pass(zips: Seq<Option<Seq<Seq<char>>>>, clean_date: Seq<char>, seg: Seq<char>) -> Option<Result<(usize, usize, Seq<char>), LocateError>> {
    first_decision(zips, |z: int, n: Option<Seq<Seq<char>>>| date_step(z, n, clean_date, seg))
}

/// The nearest-date search over the archives in order.
pub open spec fn best_pass(zips: Seq<Option<Seq<Seq<char>>>>, target: Option<i64>, seg: Seq<char>) -> Option<Result<(usize, usize, Seq<char>), LocateError>> {
    first_decision(zips, |z: int, n: Option<Seq<Seq<char>>>| best_step(z, n, target, seg))
}

/// Where segment `seg` of a memory dated `clean_date` is found: in the index under the
/// first of its lookup keys; else by the date search of each archive in turn; else by
/// the nearest-date search of each archive in turn; else nowhere.
pub open spec fn locate_spec(
    idx: Map<Seq<char>, (usize, usize, Seq<char>)>,
    zips: Seq<Option<Seq<Seq<char>>>>,
    clean_date: Seq<char>,
    seg: Seq<char>,
    target: Option<i64>,
) -> Result<(usize, usize, Seq<char>), LocateError> {
    match first_hit(idx, lookup_keys(clean_date, seg)) {
        Some(e) => Ok(e),
        None => match date_pass(zips, clean_date, seg) {
            Some(r) => r,
            None => match best_pass(zips, target, seg) {
                Some(r) => r,
                None => Err(LocateError::NotFound),
            },
        },
    }
}

/// Locates segment `seg_id` of a memory dated `clean_date` (see `locate_spec`): `zips`
/// holds the entry names of each export archive, `None` for one that cannot be read, and
/// `target` the memory's timestamp for the nearest-date search.
pub fn locate_segment_plan(
    index: &ZipIndex,
    zips: &Vec<Option<Vec<String>>>,
    clean_date: &str,
    seg_id: &str,
    target: Option<i64>,
) -> (r: Result<(usize, usize, String), LocateError>)
    requires
        date_sliceable(clean_date@),
        target_in_range(target),
    ensures
        match r {
            Ok(e) => locate_spec(index@, zip_views(zips@), clean_date@, seg_id@, target) == Ok::<(usize, usize, Seq<char>), LocateError>((e.0, e.1, e.2@)),
            Err(x) => locate_spec(index@, zip_views(zips@), clean_date@, seg_id@, target) == Err::<(usize, usize, Seq<char>), LocateError>(x),
        },
{
    if let Some(e) = lookup_entry(index, clean_date, seg_id) {
        return Ok(e);
    }
    let ghost zv = zip_views(zips@);
    let ghost dstep = |z: int, n: Option<Seq<Seq<char>>>| date_step(z, n, clean_date@, seg_id@);
    let ghost bstep = |z: int, n: Option<Seq<Seq<char>>>| best_step(z, n, target, seg_id@);
    let d = chars_of(clean_date);
    let day: Option<String> = if byte_len_at_least(&d, 10) {
        let k = chars_before_byte_exec(&d, 10).unwrap();
        let dd = sub_vec(&d, 0, k);
        assert(dd@ =~= byte_prefix(clean_date@, 10)) by {
            lemma_boundary_unique(clean_date@, 10, k as int, chars_before_byte(clean_date@, 10));
        }
        Some(string_of(&dd))
    } else {
        None
    };
    let day_ref: Option<&str> = match &day {
        Some(x) => Some(x.as_str()),
        None => None,
    };
    assert(opt_date_view(day_ref) == day_of(clean_date@));
    let mut z: usize = 0;
    assert(zv.take(0) =~= Seq::<Option<Seq<Seq<char>>>>::empty());
    while z < zips.len()
        invariant
            z <= zips@.len(),
            zv == zip_views(zips@),
            opt_date_view(day_ref) == day_of(clean_date@),
            dstep == (|z: int, n: Option<Seq<Seq<char>>>| date_step(z, n, clean_date@, seg_id@)),
            first_decision(zv.take(z as int), dstep) is None,
            first_hit(index@, lookup_keys(clean_date@, seg_id@)) is None,
        decreases zips@.len() - z,
    {
        proof {
            lemma_first_decision_step(zv, dstep, z as int);
        }
        let decided: Option<Result<(usize, usize, String), LocateError>> = match &zips[z] {
            None => Some(Err(LocateError::Unreadable(z))),
            Some(names) => {
                assert(zv[z as int] == Some(string_views(names@)));
                match scan_main_by_date_and_id_checked(names, clean_date, day_ref, seg_id) {
                    None => Some(Err(LocateError::Unsearchable(z))),
                    Some(Some((i, e))) => Some(Ok((z, i, e))),
                    Some(None) => None,
                }
            },
        };
        match decided {
            Some(r) => {
                proof {
                    lemma_first_decision_prefix(zv, dstep, z + 1);
                }
                return r;
            },
            None => {},
        }
        z = z + 1;
    }
    assert(zv.take(zips@.len() as int) =~= zv);
    let mut z: usize = 0;
    assert(zv.take(0) =~= Seq::<Option<Seq<Seq<char>>>>::empty());
    while z < zips.len()
        invariant
            z <= zips@.len(),
            zv == zip_views(zips@),
            target_in_range(target),
            bstep == (|z: int, n: Option<Seq<Seq<char>>>| best_step(z, n, target, seg_id@)),
            first_decision(zv.take(z as int), bstep) is None,
            first_hit(index@, lookup_keys(clean_date@, seg_id@)) is None,
            date_pass(zv, clean_date@, seg_id@) is None,
        decreases zips@.len() - z,
    {
        proof {
            lemma_first_decision_step(zv, bstep, z as int);
        }
        let decided: Option<Result<(usize, usize, String), LocateError>> = match &zips[z] {
            None => Some(Err(LocateError::Unreadable(z))),
            Some(names) => {
                assert(zv[z as int] == Some(string_views(names@)));
                match scan_main_by_best_date_match_checked(names, target, seg_id) {
                    None => Some(Err(LocateError::Unsearchable(z))),
                    Some(Some((i, e))) => Some(Ok((z, i, e))),
                    Some(None) => None,
                }
            },
        };
        match decided {
            Some(r) => {
                proof {
                    lemma_first_decision_prefix(zv, bstep, z + 1);
                }
                return r;
            },
            None => {},
        }
        z = z + 1;
    }
    assert(zv.take(zips@.len() as int) =~= zv);
    Err(LocateError::NotFound)
}

/// Why a located entry is not written out as a segment.
#[derive(Clone, Copy, Debug, PartialEq, Eq, Structural)]
pub enum EntryMismatch {
    /// The entry's name does not name the segment: writing it would put the wrong file in place.
    WrongFile,
    /// Searching the entry's name for the segment would split a character.
    Unsearchable,
}

/// Checks, before a located entry is written out, that its name names the segment as a
/// whole token.
pub fn check_segment_entry(name: &str, seg_id: &str) -> (r: Result<(), EntryMismatch>)
    ensures
        match r {
            Ok(()) => token_search_defined(name@, seg_id@) && id_appears_as_token_spec(name@, seg_id@),
            Err(EntryMismatch::WrongFile) => token_search_defined(name@, seg_id@) && !id_appears_as_token_spec(name@, seg_id@),
            Err(EntryMismatch::Unsearchable) => !token_search_defined(name@, seg_id@),
        },
{
    if !token_search_defined_exec(name, seg_id) {
        Err(EntryMismatch::Unsearchable)
    } else if id_appears_as_token(name, seg_id) {
        Ok(())
    } else {
        Err(EntryMismatch::WrongFile)
    }
}

} // verus!
