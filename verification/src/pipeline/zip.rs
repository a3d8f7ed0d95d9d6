//! Names of entries in Snapchat export archives: dates, ids, and matching ids to names.

use vstd::prelude::*;
use crate::paths::{before_last_dot, before_last_dot_exec, file_name, file_name_exec};
use crate::text::{
    char_views, string_views,
    boundary_at, byte_len, byte_len_at_least, byte_prefix, chars_before_byte, chars_before_byte_exec,
    chars_eq, chars_of, concat, first_index_of, first_index_of_exec, is_ascii_alphanumeric,
    is_ascii_digit, is_boundary, lemma_boundary_unique, occurs_at, occurs_at_exec, split_char,
    string_of, strip_prefix, strip_prefix_exec, strip_suffix, strip_suffix_exec, sub_vec, to_lowercase,
    trim, trim_exec, trim_start_char, trim_start_char_exec, unicode_lowercase,
};

verus! {

// ---------------------------------------------------------------------------
// Literals
// ---------------------------------------------------------------------------

pub open spec fn lit_main() -> Seq<char> {
    seq!['-', 'm', 'a', 'i', 'n']
}

pub open spec fn lit_overlay() -> Seq<char> {
    seq!['-', 'o', 'v', 'e', 'r', 'l', 'a', 'y']
}

pub open spec fn lit_mp4() -> Seq<char> {
    seq!['m', 'p', '4']
}

pub open spec fn lit_mov() -> Seq<char> {
    seq!['m', 'o', 'v']
}

// ---------------------------------------------------------------------------
// Video extensions
// ---------------------------------------------------------------------------

/// `ext` names a video container (`mp4` or `mov`, in any case).
pub open spec fn is_video_ext_spec(ext: Seq<char>) -> bool {
    unicode_lowercase(ext) == lit_mp4() || unicode_lowercase(ext) == lit_mov()
}

/// Whether the extension denotes a video file.
pub fn is_video_ext(ext: &str) -> (r: bool)
    ensures
        r == is_video_ext_spec(ext@),
{
    let lower = to_lowercase(ext);
    let l = chars_of(lower.as_str());
    assert(['m', 'p', '4']@ =~= lit_mp4());
    assert(['m', 'o', 'v']@ =~= lit_mov());
    chars_eq(l.as_slice(), &['m', 'p', '4']) || chars_eq(l.as_slice(), &['m', 'o', 'v'])
}

// ---------------------------------------------------------------------------
// Date prefixes of entry names
// ---------------------------------------------------------------------------

/// Character `i` of a `YYYY-MM-DD_HH-MM-SS` timestamp (separators may vary).
pub open spec fn timestamp_char_ok(i: int, c: char) -> bool {
    if i == 4 || i == 7 {
        c == '-'
    } else if i == 10 {
        c == '_' || c == ' ' || c == '-'
    } else if i == 13 || i == 16 {
        c == '-' || c == '_'
    } else {
        is_ascii_digit(c)
    }
}

/// Character `i` of a `YYYY-MM-DD` date.
pub open spec fn date_char_ok(i: int, c: char) -> bool {
    if i == 4 || i == 7 {
        c == '-'
    } else {
        is_ascii_digit(c)
    }
}

pub open spec fn matches_timestamp(p: Seq<char>) -> bool {
    forall|i: int| 0 <= i < p.len() ==> timestamp_char_ok(i, #[trigger] p[i])
}

pub open spec fn matches_date(p: Seq<char>) -> bool {
    forall|i: int| 0 <= i < p.len() ==> date_char_ok(i, #[trigger] p[i])
}

/// Taking the byte prefixes of `base` does not split a character.
pub open spec fn base_date_prefix_defined(base: Seq<char>) -> bool {
    &&& byte_len(base) >= 19 ==> is_boundary(base, 19)
    &&& (!(byte_len(base) >= 19 && matches_timestamp(byte_prefix(base, 19))) && byte_len(base)
        >= 10) ==> is_boundary(base, 10)
}

/// The leading timestamp (19 bytes) or date (10 bytes) of a file name.
pub open spec fn base_date_prefix(base: Seq<char>) -> Option<Seq<char>> {
    if byte_len(base) >= 19 && matches_timestamp(byte_prefix(base, 19)) {
        Some(byte_prefix(base, 19))
    } else if byte_len(base) >= 10 && matches_date(byte_prefix(base, 10)) {
        Some(byte_prefix(base, 10))
    } else {
        None
    }
}

pub open spec fn date_prefix_defined(name: Seq<char>) -> bool {
    match file_name(name) {
        Some(base) => base_date_prefix_defined(base),
        None => true,
    }
}

/// The date prefix of the last component of an entry name.
pub open spec fn date_prefix_of(name: Seq<char>) -> Option<Seq<char>> {
    match file_name(name) {
        Some(base) => base_date_prefix(base),
        None => None,
    }
}

proof fn lemma_byte_prefix_is(s: Seq<char>, b: nat, k: int)
    requires
        boundary_at(s, b, k),
    ensures
        chars_before_byte(s, b) == k,
        byte_prefix(s, b) == s.take(k),
{
    let c = chars_before_byte(s, b);
    assert(boundary_at(s, b, c));
    lemma_boundary_unique(s, b, c, k);
}

fn matches_timestamp_exec(p: &[char]) -> (r: bool)
    ensures
        r == matches_timestamp(p@),
{
    let mut i: usize = 0;
    while i < p.len()
        invariant
            i <= p@.len(),
            forall|j: int| 0 <= j < i ==> timestamp_char_ok(j, #[trigger] p@[j]),
        decreases p@.len() - i,
    {
        let c = p[i];
        let ok = if i == 4 || i == 7 {
            c == '-'
        } else if i == 10 {
            c == '_' || c == ' ' || c == '-'
        } else if i == 13 || i == 16 {
            c == '-' || c == '_'
        } else {
            '0' <= c && c <= '9'
        };
        if !ok {
            return false;
        }
        i = i + 1;
    }
    true
}

fn matches_date_exec(p: &[char]) -> (r: bool)
    ensures
        r == matches_date(p@),
{
    let mut i: usize = 0;
    while i < p.len()
        invariant
            i <= p@.len(),
            forall|j: int| 0 <= j < i ==> date_char_ok(j, #[trigger] p@[j]),
        decreases p@.len() - i,
    {
        let c = p[i];
        let ok = if i == 4 || i == 7 {
            c == '-'
        } else {
            '0' <= c && c <= '9'
        };
        if !ok {
            return false;
        }
        i = i + 1;
    }
    true
}

fn base_date_prefix_exec(base: &[char]) -> (r: Option<Vec<char>>)
    requires
        base_date_prefix_defined(base@),
    ensures
        match r {
            Some(v) => base_date_prefix(base@) == Some(v@),
            None => base_date_prefix(base@) is None,
        },
{
    if byte_len_at_least(base, 19) {
        match chars_before_byte_exec(base, 19) {
            Some(k) => {
                proof {
                    lemma_byte_prefix_is(base@, 19, k as int);
                }
                let p = sub_vec(base, 0, k);
                assert(p@ =~= base@.take(k as int));
                if matches_timestamp_exec(p.as_slice()) {
                    return Some(p);
                }
            },
            None => {
                return None;
            },
        }
    }
    if byte_len_at_least(base, 10) {
        match chars_before_byte_exec(base, 10) {
            Some(k) => {
                proof {
                    lemma_byte_prefix_is(base@, 10, k as int);
                }
                let p = sub_vec(base, 0, k);
                assert(p@ =~= base@.take(k as int));
                if matches_date_exec(p.as_slice()) {
                    return Some(p);
                }
            },
            None => {
                return None;
            },
        }
    }
    None
}

pub(crate) fn date_prefix_chars(name: &[char]) -> (r: Option<Vec<char>>)
    requires
        date_prefix_defined(name@),
    ensures
        match r {
            Some(v) => date_prefix_of(name@) == Some(v@),
            None => date_prefix_of(name@) is None,
        },
{
    match file_name_exec(name) {
        Some(base) => base_date_prefix_exec(base.as_slice()),
        None => None,
    }
}

/// The leading `YYYY-MM-DD_HH-MM-SS` timestamp or `YYYY-MM-DD` date of the last component of an
/// archive entry name, as written there.
pub fn extract_date_prefix_from_name(name: &str) -> (r: Option<String>)
    requires
        date_prefix_defined(name@),
    ensures
        match r {
            Some(d) => date_prefix_of(name@) == Some(d@),
            None => date_prefix_of(name@) is None,
        },
{
    let n = chars_of(name);
    match date_prefix_chars(n.as_slice()) {
        Some(d) => Some(string_of(d.as_slice())),
        None => None,
    }
}

// ---------------------------------------------------------------------------
// Normalized date prefixes
// ---------------------------------------------------------------------------

/// The slicing and in-place replacements of `normalize_date_prefix` stay on character
/// boundaries.
pub open spec fn normalize_defined(s: Seq<char>) -> bool {
    &&& byte_len(s) >= 19 ==> {
        &&& is_boundary(s, 19)
        &&& is_boundary(byte_prefix(s, 19), 10)
        &&& is_boundary(byte_prefix(s, 19), 11)
        &&& is_boundary(byte_prefix(s, 19), 13)
        &&& is_boundary(byte_prefix(s, 19), 14)
        &&& is_boundary(byte_prefix(s, 19), 16)
        &&& is_boundary(byte_prefix(s, 19), 17)
    }
    &&& (byte_len(s) < 19 && byte_len(s) >= 10) ==> is_boundary(s, 10)
}

/// A timestamp forced into `YYYY-MM-DD_HH-MM-SS` shape, a date cut to 10 bytes, or the
/// input when shorter.
pub open spec fn normalize_date_prefix_spec(s: Seq<char>) -> Seq<char> {
    if byte_len(s) >= 19 {
        let p = byte_prefix(s, 19);
        p.update(chars_before_byte(p, 10), '_').update(chars_before_byte(p, 13), '-').update(
            chars_before_byte(p, 16),
            '-',
        )
    } else if byte_len(s) >= 10 {
        byte_prefix(s, 10)
    } else {
        s
    }
}

pub(crate) fn normalize_chars(s: &[char]) -> (r: Vec<char>)
    requires
        normalize_defined(s@),
    ensures
        r@ == normalize_date_prefix_spec(s@),
{
    if byte_len_at_least(s, 19) {
        let k = match chars_before_byte_exec(s, 19) {
            Some(k) => k,
            None => {
                return Vec::new();
            },
        };
        proof {
            lemma_byte_prefix_is(s@, 19, k as int);
        }
        let mut p = sub_vec(s, 0, k);
        assert(p@ =~= s@.take(k as int));
        let ghost p0 = p@;
        let k10 = match chars_before_byte_exec(p.as_slice(), 10) {
            Some(k) => k,
            None => {
                return Vec::new();
            },
        };
        let k13 = match chars_before_byte_exec(p.as_slice(), 13) {
            Some(k) => k,
            None => {
                return Vec::new();
            },
        };
        let k16 = match chars_before_byte_exec(p.as_slice(), 16) {
            Some(k) => k,
            None => {
                return Vec::new();
            },
        };
        proof {
            lemma_byte_prefix_is(p0, 10, k10 as int);
            lemma_byte_prefix_is(p0, 13, k13 as int);
            lemma_byte_prefix_is(p0, 16, k16 as int);
            crate::text::lemma_byte_len_full(p0);
        }
        assert(k10 < p.len() && k13 < p.len() && k16 < p.len()) by {
            if k10 == p.len() || k13 == p.len() || k16 == p.len() {
                crate::text::lemma_byte_len_take_mono(s@, k as int, s@.len() as int);
                crate::text::lemma_byte_len_full(s@);
            }
        }
        p.set(k10, '_');
        p.set(k13, '-');
        p.set(k16, '-');
        p
    } else if byte_len_at_least(s, 10) {
        let k = match chars_before_byte_exec(s, 10) {
            Some(k) => k,
            None => {
                return Vec::new();
            },
        };
        proof {
            lemma_byte_prefix_is(s@, 10, k as int);
        }
        let p = sub_vec(s, 0, k);
        assert(p@ =~= s@.take(k as int));
        p
    } else {
        sub_vec(s, 0, s.len())
    }
}

/// Forces a leading timestamp into `YYYY-MM-DD_HH-MM-SS` form (byte 10 becomes `_`, bytes
/// 13 and 16 become `-`); cuts a shorter text to its first 10 bytes.
pub fn normalize_date_prefix(s: &str) -> (r: String)
    requires
        normalize_defined(s@),
    ensures
        r@ == normalize_date_prefix_spec(s@),
{
    let c = chars_of(s);
    let v = normalize_chars(c.as_slice());
    string_of(v.as_slice())
}


// ---------------------------------------------------------------------------
// Ids in entry names
// ---------------------------------------------------------------------------

/// The part of the file name before its extension, without `-main` (or else `-overlay`).
pub open spec fn id_part_of(name: Seq<char>) -> Option<Seq<char>> {
    match file_name(name) {
        Some(base) => {
            let before = before_last_dot(base);
            match strip_suffix(before, lit_main()) {
                Some(p) => Some(p),
                None => strip_suffix(before, lit_overlay()),
            }
        },
        None => None,
    }
}

/// Leading `_`, then `-`, then space characters removed.
pub open spec fn trim_separators(s: Seq<char>) -> Seq<char> {
    trim_start_char(trim_start_char(trim_start_char(s, '_'), '-'), ' ')
}

pub open spec fn id_from_filename_defined(name: Seq<char>) -> bool {
    id_part_of(name) is Some ==> date_prefix_defined(name)
}

/// The id between the date prefix and the `-main`/`-overlay` suffix of an entry name.
pub open spec fn id_from_filename(name: Seq<char>) -> Option<Seq<char>> {
    match id_part_of(name) {
        None => None,
        Some(idp) => match date_prefix_of(name) {
            None => None,
            Some(d) => match strip_prefix(idp, d) {
                None => None,
                Some(a) => {
                    let t = trim_separators(a);
                    if t.len() == 0 {
                        None
                    } else {
                        Some(t)
                    }
                },
            },
        },
    }
}

pub(crate) fn trim_separators_exec(s: &[char]) -> (r: Vec<char>)
    ensures
        r@ == trim_separators(s@),
{
    let a = trim_start_char_exec(s, '_');
    let b = trim_start_char_exec(a.as_slice(), '-');
    trim_start_char_exec(b.as_slice(), ' ')
}

pub(crate) fn id_part_chars(name: &[char]) -> (r: Option<Vec<char>>)
    ensures
        match r {
            Some(v) => id_part_of(name@) == Some(v@),
            None => id_part_of(name@) is None,
        },
{
    match file_name_exec(name) {
        Some(base) => {
            let before = before_last_dot_exec(base.as_slice());
            assert(['-', 'm', 'a', 'i', 'n']@ =~= lit_main());
            assert(['-', 'o', 'v', 'e', 'r', 'l', 'a', 'y']@ =~= lit_overlay());
            match strip_suffix_exec(before.as_slice(), &['-', 'm', 'a', 'i', 'n']) {
                Some(p) => Some(p),
                None => strip_suffix_exec(before.as_slice(), &['-', 'o', 'v', 'e', 'r', 'l', 'a', 'y']),
            }
        },
        None => None,
    }
}

pub(crate) fn id_from_filename_chars(name: &[char]) -> (r: Option<Vec<char>>)
    requires
        id_from_filename_defined(name@),
    ensures
        match r {
            Some(v) => id_from_filename(name@) == Some(v@),
            None => id_from_filename(name@) is None,
        },
{
    let idp = match id_part_chars(name) {
        Some(p) => p,
        None => {
            return None;
        },
    };
    let d = match date_prefix_chars(name) {
        Some(d) => d,
        None => {
            return None;
        },
    };
    let a = match strip_prefix_exec(idp.as_slice(), d.as_slice()) {
        Some(a) => a,
        None => {
            return None;
        },
    };
    let t = trim_separators_exec(a.as_slice());
    if t.len() == 0 {
        None
    } else {
        Some(t)
    }
}

/// The id in a `DATE_ID-main.ext` or `DATE_ID-overlay.ext` entry name.
pub fn extract_id_from_filename(name: &str) -> (r: Option<String>)
    requires
        id_from_filename_defined(name@),
    ensures
        match r {
            Some(id) => id_from_filename(name@) == Some(id@),
            None => id_from_filename(name@) is None,
        },
{
    let n = chars_of(name);
    match id_from_filename_chars(n.as_slice()) {
        Some(v) => Some(string_of(v.as_slice())),
        None => None,
    }
}

/// The non-empty pieces, in order.
pub open spec fn drop_empty(s: Seq<Seq<char>>) -> Seq<Seq<char>>
    decreases s.len(),
{
    if s.len() == 0 {
        s
    } else if s[0].len() == 0 {
        drop_empty(s.drop_first())
    } else {
        seq![s[0]] + drop_empty(s.drop_first())
    }
}

proof fn lemma_drop_empty_cons(x: Seq<char>, y: Seq<Seq<char>>)
    ensures
        drop_empty(seq![x] + y) == (if x.len() == 0 {
            drop_empty(y)
        } else {
            seq![x] + drop_empty(y)
        }),
{
    assert((seq![x] + y).drop_first() =~= y);
    assert((seq![x] + y)[0] == x);
}

proof fn lemma_first_index_bounds(s: Seq<char>, c: char)
    ensures
        first_index_of(s, c) matches Some(i) ==> 0 <= i < s.len() && s[i] == c,
    decreases s.len(),
{
    if s.len() > 0 && s[0] != c {
        lemma_first_index_bounds(s.drop_first(), c);
        if let Some(i) = first_index_of(s.drop_first(), c) {
            assert(s[i + 1] == s.drop_first()[i]);
        }
    }
}

/// The non-empty pieces of `s` between occurrences of `c`.
pub fn split_nonempty(s: &[char], c: char) -> (r: Vec<Vec<char>>)
    ensures
        char_views(r@) == drop_empty(split_char(s@, c)),
{
    let mut out: Vec<Vec<char>> = Vec::new();
    let mut start: usize = 0;
    assert(s@.skip(0) =~= s@);
    loop
        invariant
            start <= s@.len(),
            drop_empty(split_char(s@, c)) == char_views(out@) + drop_empty(
                split_char(s@.skip(start as int), c),
            ),
        decreases s@.len() - start,
    {
        let rest = sub_vec(s, start, s.len());
        assert(rest@ =~= s@.skip(start as int));
        proof {
            lemma_first_index_bounds(rest@, c);
        }
        match first_index_of_exec(rest.as_slice(), c) {
            Some(k) => {
                let piece = sub_vec(rest.as_slice(), 0, k);
                assert(piece@ =~= rest@.take(k as int));
                assert(rest@.skip(k + 1) =~= s@.skip(start + k + 1));
                proof {
                    lemma_drop_empty_cons(piece@, split_char(rest@.skip(k + 1), c));
                }
                let ghost old_out = char_views(out@);
                if piece.len() > 0 {
                    out.push(piece);
                    assert(char_views(out@) =~= old_out.push(piece@));
                    assert(old_out + (seq![piece@] + drop_empty(split_char(rest@.skip(k + 1), c)))
                        =~= char_views(out@) + drop_empty(split_char(rest@.skip(k + 1), c)));
                }
                start = start + k + 1;
            },
            None => {
                proof {
                    lemma_drop_empty_cons(rest@, Seq::<Seq<char>>::empty());
                    assert(seq![rest@] + Seq::<Seq<char>>::empty() =~= seq![rest@]);
                    assert(drop_empty(Seq::<Seq<char>>::empty()) =~= Seq::<Seq<char>>::empty());
                }
                let ghost old_out = char_views(out@);
                if rest.len() > 0 {
                    out.push(rest);
                    assert(char_views(out@) =~= old_out.push(rest@));
                    assert(old_out + seq![rest@] =~= char_views(out@));
                } else {
                    assert(old_out + Seq::<Seq<char>>::empty() =~= old_out);
                }
                return out;
            },
        }
    }
}

pub open spec fn ids_from_overlay_defined(name: Seq<char>) -> bool {
    file_name(name) is Some ==> date_prefix_defined(name)
}

/// All ids of an overlay entry name: `DATE_ID-overlay.png` gives one id, `DATE_ID1_ID2.png`
/// gives each `_`-separated id.
pub open spec fn ids_from_overlay_filename(name: Seq<char>) -> Option<Seq<Seq<char>>> {
    match file_name(name) {
        None => None,
        Some(base) => {
            let before = before_last_dot(base);
            match date_prefix_of(name) {
                None => None,
                Some(d) => match strip_prefix(before, d) {
                    None => None,
                    Some(a) => {
                        let t = trim_separators(a);
                        if t.len() == 0 {
                            None
                        } else {
                            match strip_suffix(t, lit_overlay()) {
                                Some(idp) => Some(seq![trim(idp)]),
                                None => {
                                    let ids = drop_empty(split_char(t, '_'));
                                    if ids.len() == 0 {
                                        None
                                    } else {
                                        Some(ids)
                                    }
                                },
                            }
                        }
                    },
                },
            }
        },
    }
}

pub(crate) fn ids_from_overlay_chars(name: &[char]) -> (r: Option<Vec<Vec<char>>>)
    requires
        ids_from_overlay_defined(name@),
    ensures
        match r {
            Some(v) => ids_from_overlay_filename(name@) == Some(char_views(v@)),
            None => ids_from_overlay_filename(name@) is None,
        },
{
    let base = match file_name_exec(name) {
        Some(b) => b,
        None => {
            return None;
        },
    };
    let before = before_last_dot_exec(base.as_slice());
    let d = match date_prefix_chars(name) {
        Some(d) => d,
        None => {
            return None;
        },
    };
    let a = match strip_prefix_exec(before.as_slice(), d.as_slice()) {
        Some(a) => a,
        None => {
            return None;
        },
    };
    let t = trim_separators_exec(a.as_slice());
    if t.len() == 0 {
        return None;
    }
    assert(['-', 'o', 'v', 'e', 'r', 'l', 'a', 'y']@ =~= lit_overlay());
    match strip_suffix_exec(t.as_slice(), &['-', 'o', 'v', 'e', 'r', 'l', 'a', 'y']) {
        Some(idp) => {
            let one = trim_exec(idp.as_slice());
            let mut v: Vec<Vec<char>> = Vec::new();
            v.push(one);
            assert(char_views(v@) =~= seq![trim(idp@)]);
            Some(v)
        },
        None => {
            let ids = split_nonempty(t.as_slice(), '_');
            if ids.len() == 0 {
                None
            } else {
                Some(ids)
            }
        },
    }
}

/// Converts character vectors to strings.
pub fn strings_of(v: &Vec<Vec<char>>) -> (r: Vec<String>)
    ensures
        string_views(r@) == char_views(v@),
{
    let mut r: Vec<String> = Vec::new();
    let mut i: usize = 0;
    while i < v.len()
        invariant
            i <= v@.len(),
            r@.len() == i,
            forall|j: int| 0 <= j < i ==> (#[trigger] r@[j])@ == v@[j]@,
        decreases v@.len() - i,
    {
        let s = string_of(v[i].as_slice());
        r.push(s);
        i = i + 1;
    }
    assert(string_views(r@) =~= char_views(v@));
    r
}

/// All ids named by an overlay entry (see `ids_from_overlay_filename`).
pub fn extract_ids_from_overlay_filename(name: &str) -> (r: Option<Vec<String>>)
    requires
        ids_from_overlay_defined(name@),
    ensures
        match r {
            Some(ids) => ids_from_overlay_filename(name@) == Some(string_views(ids@)),
            None => ids_from_overlay_filename(name@) is None,
        },
{
    let n = chars_of(name);
    match ids_from_overlay_chars(n.as_slice()) {
        Some(v) => Some(strings_of(&v)),
        None => None,
    }
}

/// Index key `date|id`, or `|id` without a date.
pub open spec fn composite_key_spec(date: Option<Seq<char>>, id: Seq<char>) -> Seq<char> {
    match date {
        Some(d) => d + seq!['|'] + id,
        None => seq!['|'] + id,
    }
}

pub(crate) fn composite_key_chars(date: Option<&[char]>, id: &[char]) -> (r: Vec<char>)
    ensures
        r@ == composite_key_spec(
            match date {
                Some(d) => Some(d@),
                None => None,
            },
            id@,
        ),
{
    match date {
        Some(d) => {
            let a = concat(d, &['|']);
            assert(['|']@ =~= seq!['|']);
            concat(a.as_slice(), id)
        },
        None => {
            assert(['|']@ =~= seq!['|']);
            concat(&['|'], id)
        },
    }
}

/// Index key for a date-disambiguated lookup.
pub fn composite_key(date: Option<&str>, id: &str) -> (r: String)
    ensures
        r@ == composite_key_spec(
            match date {
                Some(d) => Some(d@),
                None => None,
            },
            id@,
        ),
{
    let i = chars_of(id);
    let v = match date {
        Some(d) => {
            let dc = chars_of(d);
            composite_key_chars(Some(dc.as_slice()), i.as_slice())
        },
        None => composite_key_chars(None, i.as_slice()),
    };
    string_of(v.as_slice())
}


// ---------------------------------------------------------------------------
// Whole-token id matching
// ---------------------------------------------------------------------------

/// `s` without any occurrence of `c`.
pub open spec fn remove_char(s: Seq<char>, c: char) -> Seq<char>
    decreases s.len(),
{
    if s.len() == 0 {
        s
    } else if s.last() == c {
        remove_char(s.drop_last(), c)
    } else {
        remove_char(s.drop_last(), c).push(s.last())
    }
}

/// The lowercase id, then (when different) the lowercase id without hyphens.
pub open spec fn id_variants(id: Seq<char>) -> Seq<Seq<char>> {
    let l = unicode_lowercase(id);
    let w = remove_char(l, '-');
    if w == l {
        seq![l]
    } else {
        seq![l, w]
    }
}

fn remove_char_exec(s: &[char], c: char) -> (r: Vec<char>)
    ensures
        r@ == remove_char(s@, c),
{
    let mut out: Vec<char> = Vec::new();
    let mut i: usize = 0;
    assert(s@.take(0) =~= Seq::<char>::empty());
    while i < s.len()
        invariant
            i <= s@.len(),
            out@ == remove_char(s@.take(i as int), c),
        decreases s@.len() - i,
    {
        assert(s@.take(i + 1).drop_last() =~= s@.take(i as int));
        if s[i] != c {
            out.push(s[i]);
        }
        i = i + 1;
    }
    assert(s@.take(s@.len() as int) =~= s@);
    out
}

pub(crate) fn id_variant_chars(id: &str) -> (r: Vec<Vec<char>>)
    ensures
        char_views(r@) == id_variants(id@),
{
    let lower = to_lowercase(id);
    let l = chars_of(lower.as_str());
    let w = remove_char_exec(l.as_slice(), '-');
    let mut r: Vec<Vec<char>> = Vec::new();
    if chars_eq(w.as_slice(), l.as_slice()) {
        r.push(l);
        assert(char_views(r@) =~= id_variants(id@));
    } else {
        let ghost lv = l@;
        let ghost wv = w@;
        r.push(l);
        r.push(w);
        assert(char_views(r@) =~= seq![lv, wv]);
    }
    r
}

/// Normalized forms of an id used for matching: lowercase, and lowercase without hyphens.
pub fn id_match_variants(id: &str) -> (r: Vec<String>)
    ensures
        string_views(r@) == id_variants(id@),
{
    let v = id_variant_chars(id);
    strings_of(&v)
}

/// `v` occurs in `s` at `p` and is not glued to an ASCII letter or digit on either side.
pub open spec fn token_at(s: Seq<char>, v: Seq<char>, p: int) -> bool {
    &&& occurs_at(s, v, p)
    &&& (p == 0 || !is_ascii_alphanumeric(s[p - 1]))
    &&& (p + v.len() == s.len() || !is_ascii_alphanumeric(s[p + v.len()]))
}

pub open spec fn has_token(s: Seq<char>, v: Seq<char>) -> bool {
    exists|p: int| token_at(s, v, p)
}

/// Searching `s` for `v` never resumes inside a multi-byte character: either `v` starts with
/// an ASCII character, or its first occurrence (if any) is a whole token.
pub open spec fn variant_search_safe(s: Seq<char>, v: Seq<char>) -> bool {
    ||| v.len() == 0
    ||| (v[0] as u32) < 0x80
    ||| forall|p: int|
        #![trigger occurs_at(s, v, p)]
        occurs_at(s, v, p) && (forall|q: int| 0 <= q < p ==> !occurs_at(s, v, q)) ==> token_at(
            s,
            v,
            p,
        )
}

/// The token search of `id_appears_as_token` does not panic.
pub open spec fn token_search_defined(name: Seq<char>, id: Seq<char>) -> bool {
    let s = unicode_lowercase(name);
    let vs = id_variants(id);
    &&& variant_search_safe(s, vs[0])
    &&& (vs.len() > 1 && !(vs[0].len() > 0 && has_token(s, vs[0]))) ==> variant_search_safe(
        s,
        vs[1],
    )
}

/// Some non-empty variant of `id` appears in the lowercase `name` as a whole token.
pub open spec fn id_appears_as_token_spec(name: Seq<char>, id: Seq<char>) -> bool {
    let s = unicode_lowercase(name);
    let vs = id_variants(id);
    exists|j: int| 0 <= j < vs.len() && (#[trigger] vs[j]).len() > 0 && has_token(s, vs[j])
}

fn is_ascii_alphanumeric_exec(c: char) -> (r: bool)
    ensures
        r == is_ascii_alphanumeric(c),
{
    ('0' <= c && c <= '9') || ('a' <= c && c <= 'z') || ('A' <= c && c <= 'Z')
}

fn token_at_exec(s: &[char], v: &[char], p: usize) -> (r: bool)
    ensures
        r == token_at(s@, v@, p as int),
{
    if !occurs_at_exec(s, v, p) {
        return false;
    }
    let before_ok = p == 0 || !is_ascii_alphanumeric_exec(s[p - 1]);
    let end = p + v.len();
    let after_ok = end == s.len() || !is_ascii_alphanumeric_exec(s[end]);
    before_ok && after_ok
}

/// Whether `v` appears in `s` as a whole token.
pub fn has_token_exec(s: &[char], v: &[char]) -> (r: bool)
    ensures
        r == has_token(s@, v@),
{
    if v.len() > s.len() {
        assert forall|q: int| !token_at(s@, v@, q) by {}
        return false;
    }
    let last = s.len() - v.len();
    let mut p: usize = 0;
    while p < last
        invariant
            last == s@.len() - v@.len(),
            p <= last,
            forall|q: int| 0 <= q < p ==> !token_at(s@, v@, q),
        decreases last - p,
    {
        if token_at_exec(s, v, p) {
            return true;
        }
        p = p + 1;
    }
    if token_at_exec(s, v, last) {
        return true;
    }
    assert forall|q: int| !token_at(s@, v@, q) by {
        if 0 <= q < p {
        }
    }
    false
}

fn appears_as_token_chars(s: &[char], variants: &Vec<Vec<char>>) -> (r: bool)
    ensures
        r == exists|j: int|
            0 <= j < variants@.len() && (#[trigger] char_views(variants@)[j]).len() > 0
                && has_token(s@, char_views(variants@)[j]),
{
    let ghost vs = char_views(variants@);
    let mut j: usize = 0;
    while j < variants.len()
        invariant
            j <= variants@.len(),
            vs == char_views(variants@),
            forall|k: int| 0 <= k < j ==> !((#[trigger] vs[k]).len() > 0 && has_token(s@, vs[k])),
        decreases variants@.len() - j,
    {
        let v = &variants[j];
        assert(vs[j as int] == v@);
        if v.len() > 0 && has_token_exec(s, v.as_slice()) {
            return true;
        }
        j = j + 1;
    }
    false
}

/// Whether some normalized form of `id` appears in `name` (case-insensitively) as a whole
/// token, so that `123` does not match inside `12345`.
pub fn id_appears_as_token(name: &str, id: &str) -> (r: bool)
    requires
        token_search_defined(name@, id@),
    ensures
        r == id_appears_as_token_spec(name@, id@),
{
    let lower = to_lowercase(name);
    let s = chars_of(lower.as_str());
    let variants = id_variant_chars(id);
    appears_as_token_chars(s.as_slice(), &variants)
}


proof fn lemma_ascii_prefix_boundary(d: Seq<char>, b: nat)
    requires
        b <= d.len(),
        forall|i: int| 0 <= i < d.len() ==> (d[i] as u32) < 0x80,
    ensures
        boundary_at(d, b, b as int),
        byte_prefix(d, b) == d.take(b as int),
{
    crate::text::lemma_ascii_boundary(d, b as int);
    lemma_byte_prefix_is(d, b, b as int);
}

/// A date prefix found in an entry name can be normalized without splitting a character.
pub proof fn lemma_date_prefix_normalizable(name: Seq<char>)
    requires
        date_prefix_defined(name),
        date_prefix_of(name) is Some,
    ensures
        normalize_defined(date_prefix_of(name)->0),
        byte_len(date_prefix_of(name)->0) >= 10,
        is_boundary(date_prefix_of(name)->0, 10),
        byte_prefix(date_prefix_of(name)->0, 10) == date_prefix_of(name)->0.take(10),
{
    let base = file_name(name)->0;
    let d = date_prefix_of(name)->0;
    if byte_len(base) >= 19 && matches_timestamp(byte_prefix(base, 19)) {
        let k = chars_before_byte(base, 19);
        assert(boundary_at(base, 19, k));
        assert(d == base.take(k));
        assert forall|i: int| 0 <= i < d.len() implies (d[i] as u32) < 0x80 by {
            assert(timestamp_char_ok(i, d[i]));
        }
        crate::text::lemma_ascii_boundary(d, d.len() as int);
        assert(d.take(d.len() as int) =~= d);
        assert(d.len() == 19);
        lemma_ascii_prefix_boundary(d, 19);
        assert(d.take(19) =~= d);
        lemma_ascii_prefix_boundary(d, 10);
        assert(boundary_at(d, 10, 10));
        crate::text::lemma_byte_len_full(d);
        lemma_ascii_prefix_boundary(d, 11);
        lemma_ascii_prefix_boundary(d, 13);
        lemma_ascii_prefix_boundary(d, 14);
        lemma_ascii_prefix_boundary(d, 16);
        lemma_ascii_prefix_boundary(d, 17);
    } else {
        let k = chars_before_byte(base, 10);
        assert(boundary_at(base, 10, k));
        assert(d == base.take(k));
        assert forall|i: int| 0 <= i < d.len() implies (d[i] as u32) < 0x80 by {
            assert(date_char_ok(i, d[i]));
        }
        crate::text::lemma_ascii_boundary(d, d.len() as int);
        assert(d.take(d.len() as int) =~= d);
        assert(d.len() == 10);
        lemma_ascii_prefix_boundary(d, 10);
        assert(boundary_at(d, 10, 10));
        crate::text::lemma_byte_len_full(d);
    }
}


fn base_date_prefix_defined_exec(base: &[char]) -> (r: bool)
    ensures
        r == base_date_prefix_defined(base@),
{
    let bl19 = byte_len_at_least(base, 19);
    let mut ts = false;
    if bl19 {
        match chars_before_byte_exec(base, 19) {
            Some(k) => {
                proof {
                    lemma_byte_prefix_is(base@, 19, k as int);
                }
                let p = sub_vec(base, 0, k);
                assert(p@ =~= base@.take(k as int));
                ts = matches_timestamp_exec(p.as_slice());
            },
            None => {
                return false;
            },
        }
    }
    if !(bl19 && ts) && byte_len_at_least(base, 10) {
        return match chars_before_byte_exec(base, 10) {
            Some(_) => true,
            None => false,
        };
    }
    true
}

/// Whether `extract_date_prefix_from_name` can take the date prefix of `name` without
/// splitting a character.
pub fn date_prefix_defined_exec(name: &str) -> (r: bool)
    ensures
        r == date_prefix_defined(name@),
{
    let n = chars_of(name);
    match file_name_exec(n.as_slice()) {
        Some(base) => base_date_prefix_defined_exec(base.as_slice()),
        None => true,
    }
}


/// The first position at which `v` occurs in `s`.
fn first_occurrence(s: &[char], v: &[char]) -> (r: Option<usize>)
    ensures
        match r {
            Some(p) => occurs_at(s@, v@, p as int) && forall|q: int| 0 <= q < p ==> !occurs_at(s@, v@, q),
            None => forall|q: int| !occurs_at(s@, v@, q),
        },
{
    if v.len() > s.len() {
        return None;
    }
    let last = s.len() - v.len();
    let mut p: usize = 0;
    while p < last
        invariant
            last == s@.len() - v@.len(),
            p <= last,
            forall|q: int| 0 <= q < p ==> !occurs_at(s@, v@, q),
        decreases last - p,
    {
        if occurs_at_exec(s, v, p) {
            return Some(p);
        }
        p = p + 1;
    }
    if occurs_at_exec(s, v, last) {
        return Some(last);
    }
    None
}

fn variant_search_safe_exec(s: &[char], v: &[char]) -> (r: bool)
    ensures
        r == variant_search_safe(s@, v@),
{
    if v.len() == 0 || (v[0] as u32) < 0x80 {
        return true;
    }
    match first_occurrence(s, v) {
        Some(p) => {
            let ok = token_at_exec(s, v, p);
            if !ok {
                assert(!(occurs_at(s@, v@, p as int) && (forall|q: int| 0 <= q < p ==> !occurs_at(s@, v@, q))
                    ==> token_at(s@, v@, p as int)));
            } else {
                assert forall|q: int|
                    #![trigger occurs_at(s@, v@, q)]
                    occurs_at(s@, v@, q) && (forall|q2: int| 0 <= q2 < q ==> !occurs_at(s@, v@, q2))
                        implies token_at(s@, v@, q) by {
                    if q < p {
                    } else if q > p {
                        assert(!occurs_at(s@, v@, p as int));
                    }
                }
            }
            ok
        },
        None => true,
    }
}

/// Whether the token search for `id` in `name` stays on character boundaries.
pub fn token_search_defined_exec(name: &str, id: &str) -> (r: bool)
    ensures
        r == token_search_defined(name@, id@),
{
    let lower = to_lowercase(name);
    let s = chars_of(lower.as_str());
    let vs = id_variant_chars(id);
    let ghost vv = char_views(vs@);
    assert(id_variants(id@).len() >= 1);
    assert(vv.len() == vs@.len());
    assert(vv[0] == vs@[0]@);
    if !variant_search_safe_exec(&s, &vs[0]) {
        return false;
    }
    if vs.len() > 1 {
        assert(vv[1] == vs@[1]@);
        let first_hit = vs[0].len() > 0 && has_token_exec(&s, &vs[0]);
        if !first_hit {
            return variant_search_safe_exec(&s, &vs[1]);
        }
    }
    true
}

/// Whole-token matching of `id` in `name` (see `id_appears_as_token`), or `None` when the
/// search would have to resume inside a multi-byte character.
pub fn id_token_match(name: &str, id: &str) -> (r: Option<bool>)
    ensures
        match r {
            Some(b) => token_search_defined(name@, id@) && b == id_appears_as_token_spec(name@, id@),
            None => !token_search_defined(name@, id@),
        },
{
    if token_search_defined_exec(name, id) {
        Some(id_appears_as_token(name, id))
    } else {
        None
    }
}

} // verus!
