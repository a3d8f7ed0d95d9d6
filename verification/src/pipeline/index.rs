//! Indexes of export archives: which archive entry holds the main media, and which the
//! overlay, of each memory, keyed by `date|id`.

use vstd::prelude::*;
use crate::paths::{path_extension, path_extension_exec};
use crate::pipeline::zip::{
    composite_key_chars, composite_key_spec, date_prefix_chars, date_prefix_defined, date_prefix_of,
    id_from_filename, id_from_filename_chars, id_variant_chars, id_variants, ids_from_overlay_chars,
    ids_from_overlay_filename, lemma_date_prefix_normalizable, lit_main, lit_overlay, normalize_chars,
    normalize_date_prefix_spec,
};
use crate::strmap::{drop_fourth, StrMap};
use crate::text::{
    char_views, chars_eq, chars_of, contains, contains_exec, eq_ignore_ascii_case, eq_ignore_ascii_case_exec,
    string_of, string_views, sub_vec, to_lowercase, unicode_lowercase,
};
use crate::pipeline::zip::date_prefix_defined_exec;

verus! {

/// Index from `date|id` keys to (archive position, entry position, extension).
pub type ZipIndex = StrMap<(usize, usize, String)>;

/// Overlay candidates with the number of ids that selected them.
pub type OverlayTable = StrMap<(usize, usize, String, usize)>;

/// What the overlay indexer needs of a memory: its id, segment ids and all id aliases.
#[derive(Clone, Debug)]
pub struct OverlayItemRef {
    pub id: String,
    pub segment_ids: Option<Vec<String>>,
    pub candidate_ids: Option<Vec<String>>,
}

pub open spec fn lit_zip() -> Seq<char> {
    seq!['z', 'i', 'p']
}

pub open spec fn lit_png() -> Seq<char> {
    seq!['p', 'n', 'g']
}

pub open spec fn lit_overlay_word() -> Seq<char> {
    seq!['o', 'v', 'e', 'r', 'l', 'a', 'y']
}

/// The ids a memory is known by: its aliases, else its segments, else its own id.
pub open spec fn ref_ids(r: OverlayItemRef) -> Seq<Seq<char>> {
    match r.candidate_ids {
        Some(c) => string_views(c@),
        None => match r.segment_ids {
            Some(s) => string_views(s@),
            None => seq![r.id@],
        },
    }
}

/// The matching forms of all the given ids, in order.
pub open spec fn variants_all(ids: Seq<Seq<char>>) -> Seq<Seq<char>>
    decreases ids.len(),
{
    if ids.len() == 0 {
        Seq::empty()
    } else {
        variants_all(ids.drop_last()) + id_variants(ids.last())
    }
}

/// The matching forms of every id of a memory.
pub open spec fn ref_aliases(r: OverlayItemRef) -> Seq<Seq<char>> {
    variants_all(ref_ids(r))
}

pub open spec fn insert_all<V>(m: Map<Seq<char>, V>, keys: Seq<Seq<char>>, v: V) -> Map<
    Seq<char>,
    V,
>
    decreases keys.len(),
{
    if keys.len() == 0 {
        m
    } else {
        insert_all(m, keys.drop_last(), v).insert(keys.last(), v)
    }
}

/// Matching form of each main id to that id (a later id wins).
pub open spec fn main_id_map(ids: Seq<Seq<char>>) -> Map<Seq<char>, Seq<char>>
    decreases ids.len(),
{
    if ids.len() == 0 {
        Map::empty()
    } else {
        insert_all(main_id_map(ids.drop_last()), id_variants(ids.last()), ids.last())
    }
}

/// Matching form of each memory alias to the position of that memory (a later memory wins).
pub open spec fn segment_map(refs: Seq<OverlayItemRef>) -> Map<Seq<char>, usize>
    decreases refs.len(),
{
    if refs.len() == 0 {
        Map::empty()
    } else {
        insert_all(segment_map(refs.drop_last()), ref_aliases(refs.last()), (refs.len() - 1) as usize)
    }
}


proof fn lemma_take_push<A>(s: Seq<A>, i: int)
    requires
        0 <= i < s.len(),
    ensures
        s.take(i + 1).drop_last() == s.take(i),
        s.take(i + 1).last() == s[i],
{
    assert(s.take(i + 1).drop_last() =~= s.take(i));
}

/// Copies a list of strings.
pub fn copy_strings(v: &Vec<String>) -> (r: Vec<String>)
    ensures
        string_views(r@) == string_views(v@),
{
    let mut r: Vec<String> = Vec::new();
    let mut i: usize = 0;
    while i < v.len()
        invariant
            i <= v@.len(),
            r@.len() == i,
            forall|j: int| 0 <= j < i ==> (#[trigger] r@[j])@ == v@[j]@,
        decreases v@.len() - i,
    {
        r.push(v[i].clone());
        i = i + 1;
    }
    assert(string_views(r@) =~= string_views(v@));
    r
}

/// The ids a memory is known by (see `ref_ids`).
pub fn ref_ids_exec(r: &OverlayItemRef) -> (ids: Vec<String>)
    ensures
        string_views(ids@) == ref_ids(*r),
{
    match &r.candidate_ids {
        Some(c) => copy_strings(c),
        None => match &r.segment_ids {
            Some(s) => copy_strings(s),
            None => {
                let mut v: Vec<String> = Vec::new();
                v.push(r.id.clone());
                assert(string_views(v@) =~= seq![r.id@]);
                v
            },
        },
    }
}

/// The matching forms of all the given ids (see `variants_all`).
pub fn variants_all_exec(ids: &Vec<String>) -> (r: Vec<Vec<char>>)
    ensures
        char_views(r@) == variants_all(string_views(ids@)),
{
    let ghost sv = string_views(ids@);
    let mut r: Vec<Vec<char>> = Vec::new();
    let mut j: usize = 0;
    assert(sv.take(0) =~= Seq::<Seq<char>>::empty());
    assert(char_views(r@) =~= Seq::<Seq<char>>::empty());
    while j < ids.len()
        invariant
            j <= ids@.len(),
            sv == string_views(ids@),
            char_views(r@) == variants_all(sv.take(j as int)),
        decreases ids@.len() - j,
    {
        let mut vs = id_variant_chars(ids[j].as_str());
        let ghost r0 = char_views(r@);
        let ghost add = char_views(vs@);
        r.append(&mut vs);
        proof {
            lemma_take_push(sv, j as int);
            assert(char_views(r@) =~= r0 + add);
        }
        j = j + 1;
    }
    assert(sv.take(ids@.len() as int) =~= sv);
    r
}

/// Builds the map from matching forms of the main ids to those ids.
pub fn build_main_id_map(main_ids: &Vec<String>) -> (m: StrMap<String>)
    ensures
        m@ == main_id_map(string_views(main_ids@)),
{
    let ghost sv = string_views(main_ids@);
    let mut m: StrMap<String> = StrMap::new();
    let mut j: usize = 0;
    assert(sv.take(0) =~= Seq::<Seq<char>>::empty());
    while j < main_ids.len()
        invariant
            j <= main_ids@.len(),
            sv == string_views(main_ids@),
            m@ == main_id_map(sv.take(j as int)),
        decreases main_ids@.len() - j,
    {
        let vs = id_variant_chars(main_ids[j].as_str());
        let ghost m0 = m@;
        let mut t: usize = 0;
        assert(char_views(vs@).take(0) =~= Seq::<Seq<char>>::empty());
        while t < vs.len()
            invariant
                t <= vs@.len(),
                j < main_ids@.len(),
                m@ == insert_all(m0, char_views(vs@).take(t as int), main_ids@[j as int]@),
            decreases vs@.len() - t,
        {
            let key = string_of(vs[t].as_slice());
            m.insert(key, main_ids[j].clone());
            proof {
                lemma_take_push(char_views(vs@), t as int);
            }
            t = t + 1;
        }
        proof {
            assert(char_views(vs@).take(vs@.len() as int) =~= char_views(vs@));
            lemma_take_push(sv, j as int);
        }
        j = j + 1;
    }
    assert(sv.take(main_ids@.len() as int) =~= sv);
    m
}

/// Builds the map from aliases to memory positions, and the alias list of each memory.
pub fn build_segment_map(refs: &Vec<OverlayItemRef>) -> (r: (StrMap<usize>, Vec<Vec<Vec<char>>>))
    ensures
        r.0@ == segment_map(refs@),
        r.1@.len() == refs@.len(),
        forall|k: int| 0 <= k < refs@.len() ==> char_views(#[trigger] r.1@[k]@) == ref_aliases(refs@[k]),
{
    let mut m: StrMap<usize> = StrMap::new();
    let mut all: Vec<Vec<Vec<char>>> = Vec::new();
    let mut j: usize = 0;
    assert(refs@.take(0) =~= Seq::<OverlayItemRef>::empty());
    while j < refs.len()
        invariant
            j <= refs@.len(),
            m@ == segment_map(refs@.take(j as int)),
            all@.len() == j,
            forall|k: int| 0 <= k < j ==> char_views(#[trigger] all@[k]@) == ref_aliases(refs@[k]),
        decreases refs@.len() - j,
    {
        let ids = ref_ids_exec(&refs[j]);
        let vs = variants_all_exec(&ids);
        let ghost m0 = m@;
        let mut t: usize = 0;
        assert(char_views(vs@).take(0) =~= Seq::<Seq<char>>::empty());
        while t < vs.len()
            invariant
                t <= vs@.len(),
                m@ == insert_all(m0, char_views(vs@).take(t as int), j),
            decreases vs@.len() - t,
        {
            let key = string_of(vs[t].as_slice());
            m.insert(key, j);
            proof {
                lemma_take_push(char_views(vs@), t as int);
            }
            t = t + 1;
        }
        proof {
            assert(char_views(vs@).take(vs@.len() as int) =~= char_views(vs@));
            lemma_take_push(refs@, j as int);
            assert(refs@.take(j + 1).len() - 1 == j);
        }
        all.push(vs);
        j = j + 1;
    }
    assert(refs@.take(refs@.len() as int) =~= refs@);
    (m, all)
}


// ---------------------------------------------------------------------------
// One archive entry
// ---------------------------------------------------------------------------

pub open spec fn lower_all(ids: Seq<Seq<char>>) -> Seq<Seq<char>> {
    ids.map_values(|i: Seq<char>| unicode_lowercase(i))
}

/// The ids named by an entry: all ids of an overlay-like name, else the one id of a
/// `-main`/`-overlay` name.
pub open spec fn entry_ids(name: Seq<char>, overlay_like: bool) -> Seq<Seq<char>> {
    if overlay_like {
        match ids_from_overlay_filename(name) {
            Some(v) => v,
            None => Seq::empty(),
        }
    } else {
        match id_from_filename(name) {
            Some(i) => seq![i],
            None => Seq::empty(),
        }
    }
}

/// Keys under which an entry naming `idl` is indexed as main media: the id itself, every
/// alias of the memory owning it, and the main id it stands for.
pub open spec fn keys_for_id(idl: Seq<char>, refs: Seq<OverlayItemRef>, main_ids: Seq<Seq<char>>) -> Seq<Seq<char>> {
    let seg = segment_map(refs);
    let mm = main_id_map(main_ids);
    let aliases = if seg.dom().contains(idl) {
        ref_aliases(refs[seg[idl] as int])
    } else {
        Seq::empty()
    };
    let orig = if mm.dom().contains(idl) {
        seq![mm[idl]]
    } else {
        Seq::empty()
    };
    seq![idl] + aliases + orig
}

pub open spec fn keys_for_ids(ids: Seq<Seq<char>>, refs: Seq<OverlayItemRef>, main_ids: Seq<Seq<char>>) -> Seq<Seq<char>>
    decreases ids.len(),
{
    if ids.len() == 0 {
        Seq::empty()
    } else {
        keys_for_ids(ids.drop_last(), refs, main_ids) + keys_for_id(ids.last(), refs, main_ids)
    }
}

/// A `-main` entry replaces an earlier entry for the key; another entry only fills an empty key.
pub open spec fn put_main(
    m: Map<Seq<char>, (usize, usize, Seq<char>)>,
    key: Seq<char>,
    val: (usize, usize, Seq<char>),
    is_main: bool,
) -> Map<Seq<char>, (usize, usize, Seq<char>)> {
    if is_main || !m.dom().contains(key) {
        m.insert(key, val)
    } else {
        m
    }
}

pub open spec fn put_keys(
    m: Map<Seq<char>, (usize, usize, Seq<char>)>,
    date: Option<Seq<char>>,
    ids: Seq<Seq<char>>,
    val: (usize, usize, Seq<char>),
    is_main: bool,
) -> Map<Seq<char>, (usize, usize, Seq<char>)>
    decreases ids.len(),
{
    if ids.len() == 0 {
        m
    } else {
        put_main(put_keys(m, date, ids.drop_last(), val, is_main), composite_key_spec(date, ids.last()), val, is_main)
    }
}

/// The ids of `ids` that belong to some memory, in order.
pub open spec fn known_ids(ids: Seq<Seq<char>>, refs: Seq<OverlayItemRef>) -> Seq<Seq<char>>
    decreases ids.len(),
{
    if ids.len() == 0 {
        Seq::empty()
    } else if segment_map(refs).dom().contains(ids.last()) {
        known_ids(ids.drop_last(), refs).push(ids.last())
    } else {
        known_ids(ids.drop_last(), refs)
    }
}

/// `s` with repeated elements dropped, first occurrences kept in order.
pub open spec fn dedup(s: Seq<Seq<char>>) -> Seq<Seq<char>>
    decreases s.len(),
{
    if s.len() == 0 {
        s
    } else if dedup(s.drop_last()).contains(s.last()) {
        dedup(s.drop_last())
    } else {
        dedup(s.drop_last()).push(s.last())
    }
}

/// The memory owning `m` has every id of `matching` among its aliases.
pub open spec fn covers(m: Seq<char>, matching: Seq<Seq<char>>, refs: Seq<OverlayItemRef>) -> bool {
    forall|x: int| 0 <= x < matching.len() ==> ref_aliases(refs[segment_map(refs)[m] as int]).contains(
        #[trigger] matching[x],
    )
}

/// The first id of `cands` whose memory covers all of `matching`.
pub open spec fn first_covering(cands: Seq<Seq<char>>, matching: Seq<Seq<char>>, refs: Seq<OverlayItemRef>) -> Option<Seq<char>>
    decreases cands.len(),
{
    if cands.len() == 0 {
        None
    } else if covers(cands[0], matching, refs) {
        Some(cands[0])
    } else {
        first_covering(cands.drop_first(), matching, refs)
    }
}

/// Records an overlay entry for the memory its ids select. An entry whose ids all belong to
/// one memory is recorded with their number as specificity and replaces a less specific
/// one; otherwise it is recorded (specificity 0) for the memory of its first id, only where
/// nothing specific was recorded.
pub open spec fn put_overlay(
    o: Map<Seq<char>, (usize, usize, Seq<char>, usize)>,
    matching: Seq<Seq<char>>,
    date: Option<Seq<char>>,
    z: usize,
    i: usize,
    ext: Seq<char>,
    refs: Seq<OverlayItemRef>,
) -> Map<Seq<char>, (usize, usize, Seq<char>, usize)> {
    if matching.len() == 0 {
        o
    } else {
        let n = matching.len() as usize;
        let seg = segment_map(refs);
        match first_covering(matching, matching, refs) {
            Some(m) => {
                let key = composite_key_spec(date, refs[seg[m] as int].id@);
                if !o.dom().contains(key) || n > o[key].3 {
                    o.insert(key, (z, i, ext, n))
                } else {
                    o
                }
            },
            None => {
                let key = composite_key_spec(date, refs[seg[matching[0]] as int].id@);
                if !o.dom().contains(key) || (o[key].3 == 0 && n > 0) {
                    o.insert(key, (z, i, ext, 0usize))
                } else {
                    o
                }
            },
        }
    }
}

/// Indexing of the entry at position `i` of archive `z`. An overlay (a name holding
/// `overlay`, or a PNG that is not `-main`) goes to the overlay table only; any other
/// entry goes to the main index only.
pub open spec fn index_entry(
    state: (Map<Seq<char>, (usize, usize, Seq<char>)>, Map<Seq<char>, (usize, usize, Seq<char>, usize)>),
    name: Seq<char>,
    z: usize,
    i: usize,
    refs: Seq<OverlayItemRef>,
    main_ids: Seq<Seq<char>>,
) -> (Map<Seq<char>, (usize, usize, Seq<char>)>, Map<Seq<char>, (usize, usize, Seq<char>, usize)>) {
    let lower = unicode_lowercase(name);
    let ext = match path_extension(name) {
        Some(e) => e,
        None => lit_zip(),
    };
    let is_main = contains(lower, lit_main());
    let is_explicit_overlay = contains(lower, lit_overlay()) || contains(lower, lit_overlay_word());
    let is_png = eq_ignore_ascii_case(ext, lit_png());
    let date = date_prefix_of(name);
    let ndate = match date {
        Some(d) => Some(normalize_date_prefix_spec(d)),
        None => None,
    };
    let ids = lower_all(entry_ids(name, is_explicit_overlay || is_png));
    let is_overlay = is_explicit_overlay || (is_png && !is_main);
    let main = if !is_overlay {
        put_keys(state.0, ndate, keys_for_ids(ids, refs, main_ids), (z, i, ext), is_main)
    } else {
        state.0
    };
    let ov = if is_overlay {
        put_overlay(state.1, dedup(known_ids(ids, refs)), date, z, i, ext, refs)
    } else {
        state.1
    };
    (main, ov)
}


/// An entry is indexed in at most one of the two tables: where it changes the main index
/// the overlay table stays as it was, and the other way round. In particular an entry
/// that the overlay rule counts as an overlay never gets a main-media key.
pub proof fn lemma_entry_in_one_table(
    state: (Map<Seq<char>, (usize, usize, Seq<char>)>, Map<Seq<char>, (usize, usize, Seq<char>, usize)>),
    name: Seq<char>,
    z: usize,
    i: usize,
    refs: Seq<OverlayItemRef>,
    main_ids: Seq<Seq<char>>,
)
    ensures
        index_entry(state, name, z, i, refs, main_ids).0 == state.0 || index_entry(state, name, z, i, refs, main_ids).1
            == state.1,
        ({
            let lower = unicode_lowercase(name);
            let ext = match path_extension(name) {
                Some(e) => e,
                None => lit_zip(),
            };
            contains(lower, lit_overlay_word()) || (eq_ignore_ascii_case(ext, lit_png()) && !contains(lower, lit_main()))
        }) ==> index_entry(state, name, z, i, refs, main_ids).0 == state.0,
{
}

proof fn lemma_insert_all_bound(m: Map<Seq<char>, usize>, keys: Seq<Seq<char>>, v: usize, bound: int)
    requires
        v < bound,
        forall|k: Seq<char>| #[trigger] m.dom().contains(k) ==> m[k] < bound,
    ensures
        forall|k: Seq<char>| #[trigger] insert_all(m, keys, v).dom().contains(k) ==> insert_all(m, keys, v)[k] < bound,
    decreases keys.len(),
{
    if keys.len() > 0 {
        lemma_insert_all_bound(m, keys.drop_last(), v, bound);
        let prev = insert_all(m, keys.drop_last(), v);
        assert(insert_all(m, keys, v) == prev.insert(keys.last(), v));
        assert forall|k: Seq<char>| #[trigger] insert_all(m, keys, v).dom().contains(k) implies insert_all(m, keys, v)[k] < bound by {
            if k != keys.last() {
                assert(prev.dom().contains(k));
            }
        }
    }
}

/// Every memory position in the alias map is a position of `refs`.
pub proof fn lemma_segment_map_bound(refs: Seq<OverlayItemRef>)
    ensures
        forall|k: Seq<char>| #[trigger] segment_map(refs).dom().contains(k) ==> segment_map(refs)[k] < refs.len(),
    decreases refs.len(),
{
    if refs.len() > 0 {
        lemma_segment_map_bound(refs.drop_last());
        lemma_insert_all_bound(segment_map(refs.drop_last()), ref_aliases(refs.last()), (refs.len() - 1) as usize, refs.len() as int);
    }
}

/// Whether `s` holds `x`.
pub fn seq_contains_exec(s: &Vec<Vec<char>>, x: &[char]) -> (r: bool)
    ensures
        r == char_views(s@).contains(x@),
{
    let mut i: usize = 0;
    while i < s.len()
        invariant
            i <= s@.len(),
            forall|j: int| 0 <= j < i ==> (#[trigger] s@[j])@ != x@,
        decreases s@.len() - i,
    {
        if chars_eq(s[i].as_slice(), x) {
            assert(char_views(s@)[i as int] == x@);
            return true;
        }
        i = i + 1;
    }
    proof {
        if char_views(s@).contains(x@) {
            let j = choose|j: int| 0 <= j < char_views(s@).len() && char_views(s@)[j] == x@;
            assert(s@[j]@ == x@);
        }
    }
    false
}

/// Lowercases each id.
pub fn lower_all_exec(ids: &Vec<Vec<char>>) -> (r: Vec<Vec<char>>)
    ensures
        char_views(r@) == lower_all(char_views(ids@)),
{
    let mut r: Vec<Vec<char>> = Vec::new();
    let mut i: usize = 0;
    while i < ids.len()
        invariant
            i <= ids@.len(),
            r@.len() == i,
            forall|j: int| 0 <= j < i ==> (#[trigger] r@[j])@ == unicode_lowercase(ids@[j]@),
        decreases ids@.len() - i,
    {
        let s = string_of(ids[i].as_slice());
        let l = to_lowercase(s.as_str());
        r.push(chars_of(l.as_str()));
        i = i + 1;
    }
    assert(char_views(r@) =~= lower_all(char_views(ids@)));
    r
}

/// The context an entry is indexed in: memories, their aliases, and the main ids.
pub struct IndexContext<'a> {
    pub refs: &'a Vec<OverlayItemRef>,
    pub main_ids: &'a Vec<String>,
    pub segments: StrMap<usize>,
    pub aliases: Vec<Vec<Vec<char>>>,
    pub main_map: StrMap<String>,
}

impl<'a> IndexContext<'a> {
    pub open spec fn wf(&self) -> bool {
        &&& self.segments@ == segment_map(self.refs@)
        &&& self.aliases@.len() == self.refs@.len()
        &&& forall|k: int| 0 <= k < self.refs@.len() ==> char_views(#[trigger] self.aliases@[k]@) == ref_aliases(self.refs@[k])
        &&& self.main_map@ == main_id_map(string_views(self.main_ids@))
    }

    pub fn new(refs: &'a Vec<OverlayItemRef>, main_ids: &'a Vec<String>) -> (c: Self)
        ensures
            c.wf(),
            c.refs == refs,
            c.main_ids == main_ids,
    {
        let (segments, aliases) = build_segment_map(refs);
        let main_map = build_main_id_map(main_ids);
        IndexContext { refs, main_ids, segments, aliases, main_map }
    }

    fn keys_for_id_exec(&self, idl: &[char]) -> (r: Vec<Vec<char>>)
        requires
            self.wf(),
        ensures
            char_views(r@) == keys_for_id(idl@, self.refs@, string_views(self.main_ids@)),
    {
        let mut r: Vec<Vec<char>> = Vec::new();
        r.push(sub_vec(idl, 0, idl.len()));
        assert(idl@.subrange(0, idl@.len() as int) =~= idl@);
        let key = string_of(idl);
        let ghost r0 = char_views(r@);
        assert(r0 =~= seq![idl@]);
        proof {
            lemma_segment_map_bound(self.refs@);
        }
        match self.segments.get(key.as_str()) {
            Some(pos) => {
                let a = &self.aliases[*pos];
                let mut t: usize = 0;
                while t < a.len()
                    invariant
                        t <= a@.len(),
                        char_views(r@) == r0 + char_views(a@).take(t as int),
                    decreases a@.len() - t,
                {
                    let item = sub_vec(a[t].as_slice(), 0, a[t].len());
                    assert(item@ =~= a@[t as int]@);
                    let ghost rr = r@;
                    r.push(item);
                    assert(r@ == rr.push(item));
                    assert(char_views(a@)[t as int] == a@[t as int]@);
                    assert(char_views(r@) =~= char_views(rr).push(item@));
                    assert(char_views(a@).take(t + 1) =~= char_views(a@).take(t as int).push(item@));
                    assert(char_views(r@) =~= r0 + char_views(a@).take(t + 1));
                    t = t + 1;
                }
                assert(char_views(a@).take(a@.len() as int) =~= char_views(a@));
            },
            None => {
                assert(char_views(r@) =~= r0 + Seq::<Seq<char>>::empty());
            },
        }
        let ghost r1 = char_views(r@);
        match self.main_map.get(key.as_str()) {
            Some(orig) => {
                r.push(chars_of(orig.as_str()));
                assert(char_views(r@) =~= r1 + seq![orig@]);
            },
            None => {
                assert(char_views(r@) =~= r1 + Seq::<Seq<char>>::empty());
            },
        }
        r
    }

    /// Main-media keys for a list of lowercase ids (see `keys_for_ids`).
    pub fn keys_for_ids_exec(&self, ids: &Vec<Vec<char>>) -> (r: Vec<Vec<char>>)
        requires
            self.wf(),
        ensures
            char_views(r@) == keys_for_ids(char_views(ids@), self.refs@, string_views(self.main_ids@)),
    {
        let ghost iv = char_views(ids@);
        let mut r: Vec<Vec<char>> = Vec::new();
        let mut j: usize = 0;
        assert(iv.take(0) =~= Seq::<Seq<char>>::empty());
        assert(char_views(r@) =~= Seq::<Seq<char>>::empty());
        while j < ids.len()
            invariant
                self.wf(),
                j <= ids@.len(),
                iv == char_views(ids@),
                char_views(r@) == keys_for_ids(iv.take(j as int), self.refs@, string_views(self.main_ids@)),
            decreases ids@.len() - j,
        {
            let mut k = self.keys_for_id_exec(ids[j].as_slice());
            let ghost r0 = char_views(r@);
            let ghost add = char_views(k@);
            r.append(&mut k);
            proof {
                lemma_take_push(iv, j as int);
                assert(char_views(r@) =~= r0 + add);
            }
            j = j + 1;
        }
        assert(iv.take(ids@.len() as int) =~= iv);
        r
    }

    /// The ids of `ids` that belong to some memory (see `known_ids`).
    pub fn known_ids_exec(&self, ids: &Vec<Vec<char>>) -> (r: Vec<Vec<char>>)
        requires
            self.wf(),
        ensures
            char_views(r@) == known_ids(char_views(ids@), self.refs@),
    {
        let ghost iv = char_views(ids@);
        let mut r: Vec<Vec<char>> = Vec::new();
        let mut j: usize = 0;
        assert(iv.take(0) =~= Seq::<Seq<char>>::empty());
        assert(char_views(r@) =~= Seq::<Seq<char>>::empty());
        while j < ids.len()
            invariant
                self.wf(),
                j <= ids@.len(),
                iv == char_views(ids@),
                char_views(r@) == known_ids(iv.take(j as int), self.refs@),
            decreases ids@.len() - j,
        {
            let key = string_of(ids[j].as_slice());
            proof {
                lemma_take_push(iv, j as int);
            }
            if self.segments.contains_key(key.as_str()) {
                let ghost r0 = char_views(r@);
                r.push(sub_vec(ids[j].as_slice(), 0, ids[j].len()));
                assert(ids@[j as int]@.subrange(0, ids@[j as int]@.len() as int) =~= ids@[j as int]@);
                assert(char_views(r@) =~= r0.push(iv[j as int]));
            }
            j = j + 1;
        }
        assert(iv.take(ids@.len() as int) =~= iv);
        r
    }

    fn covers_exec(&self, m: &[char], matching: &Vec<Vec<char>>) -> (r: bool)
        requires
            self.wf(),
            segment_map(self.refs@).dom().contains(m@),
        ensures
            r == covers(m@, char_views(matching@), self.refs@),
    {
        proof {
            lemma_segment_map_bound(self.refs@);
        }
        let key = string_of(m);
        let pos = match self.segments.get(key.as_str()) {
            Some(p) => *p,
            None => {
                return false;
            },
        };
        let a = &self.aliases[pos];
        let mut x: usize = 0;
        while x < matching.len()
            invariant
                x <= matching@.len(),
                pos < self.refs@.len(),
                char_views(a@) == ref_aliases(self.refs@[pos as int]),
                segment_map(self.refs@)[m@] == pos,
                forall|y: int| 0 <= y < x ==> ref_aliases(self.refs@[pos as int]).contains(#[trigger] char_views(matching@)[y]),
            decreases matching@.len() - x,
        {
            assert(char_views(matching@)[x as int] == matching@[x as int]@);
            if !seq_contains_exec(a, matching[x].as_slice()) {
                return false;
            }
            x = x + 1;
        }
        true
    }

    /// The first id of `cands` whose memory covers `matching` (see `first_covering`).
    pub fn first_covering_exec(&self, cands: &Vec<Vec<char>>, matching: &Vec<Vec<char>>) -> (r: Option<usize>)
        requires
            self.wf(),
            forall|j: int| 0 <= j < cands@.len() ==> segment_map(self.refs@).dom().contains(#[trigger] cands@[j]@),
        ensures
            match r {
                Some(j) => j < cands@.len() && first_covering(char_views(cands@), char_views(matching@), self.refs@) == Some(cands@[j as int]@),
                None => first_covering(char_views(cands@), char_views(matching@), self.refs@) is None,
            },
    {
        let ghost cv = char_views(cands@);
        let ghost mv = char_views(matching@);
        let mut j: usize = 0;
        assert(cv.skip(0) =~= cv);
        while j < cands.len()
            invariant
                self.wf(),
                j <= cands@.len(),
                cv == char_views(cands@),
                mv == char_views(matching@),
                forall|k: int| 0 <= k < cands@.len() ==> segment_map(self.refs@).dom().contains(#[trigger] cands@[k]@),
                first_covering(cv, mv, self.refs@) == first_covering(cv.skip(j as int), mv, self.refs@),
            decreases cands@.len() - j,
        {
            assert(cv.skip(j as int)[0] == cands@[j as int]@);
            if self.covers_exec(cands[j].as_slice(), matching) {
                return Some(j);
            }
            assert(cv.skip(j as int).drop_first() =~= cv.skip(j + 1));
            j = j + 1;
        }
        assert(cv.skip(j as int).len() == 0);
        None
    }
}

/// Drops repeated ids, keeping first occurrences in order (see `dedup`).
pub fn dedup_exec(s: &Vec<Vec<char>>) -> (r: Vec<Vec<char>>)
    ensures
        char_views(r@) == dedup(char_views(s@)),
{
    let ghost sv = char_views(s@);
    let mut r: Vec<Vec<char>> = Vec::new();
    let mut j: usize = 0;
    assert(sv.take(0) =~= Seq::<Seq<char>>::empty());
    assert(char_views(r@) =~= Seq::<Seq<char>>::empty());
    while j < s.len()
        invariant
            j <= s@.len(),
            sv == char_views(s@),
            char_views(r@) == dedup(sv.take(j as int)),
        decreases s@.len() - j,
    {
        proof {
            lemma_take_push(sv, j as int);
        }
        if !seq_contains_exec(&r, s[j].as_slice()) {
            let ghost r0 = char_views(r@);
            r.push(sub_vec(s[j].as_slice(), 0, s[j].len()));
            assert(s@[j as int]@.subrange(0, s@[j as int]@.len() as int) =~= s@[j as int]@);
            assert(char_views(r@) =~= r0.push(sv[j as int]));
        }
        j = j + 1;
    }
    assert(sv.take(s@.len() as int) =~= sv);
    r
}


pub open spec fn opt_view(d: Option<Vec<char>>) -> Option<Seq<char>> {
    match d {
        Some(v) => Some(v@),
        None => None,
    }
}

fn opt_slice(d: &Option<Vec<char>>) -> (r: Option<&[char]>)
    ensures
        match r {
            Some(s) => d is Some && s@ == d->0@,
            None => d is None,
        },
{
    match d {
        Some(v) => Some(v.as_slice()),
        None => None,
    }
}

/// Adds one main-media key per id (see `put_keys`).
pub fn put_keys_exec(
    m: &mut ZipIndex,
    date: &Option<Vec<char>>,
    keys: &Vec<Vec<char>>,
    z: usize,
    i: usize,
    ext: &[char],
    is_main: bool,
)
    ensures
        final(m)@ == put_keys(old(m)@, opt_view(*date), char_views(keys@), (z, i, ext@), is_main),
{
    let ghost kv = char_views(keys@);
    let ghost start = m@;
    let mut t: usize = 0;
    assert(kv.take(0) =~= Seq::<Seq<char>>::empty());
    while t < keys.len()
        invariant
            t <= keys@.len(),
            kv == char_views(keys@),
            m@ == put_keys(start, opt_view(*date), kv.take(t as int), (z, i, ext@), is_main),
        decreases keys@.len() - t,
    {
        let ds = opt_slice(date);
        let kc = composite_key_chars(ds, keys[t].as_slice());
        let key = string_of(kc.as_slice());
        proof {
            lemma_take_push(kv, t as int);
            assert(kv[t as int] == keys@[t as int]@);
            assert(match ds { Some(s) => Some(s@), None => None::<Seq<char>> } == opt_view(*date));
        }
        if is_main || !m.contains_key(key.as_str()) {
            m.insert(key, (z, i, string_of(ext)));
        }
        t = t + 1;
    }
    assert(kv.take(keys@.len() as int) =~= kv);
}

impl<'a> IndexContext<'a> {
    /// Records an overlay entry (see `put_overlay`).
    pub fn put_overlay_exec(
        &self,
        o: &mut OverlayTable,
        matching: &Vec<Vec<char>>,
        date: &Option<Vec<char>>,
        z: usize,
        i: usize,
        ext: &[char],
    )
        requires
            self.wf(),
            forall|j: int| 0 <= j < matching@.len() ==> segment_map(self.refs@).dom().contains(#[trigger] matching@[j]@),
        ensures
            final(o)@ == put_overlay(old(o)@, char_views(matching@), opt_view(*date), z, i, ext@, self.refs@),
    {
        if matching.len() == 0 {
            return;
        }
        let n = matching.len();
        proof {
            lemma_segment_map_bound(self.refs@);
            assert(char_views(matching@)[0] == matching@[0]@);
        }
        let (m_idx, specific) = match self.first_covering_exec(matching, matching) {
            Some(j) => (j, true),
            None => (0usize, false),
        };
        let mkey = string_of(matching[m_idx].as_slice());
        let pos = match self.segments.get(mkey.as_str()) {
            Some(p) => *p,
            None => {
                return;
            },
        };
        let ds = opt_slice(date);
        let idc = chars_of(self.refs[pos].id.as_str());
        let kc = composite_key_chars(ds, idc.as_slice());
        let key = string_of(kc.as_slice());
        proof {
            assert(match ds { Some(s) => Some(s@), None => None::<Seq<char>> } == opt_view(*date));
        }
        let existing = match o.get(key.as_str()) {
            Some(e) => Some(e.3),
            None => None,
        };
        if specific {
            let put = match existing {
                Some(s) => n > s,
                None => true,
            };
            if put {
                o.insert(key, (z, i, string_of(ext), n));
            }
        } else {
            let put = match existing {
                Some(s) => s == 0 && n > 0,
                None => true,
            };
            if put {
                o.insert(key, (z, i, string_of(ext), 0));
            }
        }
    }
}


proof fn lemma_known_ids_in_dom(ids: Seq<Seq<char>>, refs: Seq<OverlayItemRef>)
    ensures
        forall|j: int| 0 <= j < known_ids(ids, refs).len() ==> segment_map(refs).dom().contains(#[trigger] known_ids(ids, refs)[j]),
    decreases ids.len(),
{
    if ids.len() > 0 {
        lemma_known_ids_in_dom(ids.drop_last(), refs);
        let prev = known_ids(ids.drop_last(), refs);
        assert forall|j: int| 0 <= j < known_ids(ids, refs).len() implies segment_map(refs).dom().contains(#[trigger] known_ids(ids, refs)[j]) by {
            if segment_map(refs).dom().contains(ids.last()) {
                assert(known_ids(ids, refs) == prev.push(ids.last()));
                if j < prev.len() {
                    assert(known_ids(ids, refs)[j] == prev[j]);
                }
            } else {
                assert(known_ids(ids, refs) == prev);
            }
        }
    }
}

proof fn lemma_dedup_subset(s: Seq<Seq<char>>)
    ensures
        forall|j: int| 0 <= j < dedup(s).len() ==> s.contains(#[trigger] dedup(s)[j]),
    decreases s.len(),
{
    if s.len() > 0 {
        lemma_dedup_subset(s.drop_last());
        assert forall|j: int| 0 <= j < dedup(s).len() implies s.contains(#[trigger] dedup(s)[j]) by {
            if j < dedup(s.drop_last()).len() {
                let k = choose|k: int| 0 <= k < s.drop_last().len() && s.drop_last()[k] == dedup(s.drop_last())[j];
                assert(s[k] == s.drop_last()[k]);
            } else {
                assert(s[s.len() - 1] == s.last());
            }
        }
    }
}

impl<'a> IndexContext<'a> {
    /// Indexes the entry at position `i` of archive `z` (see `index_entry`).
    pub fn index_entry_exec(&self, main: &mut ZipIndex, ov: &mut OverlayTable, name: &str, z: usize, i: usize)
        requires
            self.wf(),
            date_prefix_defined(name@),
        ensures
            (final(main)@, final(ov)@) == index_entry(
                (old(main)@, old(ov)@),
                name@,
                z,
                i,
                self.refs@,
                string_views(self.main_ids@),
            ),
    {
        let name_c = chars_of(name);
        let lower = to_lowercase(name);
        let lc = chars_of(lower.as_str());
        let ext: Vec<char> = match path_extension_exec(name_c.as_slice()) {
            Some(e) => e,
            None => {
                assert(['z', 'i', 'p']@ =~= lit_zip());
                sub_vec(&['z', 'i', 'p'], 0, 3)
            },
        };
        assert(['-', 'm', 'a', 'i', 'n']@ =~= lit_main());
        assert(['-', 'o', 'v', 'e', 'r', 'l', 'a', 'y']@ =~= lit_overlay());
        assert(['o', 'v', 'e', 'r', 'l', 'a', 'y']@ =~= lit_overlay_word());
        assert(['p', 'n', 'g']@ =~= lit_png());
        let is_main = contains_exec(lc.as_slice(), &['-', 'm', 'a', 'i', 'n']);
        let has_dash_overlay = contains_exec(lc.as_slice(), &['-', 'o', 'v', 'e', 'r', 'l', 'a', 'y']);
        let is_explicit_overlay = has_dash_overlay || contains_exec(lc.as_slice(), &['o', 'v', 'e', 'r', 'l', 'a', 'y']);
        let is_png = eq_ignore_ascii_case_exec(ext.as_slice(), &['p', 'n', 'g']);
        let date = date_prefix_chars(name_c.as_slice());
        let ndate: Option<Vec<char>> = match &date {
            Some(d) => {
                proof {
                    lemma_date_prefix_normalizable(name@);
                }
                Some(normalize_chars(d.as_slice()))
            },
            None => None,
        };
        let overlay_like = is_explicit_overlay || is_png;
        let raw_ids: Vec<Vec<char>> = if overlay_like {
            match ids_from_overlay_chars(name_c.as_slice()) {
                Some(v) => v,
                None => Vec::new(),
            }
        } else {
            match id_from_filename_chars(name_c.as_slice()) {
                Some(one) => {
                    let ghost ov = one@;
                    let mut v: Vec<Vec<char>> = Vec::new();
                    v.push(one);
                    assert(char_views(v@) =~= seq![ov]);
                    v
                },
                None => Vec::new(),
            }
        };
        assert(char_views(raw_ids@) =~= crate::pipeline::index::entry_ids(name@, overlay_like));
        let ids = lower_all_exec(&raw_ids);
        let ghost ext_v = ext@;
        assert(ext_v == match path_extension(name@) {
            Some(e) => e,
            None => lit_zip(),
        });
        let is_overlay = is_explicit_overlay || (is_png && !is_main);
        if !is_overlay {
            let keys = self.keys_for_ids_exec(&ids);
            put_keys_exec(main, &ndate, &keys, z, i, ext.as_slice(), is_main);
        }
        if is_overlay {
            let known = self.known_ids_exec(&ids);
            let matching = dedup_exec(&known);
            proof {
                lemma_known_ids_in_dom(char_views(ids@), self.refs@);
                lemma_dedup_subset(char_views(known@));
                assert forall|j: int| 0 <= j < matching@.len() implies segment_map(self.refs@).dom().contains(#[trigger] matching@[j]@) by {
                    assert(char_views(matching@)[j] == matching@[j]@);
                    let k = choose|k: int| 0 <= k < char_views(known@).len() && char_views(known@)[k] == char_views(matching@)[j];
                }
            }
            self.put_overlay_exec(ov, &matching, &date, z, i, ext.as_slice());
        }
    }
}


// ---------------------------------------------------------------------------
// Whole archives
// ---------------------------------------------------------------------------

/// Every entry name of the archive has a date prefix that can be taken without splitting a
/// character. (An archive with a name that fails this contributes nothing to the index.)
pub open spec fn names_indexable(names: Seq<Seq<char>>) -> bool {
    forall|k: int| 0 <= k < names.len() ==> date_prefix_defined(#[trigger] names[k])
}

/// The entries of archive `z`, indexed in order.
pub open spec fn index_names(
    names: Seq<Seq<char>>,
    z: usize,
    refs: Seq<OverlayItemRef>,
    main_ids: Seq<Seq<char>>,
) -> (Map<Seq<char>, (usize, usize, Seq<char>)>, Map<Seq<char>, (usize, usize, Seq<char>, usize)>)
    decreases names.len(),
{
    if names.len() == 0 {
        (Map::empty(), Map::empty())
    } else {
        index_entry(
            index_names(names.drop_last(), z, refs, main_ids),
            names.last(),
            z,
            (names.len() - 1) as usize,
            refs,
            main_ids,
        )
    }
}

/// The index of one archive: empty when it could not be read (`None`) or holds a name
/// whose date prefix cannot be taken.
pub open spec fn index_zip(
    names: Option<Seq<Seq<char>>>,
    z: usize,
    refs: Seq<OverlayItemRef>,
    main_ids: Seq<Seq<char>>,
) -> (Map<Seq<char>, (usize, usize, Seq<char>)>, Map<Seq<char>, (usize, usize, Seq<char>, usize)>) {
    match names {
        Some(n) => if names_indexable(n) {
            index_names(n, z, refs, main_ids)
        } else {
            (Map::empty(), Map::empty())
        },
        None => (Map::empty(), Map::empty()),
    }
}

/// The indexes of all archives, a later archive's keys winning.
pub open spec fn index_zips(
    zips: Seq<Option<Seq<Seq<char>>>>,
    refs: Seq<OverlayItemRef>,
    main_ids: Seq<Seq<char>>,
) -> (Map<Seq<char>, (usize, usize, Seq<char>)>, Map<Seq<char>, (usize, usize, Seq<char>, usize)>)
    decreases zips.len(),
{
    if zips.len() == 0 {
        (Map::empty(), Map::empty())
    } else {
        let prev = index_zips(zips.drop_last(), refs, main_ids);
        let local = index_zip(zips.last(), (zips.len() - 1) as usize, refs, main_ids);
        (prev.0.union_prefer_right(local.0), prev.1.union_prefer_right(local.1))
    }
}

/// The entry names of each archive (`None` where it could not be read).
pub open spec fn zip_views(zips: Seq<Option<Vec<String>>>) -> Seq<Option<Seq<Seq<char>>>> {
    zips.map_values(
        |o: Option<Vec<String>>|
            match o {
                Some(v) => Some(string_views(v@)),
                None => None,
            },
    )
}

/// The main-media and overlay indexes built from the given archives.
pub open spec fn pipeline_indexes(
    zips: Seq<Option<Seq<Seq<char>>>>,
    refs: Seq<OverlayItemRef>,
    main_ids: Seq<Seq<char>>,
) -> (Map<Seq<char>, (usize, usize, Seq<char>)>, Map<Seq<char>, (usize, usize, Seq<char>)>) {
    let r = index_zips(zips, refs, main_ids);
    (r.0, drop_fourth(r.1))
}

fn names_indexable_exec(names: &Vec<String>) -> (r: bool)
    ensures
        r == names_indexable(string_views(names@)),
{
    let mut k: usize = 0;
    while k < names.len()
        invariant
            k <= names@.len(),
            forall|j: int| 0 <= j < k ==> date_prefix_defined(#[trigger] names@[j]@),
        decreases names@.len() - k,
    {
        if !date_prefix_defined_exec(names[k].as_str()) {
            assert(string_views(names@)[k as int] == names@[k as int]@);
            return false;
        }
        k = k + 1;
    }
    assert forall|j: int| 0 <= j < string_views(names@).len() implies date_prefix_defined(#[trigger] string_views(names@)[j]) by {
        assert(string_views(names@)[j] == names@[j]@);
    }
    true
}

impl<'a> IndexContext<'a> {
    /// Indexes the entries of archive `z`, given their names in archive order.
    pub fn index_single_zip(&self, z: usize, names: &Vec<String>) -> (r: (ZipIndex, OverlayTable))
        requires
            self.wf(),
        ensures
            (r.0@, r.1@) == index_zip(Some(string_views(names@)), z, self.refs@, string_views(self.main_ids@)),
    {
        let mut main: ZipIndex = StrMap::new();
        let mut ov: OverlayTable = StrMap::new();
        if !names_indexable_exec(names) {
            return (main, ov);
        }
        let ghost nv = string_views(names@);
        let mut i: usize = 0;
        assert(nv.take(0) =~= Seq::<Seq<char>>::empty());
        while i < names.len()
            invariant
                self.wf(),
                i <= names@.len(),
                nv == string_views(names@),
                names_indexable(nv),
                (main@, ov@) == index_names(nv.take(i as int), z, self.refs@, string_views(self.main_ids@)),
            decreases names@.len() - i,
        {
            proof {
                lemma_take_push(nv, i as int);
                assert(nv[i as int] == names@[i as int]@);
                assert(date_prefix_defined(nv[i as int]));
            }
            self.index_entry_exec(&mut main, &mut ov, names[i].as_str(), z, i);
            i = i + 1;
        }
        assert(nv.take(names@.len() as int) =~= nv);
        (main, ov)
    }
}

/// Builds the main-media and overlay indexes of the export archives in one pass. `zips[z]` holds
/// the entry names of archive `z` in archive order, or `None` when it could not be read.
pub fn build_pipeline_zip_indexes(
    zips: &Vec<Option<Vec<String>>>,
    main_ids: &Vec<String>,
    overlay_refs: &Vec<OverlayItemRef>,
) -> (r: (ZipIndex, ZipIndex))
    ensures
        (r.0@, r.1@) == pipeline_indexes(zip_views(zips@), overlay_refs@, string_views(main_ids@)),
{
    let ctx = IndexContext::new(overlay_refs, main_ids);
    let ghost zv = zip_views(zips@);
    let mut main: ZipIndex = StrMap::new();
    let mut ov: OverlayTable = StrMap::new();
    let mut z: usize = 0;
    assert(zv.take(0) =~= Seq::<Option<Seq<Seq<char>>>>::empty());
    while z < zips.len()
        invariant
            ctx.wf(),
            ctx.refs == overlay_refs,
            ctx.main_ids == main_ids,
            z <= zips@.len(),
            zv == zip_views(zips@),
            (main@, ov@) == index_zips(zv.take(z as int), overlay_refs@, string_views(main_ids@)),
        decreases zips@.len() - z,
    {
        proof {
            lemma_take_push(zv, z as int);
        }
        match &zips[z] {
            Some(names) => {
                assert(zv[z as int] == Some(string_views(names@)));
                let (lm, lo) = ctx.index_single_zip(z, names);
                main.extend(&lm);
                ov.extend(&lo);
            },
            None => {
                assert(zv[z as int] is None);
                let ghost m0 = main@;
                let ghost o0 = ov@;
                assert(m0.union_prefer_right(Map::empty()) =~= m0);
                assert(o0.union_prefer_right(Map::empty()) =~= o0);
            },
        }
        z = z + 1;
    }
    assert(zv.take(zips@.len() as int) =~= zv);
    let overlay = ov.drop_fourth();
    (main, overlay)
}

/// The main-media index alone (no memories given for overlay assignment).
pub fn build_main_media_zip_index(zips: &Vec<Option<Vec<String>>>, item_ids: &Vec<String>) -> (r: ZipIndex)
    ensures
        r@ == pipeline_indexes(zip_views(zips@), Seq::empty(), string_views(item_ids@)).0,
{
    let refs: Vec<OverlayItemRef> = Vec::new();
    let (m, _) = build_pipeline_zip_indexes(zips, item_ids, &refs);
    assert(refs@ =~= Seq::<OverlayItemRef>::empty());
    m
}

/// The overlay index alone (no main ids given).
pub fn build_overlay_zip_index(zips: &Vec<Option<Vec<String>>>, items: &Vec<OverlayItemRef>) -> (r: ZipIndex)
    ensures
        r@ == pipeline_indexes(zip_views(zips@), items@, Seq::empty()).1,
{
    let ids: Vec<String> = Vec::new();
    let (_, o) = build_pipeline_zip_indexes(zips, &ids, items);
    assert(string_views(ids@) =~= Seq::<Seq<char>>::empty());
    o
}

// ---------------------------------------------------------------------------
// Laws of the index
// ---------------------------------------------------------------------------

/// Dates keep entries apart: the same id under two different dates gives two keys.
pub proof fn lemma_dates_separate_keys(d1: Seq<char>, d2: Seq<char>, id: Seq<char>)
    requires
        d1 != d2,
    ensures
        composite_key_spec(Some(d1), id) != composite_key_spec(Some(d2), id),
{
    let k1 = composite_key_spec(Some(d1), id);
    let k2 = composite_key_spec(Some(d2), id);
    assert(k1.len() == d1.len() + 1 + id.len());
    assert(k2.len() == d2.len() + 1 + id.len());
    if k1 == k2 {
        assert(d1.len() == d2.len());
        assert forall|j: int| 0 <= j < d1.len() implies d1[j] == d2[j] by {
            assert(k1[j] == d1[j]);
            assert(k2[j] == d2[j]);
        }
        assert(d1 =~= d2);
    }
}

/// A `-main` entry takes every key it names, whatever was recorded there before.
pub proof fn lemma_main_entry_takes_its_keys(
    m: Map<Seq<char>, (usize, usize, Seq<char>)>,
    date: Option<Seq<char>>,
    ids: Seq<Seq<char>>,
    val: (usize, usize, Seq<char>),
)
    ensures
        forall|k: int|
            0 <= k < ids.len() ==> put_keys(m, date, ids, val, true).dom().contains(composite_key_spec(date, #[trigger] ids[k]))
                && put_keys(m, date, ids, val, true)[composite_key_spec(date, ids[k])] == val,
    decreases ids.len(),
{
    if ids.len() > 0 {
        lemma_main_entry_takes_its_keys(m, date, ids.drop_last(), val);
        assert forall|k: int| 0 <= k < ids.len() implies put_keys(m, date, ids, val, true).dom().contains(
            composite_key_spec(date, #[trigger] ids[k]),
        ) && put_keys(m, date, ids, val, true)[composite_key_spec(date, ids[k])] == val by {
            if k < ids.len() - 1 {
                assert(ids.drop_last()[k] == ids[k]);
            }
        }
    }
}

/// An entry that is not `-main` never displaces what a key already holds; it only fills
/// keys that were empty.
pub proof fn lemma_other_entry_keeps_keys(
    m: Map<Seq<char>, (usize, usize, Seq<char>)>,
    date: Option<Seq<char>>,
    ids: Seq<Seq<char>>,
    val: (usize, usize, Seq<char>),
)
    ensures
        forall|key: Seq<char>| #[trigger] m.dom().contains(key) ==> put_keys(m, date, ids, val, false).dom().contains(key)
            && put_keys(m, date, ids, val, false)[key] == m[key],
    decreases ids.len(),
{
    if ids.len() > 0 {
        lemma_other_entry_keeps_keys(m, date, ids.drop_last(), val);
    }
}

/// An overlay whose ids all belong to one memory replaces a less specific overlay of that
/// memory: it is kept with its number of ids.
pub proof fn lemma_specific_overlay_wins(
    o: Map<Seq<char>, (usize, usize, Seq<char>, usize)>,
    matching: Seq<Seq<char>>,
    date: Option<Seq<char>>,
    z: usize,
    i: usize,
    ext: Seq<char>,
    refs: Seq<OverlayItemRef>,
    m: Seq<char>,
)
    requires
        0 < matching.len() <= usize::MAX,
        first_covering(matching, matching, refs) == Some(m),
        ({
            let key = composite_key_spec(date, refs[segment_map(refs)[m] as int].id@);
            !o.dom().contains(key) || o[key].3 < matching.len()
        }),
    ensures
        ({
            let key = composite_key_spec(date, refs[segment_map(refs)[m] as int].id@);
            put_overlay(o, matching, date, z, i, ext, refs)[key] == (z, i, ext, matching.len() as usize)
        }),
{
}

/// An overlay whose ids span several memories never displaces an overlay recorded as
/// specific to a memory.
pub proof fn lemma_mixed_overlay_keeps_specific(
    o: Map<Seq<char>, (usize, usize, Seq<char>, usize)>,
    matching: Seq<Seq<char>>,
    date: Option<Seq<char>>,
    z: usize,
    i: usize,
    ext: Seq<char>,
    refs: Seq<OverlayItemRef>,
)
    requires
        matching.len() > 0,
        first_covering(matching, matching, refs) is None,
    ensures
        forall|key: Seq<char>| #[trigger] o.dom().contains(key) && o[key].3 > 0 ==> put_overlay(o, matching, date, z, i, ext, refs).dom().contains(key)
            && put_overlay(o, matching, date, z, i, ext, refs)[key] == o[key],
{
    let seg = segment_map(refs);
    let k0 = composite_key_spec(date, refs[seg[matching[0]] as int].id@);
    let n = matching.len() as usize;
    let r = put_overlay(o, matching, date, z, i, ext, refs);
    assert(r == (if !o.dom().contains(k0) || (o[k0].3 == 0 && n > 0) {
        o.insert(k0, (z, i, ext, 0usize))
    } else {
        o
    }));
}

} // verus!
