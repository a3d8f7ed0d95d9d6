//! Turning the entries of `memories_history.json` into memory records: ids from the
//! download links, locations, and the grouping of video segments into one memory.

use vstd::prelude::*;

use crate::metadata::flexible_instant;
use crate::models::{ItemView, MemoryItem, ProcessingState};
use crate::pipeline::acquire::contains_string;
use crate::text::{
    byte_len, byte_len_at_least, chars_of, eq_ignore_ascii_case, eq_ignore_ascii_case_exec, starts_with, starts_with_exec, string_of, string_views, sub_vec, trim, trim_exec,
};

verus! {

// ---------------------------------------------------------------------------
// Input records
// ---------------------------------------------------------------------------

/// The `Location` field of an entry, as far as it matters here.
#[derive(Clone, Debug)]
pub enum RawLocation {
    /// A string, such as `Latitude, Longitude: 57.68, 11.97`.
    Text(String),
    /// A pair of numbers (array or object), already written as `lat, lon`.
    Coordinates(String),
    /// Anything else.
    Unusable,
}

/// One entry of the export's `Saved Media` list.
#[derive(Clone, Debug)]
pub struct RawSnapchatMemory {
    pub date: String,
    pub media_type: String,
    pub location: Option<RawLocation>,
    pub download_link: Option<String>,
    pub media_download_url: Option<String>,
}

/// A video entry waiting to be grouped with the other segments of its memory.
#[derive(Clone, Debug)]
pub struct VideoEntry {
    pub id: String,
    pub candidate_ids: Vec<String>,
    pub download_url: String,
    pub location: Option<String>,
    pub date_str: String,
    pub ts: i64,
}

pub struct VideoEntryView {
    pub id: Seq<char>,
    pub candidate_ids: Seq<Seq<char>>,
    pub download_url: Seq<char>,
    pub location: Option<Seq<char>>,
    pub date_str: Seq<char>,
    pub ts: i64,
}

impl View for VideoEntry {
    type V = VideoEntryView;

    open spec fn view(&self) -> VideoEntryView {
        VideoEntryView {
            id: self.id@,
            candidate_ids: string_views(self.candidate_ids@),
            download_url: self.download_url@,
            location: match self.location {
                Some(l) => Some(l@),
                None => None,
            },
            date_str: self.date_str@,
            ts: self.ts,
        }
    }
}

pub open spec fn entry_views(v: Seq<VideoEntry>) -> Seq<VideoEntryView> {
    v.map_values(|e: VideoEntry| e@)
}

pub open spec fn item_views(v: Seq<MemoryItem>) -> Seq<ItemView> {
    v.map_values(|e: MemoryItem| e@)
}

// ---------------------------------------------------------------------------
// Trusted item: URL parsing
// ---------------------------------------------------------------------------

/// What the parser reads of a download link: its decoded query pairs, in order, and its
/// path segments (`None` for a URL that cannot be a base).
pub struct UrlParts {
    pub query_pairs: Vec<(String, String)>,
    pub path_segments: Option<Vec<String>>,
}

pub open spec fn pairs_view(v: Seq<(String, String)>) -> Seq<(Seq<char>, Seq<char>)> {
    v.map_values(|p: (String, String)| (p.0@, p.1@))
}

pub open spec fn url_view(u: UrlParts) -> (Seq<(Seq<char>, Seq<char>)>, Option<Seq<Seq<char>>>) {
    (
        pairs_view(u.query_pairs@),
        match u.path_segments {
            Some(s) => Some(string_views(s@)),
            None => None,
        },
    )
}

/// What `url::Url::parse` gives for a link: its query pairs (`Url::query_pairs`, decoded)
/// and path segments (`Url::path_segments`), or `None` when the link does not parse.
pub uninterp spec fn url_components(link: Seq<char>) -> Option<(Seq<(Seq<char>, Seq<char>)>, Option<Seq<Seq<char>>>)>;

/// Calls `url::Url::parse` and reads the query pairs and path segments of the result.
/// Trusted: the result, read through `url_view`, is `url_components` of the link.
#[verifier::external_body]
fn parse_url(link: &str) -> (r: Option<UrlParts>)
    ensures
        match r {
            Some(u) => url_components(link@) == Some(url_view(u)),
            None => url_components(link@) is None,
        },
{
    url::Url::parse(link).ok().map(|u| UrlParts {
        query_pairs: u.query_pairs().map(|(k, v)| (k.into_owned(), v.into_owned())).collect(),
        path_segments: u.path_segments().map(|s| s.map(|x| x.to_string()).collect()),
    })
}

// ---------------------------------------------------------------------------
// Ids from a download link
// ---------------------------------------------------------------------------

/// The value of the first query pair named `key`.
pub open spec fn first_value(pairs: Seq<(Seq<char>, Seq<char>)>, key: Seq<char>) -> Option<Seq<char>>
    decreases pairs.len(),
{
    if pairs.len() == 0 {
        None
    } else if pairs[0].0 == key {
        Some(pairs[0].1)
    } else {
        first_value(pairs.drop_first(), key)
    }
}

/// `list` with `x` appended unless already there.
pub open spec fn push_unique(list: Seq<Seq<char>>, x: Seq<char>) -> Seq<Seq<char>> {
    if list.contains(x) {
        list
    } else {
        list.push(x)
    }
}

/// Adds the id carried by query parameter `key`, when it is present, non-empty and not the
/// placeholder `unknown-id`; trimmed.
pub open spec fn add_query_id(list: Seq<Seq<char>>, pairs: Seq<(Seq<char>, Seq<char>)>, key: Seq<char>) -> Seq<Seq<char>> {
    match first_value(pairs, key) {
        Some(v) => if v.len() > 0 && v != "unknown-id"@ {
            push_unique(list, trim(v))
        } else {
            list
        },
        None => list,
    }
}

/// A path segment shaped like a Snapchat UUID: 32 to 38 bytes with a hyphen.
pub open spec fn uuid_like(seg: Seq<char>) -> bool {
    32 <= byte_len(seg) <= 38 && seg.contains('-')
}

pub open spec fn first_uuid_segment(segs: Seq<Seq<char>>) -> Option<Seq<char>>
    decreases segs.len(),
{
    if segs.len() == 0 {
        None
    } else if uuid_like(segs[0]) {
        Some(segs[0])
    } else {
        first_uuid_segment(segs.drop_first())
    }
}

/// The ids a link names, best first: the `mid`, `media_id` and `sid` query values, then a
/// UUID-like path segment; without repeats.
pub open spec fn candidate_ids_spec(pairs: Seq<(Seq<char>, Seq<char>)>, segments: Option<Seq<Seq<char>>>) -> Seq<Seq<char>> {
    let a = add_query_id(Seq::empty(), pairs, "mid"@);
    let b = add_query_id(a, pairs, "media_id"@);
    let c = add_query_id(b, pairs, "sid"@);
    match segments {
        Some(segs) => match first_uuid_segment(segs) {
            Some(s) => push_unique(c, trim(s)),
            None => c,
        },
        None => c,
    }
}

fn push_unique_exec(list: &mut Vec<String>, x: String)
    ensures
        string_views(final(list)@) == push_unique(string_views(old(list)@), x@),
{
    if !contains_string(list, &x) {
        let ghost before = list@;
        list.push(x);
        assert(string_views(list@) =~= string_views(before).push(x@));
    }
}

fn first_value_exec(pairs: &Vec<(String, String)>, key: &str) -> (r: Option<String>)
    ensures
        match r {
            Some(v) => first_value(pairs_view(pairs@), key@) == Some(v@),
            None => first_value(pairs_view(pairs@), key@) is None,
        },
{
    let ghost pv = pairs_view(pairs@);
    let k = key.to_owned();
    let mut i: usize = 0;
    assert(pv.skip(0) =~= pv);
    while i < pairs.len()
        invariant
            i <= pairs@.len(),
            pv == pairs_view(pairs@),
            k@ == key@,
            first_value(pv, key@) == first_value(pv.skip(i as int), key@),
        decreases pairs@.len() - i,
    {
        assert(pv.skip(i as int)[0] == (pairs@[i as int].0@, pairs@[i as int].1@));
        if pairs[i].0 == k {
            return Some(pairs[i].1.clone());
        }
        assert(pv.skip(i as int).drop_first() =~= pv.skip(i + 1));
        i = i + 1;
    }
    None
}

fn add_query_id_exec(list: &mut Vec<String>, pairs: &Vec<(String, String)>, key: &str)
    ensures
        string_views(final(list)@) == add_query_id(string_views(old(list)@), pairs_view(pairs@), key@),
{
    if let Some(v) = first_value_exec(pairs, key) {
        let placeholder = "unknown-id".to_owned();
        if !v.as_str().is_empty() && v != placeholder {
            let t = trim_exec(&chars_of(v.as_str()));
            push_unique_exec(list, string_of(&t));
        }
    }
}

fn contains_hyphen(s: &[char]) -> (r: bool)
    ensures
        r == s@.contains('-'),
{
    let mut i: usize = 0;
    while i < s.len()
        invariant
            i <= s@.len(),
            forall|k: int| 0 <= k < i ==> s@[k] != '-',
        decreases s@.len() - i,
    {
        if s[i] == '-' {
            return true;
        }
        i = i + 1;
    }
    false
}

fn first_uuid_segment_exec(segs: &Vec<String>) -> (r: Option<Vec<char>>)
    ensures
        match r {
            Some(s) => first_uuid_segment(string_views(segs@)) == Some(s@),
            None => first_uuid_segment(string_views(segs@)) is None,
        },
{
    let ghost sv = string_views(segs@);
    let mut i: usize = 0;
    assert(sv.skip(0) =~= sv);
    while i < segs.len()
        invariant
            i <= segs@.len(),
            sv == string_views(segs@),
            first_uuid_segment(sv) == first_uuid_segment(sv.skip(i as int)),
        decreases segs@.len() - i,
    {
        let s = chars_of(segs[i].as_str());
        assert(sv.skip(i as int)[0] == s@);
        if byte_len_at_least(&s, 32) && !byte_len_at_least(&s, 39) && contains_hyphen(&s) {
            return Some(s);
        }
        assert(sv.skip(i as int).drop_first() =~= sv.skip(i + 1));
        i = i + 1;
    }
    None
}

/// The ids named by a parsed download link (see `candidate_ids_spec`).
pub fn candidate_ids(parts: &UrlParts) -> (r: Vec<String>)
    ensures
        string_views(r@) == candidate_ids_spec(url_view(*parts).0, url_view(*parts).1),
{
    let mut list: Vec<String> = Vec::new();
    assert(string_views(list@) =~= Seq::<Seq<char>>::empty());
    add_query_id_exec(&mut list, &parts.query_pairs, "mid");
    add_query_id_exec(&mut list, &parts.query_pairs, "media_id");
    add_query_id_exec(&mut list, &parts.query_pairs, "sid");
    if let Some(segs) = &parts.path_segments {
        if let Some(s) = first_uuid_segment_exec(segs) {
            let t = trim_exec(&s);
            push_unique_exec(&mut list, string_of(&t));
        }
    }
    list
}

// ---------------------------------------------------------------------------
// Locations
// ---------------------------------------------------------------------------

/// The location kept for a memory: a string is trimmed and loses a leading
/// `Latitude, Longitude: `, and is dropped when nothing is left; coordinates are kept as
/// written; anything else is dropped.
pub open spec fn normalize_location_spec(loc: Option<RawLocation>) -> Option<Seq<char>> {
    match loc {
        Some(RawLocation::Text(s)) => {
            let t = trim(s@);
            let u = if starts_with(t, "Latitude, Longitude: "@) {
                t.skip("Latitude, Longitude: "@.len() as int)
            } else {
                t
            };
            if u.len() == 0 { None } else { Some(u) }
        },
        Some(RawLocation::Coordinates(s)) => Some(s@),
        _ => None,
    }
}

pub fn normalize_location(loc: &Option<RawLocation>) -> (r: Option<String>)
    ensures
        match r {
            Some(x) => normalize_location_spec(*loc) == Some(x@),
            None => normalize_location_spec(*loc) is None,
        },
{
    match loc {
        Some(RawLocation::Text(s)) => {
            let t = trim_exec(&chars_of(s.as_str()));
            let prefix = chars_of("Latitude, Longitude: ");
            let u = if starts_with_exec(&t, &prefix) {
                let v = sub_vec(&t, prefix.len(), t.len());
                assert(v@ =~= t@.skip(prefix@.len() as int));
                v
            } else {
                t
            };
            if u.len() == 0 {
                None
            } else {
                Some(string_of(&u))
            }
        },
        Some(RawLocation::Coordinates(s)) => Some(s.clone()),
        _ => None,
    }
}

// ---------------------------------------------------------------------------
// Entries
// ---------------------------------------------------------------------------

/// The download link of an entry: `Download Link`, else `Media Download Url`.
pub open spec fn raw_link(raw: RawSnapchatMemory) -> Option<Seq<char>> {
    match raw.download_link {
        Some(l) => Some(l@),
        None => match raw.media_download_url {
            Some(m) => Some(m@),
            None => None,
        },
    }
}

/// The ids of an entry whose link is non-empty, parses and names at least one id.
pub open spec fn entry_candidates(raw: RawSnapchatMemory) -> Option<Seq<Seq<char>>> {
    match raw_link(raw) {
        Some(l) => if l.len() > 0 {
            match url_components(l) {
                Some(u) => {
                    let c = candidate_ids_spec(u.0, u.1);
                    if c.len() > 0 { Some(c) } else { None }
                },
                None => None,
            }
        } else {
            None
        },
        None => None,
    }
}

/// The timestamp used to order video segments: 0 for a date that does not parse.
pub open spec fn ts_of(date: Seq<char>) -> i64 {
    match flexible_instant(date) {
        Some(p) => p.timestamp,
        None => 0,
    }
}

pub open spec fn is_video_entry(raw: RawSnapchatMemory) -> bool {
    eq_ignore_ascii_case(raw.media_type@, "Video"@)
}

pub open spec fn video_entry_spec(raw: RawSnapchatMemory, c: Seq<Seq<char>>) -> VideoEntryView {
    VideoEntryView {
        id: c[0],
        candidate_ids: c,
        download_url: raw_link(raw)->0,
        location: normalize_location_spec(raw.location),
        date_str: raw.date@,
        ts: ts_of(raw.date@),
    }
}

pub open spec fn image_item_spec(raw: RawSnapchatMemory, c: Seq<Seq<char>>) -> ItemView {
    ItemView {
        id: c[0],
        segment_ids: None,
        candidate_ids: Some(c),
        download_url: raw_link(raw)->0,
        original_date: raw.date@,
        location: normalize_location_spec(raw.location),
        state: ProcessingState::Pending,
        error_message: None,
        extension: None,
        has_overlay: false,
        has_thumbnail: false,
        media_type: "Image"@,
    }
}

/// The video entries among `raws`, in order.
pub open spec fn videos_of(raws: Seq<RawSnapchatMemory>) -> Seq<VideoEntryView>
    decreases raws.len(),
{
    if raws.len() == 0 {
        Seq::empty()
    } else {
        let prev = videos_of(raws.drop_last());
        match entry_candidates(raws.last()) {
            Some(c) => if is_video_entry(raws.last()) { prev.push(video_entry_spec(raws.last(), c)) } else { prev },
            None => prev,
        }
    }
}

/// The image memories among `raws`, in order.
pub open spec fn images_of(raws: Seq<RawSnapchatMemory>) -> Seq<ItemView>
    decreases raws.len(),
{
    if raws.len() == 0 {
        Seq::empty()
    } else {
        let prev = images_of(raws.drop_last());
        match entry_candidates(raws.last()) {
            Some(c) => if is_video_entry(raws.last()) { prev } else { prev.push(image_item_spec(raws.last(), c)) },
            None => prev,
        }
    }
}

// ---------------------------------------------------------------------------
// Ordering and grouping video segments
// ---------------------------------------------------------------------------

/// `e` placed after every entry of `sorted` that is not later than it.
pub open spec fn insert_by_ts(sorted: Seq<VideoEntryView>, e: VideoEntryView) -> Seq<VideoEntryView>
    decreases sorted.len(),
{
    if sorted.len() == 0 || sorted.last().ts <= e.ts {
        sorted.push(e)
    } else {
        insert_by_ts(sorted.drop_last(), e).push(sorted.last())
    }
}

/// The entries ordered by timestamp; entries with equal timestamps keep their order.
pub open spec fn sort_by_ts(s: Seq<VideoEntryView>) -> Seq<VideoEntryView>
    decreases s.len(),
{
    if s.len() == 0 {
        s
    } else {
        insert_by_ts(sort_by_ts(s.drop_last()), s.last())
    }
}

/// Seconds between consecutive segments of one video, at most.
pub const SEGMENT_GAP_SECONDS: i64 = 10;

/// Consecutive entries at most `SEGMENT_GAP_SECONDS` apart form one group.
pub open spec fn group_by_gap(s: Seq<VideoEntryView>) -> Seq<Seq<VideoEntryView>>
    decreases s.len(),
{
    if s.len() == 0 {
        Seq::empty()
    } else {
        let g = group_by_gap(s.drop_last());
        let v = s.last();
        if s.len() > 1 && v.ts - s[s.len() - 2].ts <= SEGMENT_GAP_SECONDS {
            g.update(g.len() - 1, g.last().push(v))
        } else {
            g.push(seq![v])
        }
    }
}

/// `list` extended by the members of `xs` it lacks, in order.
pub open spec fn push_all_unique(list: Seq<Seq<char>>, xs: Seq<Seq<char>>) -> Seq<Seq<char>>
    decreases xs.len(),
{
    if xs.len() == 0 {
        list
    } else {
        push_unique(push_all_unique(list, xs.drop_last()), xs.last())
    }
}

/// Every id of every entry of the group, once each, in order of first appearance.
pub open spec fn union_candidates(g: Seq<VideoEntryView>) -> Seq<Seq<char>>
    decreases g.len(),
{
    if g.len() == 0 {
        Seq::empty()
    } else {
        push_all_unique(union_candidates(g.drop_last()), g.last().candidate_ids)
    }
}

/// The memory made of one group of segments: the first segment's id, link, date and
/// location; the segment ids when there are several; all aliases.
pub open spec fn fold_group_spec(g: Seq<VideoEntryView>) -> ItemView {
    ItemView {
        id: g[0].id,
        segment_ids: if g.len() > 1 { Some(g.map_values(|v: VideoEntryView| v.id)) } else { None },
        candidate_ids: Some(union_candidates(g)),
        download_url: g[0].download_url,
        original_date: g[0].date_str,
        location: g[0].location,
        state: ProcessingState::Pending,
        error_message: None,
        extension: None,
        has_overlay: false,
        has_thumbnail: false,
        media_type: "Video"@,
    }
}

/// The memories of an export: the video groups in time order, then the images.
pub open spec fn memory_items_spec(raws: Seq<RawSnapchatMemory>) -> Seq<ItemView> {
    group_by_gap(sort_by_ts(videos_of(raws))).map_values(|g: Seq<VideoEntryView>| fold_group_spec(g)) + images_of(raws)
}

// ---------------------------------------------------------------------------
// Laws of grouping
// ---------------------------------------------------------------------------

/// Placing `e` at position `j` of `s`, after every entry not later than it and before the
/// later ones, is `insert_by_ts`.
pub proof fn lemma_insert_by_ts(s: Seq<VideoEntryView>, e: VideoEntryView, j: int)
    requires
        0 <= j <= s.len(),
        j == 0 || s[j - 1].ts <= e.ts,
        forall|m: int| j <= m < s.len() ==> #[trigger] s[m].ts > e.ts,
    ensures
        insert_by_ts(s, e) == s.take(j).push(e) + s.skip(j),
    decreases s.len(),
{
    if s.len() == 0 {
        assert(s.take(j).push(e) + s.skip(j) =~= s.push(e));
    } else if s.last().ts <= e.ts {
        assert(j == s.len());
        assert(s.take(j).push(e) + s.skip(j) =~= s.push(e));
    } else {
        assert(j < s.len());
        let t = s.drop_last();
        assert forall|m: int| j <= m < t.len() implies #[trigger] t[m].ts > e.ts by {
            assert(t[m] == s[m]);
        }
        lemma_insert_by_ts(t, e, j);
        assert(insert_by_ts(t, e).push(s.last()) =~= s.take(j).push(e) + s.skip(j));
    }
}

proof fn lemma_push_unique(list: Seq<Seq<char>>, x: Seq<char>)
    ensures
        push_unique(list, x).contains(x),
        forall|y: Seq<char>| list.contains(y) ==> #[trigger] push_unique(list, x).contains(y),
        forall|y: Seq<char>| #[trigger] push_unique(list, x).contains(y) ==> list.contains(y) || y == x,
        list.no_duplicates() ==> push_unique(list, x).no_duplicates(),
{
    if !list.contains(x) {
        let p = list.push(x);
        assert(p[list.len() as int] == x);
        assert forall|y: Seq<char>| list.contains(y) implies #[trigger] p.contains(y) by {
            let i = choose|i: int| 0 <= i < list.len() && list[i] == y;
            assert(p[i] == y);
        }
        assert forall|y: Seq<char>| #[trigger] p.contains(y) implies list.contains(y) || y == x by {
            let i = choose|i: int| 0 <= i < p.len() && p[i] == y;
            if i < list.len() {
                assert(list[i] == y);
            }
        }
        if list.no_duplicates() {
            assert forall|a: int, b: int| 0 <= a < p.len() && 0 <= b < p.len() && a != b implies p[a] != p[b] by {
                if a == list.len() {
                    assert(list[b] != x);
                } else if b == list.len() {
                    assert(list[a] != x);
                }
            }
        }
    }
}

/// Appending ids never loses one and never repeats one.
pub proof fn lemma_push_all_unique(list: Seq<Seq<char>>, xs: Seq<Seq<char>>)
    ensures
        forall|x: Seq<char>| list.contains(x) ==> #[trigger] push_all_unique(list, xs).contains(x),
        forall|k: int| 0 <= k < xs.len() ==> push_all_unique(list, xs).contains(#[trigger] xs[k]),
        list.no_duplicates() ==> push_all_unique(list, xs).no_duplicates(),
        forall|x: Seq<char>| #[trigger] push_all_unique(list, xs).contains(x) ==> list.contains(x) || xs.contains(x),
    decreases xs.len(),
{
    if xs.len() > 0 {
        let h = xs.drop_last();
        lemma_push_all_unique(list, h);
        let p = push_all_unique(list, h);
        lemma_push_unique(p, xs.last());
        assert forall|k: int| 0 <= k < xs.len() implies push_all_unique(list, xs).contains(#[trigger] xs[k]) by {
            if k < xs.len() - 1 {
                assert(h[k] == xs[k]);
                assert(p.contains(h[k]));
            }
        }
        assert forall|x: Seq<char>| #[trigger] push_all_unique(list, xs).contains(x) implies list.contains(x) || xs.contains(x) by {
            if x == xs.last() {
                assert(xs[xs.len() - 1] == x);
            } else if h.contains(x) {
                let k = choose|k: int| 0 <= k < h.len() && h[k] == x;
                assert(xs[k] == x);
            }
        }
    }
}

/// The memory made of a group of video segments records every alias of every segment,
/// each once; it lists the segment ids, in order, exactly when there are several.
pub proof fn lemma_fold_group(g: Seq<VideoEntryView>)
    requires
        g.len() >= 1,
    ensures
        forall|k: int, j: int|
            0 <= k < g.len() && 0 <= j < g[k].candidate_ids.len() ==> fold_group_spec(g).candidate_ids->0.contains(
                #[trigger] g[k].candidate_ids[j],
            ),
        fold_group_spec(g).candidate_ids->0.no_duplicates(),
        g.len() == 1 <==> fold_group_spec(g).segment_ids is None,
        g.len() > 1 ==> fold_group_spec(g).segment_ids->0.len() == g.len(),
        g.len() > 1 ==> forall|k: int| 0 <= k < g.len() ==> fold_group_spec(g).segment_ids->0[k] == #[trigger] g[k].id,
        fold_group_spec(g).id == g[0].id,
    decreases g.len(),
{
    lemma_union_candidates(g);
}

proof fn lemma_union_candidates(g: Seq<VideoEntryView>)
    ensures
        forall|k: int, j: int|
            0 <= k < g.len() && 0 <= j < g[k].candidate_ids.len() ==> union_candidates(g).contains(
                #[trigger] g[k].candidate_ids[j],
            ),
        union_candidates(g).no_duplicates(),
    decreases g.len(),
{
    if g.len() > 0 {
        let h = g.drop_last();
        lemma_union_candidates(h);
        lemma_push_all_unique(union_candidates(h), g.last().candidate_ids);
        assert forall|k: int, j: int|
            0 <= k < g.len() && 0 <= j < g[k].candidate_ids.len() implies union_candidates(g).contains(
                #[trigger] g[k].candidate_ids[j],
            ) by {
            if k < g.len() - 1 {
                assert(h[k] == g[k]);
                assert(union_candidates(h).contains(h[k].candidate_ids[j]));
            }
        }
    } else {
        assert(Seq::<Seq<char>>::empty().no_duplicates());
    }
}

proof fn lemma_images_of_entries(raws: Seq<RawSnapchatMemory>)
    ensures
        forall|i: int|
            0 <= i < raws.len() && #[trigger] entry_candidates(raws[i]) is Some && !is_video_entry(raws[i]) ==> exists|k: int|
                0 <= k < images_of(raws).len() && #[trigger] images_of(raws)[k] == image_item_spec(
                    raws[i],
                    entry_candidates(raws[i])->0,
                ),
    decreases raws.len(),
{
    if raws.len() > 0 {
        let h = raws.drop_last();
        lemma_images_of_entries(h);
        assert forall|i: int|
            0 <= i < raws.len() && #[trigger] entry_candidates(raws[i]) is Some && !is_video_entry(raws[i]) implies exists|k: int|
                0 <= k < images_of(raws).len() && #[trigger] images_of(raws)[k] == image_item_spec(
                    raws[i],
                    entry_candidates(raws[i])->0,
                ) by {
            if i < raws.len() - 1 {
                assert(h[i] == raws[i]);
                assert(entry_candidates(h[i]) is Some);
                let k = choose|k: int|
                    0 <= k < images_of(h).len() && #[trigger] images_of(h)[k] == image_item_spec(
                        h[i],
                        entry_candidates(h[i])->0,
                    );
                assert(images_of(raws)[k] == images_of(h)[k]);
            } else {
                let k = images_of(h).len() as int;
                assert(images_of(raws)[k] == image_item_spec(raws[i], entry_candidates(raws[i])->0));
            }
        }
    }
}

/// Every image entry of the export with a usable link becomes an image memory named by
/// the first id of its link, with the entry's link and date, pending, and the entry's
/// location normalized as for videos (trimmed, without the `Latitude, Longitude: ` label).
pub proof fn lemma_image_entries_kept(raws: Seq<RawSnapchatMemory>)
    ensures
        forall|i: int|
            0 <= i < raws.len() && #[trigger] entry_candidates(raws[i]) is Some && !is_video_entry(raws[i]) ==> exists|k: int|
                0 <= k < memory_items_spec(raws).len() && {
                    let m = #[trigger] memory_items_spec(raws)[k];
                    &&& m.id == entry_candidates(raws[i])->0[0]
                    &&& m.media_type == "Image"@
                    &&& m.download_url == raw_link(raws[i])->0
                    &&& m.original_date == raws[i].date@
                    &&& m.location == normalize_location_spec(raws[i].location)
                    &&& m.state == ProcessingState::Pending
                    &&& m.segment_ids is None
                },
{
    lemma_images_of_entries(raws);
    let head = group_by_gap(sort_by_ts(videos_of(raws))).map_values(|g: Seq<VideoEntryView>| fold_group_spec(g));
    assert(memory_items_spec(raws) == head + images_of(raws));
    assert forall|i: int|
        0 <= i < raws.len() && #[trigger] entry_candidates(raws[i]) is Some && !is_video_entry(raws[i]) implies exists|k: int|
            0 <= k < memory_items_spec(raws).len() && {
                let m = #[trigger] memory_items_spec(raws)[k];
                &&& m.id == entry_candidates(raws[i])->0[0]
                &&& m.media_type == "Image"@
                &&& m.download_url == raw_link(raws[i])->0
                &&& m.original_date == raws[i].date@
                &&& m.location == normalize_location_spec(raws[i].location)
                &&& m.state == ProcessingState::Pending
                &&& m.segment_ids is None
            } by {
        let k = choose|k: int|
            0 <= k < images_of(raws).len() && #[trigger] images_of(raws)[k] == image_item_spec(
                raws[i],
                entry_candidates(raws[i])->0,
            );
        assert(memory_items_spec(raws)[head.len() + k] == images_of(raws)[k]);
    }
}

proof fn lemma_videos_of_entries(raws: Seq<RawSnapchatMemory>)
    ensures
        forall|j: int|
            0 <= j < videos_of(raws).len() ==> exists|i: int|
                0 <= i < raws.len() && #[trigger] entry_candidates(raws[i]) is Some && is_video_entry(raws[i])
                    && #[trigger] videos_of(raws)[j] == video_entry_spec(raws[i], entry_candidates(raws[i])->0),
    decreases raws.len(),
{
    if raws.len() > 0 {
        let h = raws.drop_last();
        lemma_videos_of_entries(h);
        assert forall|j: int| 0 <= j < videos_of(raws).len() implies exists|i: int|
            0 <= i < raws.len() && #[trigger] entry_candidates(raws[i]) is Some && is_video_entry(raws[i])
                && #[trigger] videos_of(raws)[j] == video_entry_spec(raws[i], entry_candidates(raws[i])->0) by {
            if j < videos_of(h).len() {
                assert(videos_of(raws)[j] == videos_of(h)[j]);
                let i = choose|i: int|
                    0 <= i < h.len() && #[trigger] entry_candidates(h[i]) is Some && is_video_entry(h[i])
                        && #[trigger] videos_of(h)[j] == video_entry_spec(h[i], entry_candidates(h[i])->0);
                assert(raws[i] == h[i]);
            } else {
                let i = raws.len() - 1;
                assert(raws[i] == raws.last());
                assert(entry_candidates(raws[i]) is Some);
            }
        }
    }
}

proof fn lemma_insert_by_ts_members(s: Seq<VideoEntryView>, e: VideoEntryView)
    ensures
        forall|x: VideoEntryView| #[trigger] insert_by_ts(s, e).contains(x) ==> s.contains(x) || x == e,
    decreases s.len(),
{
    if s.len() > 0 && s.last().ts > e.ts {
        let t = s.drop_last();
        lemma_insert_by_ts_members(t, e);
        assert forall|x: VideoEntryView| #[trigger] insert_by_ts(s, e).contains(x) implies s.contains(x) || x == e by {
            let r = insert_by_ts(t, e);
            let k = choose|k: int| 0 <= k < r.push(s.last()).len() && r.push(s.last())[k] == x;
            if k < r.len() {
                assert(r.contains(x));
                if t.contains(x) {
                    let m = choose|m: int| 0 <= m < t.len() && t[m] == x;
                    assert(s[m] == x);
                }
            } else {
                assert(s[s.len() - 1] == x);
            }
        }
    } else {
        assert forall|x: VideoEntryView| #[trigger] insert_by_ts(s, e).contains(x) implies s.contains(x) || x == e by {
            let k = choose|k: int| 0 <= k < s.push(e).len() && s.push(e)[k] == x;
            if k < s.len() {
                assert(s[k] == x);
            }
        }
    }
}

proof fn lemma_sort_members(s: Seq<VideoEntryView>)
    ensures
        forall|x: VideoEntryView| #[trigger] sort_by_ts(s).contains(x) ==> s.contains(x),
    decreases s.len(),
{
    if s.len() > 0 {
        let t = s.drop_last();
        lemma_sort_members(t);
        lemma_insert_by_ts_members(sort_by_ts(t), s.last());
        assert forall|x: VideoEntryView| #[trigger] sort_by_ts(s).contains(x) implies s.contains(x) by {
            if x == s.last() {
                assert(s[s.len() - 1] == x);
            } else {
                assert(sort_by_ts(t).contains(x));
                let m = choose|m: int| 0 <= m < t.len() && t[m] == x;
                assert(s[m] == x);
            }
        }
    }
}

proof fn lemma_group_heads(s: Seq<VideoEntryView>)
    ensures
        forall|gi: int|
            0 <= gi < group_by_gap(s).len() ==> (#[trigger] group_by_gap(s)[gi]).len() > 0 && s.contains(group_by_gap(s)[gi][0]),
    decreases s.len(),
{
    if s.len() > 0 {
        let t = s.drop_last();
        lemma_group_heads(t);
        let g = group_by_gap(t);
        let v = s.last();
        assert forall|gi: int| 0 <= gi < group_by_gap(s).len() implies (#[trigger] group_by_gap(s)[gi]).len() > 0 && s.contains(
            group_by_gap(s)[gi][0],
        ) by {
            if s.len() > 1 && v.ts - s[s.len() - 2].ts <= SEGMENT_GAP_SECONDS {
                assert(t.len() > 0);
                lemma_groups_nonempty(t);
                let x = group_by_gap(s)[gi][0];
                assert(group_by_gap(s)[gi] == (if gi == g.len() - 1 { g.last().push(v) } else { g[gi] }));
                assert(x == g[gi][0]);
                let m = choose|m: int| 0 <= m < t.len() && t[m] == x;
                assert(s[m] == x);
            } else {
                if gi < g.len() {
                    let x = g[gi][0];
                    assert(group_by_gap(s)[gi] == g[gi]);
                    let m = choose|m: int| 0 <= m < t.len() && t[m] == x;
                    assert(s[m] == x);
                } else {
                    assert(group_by_gap(s)[gi] == seq![v]);
                    assert(s[s.len() - 1] == v);
                }
            }
        }
    }
}

/// Every video memory is named by the first id of the link of one of the export's video
/// entries with a usable link, and carries that entry's date and its location normalized
/// as for images.
pub proof fn lemma_video_memories_from_entries(raws: Seq<RawSnapchatMemory>)
    ensures
        forall|k: int|
            0 <= k < memory_items_spec(raws).len() && (#[trigger] memory_items_spec(raws)[k]).media_type == "Video"@
                ==> exists|i: int|
                0 <= i < raws.len() && #[trigger] entry_candidates(raws[i]) is Some && is_video_entry(raws[i]) && {
                    let m = memory_items_spec(raws)[k];
                    &&& m.id == entry_candidates(raws[i])->0[0]
                    &&& m.original_date == raws[i].date@
                    &&& m.location == normalize_location_spec(raws[i].location)
                },
{
    let vs = videos_of(raws);
    let sorted = sort_by_ts(vs);
    let groups = group_by_gap(sorted);
    let head = groups.map_values(|g: Seq<VideoEntryView>| fold_group_spec(g));
    assert(memory_items_spec(raws) == head + images_of(raws));
    lemma_videos_of_entries(raws);
    lemma_sort_members(vs);
    lemma_group_heads(sorted);
    reveal_strlit("Image");
    reveal_strlit("Video");
    assert forall|k: int|
        0 <= k < memory_items_spec(raws).len() && (#[trigger] memory_items_spec(raws)[k]).media_type == "Video"@ implies exists|i: int|
            0 <= i < raws.len() && #[trigger] entry_candidates(raws[i]) is Some && is_video_entry(raws[i]) && {
                let m = memory_items_spec(raws)[k];
                &&& m.id == entry_candidates(raws[i])->0[0]
                &&& m.original_date == raws[i].date@
                &&& m.location == normalize_location_spec(raws[i].location)
            } by {
        if k >= head.len() {
            let q = k - head.len();
            assert(memory_items_spec(raws)[k] == images_of(raws)[q]);
            lemma_images_are_images(raws, q);
            assert("Image"@[0] != "Video"@[0]);
        } else {
            let g = groups[k];
            assert(memory_items_spec(raws)[k] == fold_group_spec(g));
            assert(sorted.contains(g[0]));
            assert(vs.contains(g[0]));
            let j = choose|j: int| 0 <= j < vs.len() && vs[j] == g[0];
            let i = choose|i: int|
                0 <= i < raws.len() && #[trigger] entry_candidates(raws[i]) is Some && is_video_entry(raws[i])
                    && #[trigger] vs[j] == video_entry_spec(raws[i], entry_candidates(raws[i])->0);
        }
    }
}

proof fn lemma_images_are_images(raws: Seq<RawSnapchatMemory>, q: int)
    requires
        0 <= q < images_of(raws).len(),
    ensures
        images_of(raws)[q].media_type == "Image"@,
    decreases raws.len(),
{
    let h = raws.drop_last();
    if q < images_of(h).len() {
        lemma_images_are_images(h, q);
    }
}

// ---------------------------------------------------------------------------
// Building the records
// ---------------------------------------------------------------------------

fn copy_location(s: &Option<String>) -> (r: Option<String>)
    ensures
        r == *s,
{
    match s {
        Some(x) => Some(x.clone()),
        None => None,
    }
}

/// The memory made of one group of video segments (see `fold_group_spec`).
pub fn fold_video_group(group: Vec<VideoEntry>) -> (r: MemoryItem)
    requires
        group@.len() >= 1,
    ensures
        r@ == fold_group_spec(entry_views(group@)),
{
    let ghost gv = entry_views(group@);
    let first = &group[0];
    let segment_ids: Option<Vec<String>> = if group.len() > 1 {
        let mut ids: Vec<String> = Vec::new();
        let mut i: usize = 0;
        while i < group.len()
            invariant
                i <= group@.len(),
                gv == entry_views(group@),
                string_views(ids@) == gv.take(i as int).map_values(|v: VideoEntryView| v.id),
            decreases group@.len() - i,
        {
            let ghost before = ids@;
            let x = group[i].id.clone();
            ids.push(x);
            assert(ids@ == before.push(x));
            assert(gv[i as int].id == x@);
            assert(string_views(ids@) =~= string_views(before).push(x@));
            assert(gv.take(i + 1).map_values(|v: VideoEntryView| v.id) =~= gv.take(i as int).map_values(|v: VideoEntryView| v.id).push(gv[i as int].id));
            i = i + 1;
        }
        assert(gv.take(group@.len() as int) =~= gv);
        Some(ids)
    } else {
        None
    };
    let mut cands: Vec<String> = Vec::new();
    let mut i: usize = 0;
    assert(string_views(cands@) =~= union_candidates(gv.take(0)));
    while i < group.len()
        invariant
            i <= group@.len(),
            gv == entry_views(group@),
            string_views(cands@) == union_candidates(gv.take(i as int)),
        decreases group@.len() - i,
    {
        let v = &group[i];
        let ghost base = string_views(cands@);
        let mut j: usize = 0;
        assert(v.candidate_ids@.take(0) =~= Seq::<String>::empty());
        assert(string_views(v.candidate_ids@.take(0)) =~= Seq::<Seq<char>>::empty());
        while j < v.candidate_ids.len()
            invariant
                j <= v.candidate_ids@.len(),
                string_views(cands@) == push_all_unique(base, string_views(v.candidate_ids@).take(j as int)),
            decreases v.candidate_ids@.len() - j,
        {
            push_unique_exec(&mut cands, v.candidate_ids[j].clone());
            assert(string_views(v.candidate_ids@).take(j + 1).drop_last() =~= string_views(v.candidate_ids@).take(j as int));
            j = j + 1;
        }
        assert(string_views(v.candidate_ids@).take(v.candidate_ids@.len() as int) =~= string_views(v.candidate_ids@));
        assert(gv.take(i + 1).drop_last() =~= gv.take(i as int));
        assert(gv.take(i + 1).last() == v@);
        i = i + 1;
    }
    assert(gv.take(group@.len() as int) =~= gv);
    let r = MemoryItem {
        id: first.id.clone(),
        segment_ids,
        candidate_ids: Some(cands),
        download_url: first.download_url.clone(),
        original_date: first.date_str.clone(),
        location: copy_location(&first.location),
        state: ProcessingState::Pending,
        error_message: None,
        extension: None,
        has_overlay: false,
        has_thumbnail: false,
        media_type: "Video".to_owned(),
    };
    assert(r@ =~= fold_group_spec(gv));
    r
}

/// The video entries ordered by timestamp, keeping the order of equal timestamps.
pub fn sort_entries(v: Vec<VideoEntry>) -> (r: Vec<VideoEntry>)
    ensures
        entry_views(r@) == sort_by_ts(entry_views(v@)),
{
    let mut rest = v;
    let ghost full = entry_views(rest@);
    let ghost mut k: int = 0;
    let mut sorted: Vec<VideoEntry> = Vec::new();
    assert(full.skip(0) =~= full);
    assert(full.take(0) =~= Seq::<VideoEntryView>::empty());
    assert(entry_views(sorted@) =~= Seq::<VideoEntryView>::empty());
    while rest.len() > 0
        invariant
            0 <= k <= full.len(),
            entry_views(rest@) == full.skip(k),
            entry_views(sorted@) == sort_by_ts(full.take(k)),
        decreases rest@.len(),
    {
        let ghost r0 = rest@;
        let e = rest.remove(0);
        assert(k < full.len() && e@ == full[k] && entry_views(rest@) =~= full.skip(k + 1)) by {
            assert(r0.len() > 0);
            assert(entry_views(r0).len() == r0.len());
            assert(entry_views(r0)[0] == r0[0]@);
            assert(full.skip(k).len() == r0.len());
            assert(entry_views(r0)[0] == full.skip(k)[0]);
            assert(rest@ =~= r0.subrange(1, r0.len() as int));
            assert forall|m: int| 0 <= m < rest@.len() implies #[trigger] entry_views(rest@)[m] == full.skip(k + 1)[m] by {
                assert(rest@[m] == r0[m + 1]);
                assert(entry_views(r0)[m + 1] == full.skip(k)[m + 1]);
            }
        }
        let ghost sv = entry_views(sorted@);
        let mut j: usize = sorted.len();
        while j > 0 && sorted[j - 1].ts > e.ts
            invariant
                j <= sorted@.len(),
                sv == entry_views(sorted@),
                forall|m: int| j <= m < sv.len() ==> #[trigger] sv[m].ts > e.ts,
            decreases j,
        {
            assert(sv[j - 1].ts == sorted@[j - 1].ts);
            j = j - 1;
        }
        proof {
            if j > 0 {
                assert(sv[j - 1].ts == sorted@[j - 1].ts);
            }
            lemma_insert_by_ts(sv, e@, j as int);
        }
        sorted.insert(j, e);
        proof {
            assert(entry_views(sorted@) =~= sv.take(j as int).push(e@) + sv.skip(j as int));
            assert(full.take(k + 1).drop_last() =~= full.take(k));
            assert(full.take(k + 1).last() == full[k]);
            k = k + 1;
        }
    }
    assert(full.take(k) =~= full);
    sorted
}

/// A group-by-gap of a non-empty sequence has a last group.
proof fn lemma_groups_nonempty(s: Seq<VideoEntryView>)
    requires
        s.len() > 0,
    ensures
        group_by_gap(s).len() > 0,
    decreases s.len(),
{
    if s.len() > 1 {
        lemma_groups_nonempty(s.drop_last());
    }
}

/// Groups consecutive entries at most `SEGMENT_GAP_SECONDS` apart and makes one memory of
/// each group, in order.
pub fn group_video_entries(sorted: Vec<VideoEntry>) -> (r: Vec<MemoryItem>)
    ensures
        item_views(r@) == group_by_gap(entry_views(sorted@)).map_values(|g: Seq<VideoEntryView>| fold_group_spec(g)),
{
    let mut rest = sorted;
    let ghost full = entry_views(rest@);
    let ghost mut k: int = 0;
    let mut result: Vec<MemoryItem> = Vec::new();
    let mut current: Vec<VideoEntry> = Vec::new();
    assert(full.skip(0) =~= full);
    while rest.len() > 0
        invariant
            0 <= k <= full.len(),
            entry_views(rest@) == full.skip(k),
            k == 0 ==> current@.len() == 0 && result@.len() == 0,
            k > 0 ==> {
                let g = group_by_gap(full.take(k));
                &&& g.len() > 0
                &&& current@.len() > 0
                &&& g.last() == entry_views(current@)
                &&& current@.last().ts == full[k - 1].ts
                &&& item_views(result@) == g.drop_last().map_values(|x: Seq<VideoEntryView>| fold_group_spec(x))
            },
        decreases rest@.len(),
    {
        let ghost r0 = rest@;
        let e = rest.remove(0);
        assert(k < full.len() && e@ == full[k] && entry_views(rest@) =~= full.skip(k + 1)) by {
            assert(r0.len() > 0);
            assert(entry_views(r0).len() == r0.len());
            assert(entry_views(r0)[0] == r0[0]@);
            assert(full.skip(k).len() == r0.len());
            assert(entry_views(r0)[0] == full.skip(k)[0]);
            assert(rest@ =~= r0.subrange(1, r0.len() as int));
            assert forall|m: int| 0 <= m < rest@.len() implies #[trigger] entry_views(rest@)[m] == full.skip(k + 1)[m] by {
                assert(rest@[m] == r0[m + 1]);
                assert(entry_views(r0)[m + 1] == full.skip(k)[m + 1]);
            }
        }
        proof {
            assert(full.take(k + 1).drop_last() =~= full.take(k));
            assert(full.take(k + 1).last() == full[k]);
        }
        let ghost g = group_by_gap(full.take(k));
        let joins = current.len() > 0 && (e.ts as i128) - (current[current.len() - 1].ts as i128) <= 10;
        if joins {
            let ghost cv = entry_views(current@);
            current.push(e);
            proof {
                assert(full.take(k + 1)[k - 1] == full[k - 1]);
                assert(entry_views(current@) =~= cv.push(e@));
                let g2 = group_by_gap(full.take(k + 1));
                assert(g2 == g.update(g.len() - 1, g.last().push(e@)));
                assert(g2.drop_last() =~= g.drop_last());
            }
        } else {
            if current.len() > 0 {
                let mut done: Vec<VideoEntry> = Vec::new();
                std::mem::swap(&mut done, &mut current);
                let ghost rv = item_views(result@);
                let item = fold_video_group(done);
                result.push(item);
                proof {
                    assert(item_views(result@) =~= rv.push(item@));
                    assert(full.take(k + 1)[k - 1] == full[k - 1]);
                    let g2 = group_by_gap(full.take(k + 1));
                    assert(g2 == g.push(seq![e@]));
                    assert(g2.drop_last() =~= g);
                    assert(g.drop_last().push(g.last()) =~= g);
                    assert(g.map_values(|x: Seq<VideoEntryView>| fold_group_spec(x)) =~= g.drop_last().map_values(
                        |x: Seq<VideoEntryView>| fold_group_spec(x),
                    ).push(fold_group_spec(g.last())));
                }
            } else {
                proof {
                    assert(k == 0);
                    assert(full.take(1).drop_last() =~= Seq::<VideoEntryView>::empty());
                    assert(group_by_gap(full.take(1)) =~= seq![seq![e@]]);
                }
            }
            current.push(e);
            proof {
                assert(entry_views(current@) =~= seq![e@]);
                assert(item_views(result@) =~= group_by_gap(full.take(k + 1)).drop_last().map_values(
                    |x: Seq<VideoEntryView>| fold_group_spec(x),
                ));
            }
        }
        proof {
            k = k + 1;
        }
    }
    assert(full.take(k) =~= full);
    if current.len() > 0 {
        let ghost g = group_by_gap(full);
        let ghost rv = item_views(result@);
        let item = fold_video_group(current);
        result.push(item);
        assert(item_views(result@) =~= rv.push(item@));
        assert(g.drop_last().push(g.last()) =~= g);
        assert(g.map_values(|x: Seq<VideoEntryView>| fold_group_spec(x)) =~= g.drop_last().map_values(
            |x: Seq<VideoEntryView>| fold_group_spec(x),
        ).push(fold_group_spec(g.last())));
    } else {
        assert(full.len() == 0);
        assert(item_views(result@) =~= group_by_gap(full).map_values(|x: Seq<VideoEntryView>| fold_group_spec(x)));
    }
    result
}

fn copy_opt(s: &Option<String>) -> (r: Option<String>)
    ensures
        match r {
            Some(x) => s matches Some(y) && x@ == y@,
            None => s is None,
        },
{
    match s {
        Some(x) => Some(x.clone()),
        None => None,
    }
}

/// The memories of an export (see `memory_items_spec`): entries without a usable link or
/// id are skipped; video entries are ordered by time and grouped into memories; images
/// follow, in export order.
pub fn build_memory_items(raws: &Vec<RawSnapchatMemory>) -> (r: Vec<MemoryItem>)
    ensures
        item_views(r@) == memory_items_spec(raws@),
{
    let mut videos: Vec<VideoEntry> = Vec::new();
    let mut images: Vec<MemoryItem> = Vec::new();
    let mut i: usize = 0;
    assert(raws@.take(0) =~= Seq::<RawSnapchatMemory>::empty());
    assert(entry_views(videos@) =~= Seq::<VideoEntryView>::empty());
    assert(item_views(images@) =~= Seq::<ItemView>::empty());
    while i < raws.len()
        invariant
            i <= raws@.len(),
            entry_views(videos@) == videos_of(raws@.take(i as int)),
            item_views(images@) == images_of(raws@.take(i as int)),
        decreases raws@.len() - i,
    {
        let raw = &raws[i];
        proof {
            assert(raws@.take(i + 1).drop_last() =~= raws@.take(i as int));
            assert(raws@.take(i + 1).last() == *raw);
        }
        let link: Option<String> = match &raw.download_link {
            Some(l) => Some(l.clone()),
            None => copy_opt(&raw.media_download_url),
        };
        assert(match link { Some(l) => raw_link(*raw) == Some(l@), None => raw_link(*raw) is None });
        if let Some(l) = link {
            if !l.as_str().is_empty() {
                if let Some(u) = parse_url(l.as_str()) {
                    let c = candidate_ids(&u);
                    if c.len() > 0 {
                        let ghost cv = string_views(c@);
                        assert(entry_candidates(*raw) == Some(cv));
                        let id = c[0].clone();
                        assert(id@ == cv[0]);
                        let location = normalize_location(&raw.location);
                        let ts: i64 = match crate::metadata::parse_date_flexible(raw.date.as_str()) {
                            Some(p) => p.timestamp,
                            None => 0,
                        };
                        let media = chars_of(raw.media_type.as_str());
                        if eq_ignore_ascii_case_exec(&media, &chars_of("Video")) {
                            let ghost before = entry_views(videos@);
                            let e = VideoEntry { id, candidate_ids: c, download_url: l, location, date_str: raw.date.clone(), ts };
                            assert(e@ =~= video_entry_spec(*raw, cv));
                            videos.push(e);
                            assert(entry_views(videos@) =~= before.push(e@));
                        } else {
                            let ghost before = item_views(images@);
                            let item = MemoryItem {
                                id,
                                segment_ids: None,
                                candidate_ids: Some(c),
                                download_url: l,
                                original_date: raw.date.clone(),
                                location,
                                state: ProcessingState::Pending,
                                error_message: None,
                                extension: None,
                                has_overlay: false,
                                has_thumbnail: false,
                                media_type: "Image".to_owned(),
                            };
                            assert(item@ =~= image_item_spec(*raw, cv));
                            images.push(item);
                            assert(item_views(images@) =~= before.push(item@));
                        }
                    } else {
                        assert(entry_candidates(*raw) is None);
                    }
                }
            }
        }
        i = i + 1;
    }
    assert(raws@.take(raws@.len() as int) =~= raws@);
    let sorted = sort_entries(videos);
    let mut result = group_video_entries(sorted);
    let ghost head = item_views(result@);
    let ghost tail = item_views(images@);
    let mut rest = images;
    let ghost mut k: int = 0;
    assert(tail.skip(0) =~= tail);
    assert(head + tail.take(0) =~= head);
    while rest.len() > 0
        invariant
            0 <= k <= tail.len(),
            item_views(rest@) == tail.skip(k),
            item_views(result@) == head + tail.take(k),
        decreases rest@.len(),
    {
        let ghost r0 = rest@;
        let x = rest.remove(0);
        proof {
            assert(item_views(r0)[0] == r0[0]@);
            assert(tail.skip(k).len() == r0.len());
            assert(k < tail.len());
            assert(x@ == tail[k]);
            assert(rest@ =~= r0.subrange(1, r0.len() as int));
            assert(item_views(rest@) =~= tail.skip(k + 1)) by {
                assert forall|m: int| 0 <= m < rest@.len() implies #[trigger] item_views(rest@)[m] == tail.skip(k + 1)[m] by {
                    assert(rest@[m] == r0[m + 1]);
                    assert(item_views(r0)[m + 1] == tail.skip(k)[m + 1]);
                }
            }
        }
        let ghost before = item_views(result@);
        result.push(x);
        proof {
            assert(item_views(result@) =~= before.push(x@));
            assert(head + tail.take(k + 1) =~= (head + tail.take(k)).push(tail[k]));
            k = k + 1;
        }
    }
    assert(tail.take(k) =~= tail);
    result
}

// ---------------------------------------------------------------------------
// Laws of ordering and grouping
// ---------------------------------------------------------------------------

broadcast use vstd::seq_lib::group_to_multiset_ensures;

/// Entries in non-decreasing timestamp order.
pub open spec fn ts_sorted(s: Seq<VideoEntryView>) -> bool {
    forall|i: int, j: int| 0 <= i <= j < s.len() ==> (#[trigger] s[i]).ts <= (#[trigger] s[j]).ts
}

proof fn lemma_insert_bound(s: Seq<VideoEntryView>, e: VideoEntryView, b: int)
    requires
        forall|i: int| 0 <= i < s.len() ==> (#[trigger] s[i]).ts <= b,
        e.ts <= b,
    ensures
        forall|i: int| 0 <= i < insert_by_ts(s, e).len() ==> (#[trigger] insert_by_ts(s, e)[i]).ts <= b,
        insert_by_ts(s, e).len() == s.len() + 1,
        insert_by_ts(s, e).to_multiset() == s.to_multiset().insert(e),
    decreases s.len(),
{
    if s.len() == 0 || s.last().ts <= e.ts {
    } else {
        let t = s.drop_last();
        lemma_insert_bound(t, e, b);
        let r = insert_by_ts(t, e);
        assert forall|i: int| 0 <= i < r.push(s.last()).len() implies (#[trigger] r.push(s.last())[i]).ts <= b by {
            if i < r.len() {
                assert(r.push(s.last())[i] == r[i]);
            }
        }
        assert(s =~= t.push(s.last()));
        assert(r.push(s.last()).to_multiset() =~= s.to_multiset().insert(e));
    }
}

proof fn lemma_insert_sorted(s: Seq<VideoEntryView>, e: VideoEntryView)
    requires
        ts_sorted(s),
    ensures
        ts_sorted(insert_by_ts(s, e)),
    decreases s.len(),
{
    if s.len() == 0 || s.last().ts <= e.ts {
        let r = s.push(e);
        assert forall|i: int, j: int| 0 <= i <= j < r.len() implies (#[trigger] r[i]).ts <= (#[trigger] r[j]).ts by {
            if j == s.len() && i < s.len() {
                assert(s[i].ts <= s[s.len() - 1].ts);
            }
        }
    } else {
        let t = s.drop_last();
        assert(ts_sorted(t)) by {
            assert forall|i: int, j: int| 0 <= i <= j < t.len() implies (#[trigger] t[i]).ts <= (#[trigger] t[j]).ts by {
                assert(t[i] == s[i] && t[j] == s[j]);
            }
        }
        lemma_insert_sorted(t, e);
        assert forall|i: int| 0 <= i < t.len() implies (#[trigger] t[i]).ts <= s.last().ts by {
            assert(t[i] == s[i]);
        }
        lemma_insert_bound(t, e, s.last().ts as int);
        let r = insert_by_ts(t, e);
        let q = r.push(s.last());
        assert forall|i: int, j: int| 0 <= i <= j < q.len() implies (#[trigger] q[i]).ts <= (#[trigger] q[j]).ts by {
            if j < r.len() {
                assert(q[i] == r[i] && q[j] == r[j]);
            } else if i < r.len() {
                assert(q[i] == r[i]);
            }
        }
    }
}

/// Video entries sorted by timestamp: in non-decreasing order, and the same entries (as a
/// multiset) as before.
pub proof fn lemma_sort_by_ts(s: Seq<VideoEntryView>)
    ensures
        ts_sorted(sort_by_ts(s)),
        sort_by_ts(s).to_multiset() == s.to_multiset(),
        sort_by_ts(s).len() == s.len(),
    decreases s.len(),
{
    if s.len() > 0 {
        let t = s.drop_last();
        lemma_sort_by_ts(t);
        lemma_insert_sorted(sort_by_ts(t), s.last());
        lemma_insert_bound(sort_by_ts(t), s.last(), 0x7FFF_FFFF_FFFF_FFFF);
        assert(s =~= t.push(s.last()));
    } else {
        assert(ts_sorted(s));
    }
}

/// The groups of a sequence, put back together, give the sequence; no group is empty;
/// entries next to each other in a group are at most `SEGMENT_GAP_SECONDS` apart.
pub proof fn lemma_group_by_gap(s: Seq<VideoEntryView>)
    ensures
        group_by_gap(s).flatten() == s,
        forall|g: int| 0 <= g < group_by_gap(s).len() ==> (#[trigger] group_by_gap(s)[g]).len() > 0,
        forall|g: int, i: int|
            0 <= g < group_by_gap(s).len() && 0 < i < group_by_gap(s)[g].len() ==> (#[trigger] group_by_gap(s)[g][i]).ts
                - group_by_gap(s)[g][i - 1].ts <= SEGMENT_GAP_SECONDS,
        s.len() > 0 ==> group_by_gap(s).len() > 0 && group_by_gap(s).last().last() == s.last(),
    decreases s.len(),
{
    if s.len() > 0 {
        let t = s.drop_last();
        lemma_group_by_gap(t);
        let g = group_by_gap(t);
        let v = s.last();
        if s.len() > 1 && v.ts - s[s.len() - 2].ts <= SEGMENT_GAP_SECONDS {
            let last = g.last();
            let h = g.update(g.len() - 1, last.push(v));
            assert(g.last().last() == t.last());
            assert(t.last() == s[s.len() - 2]);
            assert(g.drop_last().push(last) =~= g);
            assert(h =~= g.drop_last().push(last.push(v)));
            g.drop_last().lemma_flatten_push(last);
            g.drop_last().lemma_flatten_push(last.push(v));
            assert(h.flatten() =~= g.flatten().push(v));
            assert(s =~= t.push(v));
            assert forall|gi: int, i: int| 0 <= gi < h.len() && 0 < i < h[gi].len() implies (#[trigger] h[gi][i]).ts
                - h[gi][i - 1].ts <= SEGMENT_GAP_SECONDS by {
                if gi < h.len() - 1 {
                    assert(h[gi] == g[gi]);
                } else if i < last.len() {
                    assert(h[gi][i] == last[i] && h[gi][i - 1] == last[i - 1]);
                    assert(g[gi] == last);
                } else {
                    assert(h[gi][i - 1] == last.last());
                }
            }
        } else {
            let h = g.push(seq![v]);
            g.lemma_flatten_push(seq![v]);
            assert(h.flatten() =~= g.flatten() + seq![v]);
            assert(s =~= t + seq![v]);
            assert forall|gi: int, i: int| 0 <= gi < h.len() && 0 < i < h[gi].len() implies (#[trigger] h[gi][i]).ts
                - h[gi][i - 1].ts <= SEGMENT_GAP_SECONDS by {
                assert(h[gi] == g[gi]);
            }
        }
    }
}

/// The ids read from a link never repeat, and each memory's id is the first of them.
pub proof fn lemma_candidate_ids_distinct(pairs: Seq<(Seq<char>, Seq<char>)>, segments: Option<Seq<Seq<char>>>)
    ensures
        candidate_ids_spec(pairs, segments).no_duplicates(),
{
    let e = Seq::<Seq<char>>::empty();
    assert(e.no_duplicates());
    let a = add_query_id(e, pairs, "mid"@);
    if let Some(v) = first_value(pairs, "mid"@) {
        lemma_push_unique(e, trim(v));
    }
    let b = add_query_id(a, pairs, "media_id"@);
    if let Some(v) = first_value(pairs, "media_id"@) {
        lemma_push_unique(a, trim(v));
    }
    let c = add_query_id(b, pairs, "sid"@);
    if let Some(v) = first_value(pairs, "sid"@) {
        lemma_push_unique(b, trim(v));
    }
    if let Some(segs) = segments {
        if let Some(x) = first_uuid_segment(segs) {
            lemma_push_unique(c, trim(x));
        }
    }
}

} // verus!
