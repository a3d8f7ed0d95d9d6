//! Per-session state: which export archives are in use and the indexes built from them.

use vstd::prelude::*;

use crate::pipeline::index::ZipIndex;
use crate::text::{chars_of, concat, string_of, string_views};

verus! {

/// What a session remembers between commands.
pub struct SessionState {
    /// The export archives the pipeline may read, in the order the user gave them.
    pub export_paths: Vec<String>,
    /// The folder that receives the recovered memories.
    pub output_dir: Option<String>,
    /// Cached main-media index of `export_paths`.
    pub main_index: Option<ZipIndex>,
    /// Cached overlay index of `export_paths`.
    pub overlay_index: Option<ZipIndex>,
}

impl SessionState {
    pub fn new() -> (s: Self)
        ensures
            s.export_paths@.len() == 0,
            s.output_dir is None,
            s.main_index is None,
            s.overlay_index is None,
    {
        SessionState { export_paths: Vec::new(), output_dir: None, main_index: None, overlay_index: None }
    }
}

/// Element-wise equality of two string lists.
pub fn strings_eq(a: &Vec<String>, b: &Vec<String>) -> (r: bool)
    ensures
        r == (string_views(a@) == string_views(b@)),
{
    if a.len() != b.len() {
        assert(string_views(a@).len() != string_views(b@).len());
        return false;
    }
    let mut i: usize = 0;
    while i < a.len()
        invariant
            a@.len() == b@.len(),
            i <= a@.len(),
            forall|j: int| 0 <= j < i ==> (#[trigger] a@[j])@ == b@[j]@,
        decreases a@.len() - i,
    {
        if a[i] != b[i] {
            assert(string_views(a@)[i as int] != string_views(b@)[i as int]);
            return false;
        }
        i = i + 1;
    }
    assert(string_views(a@) =~= string_views(b@));
    true
}

/// Replaces the session's archive list. When the list really changes, the cached indexes
/// are dropped (they may be incomplete or stale) and `true` is returned; otherwise the
/// session is left as it was.
pub fn apply_export_paths(session: &mut SessionState, new_paths: Vec<String>) -> (changed: bool)
    ensures
        changed == (string_views(old(session).export_paths@) != string_views(new_paths@)),
        changed ==> final(session).export_paths@ == new_paths@,
        changed ==> final(session).main_index is None,
        changed ==> final(session).overlay_index is None,
        !changed ==> final(session).export_paths@ == old(session).export_paths@,
        !changed ==> final(session).main_index == old(session).main_index,
        !changed ==> final(session).overlay_index == old(session).overlay_index,
        final(session).output_dir == old(session).output_dir,
{
    if strings_eq(&session.export_paths, &new_paths) {
        return false;
    }
    session.export_paths = new_paths;
    session.main_index = None;
    session.overlay_index = None;
    true
}

/// Adds an archive to the session's list unless it is already there (which drops the
/// cached indexes, as `apply_export_paths` does).
pub fn add_export_path(session: &mut SessionState, path: String) -> (changed: bool)
    ensures
        string_views(old(session).export_paths@).contains(path@) ==> !changed && final(session).export_paths@
            == old(session).export_paths@ && final(session).main_index == old(session).main_index
            && final(session).overlay_index == old(session).overlay_index,
        !string_views(old(session).export_paths@).contains(path@) ==> changed && string_views(
            final(session).export_paths@,
        ) == string_views(old(session).export_paths@).push(path@) && final(session).main_index is None
            && final(session).overlay_index is None,
        final(session).output_dir == old(session).output_dir,
{
    if crate::pipeline::acquire::contains_string(&session.export_paths, &path) {
        return false;
    }
    let mut next = crate::pipeline::index::copy_strings(&session.export_paths);
    let ghost before = string_views(next@);
    next.push(path);
    assert(string_views(next@) =~= before.push(path@));
    assert(string_views(next@).len() != string_views(session.export_paths@).len());
    apply_export_paths(session, next)
}

/// The names under which an overlay of memory `id` may already sit in the output folder,
/// in the order they are tried.
pub open spec fn overlay_file_names(id: Seq<char>, clean_date: Seq<char>) -> Seq<Seq<char>> {
    seq![
        id + "-overlay.png"@,
        clean_date + seq!['_'] + id + "-overlay.png"@,
        id + "-overlay.jpg"@,
        clean_date + seq!['_'] + id + "-overlay.jpg"@,
    ]
}

/// An overlay of memory `id` is looked for, for each of the extensions `png` and `jpg`,
/// under `<id>-overlay.<ext>` and under `<date>_<id>-overlay.<ext>`, and under no other name.
pub proof fn lemma_overlay_file_names(id: Seq<char>, clean_date: Seq<char>)
    ensures
        forall|n: Seq<char>|
            overlay_file_names(id, clean_date).contains(n) <==> (n == id + "-overlay.png"@ || n == clean_date + seq!['_'] + id
                + "-overlay.png"@ || n == id + "-overlay.jpg"@ || n == clean_date + seq!['_'] + id + "-overlay.jpg"@),
{
    let names = overlay_file_names(id, clean_date);
    assert forall|n: Seq<char>|
        names.contains(n) <==> (n == id + "-overlay.png"@ || n == clean_date + seq!['_'] + id + "-overlay.png"@ || n == id
            + "-overlay.jpg"@ || n == clean_date + seq!['_'] + id + "-overlay.jpg"@) by {
        if n == id + "-overlay.png"@ {
            assert(names[0] == n);
        }
        if n == clean_date + seq!['_'] + id + "-overlay.png"@ {
            assert(names[1] == n);
        }
        if n == id + "-overlay.jpg"@ {
            assert(names[2] == n);
        }
        if n == clean_date + seq!['_'] + id + "-overlay.jpg"@ {
            assert(names[3] == n);
        }
    }
}

/// Commands of a session that need no state of their own.
pub struct SessionService;

impl SessionService {
    /// Whether an overlay for memory `memory_id` (with date prefix `clean_date`) is present
    /// among `dir_entries`, the names of the files in the output folder.
    pub fn check_overlay_exists(dir_entries: &Vec<String>, memory_id: &str, clean_date: &str) -> (r: bool)
        ensures
            r == exists|k: int, j: int|
                0 <= k < 4 && 0 <= j < dir_entries@.len() && #[trigger] overlay_file_names(memory_id@, clean_date@)[k]
                    == #[trigger] dir_entries@[j]@,
            r == exists|j: int|
                0 <= j < dir_entries@.len() && {
                    let n = #[trigger] dir_entries@[j]@;
                    n == memory_id@ + "-overlay.png"@ || n == clean_date@ + seq!['_'] + memory_id@ + "-overlay.png"@ || n
                        == memory_id@ + "-overlay.jpg"@ || n == clean_date@ + seq!['_'] + memory_id@ + "-overlay.jpg"@
                },
    {
        proof {
            lemma_overlay_file_names(memory_id@, clean_date@);
        }
        let ghost names = overlay_file_names(memory_id@, clean_date@);
        let id = chars_of(memory_id);
        let date = chars_of(clean_date);
        let under = vec!['_'];
        let dated_base = concat(&concat(&date, &under), &id);
        let png = chars_of("-overlay.png");
        let jpg = chars_of("-overlay.jpg");
        let mut cands: Vec<String> = Vec::new();
        cands.push(string_of(&concat(&id, &png)));
        cands.push(string_of(&concat(&dated_base, &png)));
        cands.push(string_of(&concat(&id, &jpg)));
        cands.push(string_of(&concat(&dated_base, &jpg)));
        assert(cands@[1]@ =~= names[1]);
        assert(cands@[3]@ =~= names[3]);
        let mut c: usize = 0;
        while c < cands.len()
            invariant
                cands@.len() == 4,
                forall|i: int| 0 <= i < 4 ==> (#[trigger] cands@[i])@ == names[i],
                names == overlay_file_names(memory_id@, clean_date@),
                c <= 4,
                forall|i: int, j: int| 0 <= i < c && 0 <= j < dir_entries@.len() ==> #[trigger] names[i] != #[trigger] dir_entries@[j]@,
            decreases 4 - c,
        {
            let mut j: usize = 0;
            while j < dir_entries.len()
                invariant
                    cands@.len() == 4,
                    forall|i: int| 0 <= i < 4 ==> (#[trigger] cands@[i])@ == names[i],
                    c < 4,
                    names == overlay_file_names(memory_id@, clean_date@),
                    j <= dir_entries@.len(),
                    forall|i: int, jj: int| 0 <= i < c && 0 <= jj < dir_entries@.len() ==> #[trigger] names[i] != #[trigger] dir_entries@[jj]@,
                    forall|jj: int| 0 <= jj < j ==> names[c as int] != #[trigger] dir_entries@[jj]@,
                decreases dir_entries@.len() - j,
            {
                if cands[c] == dir_entries[j] {
                    assert(names[c as int] == dir_entries@[j as int]@);
                    return true;
                }
                j = j + 1;
            }
            c = c + 1;
        }
        false
    }
}

} // verus!
