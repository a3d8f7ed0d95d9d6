//! The memory record and its processing state.

use vstd::prelude::*;

use crate::metadata::{clean_filename, generate_clean_filename};
use crate::text::{string_views, chars_of, contains, contains_exec, eq_ignore_ascii_case, eq_ignore_ascii_case_exec, to_lowercase, unicode_lowercase};

verus! {

/// Processing state of a memory item in the pipeline. The names are those stored in the
/// database and sent to the front end.
#[derive(Clone, Copy, Debug, PartialEq, Eq, Structural, Hash)]
pub enum ProcessingState {
    /// Queued for processing.
    Pending,
    /// Raw file available (from the memory folder, a source ZIP or the CDN).
    Downloaded,
    /// Unpacked from its ZIP: main media and optional overlay on disk.
    Extracted,
    /// Overlay composited onto the main media.
    Combined,
    /// Fully processed and ready for export.
    Completed,
    /// Processing failed (see the error message).
    Failed,
    /// Paused by the user.
    Paused,
}

/// The stored name of a state.
pub open spec fn state_name(s: ProcessingState) -> Seq<char> {
    match s {
        ProcessingState::Pending => "Pending"@,
        ProcessingState::Downloaded => "Downloaded"@,
        ProcessingState::Extracted => "Extracted"@,
        ProcessingState::Combined => "Combined"@,
        ProcessingState::Completed => "Completed"@,
        ProcessingState::Failed => "Failed"@,
        ProcessingState::Paused => "Paused"@,
    }
}

/// A string that names no state.
#[derive(Clone, Copy, Debug, PartialEq, Eq, Structural)]
pub struct ParseStateError;

fn str_eq(a: &str, b: &str) -> (r: bool)
    ensures
        r == (a@ == b@),
{
    let x = a.to_owned();
    let y = b.to_owned();
    x == y
}

/// Every state has a name of its own.
pub proof fn lemma_state_names_distinct(a: ProcessingState, b: ProcessingState)
    ensures
        state_name(a) == state_name(b) <==> a == b,
{
    reveal_strlit("Pending");
    reveal_strlit("Downloaded");
    reveal_strlit("Extracted");
    reveal_strlit("Combined");
    reveal_strlit("Completed");
    reveal_strlit("Failed");
    reveal_strlit("Paused");
    if state_name(a) == state_name(b) {
        assert(state_name(a).len() == state_name(b).len());
        assert(state_name(a)[0] == state_name(b)[0]);
        if state_name(a).len() == 9 {
            assert(state_name(a)[1] == state_name(b)[1]);
        }
    }
}

impl ProcessingState {
    /// The stored name.
    pub fn as_ref(&self) -> (r: &'static str)
        ensures
            r@ == state_name(*self),
    {
        match self {
            ProcessingState::Pending => "Pending",
            ProcessingState::Downloaded => "Downloaded",
            ProcessingState::Extracted => "Extracted",
            ProcessingState::Combined => "Combined",
            ProcessingState::Completed => "Completed",
            ProcessingState::Failed => "Failed",
            ProcessingState::Paused => "Paused",
        }
    }

    /// The stored name, as an owned string.
    pub fn to_string(&self) -> (r: String)
        ensures
            r@ == state_name(*self),
    {
        self.as_ref().to_owned()
    }

    /// The state with the given name; an error for any other string.
    pub fn from_str(s: &str) -> (r: Result<ProcessingState, ParseStateError>)
        ensures
            match r {
                Ok(st) => state_name(st) == s@,
                Err(_) => forall|st: ProcessingState| state_name(st) != s@,
            },
            forall|st: ProcessingState| #[trigger] state_name(st) == s@ ==> r == Ok::<ProcessingState, ParseStateError>(st),
    {
        let r = if str_eq(s, "Pending") {
            Ok(ProcessingState::Pending)
        } else if str_eq(s, "Downloaded") {
            Ok(ProcessingState::Downloaded)
        } else if str_eq(s, "Extracted") {
            Ok(ProcessingState::Extracted)
        } else if str_eq(s, "Combined") {
            Ok(ProcessingState::Combined)
        } else if str_eq(s, "Completed") {
            Ok(ProcessingState::Completed)
        } else if str_eq(s, "Failed") {
            Ok(ProcessingState::Failed)
        } else if str_eq(s, "Paused") {
            Ok(ProcessingState::Paused)
        } else {
            assert forall|st: ProcessingState| state_name(st) != s@ by {
                match st {
                    ProcessingState::Pending => {},
                    ProcessingState::Downloaded => {},
                    ProcessingState::Extracted => {},
                    ProcessingState::Combined => {},
                    ProcessingState::Completed => {},
                    ProcessingState::Failed => {},
                    ProcessingState::Paused => {},
                }
            }
            Err(ParseStateError)
        };
        proof {
            if let Ok(x) = r {
                assert forall|st: ProcessingState| #[trigger] state_name(st) == s@ implies st == x by {
                    lemma_state_names_distinct(st, x);
                }
            }
        }
        r
    }
}

/// The state stored text reads back as: the state it names, `Pending` for text that
/// names no state.
pub open spec fn stored_state(text: Seq<char>) -> ProcessingState {
    if exists|st: ProcessingState| state_name(st) == text {
        choose|st: ProcessingState| state_name(st) == text
    } else {
        ProcessingState::Pending
    }
}

/// Reads a state back from the text stored for it (see `stored_state`).
pub fn state_from_stored(text: &str) -> (r: ProcessingState)
    ensures
        r == stored_state(text@),
{
    let r = match ProcessingState::from_str(text) {
        Ok(st) => st,
        Err(_) => ProcessingState::Pending,
    };
    proof {
        if exists|st: ProcessingState| state_name(st) == text@ {
            let c = choose|st: ProcessingState| state_name(st) == text@;
            lemma_state_names_distinct(c, r);
        }
    }
    r
}

/// A state written as its stored name reads back as the same state.
pub proof fn lemma_stored_state_round_trip(s: ProcessingState)
    ensures
        stored_state(state_name(s)) == s,
{
    assert(state_name(s) == state_name(s));
    let c = choose|st: ProcessingState| state_name(st) == state_name(s);
    lemma_state_names_distinct(c, s);
}

/// One memory of the export: a photo, or a video made of one or more segments.
#[derive(Clone, Debug)]
pub struct MemoryItem {
    /// Primary id (that of the first segment for a split video).
    pub id: String,
    /// For a split video: the segment ids in playback order. `None` for one segment.
    pub segment_ids: Option<Vec<String>>,
    /// Every id under which the media may be found in the export.
    pub candidate_ids: Option<Vec<String>>,
    pub download_url: String,
    pub original_date: String,
    pub location: Option<String>,
    pub state: ProcessingState,
    pub error_message: Option<String>,
    pub extension: Option<String>,
    pub has_overlay: bool,
    pub has_thumbnail: bool,
    pub media_type: String,
}

/// The contents of a memory record, with every string read as its characters.
pub struct ItemView {
    pub id: Seq<char>,
    pub segment_ids: Option<Seq<Seq<char>>>,
    pub candidate_ids: Option<Seq<Seq<char>>>,
    pub download_url: Seq<char>,
    pub original_date: Seq<char>,
    pub location: Option<Seq<char>>,
    pub state: ProcessingState,
    pub error_message: Option<Seq<char>>,
    pub extension: Option<Seq<char>>,
    pub has_overlay: bool,
    pub has_thumbnail: bool,
    pub media_type: Seq<char>,
}

pub open spec fn opt_chars(s: Option<String>) -> Option<Seq<char>> {
    match s {
        Some(x) => Some(x@),
        None => None,
    }
}

pub open spec fn opt_string_list(v: Option<Vec<String>>) -> Option<Seq<Seq<char>>> {
    match v {
        Some(x) => Some(string_views(x@)),
        None => None,
    }
}

impl View for MemoryItem {
    type V = ItemView;

    open spec fn view(&self) -> ItemView {
        ItemView {
            id: self.id@,
            segment_ids: opt_string_list(self.segment_ids),
            candidate_ids: opt_string_list(self.candidate_ids),
            download_url: self.download_url@,
            original_date: self.original_date@,
            location: opt_chars(self.location),
            state: self.state,
            error_message: opt_chars(self.error_message),
            extension: opt_chars(self.extension),
            has_overlay: self.has_overlay,
            has_thumbnail: self.has_thumbnail,
            media_type: self.media_type@,
        }
    }
}

/// A memory is treated as a video when its media type says so, or when its download
/// link (lower-cased) mentions `.mp4`, `.mov` or `video`.
pub open spec fn looks_like_video(media_type: Seq<char>, url: Seq<char>) -> bool {
    let lower = unicode_lowercase(url);
    eq_ignore_ascii_case(media_type, "Video"@) || contains(lower, ".mp4"@) || contains(
        lower,
        ".mov"@,
    ) || contains(lower, "video"@)
}

/// The extension of the output file: `mp4` for videos, else the known extension or `jpg`.
pub open spec fn output_extension(item: MemoryItem) -> Seq<char> {
    if looks_like_video(item.media_type@, item.download_url@) {
        "mp4"@
    } else {
        match item.extension {
            Some(e) => e@,
            None => "jpg"@,
        }
    }
}

impl MemoryItem {
    /// The output file name and its extension.
    pub fn generated_filename_and_ext(&self) -> (r: (String, String))
        ensures
            r.1@ == output_extension(*self),
            r.0@ == clean_filename(self.original_date@, self.id@, r.1@),
    {
        let media = chars_of(self.media_type.as_str());
        let video = chars_of("Video");
        let lower = to_lowercase(self.download_url.as_str());
        let lower_chars = chars_of(lower.as_str());
        let is_video = eq_ignore_ascii_case_exec(&media, &video) || contains_exec(
            &lower_chars,
            &chars_of(".mp4"),
        ) || contains_exec(&lower_chars, &chars_of(".mov")) || contains_exec(
            &lower_chars,
            &chars_of("video"),
        );
        let ext: String = if is_video {
            "mp4".to_owned()
        } else {
            match &self.extension {
                Some(e) => e.as_str().to_owned(),
                None => "jpg".to_owned(),
            }
        };
        let name = generate_clean_filename(self.original_date.as_str(), self.id.as_str(), ext.as_str());
        (name, ext)
    }
}

} // verus!
