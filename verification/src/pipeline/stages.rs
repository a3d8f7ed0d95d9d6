//! How a memory moves through the stages: the state after each stage, the record written
//! to the database, what the combine step does, and the pause between attempts.

use vstd::prelude::*;

use crate::models::{MemoryItem, ProcessingState};
use crate::paths::{name_extension, path_extension, path_extension_exec};
use crate::pipeline::PipelineMessage;
use crate::pipeline::zip::{is_video_ext, is_video_ext_spec};
use crate::text::{chars_of, concat, eq_ignore_ascii_case, eq_ignore_ascii_case_exec, last_index_of_exec, string_of, sub_vec};

verus! {

/// Attempts made on one memory before it is marked failed.
pub const MAX_ATTEMPTS: u32 = 6;

/// A change of the stored record of a memory: its state, its error message, and, where
/// given, its extension and overlay flag (`None` keeps the stored value).
pub struct StateUpdate {
    pub state: ProcessingState,
    pub error_message: Option<String>,
    pub extension: Option<String>,
    pub has_overlay: Option<bool>,
}

/// The place of a state on the way to completion; `None` off that way.
pub open spec fn stage_rank(s: ProcessingState) -> Option<int> {
    match s {
        ProcessingState::Pending => Some(0),
        ProcessingState::Downloaded => Some(1),
        ProcessingState::Extracted => Some(2),
        ProcessingState::Combined => Some(3),
        ProcessingState::Completed => Some(4),
        _ => None,
    }
}

pub open spec fn after_acquire(s: ProcessingState) -> ProcessingState {
    if s == ProcessingState::Pending { ProcessingState::Downloaded } else { s }
}

pub open spec fn after_extract(s: ProcessingState) -> ProcessingState {
    if s == ProcessingState::Downloaded { ProcessingState::Extracted } else { s }
}

pub open spec fn after_combine(s: ProcessingState) -> ProcessingState {
    if s == ProcessingState::Extracted { ProcessingState::Combined } else { s }
}

pub open spec fn after_metadata(s: ProcessingState) -> ProcessingState {
    if s == ProcessingState::Combined { ProcessingState::Completed } else { s }
}

/// One successful run of the four stages.
pub open spec fn after_all_stages(s: ProcessingState) -> ProcessingState {
    after_metadata(after_combine(after_extract(after_acquire(s))))
}

/// A memory anywhere on the way to completion is completed by one successful run of the
/// stages, and each stage moves it at most one step forward; states off that way are
/// left as they are.
pub proof fn lemma_stages_complete(s: ProcessingState)
    ensures
        stage_rank(s) is Some ==> after_all_stages(s) == ProcessingState::Completed,
        stage_rank(s) is None ==> after_all_stages(s) == s,
        stage_rank(s) matches Some(r) ==> stage_rank(after_acquire(s)) matches Some(q) && r <= q <= r + 1,
        stage_rank(s) matches Some(r) ==> stage_rank(after_extract(s)) matches Some(q) && r <= q <= r + 1,
        stage_rank(s) matches Some(r) ==> stage_rank(after_combine(s)) matches Some(q) && r <= q <= r + 1,
        stage_rank(s) matches Some(r) ==> stage_rank(after_metadata(s)) matches Some(q) && r <= q <= r + 1,
{
}

/// The record kept by a memory whose fields other than those named stay as they were.
pub open spec fn same_but_state(a: MemoryItem, b: MemoryItem) -> bool {
    &&& a.id == b.id
    &&& a.segment_ids == b.segment_ids
    &&& a.candidate_ids == b.candidate_ids
    &&& a.download_url == b.download_url
    &&& a.original_date == b.original_date
    &&& a.location == b.location
    &&& a.error_message == b.error_message
    &&& a.has_thumbnail == b.has_thumbnail
    &&& a.media_type == b.media_type
}

/// The view of an optional string.
pub open spec fn opt_view(s: Option<String>) -> Option<Seq<char>> {
    match s {
        Some(x) => Some(x@),
        None => None,
    }
}

fn copy_opt_string(s: &Option<String>) -> (r: Option<String>)
    ensures
        opt_view(r) == opt_view(*s),
{
    match s {
        Some(x) => Some(x.clone()),
        None => None,
    }
}

/// Applies a record change to a memory held in memory, as the database applies it to the
/// stored row: state and error message are set, extension and overlay flag only when given.
pub fn apply_update(item: &mut MemoryItem, u: &StateUpdate)
    ensures
        final(item)@ == crate::db::updated_row(old(item)@, u.state, opt_view(u.error_message), opt_view(u.extension), u.has_overlay),
{
    item.state = u.state;
    item.error_message = copy_opt_string(&u.error_message);
    if let Some(e) = &u.extension {
        item.extension = Some(e.clone());
    }
    if let Some(b) = u.has_overlay {
        item.has_overlay = b;
    }
    assert(item@ =~= crate::db::updated_row(old(item)@, u.state, opt_view(u.error_message), opt_view(u.extension), u.has_overlay));
}

/// After the acquire stage: a pending memory is now downloaded.
pub fn finish_acquire(item: &mut MemoryItem) -> (u: Option<StateUpdate>)
    ensures
        final(item).state == after_acquire(old(item).state),
        same_but_state(*final(item), *old(item)),
        final(item).extension == old(item).extension,
        final(item).has_overlay == old(item).has_overlay,
        match u {
            Some(x) => old(item).state == ProcessingState::Pending && x.state == ProcessingState::Downloaded
                && x.error_message is None && x.extension is None && x.has_overlay is None,
            None => old(item).state != ProcessingState::Pending,
        },
{
    if item.state == ProcessingState::Pending {
        item.state = ProcessingState::Downloaded;
        Some(StateUpdate { state: ProcessingState::Downloaded, error_message: None, extension: None, has_overlay: None })
    } else {
        None
    }
}

/// The extension recorded after unpacking: `mp4` for videos, else that of the unpacked
/// main file, else `jpg`.
pub open spec fn unpacked_extension(media_type: Seq<char>, main: Option<Seq<char>>) -> Seq<char> {
    if eq_ignore_ascii_case(media_type, "Video"@) {
        "mp4"@
    } else {
        match main {
            Some(m) => match path_extension(m) {
                Some(e) => e,
                None => "jpg"@,
            },
            None => "jpg"@,
        }
    }
}

/// The unpacked main file of a message, if any.
pub open spec fn main_file(m: PipelineMessage) -> Option<Seq<char>> {
    match m.extracted_files {
        Some((main, _)) => Some(main@),
        None => None,
    }
}

/// Whether a message carries an unpacked overlay.
pub open spec fn has_unpacked_overlay(m: PipelineMessage) -> bool {
    match m.extracted_files {
        Some((_, ov)) => ov is Some,
        None => false,
    }
}

/// After the extract stage: a downloaded memory is now extracted, with its extension and
/// overlay flag taken from the unpacked files.
pub fn finish_extract(msg: &mut PipelineMessage) -> (u: Option<StateUpdate>)
    ensures
        final(msg).item.state == after_extract(old(msg).item.state),
        same_but_state(final(msg).item, old(msg).item),
        final(msg).raw_path == old(msg).raw_path,
        final(msg).extracted_files == old(msg).extracted_files,
        final(msg).final_file == old(msg).final_file,
        match u {
            Some(x) => {
                &&& old(msg).item.state == ProcessingState::Downloaded
                &&& x.state == ProcessingState::Extracted
                &&& x.error_message is None
                &&& opt_view(x.extension) == Some(unpacked_extension(old(msg).item.media_type@, main_file(*old(msg))))
                &&& x.has_overlay == Some(has_unpacked_overlay(*old(msg)))
                &&& opt_view(final(msg).item.extension) == opt_view(x.extension)
                &&& final(msg).item.has_overlay == has_unpacked_overlay(*old(msg))
            },
            None => {
                &&& old(msg).item.state != ProcessingState::Downloaded
                &&& final(msg).item.extension == old(msg).item.extension
                &&& final(msg).item.has_overlay == old(msg).item.has_overlay
            },
        },
{
    if msg.item.state != ProcessingState::Downloaded {
        return None;
    }
    let media = chars_of(msg.item.media_type.as_str());
    let video = chars_of("Video");
    let (ext, has_overlay) = match &msg.extracted_files {
        Some((main, ov)) => {
            let has = ov.is_some();
            if eq_ignore_ascii_case_exec(&media, &video) {
                ("mp4".to_owned(), has)
            } else {
                let m = chars_of(main.as_str());
                match path_extension_exec(&m) {
                    Some(e) => (string_of(&e), has),
                    None => ("jpg".to_owned(), has),
                }
            }
        },
        None => {
            if eq_ignore_ascii_case_exec(&media, &video) {
                ("mp4".to_owned(), false)
            } else {
                ("jpg".to_owned(), false)
            }
        },
    };
    msg.item.state = ProcessingState::Extracted;
    msg.item.extension = Some(ext.clone());
    msg.item.has_overlay = has_overlay;
    Some(StateUpdate { state: ProcessingState::Extracted, error_message: None, extension: Some(ext), has_overlay: Some(has_overlay) })
}

/// After the combine stage: an extracted memory is now combined; its extension is recorded.
pub fn finish_combine(item: &mut MemoryItem) -> (u: Option<StateUpdate>)
    ensures
        final(item).state == after_combine(old(item).state),
        same_but_state(*final(item), *old(item)),
        final(item).extension == old(item).extension,
        final(item).has_overlay == old(item).has_overlay,
        match u {
            Some(x) => old(item).state == ProcessingState::Extracted && x.state == ProcessingState::Combined
                && x.error_message is None && opt_view(x.extension) == opt_view(old(item).extension)
                && x.has_overlay is None,
            None => old(item).state != ProcessingState::Extracted,
        },
{
    if item.state == ProcessingState::Extracted {
        item.state = ProcessingState::Combined;
        Some(StateUpdate { state: ProcessingState::Combined, error_message: None, extension: copy_opt_string(&item.extension), has_overlay: None })
    } else {
        None
    }
}

/// After the metadata stage: a combined memory is now completed; its extension is recorded.
pub fn finish_metadata(item: &mut MemoryItem) -> (u: Option<StateUpdate>)
    ensures
        final(item).state == after_metadata(old(item).state),
        same_but_state(*final(item), *old(item)),
        final(item).extension == old(item).extension,
        final(item).has_overlay == old(item).has_overlay,
        match u {
            Some(x) => old(item).state == ProcessingState::Combined && x.state == ProcessingState::Completed
                && x.error_message is None && opt_view(x.extension) == opt_view(old(item).extension)
                && x.has_overlay is None,
            None => old(item).state != ProcessingState::Combined,
        },
{
    if item.state == ProcessingState::Combined {
        item.state = ProcessingState::Completed;
        Some(StateUpdate { state: ProcessingState::Completed, error_message: None, extension: copy_opt_string(&item.extension), has_overlay: None })
    } else {
        None
    }
}

/// A memory that failed every attempt: marked failed with the last error.
pub fn mark_failed(item: &mut MemoryItem, error: String) -> (u: StateUpdate)
    ensures
        final(item).state == ProcessingState::Failed,
        opt_view(final(item).error_message) == Some(error@),
        final(item).id == old(item).id,
        final(item).segment_ids == old(item).segment_ids,
        final(item).candidate_ids == old(item).candidate_ids,
        final(item).download_url == old(item).download_url,
        final(item).original_date == old(item).original_date,
        final(item).location == old(item).location,
        final(item).has_thumbnail == old(item).has_thumbnail,
        final(item).media_type == old(item).media_type,
        final(item).extension == old(item).extension,
        final(item).has_overlay == old(item).has_overlay,
        u.state == ProcessingState::Failed,
        opt_view(u.error_message) == Some(error@),
        u.extension is None,
        u.has_overlay is None,
{
    item.state = ProcessingState::Failed;
    item.error_message = Some(error.clone());
    StateUpdate { state: ProcessingState::Failed, error_message: Some(error), extension: None, has_overlay: None }
}

/// The record written when a run is cancelled while a memory waits.
pub fn paused_update() -> (u: StateUpdate)
    ensures
        u.state == ProcessingState::Paused,
        u.error_message is None,
        u.extension is None,
        u.has_overlay is None,
{
    StateUpdate { state: ProcessingState::Paused, error_message: None, extension: None, has_overlay: None }
}

/// `2^n`.
pub open spec fn pow2(n: nat) -> nat
    decreases n,
{
    if n == 0 { 1 } else { 2 * pow2((n - 1) as nat) }
}

/// Pause in milliseconds after failed attempt `attempt` (counted from 1): one second,
/// doubled after each further failure.
pub fn retry_delay_ms(attempt: u32) -> (ms: u64)
    requires
        1 <= attempt < MAX_ATTEMPTS,
    ensures
        ms == 1000 * pow2((attempt - 1) as nat),
{
    let mut ms: u64 = 1000;
    let mut k: u32 = 1;
    while k < attempt
        invariant
            1 <= k <= attempt < MAX_ATTEMPTS,
            ms == 1000 * pow2((k - 1) as nat),
        decreases attempt - k,
    {
        assert(pow2(k as nat) == 2 * pow2((k - 1) as nat));
        assert(pow2(0) == 1 && pow2(1) == 2 && pow2(2) == 4 && pow2(3) == 8) by {
            reveal_with_fuel(pow2, 4);
        }
        ms = ms * 2;
        k = k + 1;
    }
    ms
}

/// What follows an attempt at a memory's stages.
#[derive(Clone, Copy, Debug, PartialEq, Eq, Structural)]
pub enum AttemptNext {
    /// The run was cancelled before the attempt: the memory is paused.
    Pause,
    /// Every stage succeeded.
    Done,
    /// A stage failed: try again after this many milliseconds.
    RetryAfterMs(u64),
    /// A stage failed on the last attempt: the memory is marked failed.
    Fail,
}

/// The decision after attempt `attempt` (counted from 1): pause when cancelled, done on
/// success, else a pause of `1000 * 2^(attempt - 1)` ms before the next attempt, and
/// failure after the last.
pub open spec fn attempt_next_spec(attempt: int, cancelled: bool, succeeded: bool) -> AttemptNext {
    if cancelled {
        AttemptNext::Pause
    } else if succeeded {
        AttemptNext::Done
    } else if attempt < MAX_ATTEMPTS {
        AttemptNext::RetryAfterMs((1000 * pow2((attempt - 1) as nat)) as u64)
    } else {
        AttemptNext::Fail
    }
}

/// The number of attempts a run that is not cancelled makes when attempt `k` (counted
/// from 1) succeeds exactly when `outcomes[k - 1]` holds, counting from attempt `k`.
pub open spec fn attempts_from(outcomes: Seq<bool>, k: int) -> int
    decreases MAX_ATTEMPTS - k,
{
    if k >= MAX_ATTEMPTS || k < 1 || outcomes[k - 1] {
        k
    } else {
        attempts_from(outcomes, k + 1)
    }
}

/// The number of attempts such a run makes.
pub open spec fn attempts_made(outcomes: Seq<bool>) -> int {
    attempts_from(outcomes, 1)
}

proof fn lemma_attempts_from(outcomes: Seq<bool>, k: int)
    requires
        1 <= k <= MAX_ATTEMPTS,
        outcomes.len() >= MAX_ATTEMPTS,
    ensures
        k <= attempts_from(outcomes, k) <= MAX_ATTEMPTS,
        forall|j: int| k <= j < attempts_from(outcomes, k) ==> !#[trigger] outcomes[j - 1],
        attempts_from(outcomes, k) < MAX_ATTEMPTS ==> outcomes[attempts_from(outcomes, k) - 1],
    decreases MAX_ATTEMPTS - k,
{
    if k < MAX_ATTEMPTS && !outcomes[k - 1] {
        lemma_attempts_from(outcomes, k + 1);
    }
}

/// A run that is not cancelled makes at most `MAX_ATTEMPTS` attempts: each failed attempt
/// before the last is followed by a pause and another attempt; the run ends with the first
/// successful attempt, or fails after the last attempt exactly when every attempt failed.
pub proof fn lemma_run_attempts(outcomes: Seq<bool>)
    requires
        outcomes.len() >= MAX_ATTEMPTS,
    ensures
        1 <= attempts_made(outcomes) <= MAX_ATTEMPTS,
        forall|k: int| 1 <= k < attempts_made(outcomes) ==> #[trigger] attempt_next_spec(k, false, outcomes[k - 1]) is RetryAfterMs,
        attempt_next_spec(attempts_made(outcomes), false, outcomes[attempts_made(outcomes) - 1]) == (if outcomes[attempts_made(outcomes) - 1] {
            AttemptNext::Done
        } else {
            AttemptNext::Fail
        }),
        attempt_next_spec(attempts_made(outcomes), false, outcomes[attempts_made(outcomes) - 1]) is Fail <==> forall|i: int|
            0 <= i < MAX_ATTEMPTS ==> !#[trigger] outcomes[i],
{
    lemma_attempts_from(outcomes, 1);
    let a = attempts_made(outcomes);
    assert forall|k: int| 1 <= k < a implies #[trigger] attempt_next_spec(k, false, outcomes[k - 1]) is RetryAfterMs by {
        assert(!outcomes[k - 1]);
    }
    if attempt_next_spec(a, false, outcomes[a - 1]) is Fail {
        assert forall|i: int| 0 <= i < MAX_ATTEMPTS implies !#[trigger] outcomes[i] by {
            assert(!outcomes[(i + 1) - 1]);
        }
    }
}

/// Stage `j` (0 to 3: acquire, extract, combine, metadata) applied to a state.
pub open spec fn stage_step(j: int, s: ProcessingState) -> ProcessingState {
    if j == 0 {
        after_acquire(s)
    } else if j == 1 {
        after_extract(s)
    } else if j == 2 {
        after_combine(s)
    } else {
        after_metadata(s)
    }
}

/// The state after the first `k` stages of an attempt that starts in `s`.
pub open spec fn state_after_stages(s: ProcessingState, k: nat) -> ProcessingState
    decreases k,
{
    if k == 0 {
        s
    } else {
        stage_step(k - 1, state_after_stages(s, (k - 1) as nat))
    }
}

/// The states recorded by the first `k` stages of an attempt that starts in `s`: a stage
/// records its state exactly when it moves the memory on (see `finish_acquire` and the
/// other `finish_` functions).
pub open spec fn attempt_writes(s: ProcessingState, k: nat) -> Seq<ProcessingState>
    decreases k,
{
    if k == 0 {
        Seq::empty()
    } else {
        let t = state_after_stages(s, (k - 1) as nat);
        let u = stage_step(k - 1, t);
        if u != t {
            attempt_writes(s, (k - 1) as nat).push(u)
        } else {
            attempt_writes(s, (k - 1) as nat)
        }
    }
}

/// Within one attempt the recorded states rise strictly along pending, downloaded,
/// extracted, combined, completed, each past the state the attempt started in; a memory
/// off that way records nothing; an attempt that passes all four stages from a state on
/// the way ends with `Completed` recorded, unless it started there.
pub proof fn lemma_attempt_writes_rise(s: ProcessingState, k: nat)
    requires
        k <= 4,
    ensures
        stage_rank(s) is None ==> attempt_writes(s, k).len() == 0,
        forall|i: int| 0 <= i < attempt_writes(s, k).len() ==> (stage_rank(#[trigger] attempt_writes(s, k)[i]) matches Some(r)
            && stage_rank(s) matches Some(r0) && r0 < r),
        forall|i: int, j: int|
            0 <= i < j < attempt_writes(s, k).len() ==> stage_rank(#[trigger] attempt_writes(s, k)[i])->0 < stage_rank(
                #[trigger] attempt_writes(s, k)[j],
            )->0,
        stage_rank(s) is Some && s != ProcessingState::Completed && k == 4 ==> attempt_writes(s, k).last()
            == ProcessingState::Completed,
{
    reveal_with_fuel(attempt_writes, 5);
    reveal_with_fuel(state_after_stages, 5);
    match s {
        ProcessingState::Pending => {
            assert(attempt_writes(s, 4) =~= seq![ProcessingState::Downloaded, ProcessingState::Extracted, ProcessingState::Combined, ProcessingState::Completed]);
        },
        ProcessingState::Downloaded => {
            assert(attempt_writes(s, 4) =~= seq![ProcessingState::Extracted, ProcessingState::Combined, ProcessingState::Completed]);
        },
        ProcessingState::Extracted => {
            assert(attempt_writes(s, 4) =~= seq![ProcessingState::Combined, ProcessingState::Completed]);
        },
        ProcessingState::Combined => {
            assert(attempt_writes(s, 4) =~= seq![ProcessingState::Completed]);
        },
        _ => {},
    }
}

/// The decision after attempt `attempt` (counted from 1) of a memory's stages, given
/// whether the run was cancelled before it and, if not, whether the stages succeeded.
pub fn attempt_next(attempt: u32, cancelled: bool, succeeded: bool) -> (n: AttemptNext)
    requires
        1 <= attempt <= MAX_ATTEMPTS,
    ensures
        n == attempt_next_spec(attempt as int, cancelled, succeeded),
{
    if cancelled {
        AttemptNext::Pause
    } else if succeeded {
        AttemptNext::Done
    } else if attempt < MAX_ATTEMPTS {
        AttemptNext::RetryAfterMs(retry_delay_ms(attempt))
    } else {
        AttemptNext::Fail
    }
}

/// What the combine stage does with a memory.
#[derive(Clone, Copy, Debug, PartialEq, Eq, Structural)]
pub enum CombinePlan {
    /// Nothing to do: the memory is not at the combine stage.
    Skip,
    /// No overlay: the main file is copied to the output name.
    CopyMain,
    /// Overlay the video with ffmpeg (copy the main file when that fails).
    OverlayVideo,
    /// Overlay the image (try ffmpeg next, then copy the main file).
    OverlayImage,
}

pub open spec fn combine_plan_spec(state: ProcessingState, has_overlay: bool, ext: Seq<char>) -> CombinePlan {
    if state != ProcessingState::Extracted {
        CombinePlan::Skip
    } else if !has_overlay {
        CombinePlan::CopyMain
    } else if is_video_ext_spec(ext) {
        CombinePlan::OverlayVideo
    } else {
        CombinePlan::OverlayImage
    }
}

/// The combine stage's choice for a memory in `state`, with or without an overlay, whose
/// output extension is `ext`.
pub fn combine_plan(state: ProcessingState, has_overlay: bool, ext: &str) -> (p: CombinePlan)
    ensures
        p == combine_plan_spec(state, has_overlay, ext@),
{
    if state != ProcessingState::Extracted {
        CombinePlan::Skip
    } else if !has_overlay {
        CombinePlan::CopyMain
    } else if is_video_ext(ext) {
        CombinePlan::OverlayVideo
    } else {
        CombinePlan::OverlayImage
    }
}

/// The next thing the combine stage does.
#[derive(Clone, Copy, Debug, PartialEq, Eq, Structural)]
pub enum CombineAction {
    /// Overlay the video onto the main file, written to the output name.
    OverlayVideo,
    /// Overlay the image onto the main file, written to the output name.
    OverlayImage,
    /// Overlay as a video instead, written to the `.mp4` fallback name.
    OverlayVideoToFallback,
    /// Done: the finished file is the output name.
    Finish,
    /// Copy the main file to the output name; then the finished file is the output name.
    CopyMainThenFinish,
    /// Done: the finished file is the `.mp4` fallback name and the memory's extension is `mp4`.
    FinishAsVideo,
}

/// Whether the stage ends with this action.
pub open spec fn combine_action_ends(a: CombineAction) -> bool {
    a is Finish || a is CopyMainThenFinish || a is FinishAsVideo
}

/// The combine stage's next action under `plan`, given whether each overlay attempt made
/// so far succeeded. A video overlay that fails falls back to copying the main file. An
/// image overlay that fails is tried as a video (the main file may be a video with the
/// wrong extension), written under the `.mp4` name; when that fails too, the main file is
/// copied.
pub open spec fn combine_next_spec(plan: CombinePlan, tried: Seq<bool>) -> CombineAction {
    match plan {
        CombinePlan::Skip => CombineAction::Finish,
        CombinePlan::CopyMain => CombineAction::CopyMainThenFinish,
        CombinePlan::OverlayVideo => if tried.len() == 0 {
            CombineAction::OverlayVideo
        } else if tried[0] {
            CombineAction::Finish
        } else {
            CombineAction::CopyMainThenFinish
        },
        CombinePlan::OverlayImage => if tried.len() == 0 {
            CombineAction::OverlayImage
        } else if tried[0] {
            CombineAction::Finish
        } else if tried.len() == 1 {
            CombineAction::OverlayVideoToFallback
        } else if tried[1] {
            CombineAction::FinishAsVideo
        } else {
            CombineAction::CopyMainThenFinish
        },
    }
}

/// The combine stage's next action (see `combine_next_spec`).
pub fn combine_next(plan: CombinePlan, tried: &Vec<bool>) -> (a: CombineAction)
    ensures
        a == combine_next_spec(plan, tried@),
{
    match plan {
        CombinePlan::Skip => CombineAction::Finish,
        CombinePlan::CopyMain => CombineAction::CopyMainThenFinish,
        CombinePlan::OverlayVideo => {
            if tried.len() == 0 {
                CombineAction::OverlayVideo
            } else if tried[0] {
                CombineAction::Finish
            } else {
                CombineAction::CopyMainThenFinish
            }
        },
        CombinePlan::OverlayImage => {
            if tried.len() == 0 {
                CombineAction::OverlayImage
            } else if tried[0] {
                CombineAction::Finish
            } else if tried.len() == 1 {
                CombineAction::OverlayVideoToFallback
            } else if tried[1] {
                CombineAction::FinishAsVideo
            } else {
                CombineAction::CopyMainThenFinish
            }
        },
    }
}

/// The combine stage ends after at most two overlay attempts; it overlays only a memory
/// that has an overlay and is at the combine stage; it finishes under the fallback name
/// only when the image overlay failed and the video overlay succeeded; and once it has
/// ended, further outcomes do not change its end.
pub proof fn lemma_combine_protocol(plan: CombinePlan, tried: Seq<bool>, more: Seq<bool>)
    ensures
        tried.len() >= 2 ==> combine_action_ends(combine_next_spec(plan, tried)),
        (plan is Skip || plan is CopyMain) ==> combine_action_ends(combine_next_spec(plan, tried)),
        combine_next_spec(plan, tried) is FinishAsVideo <==> (plan is OverlayImage && tried.len() >= 2 && !tried[0]
            && tried[1]),
        combine_action_ends(combine_next_spec(plan, tried)) ==> combine_next_spec(plan, tried + more)
            == combine_next_spec(plan, tried),
{
    if tried.len() > 0 {
        assert((tried + more)[0] == tried[0]);
    }
    if tried.len() > 1 {
        assert((tried + more)[1] == tried[1]);
    }
}

/// `Path::with_extension("mp4")` for a plain file name: the extension, if any, is replaced.
pub open spec fn with_mp4_extension(name: Seq<char>) -> Seq<char> {
    match name_extension(name) {
        Some(e) => name.take(name.len() - e.len()) + "mp4"@,
        None => name + ".mp4"@,
    }
}

/// The output name tried when an image overlay fails and the main file may be a video.
pub fn video_fallback_name(name: &str) -> (r: String)
    ensures
        r@ == with_mp4_extension(name@),
{
    let n = chars_of(name);
    let r = match last_index_of_exec(&n, '.') {
        Some(i) if i > 0 => {
            let stem = sub_vec(&n, 0, i + 1);
            let r = concat(&stem, &chars_of("mp4"));
            assert(stem@ =~= n@.take(n@.len() - n@.skip(i + 1).len()));
            r
        },
        _ => concat(&n, &chars_of(".mp4")),
    };
    string_of(&r)
}

/// Whether the metadata stage writes location and file times: only for combined memories.
pub fn metadata_applies(state: ProcessingState) -> (r: bool)
    ensures
        r == (state == ProcessingState::Combined),
{
    state == ProcessingState::Combined
}

/// The intermediate files removed once a memory is finished: the raw file (unless its
/// path is empty), the unpacked main file and the unpacked overlay.
pub open spec fn cleanup_targets_spec(m: PipelineMessage) -> Seq<Seq<char>> {
    let raw = match m.raw_path {
        Some(p) => if p@.len() > 0 { seq![p@] } else { Seq::empty() },
        None => Seq::empty(),
    };
    let unpacked = match m.extracted_files {
        Some((main, ov)) => match ov {
            Some(o) => seq![main@, o@],
            None => seq![main@],
        },
        None => Seq::empty(),
    };
    raw + unpacked
}

pub fn cleanup_targets(msg: &PipelineMessage) -> (r: Vec<String>)
    ensures
        crate::text::string_views(r@) == cleanup_targets_spec(*msg),
{
    let mut r: Vec<String> = Vec::new();
    if let Some(p) = &msg.raw_path {
        if !p.as_str().is_empty() {
            r.push(p.clone());
        }
    }
    if let Some((main, ov)) = &msg.extracted_files {
        r.push(main.clone());
        if let Some(o) = ov {
            r.push(o.clone());
        }
    }
    assert(crate::text::string_views(r@) =~= cleanup_targets_spec(*msg));
    r
}

/// What a run does with a memory before its stages start.
#[derive(Clone, Copy, Debug, PartialEq, Eq, Structural)]
pub enum RunPlan {
    /// A paused memory stays paused (its record is written again).
    KeepPaused,
    /// A completed memory whose finished file exists is left alone.
    SkipDone,
    /// A completed memory with an error whose finished file exists is recorded as done.
    RecordDone,
    /// The memory goes through the stages from this state.
    Process(ProcessingState),
}

pub open spec fn run_plan_spec(state: ProcessingState, has_error: bool, overwrite: bool, final_exists: bool) -> RunPlan {
    if !overwrite && state == ProcessingState::Paused {
        RunPlan::KeepPaused
    } else if !overwrite && state == ProcessingState::Completed && !has_error && final_exists {
        RunPlan::SkipDone
    } else if !overwrite && state == ProcessingState::Completed && final_exists {
        RunPlan::RecordDone
    } else if overwrite || state == ProcessingState::Failed {
        RunPlan::Process(ProcessingState::Pending)
    } else {
        RunPlan::Process(state)
    }
}

/// The run's choice for `item`; `final_exists` tells whether its finished file (named by
/// `generated_filename_and_ext`) is in the output folder. Overwriting restarts every memory
/// from pending; otherwise failed memories restart and the others resume where they were.
pub fn run_plan(item: &MemoryItem, overwrite_existing: bool, final_exists: bool) -> (p: RunPlan)
    ensures
        p == run_plan_spec(item.state, item.error_message is Some, overwrite_existing, final_exists),
{
    if !overwrite_existing {
        if item.state == ProcessingState::Paused {
            return RunPlan::KeepPaused;
        }
        if item.state == ProcessingState::Completed && item.error_message.is_none() && final_exists {
            return RunPlan::SkipDone;
        }
        if item.state == ProcessingState::Completed && final_exists {
            return RunPlan::RecordDone;
        }
    }
    if overwrite_existing || item.state == ProcessingState::Failed {
        RunPlan::Process(ProcessingState::Pending)
    } else {
        RunPlan::Process(item.state)
    }
}

} // verus!
