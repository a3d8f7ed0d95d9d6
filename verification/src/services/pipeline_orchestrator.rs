//! Decisions of the pipeline's background task: which memories to run, how much work to
//! allow at once, what to index, and whether to run another pass over failures.

use vstd::prelude::*;

use crate::models::{MemoryItem, ProcessingState};
use crate::pipeline::index::{copy_strings, OverlayItemRef, ZipIndex};
use crate::text::string_views;

verus! {

/// The number of passes over the memories (the first run and its retries of failures).
pub const MAX_RETRY_PASSES: u32 = 3;

/// Limits on simultaneous work.
#[derive(Clone, Copy, Debug, PartialEq, Eq, Structural)]
pub struct ConcurrencyLimits {
    /// Memories processed at once.
    pub max_concurrency: usize,
    /// Simultaneous downloads.
    pub download: usize,
    /// Simultaneous archive reads.
    pub io: usize,
    /// Simultaneous ffmpeg processes.
    pub ffmpeg: usize,
}

/// Why a pipeline cannot start.
#[derive(Clone, Copy, Debug, PartialEq, Eq, Structural)]
pub enum StartError {
    /// No output folder is known for the session and none was given.
    NoOutputDirectory,
}

/// What follows a pass over the memories.
#[derive(Clone, Copy, Debug, PartialEq, Eq, Structural)]
pub enum PassDecision {
    /// The background task ends.
    Stop,
    /// Failed memories are reset and run again after this many seconds.
    RetryAfterSecs(u64),
}

/// The ids under which the main media of a memory is looked up: its segments, or its id.
pub open spec fn main_ids_of_item(i: MemoryItem) -> Seq<Seq<char>> {
    match i.segment_ids {
        Some(v) => string_views(v@),
        None => seq![i.id@],
    }
}

/// All main-media ids of a list of memories, in order.
pub open spec fn main_ids_of(items: Seq<MemoryItem>) -> Seq<Seq<char>>
    decreases items.len(),
{
    if items.len() == 0 {
        Seq::empty()
    } else {
        main_ids_of(items.drop_last()) + main_ids_of_item(items.last())
    }
}

/// The views of an optional list of strings.
pub open spec fn opt_strings(v: Option<Vec<String>>) -> Option<Seq<Seq<char>>> {
    match v {
        Some(x) => Some(string_views(x@)),
        None => None,
    }
}

/// The memories a run takes up: all of them when overwriting, else those not completed.
pub open spec fn runnable(items: Seq<MemoryItem>, overwrite: bool) -> Seq<MemoryItem>
    decreases items.len(),
{
    if items.len() == 0 {
        Seq::empty()
    } else if items.last().state != ProcessingState::Completed || overwrite {
        runnable(items.drop_last(), overwrite).push(items.last())
    } else {
        runnable(items.drop_last(), overwrite)
    }
}

/// Overwriting takes up every memory, completed ones included, in stored order; otherwise
/// a run takes up exactly the memories not completed, in stored order.
pub proof fn lemma_runnable(items: Seq<MemoryItem>)
    ensures
        runnable(items, true) == items,
        runnable(items, false) == items.filter(|i: MemoryItem| i.state != ProcessingState::Completed),
    decreases items.len(),
{
    reveal(Seq::filter);
    if items.len() > 0 {
        lemma_runnable(items.drop_last());
        assert(items =~= items.drop_last().push(items.last()));
    } else {
        assert(runnable(items, true) =~= items);
    }
}

fn copy_opt_strings(v: &Option<Vec<String>>) -> (r: Option<Vec<String>>)
    ensures
        opt_strings(r) == opt_strings(*v),
{
    match v {
        Some(x) => Some(copy_strings(x)),
        None => None,
    }
}

pub struct PipelineOrchestrator;

impl PipelineOrchestrator {
    /// Work limits for a run: the requested concurrency when positive, else the machine's
    /// parallelism; half of it (at least two) for downloads, all of it (at least one) for
    /// archive reads, half of it (at least one) for ffmpeg.
    pub fn concurrency_limits(requested: Option<usize>, available: usize) -> (r: ConcurrencyLimits)
        ensures
            r.max_concurrency == (match requested {
                Some(n) if n > 0 => n,
                _ => available,
            }),
            r.download == (if r.max_concurrency / 2 >= 2 { r.max_concurrency / 2 } else { 2 }),
            r.io == (if r.max_concurrency >= 1 { r.max_concurrency } else { 1 }),
            r.ffmpeg == (if r.max_concurrency / 2 >= 1 { r.max_concurrency / 2 } else { 1 }),
    {
        let max = match requested {
            Some(n) if n > 0 => n,
            _ => available,
        };
        let half = max / 2;
        ConcurrencyLimits {
            max_concurrency: max,
            download: if half >= 2 { half } else { 2 },
            io: if max >= 1 { max } else { 1 },
            ffmpeg: if half >= 1 { half } else { 1 },
        }
    }

    /// The output folder of a run: the session's, else the one given with the command.
    /// The flag tells whether the given folder becomes the session's.
    pub fn destination(session_output: &Option<String>, output_path: &Option<String>) -> (r: Result<(String, bool), StartError>)
        ensures
            match r {
                Ok((d, store)) => match session_output {
                    Some(s) => d@ == s@ && !store,
                    None => output_path is Some && d@ == output_path->0@ && store,
                },
                Err(e) => session_output is None && output_path is None && e == StartError::NoOutputDirectory,
            },
    {
        match session_output {
            Some(s) => Ok((s.clone(), false)),
            None => match output_path {
                Some(p) => Ok((p.clone(), true)),
                None => Err(StartError::NoOutputDirectory),
            },
        }
    }

    /// The memories a run takes up, in stored order.
    pub fn items_to_process(all: Vec<MemoryItem>, overwrite_existing: bool) -> (r: Vec<MemoryItem>)
        ensures
            r@ == runnable(all@, overwrite_existing),
            overwrite_existing ==> r@ == all@,
            !overwrite_existing ==> r@ == all@.filter(|i: MemoryItem| i.state != ProcessingState::Completed),
    {
        proof {
            lemma_runnable(all@);
        }
        let mut r: Vec<MemoryItem> = Vec::new();
        let mut rest = all;
        let ghost full = rest@;
        let ghost mut k: int = 0;
        assert(full.skip(0) =~= full);
        while rest.len() > 0
            invariant
                0 <= k <= full.len(),
                rest@ == full.skip(k),
                r@ == runnable(full.take(k), overwrite_existing),
            decreases rest@.len(),
        {
            let x = rest.remove(0);
            proof {
                assert(full.take(k + 1).drop_last() =~= full.take(k));
                assert(full.take(k + 1).last() == x);
                assert(rest@ =~= full.skip(k + 1));
                k = k + 1;
            }
            if x.state != ProcessingState::Completed || overwrite_existing {
                r.push(x);
            }
        }
        assert(full.take(k) =~= full);
        r
    }

    /// What the archive indexer is given: every main-media id of the memories, and for each
    /// memory its id, segments and aliases.
    pub fn index_inputs(items: &Vec<MemoryItem>) -> (r: (Vec<String>, Vec<OverlayItemRef>))
        ensures
            string_views(r.0@) == main_ids_of(items@),
            r.1@.len() == items@.len(),
            forall|k: int| 0 <= k < items@.len() ==> {
                &&& (#[trigger] r.1@[k]).id@ == items@[k].id@
                &&& opt_strings(r.1@[k].segment_ids) == opt_strings(items@[k].segment_ids)
                &&& opt_strings(r.1@[k].candidate_ids) == opt_strings(items@[k].candidate_ids)
            },
    {
        let mut ids: Vec<String> = Vec::new();
        let mut refs: Vec<OverlayItemRef> = Vec::new();
        let mut i: usize = 0;
        while i < items.len()
            invariant
                i <= items@.len(),
                string_views(ids@) == main_ids_of(items@.take(i as int)),
                refs@.len() == i,
                forall|k: int| 0 <= k < i ==> {
                    &&& (#[trigger] refs@[k]).id@ == items@[k].id@
                    &&& opt_strings(refs@[k].segment_ids) == opt_strings(items@[k].segment_ids)
                    &&& opt_strings(refs@[k].candidate_ids) == opt_strings(items@[k].candidate_ids)
                },
            decreases items@.len() - i,
        {
            let item = &items[i];
            proof {
                assert(items@.take(i + 1).drop_last() =~= items@.take(i as int));
                assert(items@.take(i + 1).last() == items@[i as int]);
            }
            let ghost before = ids@;
            match &item.segment_ids {
                Some(segs) => {
                    let mut j: usize = 0;
                    while j < segs.len()
                        invariant
                            j <= segs@.len(),
                            string_views(ids@) == string_views(before) + string_views(segs@).take(j as int),
                        decreases segs@.len() - j,
                    {
                        let ghost prev = ids@;
                        let sj = segs[j].clone();
                        ids.push(sj);
                        assert(ids@ == prev.push(sj));
                        assert(string_views(ids@) =~= string_views(prev).push(segs@[j as int]@));
                        assert(string_views(ids@) =~= string_views(before) + string_views(segs@).take(j + 1));
                        j = j + 1;
                    }
                    assert(string_views(segs@).take(segs@.len() as int) =~= string_views(segs@));
                },
                None => {
                    ids.push(item.id.clone());
                    assert(string_views(ids@) =~= string_views(before) + seq![item.id@]);
                },
            }
            refs.push(
                OverlayItemRef {
                    id: item.id.clone(),
                    segment_ids: copy_opt_strings(&item.segment_ids),
                    candidate_ids: copy_opt_strings(&item.candidate_ids),
                },
            );
            i = i + 1;
        }
        assert(items@.take(items@.len() as int) =~= items@);
        (ids, refs)
    }

    /// Indexes are built only when none is cached and there are archives to read.
    pub fn needs_indexing(has_main_index: bool, has_overlay_index: bool, export_path_count: usize) -> (r: bool)
        ensures
            r == (!has_main_index && !has_overlay_index && export_path_count > 0),
    {
        !has_main_index && !has_overlay_index && export_path_count > 0
    }

    /// An index that found nothing is not kept.
    pub fn non_empty_index(index: ZipIndex) -> (r: Option<ZipIndex>)
        ensures
            match r {
                Some(x) => x@ == index@ && index@.dom().len() > 0,
                None => index@.dom().len() == 0,
            },
    {
        if index.len() == 0 {
            None
        } else {
            Some(index)
        }
    }

    /// After pass `pass` (counted from 0): stop when the run was cancelled, when nothing
    /// failed, or after the last pass; otherwise run the failures again after
    /// `2 + 2 * pass` seconds.
    pub fn after_pass(pass: u32, cancelled: bool, failed_count: usize) -> (r: PassDecision)
        requires
            pass < MAX_RETRY_PASSES,
        ensures
            r == (if cancelled || failed_count == 0 || pass >= MAX_RETRY_PASSES - 1 {
                PassDecision::Stop
            } else {
                PassDecision::RetryAfterSecs((2 + 2 * pass) as u64)
            }),
    {
        if cancelled || failed_count == 0 || pass >= MAX_RETRY_PASSES - 1 {
            PassDecision::Stop
        } else {
            PassDecision::RetryAfterSecs(2 + 2 * pass as u64)
        }
    }
}

} // verus!
