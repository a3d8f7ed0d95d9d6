//! The pipeline: acquire, extract, combine and metadata stages, and the archive index.

pub mod acquire;
pub mod export_index;
pub mod extract;
pub mod index;
pub mod scan;
pub mod stages;
pub mod zip;

use vstd::prelude::*;

use crate::models::MemoryItem;

verus! {

/// What one memory carries from stage to stage. Each stage fills in its part.
pub struct PipelineMessage {
    pub item: MemoryItem,
    /// The raw download or archive extract (empty when an earlier run already unpacked it).
    pub raw_path: Option<String>,
    /// The unpacked main media and, when there is one, its overlay.
    pub extracted_files: Option<(String, Option<String>)>,
    /// The finished file in the output folder.
    pub final_file: Option<String>,
}

impl PipelineMessage {
    /// A message for a memory about to enter the pipeline.
    pub fn new(item: MemoryItem) -> (m: Self)
        ensures
            m.item == item,
            m.raw_path is None,
            m.extracted_files is None,
            m.final_file is None,
    {
        PipelineMessage { item, raw_path: None, extracted_files: None, final_file: None }
    }
}

/// Whether an extension names a video container (`mp4` or `mov`, any case).
pub fn is_video_ext(ext: &str) -> (r: bool)
    ensures
        r == zip::is_video_ext_spec(ext@),
{
    zip::is_video_ext(ext)
}

} // verus!
