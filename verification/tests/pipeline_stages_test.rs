use yellowbox::db::{MemoryRepository, MemoryTable};
use yellowbox::downloader::{after_failed_attempt, download_extension, download_temp_name, RetryDecision};
use yellowbox::folder::{hydrate_decision, resolve_local_media_name};
use yellowbox::models::{MemoryItem, ProcessingState};
use yellowbox::pipeline::acquire::{
    acquire_plan, concat_list_content, concat_list_name, find_raw_by_prefix, find_raw_file_fast,
    lookup_entry, overlay_lookup_id, segment_file_name, segment_ids_for, AcquirePlan,
};
use yellowbox::pipeline::extract::{
    classify_entry, direct_main_name_exec, extract_plan, try_find_main, try_find_overlay, EntryKind,
    ExtractPlan,
};
use yellowbox::pipeline::index::ZipIndex;
use yellowbox::pipeline::scan::{
    check_segment_entry, locate_segment_plan, EntryMismatch, LocateError,
    date_prefix_to_epoch_seconds, scan_main_by_best_date_match_checked,
    scan_main_by_date_and_id_checked,
};
use yellowbox::pipeline::stages::{
    apply_update, attempt_next, paused_update, AttemptNext, StateUpdate, combine_next, CombineAction,
    cleanup_targets, combine_plan, finish_acquire, finish_combine, finish_extract, finish_metadata,
    mark_failed, retry_delay_ms, run_plan, video_fallback_name, CombinePlan, RunPlan,
};
use yellowbox::pipeline::{is_video_ext, PipelineMessage};
use yellowbox::services::updates::UpdateCoalescer;
use yellowbox::services::pipeline_orchestrator::{PassDecision, PipelineOrchestrator, StartError};

fn item(id: &str, state: ProcessingState, media: &str) -> MemoryItem {
    MemoryItem {
        id: id.to_string(),
        segment_ids: None,
        candidate_ids: None,
        download_url: "https://x/y".to_string(),
        original_date: "2021-01-15 12:30:00 UTC".to_string(),
        location: None,
        state,
        error_message: None,
        extension: None,
        has_overlay: false,
        has_thumbnail: false,
        media_type: media.to_string(),
    }
}

fn strings(v: &[&str]) -> Vec<String> {
    v.iter().map(|s| s.to_string()).collect()
}

#[test]
fn stages_move_a_memory_to_completion() {
    let mut msg = PipelineMessage::new(item("m", ProcessingState::Pending, "Image"));
    let u = finish_acquire(&mut msg.item).unwrap();
    assert_eq!(u.state, ProcessingState::Downloaded);
    msg.extracted_files = Some(("out/m-main.png".to_string(), Some("out/m-overlay.png".to_string())));
    let u = finish_extract(&mut msg).unwrap();
    assert_eq!(u.state, ProcessingState::Extracted);
    assert_eq!(u.extension.as_deref(), Some("png"));
    assert_eq!(u.has_overlay, Some(true));
    assert!(msg.item.has_overlay);
    let u = finish_combine(&mut msg.item).unwrap();
    assert_eq!(u.extension.as_deref(), Some("png"));
    let u = finish_metadata(&mut msg.item).unwrap();
    assert_eq!(u.state, ProcessingState::Completed);
    assert_eq!(msg.item.state, ProcessingState::Completed);
    assert!(finish_acquire(&mut msg.item).is_none());
}

#[test]
fn extracted_video_is_recorded_as_mp4() {
    let mut msg = PipelineMessage::new(item("v", ProcessingState::Downloaded, "Video"));
    msg.extracted_files = Some(("out/v-main.jpg".to_string(), None));
    let u = finish_extract(&mut msg).unwrap();
    assert_eq!(u.extension.as_deref(), Some("mp4"));
    assert_eq!(u.has_overlay, Some(false));
}

#[test]
fn failures_and_retries() {
    let mut it = item("m", ProcessingState::Extracted, "Image");
    let u = mark_failed(&mut it, "boom".to_string());
    assert_eq!(it.state, ProcessingState::Failed);
    assert_eq!(u.error_message.as_deref(), Some("boom"));
    assert_eq!(retry_delay_ms(1), 1000);
    assert_eq!(retry_delay_ms(5), 16000);
}

#[test]
fn combine_choices() {
    assert_eq!(combine_plan(ProcessingState::Extracted, true, "MOV"), CombinePlan::OverlayVideo);
    assert_eq!(combine_plan(ProcessingState::Extracted, true, "jpg"), CombinePlan::OverlayImage);
    assert_eq!(combine_plan(ProcessingState::Extracted, false, "jpg"), CombinePlan::CopyMain);
    assert_eq!(combine_plan(ProcessingState::Combined, true, "jpg"), CombinePlan::Skip);
    assert_eq!(video_fallback_name("2021_x.jpg"), "2021_x.mp4");
    assert_eq!(video_fallback_name("noext"), "noext.mp4");
    assert!(is_video_ext("Mp4"));
    assert!(!is_video_ext("png"));
}

#[test]
fn cleanup_skips_empty_raw_path() {
    let mut msg = PipelineMessage::new(item("m", ProcessingState::Combined, "Image"));
    msg.raw_path = Some(String::new());
    msg.extracted_files = Some(("a".to_string(), Some("b".to_string())));
    assert_eq!(cleanup_targets(&msg), strings(&["a", "b"]));
    msg.raw_path = Some("r".to_string());
    assert_eq!(cleanup_targets(&msg), strings(&["r", "a", "b"]));
}

#[test]
fn run_plan_choices() {
    let mut it = item("m", ProcessingState::Completed, "Image");
    assert_eq!(run_plan(&it, false, true), RunPlan::SkipDone);
    assert_eq!(run_plan(&it, false, false), RunPlan::Process(ProcessingState::Completed));
    assert_eq!(run_plan(&it, true, true), RunPlan::Process(ProcessingState::Pending));
    it.error_message = Some("e".to_string());
    assert_eq!(run_plan(&it, false, true), RunPlan::RecordDone);
    it.state = ProcessingState::Failed;
    assert_eq!(run_plan(&it, false, true), RunPlan::Process(ProcessingState::Pending));
    it.state = ProcessingState::Paused;
    assert_eq!(run_plan(&it, false, true), RunPlan::KeepPaused);
}

#[test]
fn raw_files_are_found_by_extension_then_prefix() {
    let dir = strings(&["m-raw.mp4", "m-raw.zip", "n-raw.jpg.tmp", "n-raw.heic"]);
    assert_eq!(find_raw_file_fast(&dir, "m").as_deref(), Some("m-raw.zip"));
    assert_eq!(find_raw_file_fast(&dir, "n"), None);
    assert_eq!(find_raw_by_prefix(&dir, "n").as_deref(), Some("n-raw.heic"));
    match acquire_plan(&item("n", ProcessingState::Pending, "Image"), &dir, true) {
        AcquirePlan::Existing(f) => assert_eq!(f, "n-raw.heic"),
        other => panic!("unexpected {:?}", other),
    }
    assert!(matches!(acquire_plan(&item("q", ProcessingState::Pending, "Image"), &dir, true), AcquirePlan::FromArchives));
    assert!(matches!(acquire_plan(&item("q", ProcessingState::Pending, "Image"), &dir, false), AcquirePlan::Download));
    assert!(matches!(acquire_plan(&item("q", ProcessingState::Extracted, "Image"), &dir, false), AcquirePlan::NotNeeded));
    assert!(matches!(acquire_plan(&item("q", ProcessingState::Downloaded, "Image"), &dir, false), AcquirePlan::Missing));
}

#[test]
fn segments_and_index_lookup() {
    let mut it = item("a", ProcessingState::Pending, "Video");
    assert_eq!(segment_ids_for(&it), strings(&["a"]));
    it.segment_ids = Some(strings(&["a"]));
    assert_eq!(segment_ids_for(&it), strings(&["a"]));
    it.segment_ids = Some(strings(&["a", "b"]));
    assert_eq!(segment_ids_for(&it), strings(&["a", "b"]));

    let mut idx = ZipIndex::new();
    idx.insert("2021-01-15|b".to_string(), (1, 7, "mp4".to_string()));
    idx.insert("2021-01-15_12-30-00|a".to_string(), (0, 3, "mp4".to_string()));
    idx.insert("|c".to_string(), (2, 1, "jpg".to_string()));
    assert_eq!(lookup_entry(&idx, "2021-01-15_12-30-00", "a"), Some((0, 3, "mp4".to_string())));
    assert_eq!(lookup_entry(&idx, "2021-01-15_09-00-00", "b"), Some((1, 7, "mp4".to_string())));
    assert_eq!(lookup_entry(&idx, "", "c"), Some((2, 1, "jpg".to_string())));
    assert_eq!(lookup_entry(&idx, "2021-01-15_12-30-00", "c"), None);
}

#[test]
fn names_written_while_acquiring() {
    assert_eq!(segment_file_name("id", 12, "mp4"), "id-seg12.mp4");
    assert_eq!(
        overlay_lookup_id(Some("memories/2021-01-15_12-30-00_ABC-main.mp4"), "x"),
        "ABC"
    );
    assert_eq!(overlay_lookup_id(None, "x"), "x");
    assert_eq!(
        concat_list_content(&strings(&["C:\\t\\a.mp4", "/t/b.mp4"])),
        "file 'C:/t/a.mp4'\nfile '/t/b.mp4'"
    );
    assert_eq!(concat_list_name("/out/id-raw.mp4"), "id-raw.txt");
    assert_eq!(concat_list_name(".."), "ffmpeg_concat_list.txt");
}

#[test]
fn unpacked_files_are_found_again() {
    let dir = strings(&["2021-01-15_12-30-00_v-main.jpg", "v-overlay.png"]);
    assert_eq!(
        try_find_main(&dir, "v", "2021-01-15_12-30-00", "mp4", Some("jpg")).as_deref(),
        Some("2021-01-15_12-30-00_v-main.jpg")
    );
    assert_eq!(try_find_main(&dir, "v", "2021-01-15_12-30-00", "mp4", None), None);
    assert_eq!(try_find_overlay(&dir, "v", "2021-01-15_12-30-00").as_deref(), Some("v-overlay.png"));

    let mut it = item("v", ProcessingState::Extracted, "Video");
    match extract_plan(&mut it, "2021-01-15_12-30-00", &dir, false) {
        ExtractPlan::Found(m, o) => {
            assert_eq!(m, "2021-01-15_12-30-00_v-main.jpg");
            assert_eq!(o.as_deref(), Some("v-overlay.png"));
        }
        other => panic!("unexpected {:?}", other),
    }
    let mut gone = item("w", ProcessingState::Extracted, "Image");
    assert!(matches!(extract_plan(&mut gone, "d", &dir, true), ExtractPlan::Unpack));
    assert_eq!(gone.state, ProcessingState::Downloaded);
}

#[test]
fn archive_entries_are_sorted() {
    assert_eq!(classify_entry("x/overlay~1.png"), EntryKind::Overlay);
    assert_eq!(classify_entry("media~abc.mp4"), EntryKind::Main("mp4".to_string()));
    assert_eq!(classify_entry("media.jpeg"), EntryKind::Main("jpg".to_string()));
    assert_eq!(classify_entry("readme.txt"), EntryKind::Other);
    assert_eq!(direct_main_name_exec("/d/id-raw.mp4", "id").as_deref(), Some("id-main.mp4"));
    assert_eq!(direct_main_name_exec("/d/id-raw.zip", "id"), None);
}

#[test]
fn fallback_scans() {
    let names = strings(&[
        "memories/2021-01-15_12-30-00_SEG-overlay.png",
        "memories/2021-01-15_12-30-00_SEG.jpg",
        "memories/2021-01-15_12-30-00_SEG-main.mp4",
        "memories/2021-03-01_10-00-00_SEG-main.mp4",
    ]);
    // Two entries of that date name the segment: the search declines to pick one.
    assert_eq!(
        scan_main_by_date_and_id_checked(&names, "2021-01-15_12-30-00", None, "seg"),
        Some(None)
    );
    assert_eq!(
        scan_main_by_date_and_id_checked(&names, "2021-01-15_00-00-00", Some("2021-01-15"), "SEG"),
        Some(None)
    );
    // Exactly one entry of that date names the segment.
    assert_eq!(
        scan_main_by_date_and_id_checked(&names, "2021-03-01_10-00-00", None, "seg"),
        Some(Some((3, "mp4".to_string())))
    );
    assert_eq!(
        scan_main_by_date_and_id_checked(&names, "2021-03-01_00-00-00", Some("2021-03-01"), "SEG"),
        Some(Some((3, "mp4".to_string())))
    );
    assert_eq!(
        scan_main_by_date_and_id_checked(&names, "2020-01-01", None, "SEG"),
        Some(None)
    );
    let target = date_prefix_to_epoch_seconds("2021-03-01_09-00-00");
    assert_eq!(target, Some(1614589200));
    assert_eq!(
        scan_main_by_best_date_match_checked(&names, target, "SEG"),
        Some(Some((3, "mp4".to_string())))
    );
    assert_eq!(date_prefix_to_epoch_seconds("2021-03-01"), Some(1614556800));
}

#[test]
fn download_decisions() {
    assert_eq!(download_extension("application/zip", "Image", "u"), "zip");
    assert_eq!(download_extension("video/mp4", "Image", "u"), "mp4");
    assert_eq!(download_extension("image/jpeg", "Video", "u"), "mp4");
    assert_eq!(download_extension("image/jpeg", "video", "https://x/A.MOV"), "mp4");
    assert_eq!(download_extension("image/jpeg", "video", "https://x/a"), "jpg");
    assert_eq!(after_failed_attempt(1, false), RetryDecision::RetryAfterSecs(3));
    assert_eq!(after_failed_attempt(3, true), RetryDecision::RetryAfterSecs(30));
    assert_eq!(after_failed_attempt(3, false), RetryDecision::RetryAfterSecs(9));
    assert_eq!(after_failed_attempt(4, false), RetryDecision::GiveUp);
    assert_eq!(after_failed_attempt(4, true), RetryDecision::GiveUp);
    assert_eq!(download_temp_name("id", "jpg"), "id-raw.jpg.tmp");
}

#[test]
fn progress_is_read_from_the_folder() {
    let mut it = item("AbC", ProcessingState::Pending, "Image");
    it.extension = Some("png".to_string());
    let done = strings(&["2021-01-15_12-30-00_AbC.PNG", "abc-overlay.png"]);
    let u = hydrate_decision(&done, &it).unwrap();
    assert_eq!(u.state, ProcessingState::Completed);
    assert_eq!(u.extension.as_deref(), Some("png"));
    assert!(u.has_overlay);
    let main = strings(&["abc-main.jpg"]);
    let u = hydrate_decision(&main, &it).unwrap();
    assert_eq!(u.state, ProcessingState::Extracted);
    assert_eq!(u.extension.as_deref(), Some("jpg"));
    assert!(!u.has_overlay);
    let raw = strings(&["abc-raw.zip"]);
    assert_eq!(hydrate_decision(&raw, &it).unwrap().state, ProcessingState::Downloaded);
    assert!(hydrate_decision(&strings(&["other.jpg"]), &it).is_none());

    assert_eq!(resolve_local_media_name(&strings(&["x.jpg", "abc-main.mp4"]), "ABC"), Some(1));
    assert_eq!(resolve_local_media_name(&strings(&["2021_abc.jpg"]), "abc"), Some(0));
    assert_eq!(resolve_local_media_name(&strings(&["abc-raw.zip"]), "abc"), None);
}

#[test]
fn table_keeps_one_record_per_id() {
    let mut t = MemoryTable::new();
    let mut a = item("a", ProcessingState::Pending, "Image");
    a.has_thumbnail = true;
    t.insert_or_ignore_memory(&a);
    let mut again = item("a", ProcessingState::Failed, "Image");
    again.download_url = "other".to_string();
    t.insert_or_ignore_memory(&again);
    t.insert_or_ignore_memory(&item("b", ProcessingState::Failed, "Video"));
    let all = t.get_all_memories();
    assert_eq!(all.len(), 2);
    assert_eq!(all[0].download_url, "https://x/y");
    assert!(!all[0].has_thumbnail);

    t.update_state("a", ProcessingState::Extracted, None, Some("png".to_string()), Some(true));
    t.update_state("a", ProcessingState::Combined, Some("oops"), None, None);
    let all = t.get_all_memories();
    assert_eq!(all[0].state, ProcessingState::Combined);
    assert_eq!(all[0].extension.as_deref(), Some("png"));
    assert!(all[0].has_overlay);
    assert_eq!(all[0].error_message.as_deref(), Some("oops"));

    t.reset_item_state("a");
    assert_eq!(t.get_all_memories()[0].state, ProcessingState::Pending);
    assert!(t.get_all_memories()[0].error_message.is_none());

    t.update_states(ProcessingState::Failed, ProcessingState::Pending);
    assert_eq!(t.get_memories_by_state(ProcessingState::Pending).len(), 2);
    assert!(t.get_memories_by_state(ProcessingState::Failed).is_empty());
}

#[test]
fn orchestrator_decisions() {
    let l = PipelineOrchestrator::concurrency_limits(Some(8), 3);
    assert_eq!((l.max_concurrency, l.download, l.io, l.ffmpeg), (8, 4, 8, 4));
    let l = PipelineOrchestrator::concurrency_limits(Some(0), 3);
    assert_eq!((l.max_concurrency, l.download, l.io, l.ffmpeg), (3, 2, 3, 1));
    assert_eq!(
        PipelineOrchestrator::destination(&None, &Some("out".to_string())),
        Ok(("out".to_string(), true))
    );
    assert_eq!(
        PipelineOrchestrator::destination(&Some("mine".to_string()), &Some("out".to_string())),
        Ok(("mine".to_string(), false))
    );
    assert_eq!(PipelineOrchestrator::destination(&None, &None), Err(StartError::NoOutputDirectory));
    let all = vec![
        item("a", ProcessingState::Completed, "Image"),
        item("b", ProcessingState::Pending, "Image"),
    ];
    let kept = PipelineOrchestrator::items_to_process(all, false);
    assert_eq!(kept.len(), 1);
    assert_eq!(kept[0].id, "b");
    let mut v = item("v", ProcessingState::Pending, "Video");
    v.segment_ids = Some(strings(&["v", "w"]));
    let (ids, refs) = PipelineOrchestrator::index_inputs(&vec![item("a", ProcessingState::Pending, "Image"), v]);
    assert_eq!(ids, strings(&["a", "v", "w"]));
    assert_eq!(refs.len(), 2);
    assert_eq!(PipelineOrchestrator::after_pass(0, false, 3), PassDecision::RetryAfterSecs(2));
    assert_eq!(PipelineOrchestrator::after_pass(1, false, 3), PassDecision::RetryAfterSecs(4));
    assert_eq!(PipelineOrchestrator::after_pass(2, false, 3), PassDecision::Stop);
    assert_eq!(PipelineOrchestrator::after_pass(0, true, 3), PassDecision::Stop);
    assert_eq!(PipelineOrchestrator::after_pass(0, false, 0), PassDecision::Stop);
    assert!(PipelineOrchestrator::non_empty_index(ZipIndex::new()).is_none());
}

#[test]
fn updates_apply_to_the_copy_as_to_the_row() {
    let mut it = item("a", ProcessingState::Extracted, "Image");
    it.extension = Some("png".to_string());
    it.error_message = Some("old".to_string());
    apply_update(&mut it, &StateUpdate {
        state: ProcessingState::Combined,
        error_message: None,
        extension: None,
        has_overlay: Some(true),
    });
    assert_eq!(it.state, ProcessingState::Combined);
    assert_eq!(it.extension.as_deref(), Some("png"));
    assert!(it.error_message.is_none());
    assert!(it.has_overlay);
    apply_update(&mut it, &paused_update());
    assert_eq!(it.state, ProcessingState::Paused);
    assert!(it.has_overlay);

    let mut t = MemoryTable::new();
    let mut b = item("b", ProcessingState::Extracted, "Image");
    t.insert_or_ignore_memory(&b);
    let u = StateUpdate { state: ProcessingState::Failed, error_message: Some("x".to_string()), extension: Some("jpg".to_string()), has_overlay: None };
    t.update_state("b", u.state, u.error_message.as_deref(), u.extension.clone(), u.has_overlay);
    apply_update(&mut b, &u);
    let row = &t.get_all_memories()[0];
    assert_eq!(row.state, b.state);
    assert_eq!(row.error_message, b.error_message);
    assert_eq!(row.extension, b.extension);
    assert_eq!(row.has_overlay, b.has_overlay);
}

#[test]
fn attempts_retry_then_fail() {
    assert_eq!(attempt_next(1, true, false), AttemptNext::Pause);
    assert_eq!(attempt_next(1, false, true), AttemptNext::Done);
    assert_eq!(attempt_next(1, false, false), AttemptNext::RetryAfterMs(1000));
    assert_eq!(attempt_next(3, false, false), AttemptNext::RetryAfterMs(4000));
    assert_eq!(attempt_next(6, false, false), AttemptNext::Fail);
}

#[test]
fn date_scan_with_two_main_matches_finds_nothing() {
    let names = strings(&[
        "2021-01-15_12-30-00_ID-main.mp4",
        "2021-01-15_12-30-00_ID-main.mov",
    ]);
    assert_eq!(
        scan_main_by_date_and_id_checked(&names, "2021-01-15_12-30-00", None, "ID"),
        Some(None)
    );
}

fn archives(v: &[Option<&[&str]>]) -> Vec<Option<Vec<String>>> {
    v.iter().map(|o| o.map(|names| strings(names))).collect()
}

#[test]
fn locate_prefers_index_then_date_then_nearest_date() {
    let mut idx = ZipIndex::new();
    idx.insert("2021-01-15_12-30-00|a".to_string(), (0, 3, "mp4".to_string()));
    let zips = archives(&[
        Some(&["2021-01-15_12-30-00_b-main.mp4", "2021-03-01_10-00-00_c-main.mov"]),
        Some(&["2021-01-15_12-30-00_c.jpg"]),
    ]);
    // In the index: no archive is consulted.
    assert_eq!(
        locate_segment_plan(&idx, &zips, "2021-01-15_12-30-00", "a", None),
        Ok((0, 3, "mp4".to_string()))
    );
    // By date, in the first archive.
    assert_eq!(
        locate_segment_plan(&idx, &zips, "2021-01-15_12-30-00", "b", None),
        Ok((0, 0, "mp4".to_string()))
    );
    // By date in the second archive, before the nearest date in the first.
    assert_eq!(
        locate_segment_plan(&idx, &zips, "2021-01-15_12-30-00", "c", Some(1614592800)),
        Ok((1, 0, "jpg".to_string()))
    );
    // No date match: the nearest date wins.
    assert_eq!(
        locate_segment_plan(&idx, &zips, "2021-02-01_00-00-00", "c", Some(1614592800)),
        Ok((0, 1, "mov".to_string()))
    );
    assert_eq!(
        locate_segment_plan(&idx, &zips, "2021-02-01_00-00-00", "zzz", None),
        Err(LocateError::NotFound)
    );
}

#[test]
fn locate_stops_at_an_unreadable_archive() {
    let idx = ZipIndex::new();
    let zips = archives(&[Some(&["x.txt"]), None, Some(&["2021-01-15_12-30-00_b-main.mp4"])]);
    assert_eq!(
        locate_segment_plan(&idx, &zips, "2021-01-15_12-30-00", "b", None),
        Err(LocateError::Unreadable(1))
    );
    let zips = archives(&[Some(&["2021-01-15_12-30-00_b-main.mp4"]), None]);
    assert_eq!(
        locate_segment_plan(&idx, &zips, "2021-01-15_12-30-00", "b", None),
        Ok((0, 0, "mp4".to_string()))
    );
}

#[test]
fn located_entry_must_name_the_segment() {
    assert_eq!(check_segment_entry("2021-01-15_12-30-00_ABC-main.mp4", "abc"), Ok(()));
    assert_eq!(
        check_segment_entry("2021-01-15_12-30-00_ABCD-main.mp4", "abc"),
        Err(EntryMismatch::WrongFile)
    );
}

#[test]
fn combine_fallbacks() {
    assert_eq!(combine_next(CombinePlan::Skip, &vec![]), CombineAction::Finish);
    assert_eq!(combine_next(CombinePlan::CopyMain, &vec![]), CombineAction::CopyMainThenFinish);
    assert_eq!(combine_next(CombinePlan::OverlayVideo, &vec![]), CombineAction::OverlayVideo);
    assert_eq!(combine_next(CombinePlan::OverlayVideo, &vec![true]), CombineAction::Finish);
    assert_eq!(combine_next(CombinePlan::OverlayVideo, &vec![false]), CombineAction::CopyMainThenFinish);
    assert_eq!(combine_next(CombinePlan::OverlayImage, &vec![]), CombineAction::OverlayImage);
    assert_eq!(combine_next(CombinePlan::OverlayImage, &vec![true]), CombineAction::Finish);
    assert_eq!(combine_next(CombinePlan::OverlayImage, &vec![false]), CombineAction::OverlayVideoToFallback);
    assert_eq!(combine_next(CombinePlan::OverlayImage, &vec![false, true]), CombineAction::FinishAsVideo);
    assert_eq!(combine_next(CombinePlan::OverlayImage, &vec![false, false]), CombineAction::CopyMainThenFinish);
}

#[test]
fn a_run_of_failures_retries_then_fails_on_the_sixth_attempt() {
    let mut delays = Vec::new();
    for attempt in 1..=5u32 {
        match attempt_next(attempt, false, false) {
            AttemptNext::RetryAfterMs(ms) => delays.push(ms),
            other => panic!("attempt {} gave {:?}", attempt, other),
        }
    }
    assert_eq!(delays, vec![1000, 2000, 4000, 8000, 16000]);
    assert_eq!(attempt_next(6, false, false), AttemptNext::Fail);
    assert_eq!(attempt_next(3, false, true), AttemptNext::Done);
}

#[test]
fn updates_between_ticks_keep_the_latest_per_memory() {
    let mut c = UpdateCoalescer::new();
    assert!(c.take_pending().is_empty());
    c.memory_updated(item("a", ProcessingState::Downloaded, "Image"));
    c.memory_updated(item("b", ProcessingState::Downloaded, "Image"));
    c.memory_updated(item("a", ProcessingState::Extracted, "Image"));
    c.memory_updated(item("a", ProcessingState::Completed, "Image"));
    let out = c.take_pending();
    let seen: Vec<(String, ProcessingState)> = out.iter().map(|i| (i.id.clone(), i.state)).collect();
    assert_eq!(
        seen,
        vec![("a".to_string(), ProcessingState::Completed), ("b".to_string(), ProcessingState::Downloaded)]
    );
    assert!(c.take_pending().is_empty());
}
