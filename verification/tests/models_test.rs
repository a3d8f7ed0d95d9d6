use yellowbox::models::{state_from_stored, MemoryItem, ProcessingState};

fn item(id: &str, url: &str, date: &str, media: &str, ext: Option<&str>) -> MemoryItem {
    MemoryItem {
        id: id.to_string(),
        segment_ids: None,
        candidate_ids: None,
        download_url: url.to_string(),
        original_date: date.to_string(),
        location: None,
        state: ProcessingState::Pending,
        error_message: None,
        extension: ext.map(|e| e.to_string()),
        has_overlay: false,
        has_thumbnail: false,
        media_type: media.to_string(),
    }
}

#[test]
fn test_processing_state_display() {
    assert_eq!(ProcessingState::Pending.to_string(), "Pending");
    assert_eq!(ProcessingState::Downloaded.to_string(), "Downloaded");
    assert_eq!(ProcessingState::Extracted.to_string(), "Extracted");
    assert_eq!(ProcessingState::Combined.to_string(), "Combined");
    assert_eq!(ProcessingState::Completed.to_string(), "Completed");
    assert_eq!(ProcessingState::Failed.to_string(), "Failed");
}

#[test]
fn test_processing_state_from_str() {
    assert_eq!(
        ProcessingState::from_str("Pending").unwrap(),
        ProcessingState::Pending
    );
    assert_eq!(
        ProcessingState::from_str("Completed").unwrap(),
        ProcessingState::Completed
    );
    assert!(ProcessingState::from_str("UnknownState").is_err());
}

#[test]
fn test_processing_state_to_string() {
    assert_eq!(ProcessingState::Pending.to_string(), "Pending");
    assert_eq!(ProcessingState::Downloaded.to_string(), "Downloaded");
    assert_eq!(ProcessingState::Extracted.to_string(), "Extracted");
    assert_eq!(ProcessingState::Combined.to_string(), "Combined");
    assert_eq!(ProcessingState::Completed.to_string(), "Completed");
    assert_eq!(ProcessingState::Failed.to_string(), "Failed");
}

#[test]
fn test_processing_state_from_string() {
    assert_eq!(
        ProcessingState::from_str("Pending").unwrap(),
        ProcessingState::Pending
    );
    assert_eq!(
        ProcessingState::from_str("Completed").unwrap(),
        ProcessingState::Completed
    );
    assert!(ProcessingState::from_str("InvalidState").is_err());
}

#[test]
fn test_processing_state_as_ref() {
    assert_eq!(ProcessingState::Failed.as_ref(), "Failed");
}

#[test]
fn every_state_name_reads_back() {
    let all = [
        ProcessingState::Pending,
        ProcessingState::Downloaded,
        ProcessingState::Extracted,
        ProcessingState::Combined,
        ProcessingState::Completed,
        ProcessingState::Failed,
        ProcessingState::Paused,
    ];
    for s in all {
        assert_eq!(ProcessingState::from_str(s.as_ref()).unwrap(), s);
    }
    assert!(ProcessingState::from_str("pending").is_err());
    assert!(ProcessingState::from_str("").is_err());
}

#[test]
fn filename_for_image_uses_known_extension_or_jpg() {
    let a = item("abc", "https://x/y?mid=abc", "2021-12-10 12:55:19 UTC", "Image", Some("png"));
    assert_eq!(
        a.generated_filename_and_ext(),
        ("2021-12-10_12-55-19_abc.png".to_string(), "png".to_string())
    );
    let b = item("abc", "https://x/y?mid=abc", "2021-12-10 12:55:19 UTC", "Image", None);
    assert_eq!(b.generated_filename_and_ext().1, "jpg");
}

#[test]
fn filename_for_video_is_always_mp4() {
    let a = item("v1", "https://x/y", "2023-01-01 00:00:00 UTC", "VIDEO", Some("jpg"));
    assert_eq!(
        a.generated_filename_and_ext(),
        ("2023-01-01_00-00-00_v1.mp4".to_string(), "mp4".to_string())
    );
    let b = item("v2", "https://cdn/Clip.MOV", "2023-01-01 00:00:00 UTC", "Image", Some("jpg"));
    assert_eq!(b.generated_filename_and_ext().1, "mp4");
    let c = item("v3", "https://cdn/get?type=Video", "2023-01-01 00:00:00 UTC", "Image", None);
    assert_eq!(c.generated_filename_and_ext().1, "mp4");
}

#[test]
fn stored_state_text_reads_back() {
    let all = [
        ProcessingState::Pending,
        ProcessingState::Downloaded,
        ProcessingState::Extracted,
        ProcessingState::Combined,
        ProcessingState::Completed,
        ProcessingState::Failed,
        ProcessingState::Paused,
    ];
    for s in all {
        assert_eq!(state_from_stored(s.as_ref()), s);
    }
    assert_eq!(state_from_stored("UnknownState"), ProcessingState::Pending);
    assert_eq!(state_from_stored("Acquired"), ProcessingState::Pending);
}
