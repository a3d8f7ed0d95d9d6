use yellowbox::parser::{
    build_memory_items, fold_video_group, normalize_location, RawLocation, RawSnapchatMemory,
    VideoEntry,
};

fn raw(date: &str, media: &str, link: Option<&str>, alt: Option<&str>) -> RawSnapchatMemory {
    RawSnapchatMemory {
        date: date.to_string(),
        media_type: media.to_string(),
        location: None,
        download_link: link.map(|s| s.to_string()),
        media_download_url: alt.map(|s| s.to_string()),
    }
}

#[test]
fn test_fold_video_group_aliases_not_segments() {
    let entry = VideoEntry {
        id: "MID1".to_string(),
        candidate_ids: vec!["MID1".to_string(), "SID1".to_string()],
        download_url: "url".to_string(),
        location: None,
        date_str: "2022-01-01 12:00:00".to_string(),
        ts: 123456789,
    };
    let item = fold_video_group(vec![entry]);
    assert!(item.segment_ids.is_none(), "Single physical segment should have None segment_ids");
    assert_eq!(item.id, "MID1");
    let candidates = item.candidate_ids.unwrap();
    assert!(candidates.contains(&"MID1".to_string()));
    assert!(candidates.contains(&"SID1".to_string()));
}

#[test]
fn test_fold_video_group_multiple_physical_segments() {
    let entry1 = VideoEntry {
        id: "MID1".to_string(),
        candidate_ids: vec!["MID1".to_string()],
        download_url: "url1".to_string(),
        location: None,
        date_str: "2022-01-01 12:00:00".to_string(),
        ts: 123456789,
    };
    let entry2 = VideoEntry {
        id: "MID2".to_string(),
        candidate_ids: vec!["MID2".to_string()],
        download_url: "url2".to_string(),
        location: None,
        date_str: "2022-01-01 12:00:10".to_string(),
        ts: 123456799,
    };
    let item = fold_video_group(vec![entry1, entry2]);
    let segments = item.segment_ids.expect("Should have segment_ids");
    assert_eq!(segments.len(), 2);
    assert_eq!(segments[0], "MID1");
    assert_eq!(segments[1], "MID2");
    let candidates = item.candidate_ids.unwrap();
    assert!(candidates.contains(&"MID1".to_string()));
    assert!(candidates.contains(&"MID2".to_string()));
}

#[test]
fn folded_group_keeps_first_segment_and_dedups_aliases() {
    let mk = |id: &str, c: &[&str], ts: i64| VideoEntry {
        id: id.to_string(),
        candidate_ids: c.iter().map(|s| s.to_string()).collect(),
        download_url: format!("u-{}", id),
        location: Some(format!("loc-{}", id)),
        date_str: format!("d-{}", id),
        ts,
    };
    let item = fold_video_group(vec![mk("A", &["A", "X"], 1), mk("B", &["X", "B"], 5)]);
    assert_eq!(item.download_url, "u-A");
    assert_eq!(item.original_date, "d-A");
    assert_eq!(item.location.as_deref(), Some("loc-A"));
    assert_eq!(item.media_type, "Video");
    assert_eq!(
        item.candidate_ids.unwrap(),
        vec!["A".to_string(), "X".to_string(), "B".to_string()]
    );
}

#[test]
fn ids_come_from_query_then_path() {
    let raws = vec![raw(
        "2022-01-01 12:00:00 UTC",
        "Image",
        Some("https://app.snapchat.com/dmd/memories?uid=u&sid=S1&mid=M1&media_id=M1"),
        None,
    )];
    let items = build_memory_items(&raws);
    assert_eq!(items.len(), 1);
    assert_eq!(items[0].id, "M1");
    assert_eq!(items[0].candidate_ids.as_ref().unwrap(), &vec!["M1".to_string(), "S1".to_string()]);
    assert_eq!(items[0].media_type, "Image");

    let cdn = raw(
        "2022-01-01 12:00:00 UTC",
        "Image",
        Some("https://cf-st.sc-cdn.net/abc/3C6DC8B5-6D3B-4F64-8E8A-2F90D45B63FC/file.jpg?mid=unknown-id"),
        None,
    );
    let items = build_memory_items(&vec![cdn]);
    assert_eq!(items[0].id, "3C6DC8B5-6D3B-4F64-8E8A-2F90D45B63FC");
}

#[test]
fn entries_without_usable_links_are_skipped() {
    let raws = vec![
        raw("2022-01-01 12:00:00 UTC", "Image", None, None),
        raw("2022-01-01 12:00:00 UTC", "Image", Some(""), Some("https://x/y?mid=Z")),
        raw("2022-01-01 12:00:00 UTC", "Image", Some("not a url"), None),
        raw("2022-01-01 12:00:00 UTC", "Image", Some("https://x/short?sid="), None),
        raw("2022-01-01 12:00:00 UTC", "Image", None, Some("https://x/y?mid=OK")),
    ];
    let items = build_memory_items(&raws);
    assert_eq!(items.len(), 1);
    assert_eq!(items[0].id, "OK");
}

#[test]
fn close_videos_become_one_memory_and_images_follow() {
    let raws = vec![
        raw("2022-01-01 12:00:00 UTC", "Image", Some("https://x/y?mid=IMG"), None),
        raw("2022-01-01 12:00:10 UTC", "Video", Some("https://x/y?mid=V2"), None),
        raw("2022-01-01 12:00:00 UTC", "Video", Some("https://x/y?mid=V1"), None),
        raw("2022-01-01 12:05:00 UTC", "video", Some("https://x/y?mid=V3"), None),
    ];
    let items = build_memory_items(&raws);
    assert_eq!(items.len(), 3);
    assert_eq!(items[0].id, "V1");
    assert_eq!(items[0].segment_ids.as_ref().unwrap(), &vec!["V1".to_string(), "V2".to_string()]);
    assert_eq!(items[1].id, "V3");
    assert!(items[1].segment_ids.is_none());
    assert_eq!(items[2].id, "IMG");
}

#[test]
fn locations_lose_their_label() {
    assert_eq!(
        normalize_location(&Some(RawLocation::Text(" Latitude, Longitude: 57.68, 11.97 ".to_string()))),
        Some("57.68, 11.97".to_string())
    );
    // Trimming happens first, so a bare label no longer carries the prefix's trailing space.
    assert_eq!(
        normalize_location(&Some(RawLocation::Text("Latitude, Longitude: ".to_string()))),
        Some("Latitude, Longitude:".to_string())
    );
    assert_eq!(normalize_location(&Some(RawLocation::Text("   ".to_string()))), None);
    assert_eq!(
        normalize_location(&Some(RawLocation::Coordinates("1.5, 2".to_string()))),
        Some("1.5, 2".to_string())
    );
    assert_eq!(normalize_location(&Some(RawLocation::Unusable)), None);
    assert_eq!(normalize_location(&None), None);
}
