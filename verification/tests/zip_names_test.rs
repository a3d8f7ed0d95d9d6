use yellowbox::pipeline::index::{
    build_main_media_zip_index, build_overlay_zip_index, build_pipeline_zip_indexes, OverlayItemRef,
};
use yellowbox::pipeline::zip::{
    composite_key, extract_date_prefix_from_name, extract_id_from_filename,
    extract_ids_from_overlay_filename, id_appears_as_token, id_match_variants, is_video_ext,
    normalize_date_prefix,
};

fn names(entries: &[&str]) -> Vec<Option<Vec<String>>> {
    vec![Some(entries.iter().map(|s| s.to_string()).collect())]
}

#[test]
fn test_id_appears_as_token_no_substring_match() {
    // "123" must not match "12345" (substring)
    assert!(!id_appears_as_token("12345-main.mp4", "123"));
    assert!(!id_appears_as_token("2018-02-07_12345-main.mp4", "123"));
    assert!(!id_appears_as_token("abc12345-overlay.png", "abc123"));
}

#[test]
fn test_id_appears_as_token_valid_matches() {
    assert!(id_appears_as_token(
        "2018-02-07_3C6DC8B5-6D3B-4F64-8E8A-2F90D45B63FC-main.mp4",
        "3C6DC8B5-6D3B-4F64-8E8A-2F90D45B63FC"
    ));
    assert!(id_appears_as_token(
        "2018-02-07_3c6dc8b5-6d3b-4f64-8e8a-2f90d45b63fc-main.mp4",
        "3C6DC8B5-6D3B-4F64-8E8A-2F90D45B63FC"
    ));
    assert!(id_appears_as_token(
        "2018-02-07_3c6dc8b56d3b4f648e8a2f90d45b63fc-overlay.png",
        "3C6DC8B5-6D3B-4F64-8E8A-2F90D45B63FC"
    )); // no-hyphen variant
}

#[test]
fn test_id_appears_as_token_split_overlay() {
    let id1 = "3C6DC8B5-6D3B-4F64-8E8A-2F90D45B63FC";
    let id2 = "2D98014C-444F-4D50-99BE-940E4E883393";
    let name = "2018-02-07_3C6DC8B5-6D3B-4F64-8E8A-2F90D45B63FC_2D98014C-444F-4D50-99BE-940E4E883393.png";
    assert!(id_appears_as_token(name, id1));
    assert!(id_appears_as_token(name, id2));
}

#[test]
fn test_build_main_index_no_substring_false_positive() {
    let zips = names(&["2018-02-07_12345-main.mp4", "2018-02-07_123-main.mp4"]);
    let ids = vec!["123".to_string()];
    let index = build_main_media_zip_index(&zips, &ids);
    assert!(index.len() >= 1);
    let composite_key = "2018-02-07|123";
    assert!(index.contains_key(composite_key));
    let (zip_file_idx, entry_idx, ext) = index.get(composite_key).unwrap();
    assert_eq!(*zip_file_idx, 0);
    assert_eq!(*entry_idx, 1); // 123-main, not 12345-main
    assert_eq!(ext, "mp4");
}

#[test]
fn test_build_overlay_index_split_video_assignment() {
    let id1 = "AAA11111-2222-3333-4444-555555555555";
    let id2 = "BBB22222-3333-4444-5555-666666666666";
    let id3 = "CCC33333-4444-5555-6666-777777777777";
    let zips = names(&[
        "2018-02-07_AAA11111-2222-3333-4444-555555555555-main.mp4",
        "2018-02-07_BBB22222-3333-4444-5555-666666666666-main.mp4",
        "2018-02-07_AAA11111-2222-3333-4444-555555555555_BBB22222-3333-4444-5555-666666666666.png",
        "2018-02-07_CCC33333-4444-5555-6666-777777777777-overlay.png",
    ]);
    let items = vec![
        OverlayItemRef {
            id: id1.to_string(),
            segment_ids: Some(vec![id1.to_string(), id2.to_string()]),
            candidate_ids: None,
        },
        OverlayItemRef { id: id3.to_string(), segment_ids: None, candidate_ids: None },
    ];
    let overlay_index = build_overlay_zip_index(&zips, &items);
    assert!(overlay_index.len() >= 2, "index has JSON + filename-based entries");
    let key1 = format!("2018-02-07|{}", id1);
    let key3 = format!("2018-02-07|{}", id3);
    assert!(overlay_index.contains_key(&key1));
    assert!(overlay_index.contains_key(&key3));
    let (ov_idx1_file, ov_idx1_ent, _) = overlay_index.get(&key1).unwrap();
    let (ov_idx3_file, ov_idx3_ent, _) = overlay_index.get(&key3).unwrap();
    assert_eq!(*ov_idx1_file, 0);
    assert_eq!(*ov_idx1_ent, 2, "overlay with ID1_ID2 for split video");
    assert_eq!(*ov_idx3_file, 0);
    assert_eq!(*ov_idx3_ent, 3, "overlay with ID3 only");
}

#[test]
fn test_index_same_video_different_dates() {
    let zips = names(&[
        "memories/2021-01-19_21-16-16_c888a42f-2b82-53a0-c17c-e4d0b67cc1fb-main.mp4",
        "memories/2021-03-03_19-41-46_f560c834-a033-13f2-cf18-0531ed083e27-main.mp4",
        "memories/2021-06-03_12-47-35_013c9515-02f6-d22c-a44e-ab166d8e8731-main.mp4",
    ]);
    let ids = vec![
        "c888a42f-2b82-53a0-c17c-e4d0b67cc1fb".to_string(),
        "f560c834-a033-13f2-cf18-0531ed083e27".to_string(),
        "013c9515-02f6-d22c-a44e-ab166d8e8731".to_string(),
    ];
    let index = build_main_media_zip_index(&zips, &ids);
    let (jan_f, jan_e, _) = index.get("2021-01-19_21-16-16|c888a42f-2b82-53a0-c17c-e4d0b67cc1fb").unwrap();
    let (mar_f, mar_e, _) = index.get("2021-03-03_19-41-46|f560c834-a033-13f2-cf18-0531ed083e27").unwrap();
    let (jun_f, jun_e, _) = index.get("2021-06-03_12-47-35|013c9515-02f6-d22c-a44e-ab166d8e8731").unwrap();
    assert_eq!((*jan_f, *jan_e), (0, 0));
    assert_eq!((*mar_f, *mar_e), (0, 1));
    assert_eq!((*jun_f, *jun_e), (0, 2));
}

#[test]
fn test_build_main_index_date_disambiguates_same_id_in_different_months() {
    let seg_id = "SHARED-ID-1111-2222-3333-444455556666";
    let zips = names(&[
        "2021-01-15_12-30-00_SHARED-ID-1111-2222-3333-444455556666-main.mp4",
        "2021-03-20_10-00-00_SHARED-ID-1111-2222-3333-444455556666-main.mp4",
    ]);
    let ids = vec![seg_id.to_string()];
    let index = build_main_media_zip_index(&zips, &ids);
    assert!(index.len() >= 2, "same ID in two months = at least two index entries");
    let (jan_f, jan_e, _) = index.get("2021-01-15_12-30-00|SHARED-ID-1111-2222-3333-444455556666").unwrap();
    let (mar_f, mar_e, _) = index.get("2021-03-20_10-00-00|SHARED-ID-1111-2222-3333-444455556666").unwrap();
    assert_eq!((*jan_f, *jan_e), (0, 0));
    assert_eq!((*mar_f, *mar_e), (0, 1));
}

#[test]
fn test_overlay_specificity_prefer_split_over_single() {
    let id1 = "AAA11111-2222-3333-4444-555555555555";
    let id2 = "BBB22222-3333-4444-5555-666666666666";
    let zips = names(&[
        "2018-02-07_AAA11111-2222-3333-4444-555555555555-main.mp4",
        "2018-02-07_AAA11111-2222-3333-4444-555555555555-overlay.png",
        "2018-02-07_AAA11111-2222-3333-4444-555555555555_BBB22222-3333-4444-5555-666666666666.png",
    ]);
    let items = vec![OverlayItemRef {
        id: id1.to_string(),
        segment_ids: Some(vec![id1.to_string(), id2.to_string()]),
        candidate_ids: None,
    }];
    let overlay_index = build_overlay_zip_index(&zips, &items);
    assert!(overlay_index.len() >= 1);
    let key1 = format!("2018-02-07|{}", id1);
    let (f, e, _) = overlay_index.get(&key1).unwrap();
    assert_eq!(*f, 0);
    assert_eq!(*e, 2, "split overlay (ID1_ID2.png) should win over single (ID1-overlay.png)");
}

#[test]
fn test_extract_id_from_filename_35char_hyphen_date() {
    let name = "memories/2021-11-06-82a52b8f-099b-507-1cd2-c30936076a8a-main.mp4";
    let date = extract_date_prefix_from_name(name).expect("Should extract 10-char date");
    assert_eq!(date, "2021-11-06");
    let id = extract_id_from_filename(name).expect("Should extract ID");
    assert_eq!(id, "82a52b8f-099b-507-1cd2-c30936076a8a");
}

#[test]
fn test_normalize_date_prefix_hyphens() {
    let raw = "2021-01-15-12-30-00";
    let normalized = normalize_date_prefix(raw);
    assert_eq!(normalized, "2021-01-15_12-30-00");
}

#[test]
fn normalize_date_prefix_cuts_dates_and_keeps_short_text() {
    assert_eq!(normalize_date_prefix("2021-01-15 12:30:00 extra"), "2021-01-15_12-30-00");
    assert_eq!(normalize_date_prefix("2021-01-15xyz"), "2021-01-15");
    assert_eq!(normalize_date_prefix("2021"), "2021");
}

#[test]
fn date_prefix_prefers_timestamp_then_date() {
    assert_eq!(
        extract_date_prefix_from_name("memories/2021-01-15_12-30-00_abc-main.mp4").as_deref(),
        Some("2021-01-15_12-30-00")
    );
    assert_eq!(extract_date_prefix_from_name("2021-01-15_abc-main.mp4").as_deref(), Some("2021-01-15"));
    assert_eq!(extract_date_prefix_from_name("abc-main.mp4"), None);
    assert_eq!(extract_date_prefix_from_name("dir/"), None);
}

#[test]
fn ids_from_overlay_names() {
    assert_eq!(
        extract_ids_from_overlay_filename("2018-02-07_ID1_ID2.png"),
        Some(vec!["ID1".to_string(), "ID2".to_string()])
    );
    assert_eq!(
        extract_ids_from_overlay_filename("2018-02-07_ID1-overlay.png"),
        Some(vec!["ID1".to_string()])
    );
    assert_eq!(extract_ids_from_overlay_filename("2018-02-07.png"), None);
    assert_eq!(extract_ids_from_overlay_filename("overlay.png"), None);
}

#[test]
fn id_from_names_needs_suffix_and_date() {
    assert_eq!(extract_id_from_filename("2018-02-07_ABC-overlay.png").as_deref(), Some("ABC"));
    assert_eq!(extract_id_from_filename("2018-02-07_ABC.png"), None);
    assert_eq!(extract_id_from_filename("ABC-main.png"), None);
    assert_eq!(extract_id_from_filename("2018-02-07-main.png"), None);
}

#[test]
fn id_variants_and_keys() {
    assert_eq!(id_match_variants("AB-CD"), vec!["ab-cd".to_string(), "abcd".to_string()]);
    assert_eq!(id_match_variants("abcd"), vec!["abcd".to_string()]);
    assert_eq!(composite_key(Some("2020-01-01"), "x"), "2020-01-01|x");
    assert_eq!(composite_key(None, "x"), "|x");
}

#[test]
fn video_extensions() {
    assert!(is_video_ext("MP4"));
    assert!(is_video_ext("mov"));
    assert!(!is_video_ext("jpg"));
}

#[test]
fn unreadable_archive_contributes_nothing_and_later_archive_wins() {
    let zips = vec![
        Some(vec!["2020-01-01_A-main.mp4".to_string()]),
        None,
        Some(vec!["x.txt".to_string(), "2020-01-01_A-main.jpg".to_string()]),
    ];
    let ids = vec!["A".to_string()];
    let (main, overlay) = build_pipeline_zip_indexes(&zips, &ids, &Vec::new());
    let (f, e, ext) = main.get("2020-01-01|a").unwrap();
    assert_eq!((*f, *e, ext.as_str()), (2, 1, "jpg"));
    let (f, e, _) = main.get("2020-01-01|A").unwrap();
    assert_eq!((*f, *e), (2, 1));
    assert_eq!(overlay.len(), 0);
}

#[test]
fn main_entry_replaces_non_main_for_same_key() {
    let zips = names(&["2020-01-01_A-overlay.jpg", "2020-01-01_A_B.jpg", "2020-01-01_A-main.mp4"]);
    let index = build_main_media_zip_index(&zips, &Vec::new());
    let (_, e, ext) = index.get("2020-01-01|a").unwrap();
    assert_eq!((*e, ext.as_str()), (2, "mp4"));
}

#[test]
fn split_overlay_png_stays_out_of_main_index() {
    let zips = names(&["2018-02-07_AAA_BBB.png"]);
    let index = build_main_media_zip_index(&zips, &Vec::new());
    assert_eq!(index.len(), 0);
}

#[test]
fn main_png_and_plain_jpg_go_to_main_index() {
    let zips = names(&["2018-02-07_AAA-main.png", "2018-02-07_BBB_CCC.png", "2018-02-07_DDD-overlay.jpg"]);
    let index = build_main_media_zip_index(&zips, &Vec::new());
    assert_eq!(index.len(), 1);
    // A PNG's ids are read as an overlay's are, so the suffix stays part of the id.
    let (_, e, ext) = index.get("2018-02-07|aaa-main").unwrap();
    assert_eq!((*e, ext.as_str()), (0, "png"));
}
