use yellowbox::folder::{preview_target, thumbnail_source};
use yellowbox::metadata::{is_png_ext, location_temp_extension};
use yellowbox::pipeline::acquire::lookup_export_entry;
use yellowbox::pipeline::export_index::{build_export_zip_index, build_export_zip_index_checked};
use yellowbox::pipeline::index::ZipIndex;

fn strings(v: &[&str]) -> Vec<String> {
    v.iter().map(|s| s.to_string()).collect()
}

#[test]
fn export_lookup_never_falls_back_for_dated_memories() {
    let mut idx = ZipIndex::new();
    idx.insert("|a".to_string(), (0, 1, "mp4".to_string()));
    idx.insert("2021-01-15|b".to_string(), (0, 2, "jpg".to_string()));
    assert_eq!(lookup_export_entry(&idx, None, "a"), Some((0, 1, "mp4".to_string())));
    assert_eq!(lookup_export_entry(&idx, Some("2021-01-15_10-00-00"), "a"), None);
    assert_eq!(lookup_export_entry(&idx, Some("2021-01-15_10-00-00"), "b"), Some((0, 2, "jpg".to_string())));
    // An empty date still forms the exact key `|id`.
    assert_eq!(lookup_export_entry(&idx, Some(""), "a"), Some((0, 1, "mp4".to_string())));
}

#[test]
fn plain_index_takes_first_id_and_last_entry() {
    let zips = vec![
        strings(&["x/AAA-main.mp4", "x/BBB.jpg"]),
        strings(&["y/aaa-overlay.png", "y/noext_ccc"]),
    ];
    let ids = strings(&["aaa", "bbb", "ccc"]);
    let idx = build_export_zip_index(&zips, &ids);
    assert_eq!(idx.get("aaa"), Some(&(1, 0, "png".to_string())));
    assert_eq!(idx.get("bbb"), Some(&(0, 1, "jpg".to_string())));
    assert_eq!(idx.get("ccc"), Some(&(1, 1, "zip".to_string())));
    assert_eq!(idx.len(), 3);
    assert!(build_export_zip_index_checked(&zips, &ids).is_some());
}

#[test]
fn previews_skip_overlays_and_default_to_bin() {
    let ids = strings(&["ABC", "def"]);
    assert_eq!(preview_target("memories/abc-main.MP4", &ids).as_deref(), Some("ABC.MP4"));
    assert_eq!(preview_target("memories/xDEFx", &ids).as_deref(), Some("def.bin"));
    assert_eq!(preview_target("memories/abc-overlay.png", &ids), None);
    assert_eq!(preview_target("memories/other.jpg", &ids), None);
}

#[test]
fn thumbnails_come_from_the_first_matching_entry() {
    let names = strings(&["a/xyz-main.JPG", "a/ID1-main.MOV", "a/ID1-overlay.png"]);
    assert_eq!(thumbnail_source(&names, "ID1"), Some((1, "mov".to_string(), true)));
    assert_eq!(thumbnail_source(&names, "xyz"), Some((0, "jpg".to_string(), false)));
    assert_eq!(thumbnail_source(&names, "id1"), None);
}

#[test]
fn png_detection_and_temp_names() {
    assert!(is_png_ext("/out/a.PNG"));
    assert!(!is_png_ext("/out/a.jpg"));
    assert!(!is_png_ext("/out/png"));
    assert_eq!(location_temp_extension("/out/a.png"), "tmp.png");
    assert_eq!(location_temp_extension("/out/a.mp4"), "tmp.mp4");
    assert_eq!(location_temp_extension("/out/a"), "tmp.mp4");
}

#[test]
fn index_copies_keep_their_entries() {
    let mut idx = ZipIndex::new();
    idx.insert("k".to_string(), (3, 4, "mp4".to_string()));
    let copy = idx.duplicate();
    assert_eq!(copy.get("k"), Some(&(3, 4, "mp4".to_string())));
    assert_eq!(copy.len(), 1);
}
