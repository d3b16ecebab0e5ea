//! Unit tests for the plain rules: the filename identifier, the marker
//! search, the change classifier, and the record observation and
//! resolution rules.

use pointwise_gen::change::Change;
use pointwise_gen::change::ChangeKind;
use pointwise_gen::change::RawChange;
use pointwise_gen::change::RawKind;
use pointwise_gen::change::classify_change;
use pointwise_gen::change::direct_child_name;
use pointwise_gen::errors::WalkError;
use pointwise_gen::ids::ObjectId;
use pointwise_gen::names::file_name_to_id;
use pointwise_gen::names::text_contains;
use pointwise_gen::resp::CharResp;
use pointwise_gen::resp::BBox;
use pointwise_gen::resp::group_hadv;
use pointwise_gen::store::ProvenanceRecord;
use pointwise_gen::times::Timestamp;

fn t(seconds: i64) -> Timestamp {
    Timestamp { seconds, offset_minutes: 0 }
}

fn id(bytes: &[u8]) -> ObjectId {
    ObjectId { bytes: bytes.to_vec() }
}

fn raw(kind: RawKind, old: Option<&[u8]>, new: Option<&[u8]>) -> RawChange {
    RawChange {
        kind,
        old_path: old.map(|p| p.to_vec()),
        new_path: new.map(|p| p.to_vec()),
        content_id: id(b"blob"),
    }
}

fn classify(kind: RawKind, old: Option<&[u8]>, new: Option<&[u8]>) -> Option<Change> {
    classify_change(&b"posts".to_vec(), &raw(kind, old, new))
}

#[test]
fn filename_typical() {
    assert_eq!(file_name_to_id("2024-01-05-title.md").unwrap(), "title");
}

#[test]
fn filename_prefix_not_at_start() {
    assert_eq!(file_name_to_id("x2024-01-05-foo.md").unwrap(), "foo");
}

#[test]
fn filename_takes_last_md() {
    assert_eq!(file_name_to_id("2024-01-05-a.md.md").unwrap(), "a.md");
    assert_eq!(file_name_to_id("2024-01-05-a.md.bak").unwrap(), "a");
}

#[test]
fn filename_empty_identifier() {
    assert_eq!(file_name_to_id("2024-01-05-.md").unwrap(), "");
}

#[test]
fn filename_unicode_identifier() {
    assert_eq!(file_name_to_id("2024-01-05-caf\u{e9}.md").unwrap(), "caf\u{e9}");
}

#[test]
fn filename_without_date_rejected() {
    assert!(matches!(file_name_to_id("hello.md"), Err(WalkError::BadFilename)));
}

#[test]
fn filename_wrong_extension_rejected() {
    assert!(matches!(file_name_to_id("2024-01-05-foo.txt"), Err(WalkError::BadFilename)));
}

#[test]
fn filename_short_input_rejected() {
    assert!(matches!(file_name_to_id(""), Err(WalkError::BadFilename)));
    assert!(matches!(file_name_to_id("2024-01-05-"), Err(WalkError::BadFilename)));
}

#[test]
fn marker_search_finds_infix() {
    assert!(text_contains("chore: retag assets [no-publish-time]", "[no-publish-time]"));
    assert!(!text_contains("chore: retag assets", "[no-publish-time]"));
}

#[test]
fn marker_search_empty_needle() {
    assert!(text_contains("anything", ""));
    assert!(text_contains("", ""));
    assert!(!text_contains("", "x"));
}

#[test]
fn classifier_keeps_direct_child_addition() {
    let c = classify(RawKind::Added, None, Some(b"posts/2024-01-05-a.md")).unwrap();
    assert_eq!(c.kind, ChangeKind::Added);
    assert_eq!(c.new_name, b"2024-01-05-a.md".to_vec());
    assert_eq!(c.old_name, None);
}

#[test]
fn classifier_treats_untracked_as_addition() {
    let c = classify(RawKind::Untracked, None, Some(b"posts/2024-01-05-a.md")).unwrap();
    assert_eq!(c.kind, ChangeKind::Added);
}

#[test]
fn classifier_drops_nested_paths() {
    assert!(classify(RawKind::Added, None, Some(b"posts/drafts/2024-01-05-a.md")).is_none());
    assert!(classify(RawKind::Modified, None, Some(b"posts")).is_none());
}

#[test]
fn classifier_drops_outside_paths() {
    assert!(classify(RawKind::Added, None, Some(b"assets/2024-01-05-a.md")).is_none());
    assert!(classify(RawKind::Added, None, Some(b"2024-01-05-a.md")).is_none());
}

#[test]
fn classifier_keeps_inside_rename() {
    let c = classify(
        RawKind::Renamed,
        Some(b"posts/2024-01-05-a.md"),
        Some(b"posts/2024-01-05-b.md"),
    )
    .unwrap();
    assert_eq!(c.kind, ChangeKind::Renamed);
    assert_eq!(c.old_name, Some(b"2024-01-05-a.md".to_vec()));
    assert_eq!(c.new_name, b"2024-01-05-b.md".to_vec());
}

#[test]
fn classifier_degrades_rename_from_outside() {
    let c = classify(
        RawKind::Renamed,
        Some(b"attic/2024-01-05-a.md"),
        Some(b"posts/2024-01-05-b.md"),
    )
    .unwrap();
    assert_eq!(c.kind, ChangeKind::Added);
    assert_eq!(c.old_name, None);
}

#[test]
fn classifier_drops_deletions() {
    assert!(classify(
        RawKind::Deleted,
        Some(b"posts/2024-01-05-a.md"),
        Some(b"posts/2024-01-05-a.md"),
    )
    .is_none());
}

#[test]
fn classifier_at_repository_root() {
    let c = classify_change(
        &Vec::new(),
        &raw(RawKind::Added, None, Some(b"2024-01-05-a.md")),
    )
    .unwrap();
    assert_eq!(c.new_name, b"2024-01-05-a.md".to_vec());
    assert!(direct_child_name(&Vec::new(), &b"a/b.md".to_vec()).is_none());
}

#[test]
fn observation_sets_both_fields_first() {
    let rec = ProvenanceRecord::fresh();
    let rec = rec.observed(t(500), &id(b"b1"));
    assert_eq!(rec.created.as_ref().unwrap().time, t(500));
    assert_eq!(rec.updated.as_ref().unwrap().time, t(500));
}

#[test]
fn observation_creation_only_moves_earlier() {
    let rec = ProvenanceRecord::fresh().observed(t(500), &id(b"b2")).observed(t(900), &id(b"b3"));
    assert_eq!(rec.created.as_ref().unwrap().time, t(500));
    let rec = rec.observed(t(100), &id(b"b1"));
    assert_eq!(rec.created.as_ref().unwrap().time, t(100));
}

#[test]
fn observation_update_follows_matching_content() {
    // Newest-first: the update entry walks back in time only while the
    // observed content is the one it already names.
    let rec = ProvenanceRecord::fresh()
        .observed(t(900), &id(b"b2"))
        .observed(t(600), &id(b"b2"))
        .observed(t(100), &id(b"b1"));
    assert_eq!(rec.updated.as_ref().unwrap().time, t(600));
    assert_eq!(rec.created.as_ref().unwrap().time, t(100));
    let (publish, update) = rec.resolve_times(None, None, t(9999));
    assert_eq!(publish, t(100));
    assert_eq!(update, Some(t(600)));
}

#[test]
fn resolution_suppresses_unmodified_content() {
    let rec = ProvenanceRecord::fresh().observed(t(900), &id(b"b1")).observed(t(100), &id(b"b1"));
    let (publish, update) = rec.resolve_times(None, None, t(9999));
    assert_eq!(publish, t(100));
    assert_eq!(update, None);
}

#[test]
fn timestamp_rules() {
    assert!(t(1).earlier_than(&t(2)));
    assert!(!t(2).earlier_than(&t(2)));
    assert!(Timestamp { seconds: 0, offset_minutes: 480 }.offset_valid());
    assert!(!Timestamp { seconds: 0, offset_minutes: 2000 }.offset_valid());
    assert!(!Timestamp { seconds: 0, offset_minutes: -2000 }.offset_valid());
}

#[test]
fn error_descriptions_exist() {
    assert!(!WalkError::BadFilename.describe().is_empty());
    assert!(!WalkError::CorruptHistory.describe().is_empty());
}

#[test]
fn group_advance_sums_characters() {
    let bbox = BBox { top: 0, bottom: 0, left: 0, right: 0 };
    let chars = vec![
        CharResp { char: 'a', components: vec![], bbox, hadv: 10 },
        CharResp { char: 'b', components: vec![], bbox, hadv: 32 },
    ];
    assert_eq!(group_hadv(&chars), 42);
    assert_eq!(group_hadv(&Vec::new()), 0);
}
