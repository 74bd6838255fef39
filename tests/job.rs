use lemmekk::{split_at_offset, CarveError, ExtractJob, ExtractJobKind};

fn job(kind: ExtractJobKind, path: &str, companions: &[&str]) -> ExtractJob {
    ExtractJob {
        package: "pkg".to_string(),
        kind,
        path: path.to_string(),
        token: String::new(),
        companions: companions.iter().map(|s| s.to_string()).collect(),
    }
}

#[test]
fn split_with_missing_volumes_fails_the_count() {
    let j = job(
        ExtractJobKind::Split { volume: 5, legacy_zip_split: false },
        "/d/a.part1.rar",
        &["/d/a.part2.rar", "/d/a.part3.rar", "/d/a.part4.rar"],
    );
    assert!(!j.check_file_number());
}

#[test]
fn complete_split_passes_the_count() {
    let j = job(
        ExtractJobKind::Split { volume: 3, legacy_zip_split: false },
        "/d/a.part1.rar",
        &["/d/a.part2.rar", "/d/a.part3.rar"],
    );
    assert!(j.check_file_number());
    let empty_split = job(ExtractJobKind::Split { volume: 0, legacy_zip_split: false }, "", &[]);
    assert!(!empty_split.check_file_number());
}

#[test]
fn legacy_split_counts_every_volume() {
    let j = job(
        ExtractJobKind::Split { volume: 2, legacy_zip_split: true },
        "",
        &["/d/a.zip", "/d/a.z01"],
    );
    assert!(j.check_file_number());
    let short = job(ExtractJobKind::Split { volume: 2, legacy_zip_split: true }, "", &["/d/a.zip"]);
    assert!(!short.check_file_number());
}

#[test]
fn normal_and_stego_counts() {
    assert!(job(ExtractJobKind::Normal, "/d/a.7z", &[]).check_file_number());
    assert!(!job(ExtractJobKind::Normal, "/d/a.7z", &["/d/b"]).check_file_number());
    assert!(job(ExtractJobKind::Stego(9), "/d/p", &["/d/c", "/d/o"]).check_file_number());
    assert!(!job(ExtractJobKind::Stego(9), "/d/p", &[]).check_file_number());
    assert!(!job(ExtractJobKind::Stego(0), "/d/p", &[]).check_file_number());
    assert!(job(ExtractJobKind::Stego(0), "/d/p", &["/d/c", "/d/o"]).check_file_number());
}

#[test]
fn carving_splits_at_offset_and_round_trips() {
    let data: Vec<u8> = (0u8..37).collect();
    let (cover, payload) = split_at_offset(&data, 10).unwrap();
    assert_eq!(cover.len(), 10);
    assert_eq!(payload.len(), 27);
    let mut joined = cover.clone();
    joined.extend(payload.iter());
    assert_eq!(joined, data);
    assert_eq!(cover, (0u8..10).collect::<Vec<u8>>());
}

#[test]
fn carving_edges() {
    let data = vec![1u8, 2, 3];
    assert_eq!(split_at_offset(&data, 3), Some((vec![1, 2, 3], vec![])));
    assert_eq!(split_at_offset(&data, 0), Some((vec![], vec![1, 2, 3])));
    assert_eq!(split_at_offset(&data, 4), None);
}

#[test]
fn carve_targets_sit_next_to_the_file() {
    let j = job(ExtractJobKind::Stego(10), "/d/pic.jpg", &[]);
    let (cover, payload) = j.carve_targets().unwrap();
    assert_eq!(cover, "/d/[lemmkk]pic.basis");
    assert_eq!(payload, "/d/[lemmkk]pic.file");
    assert!(job(ExtractJobKind::Stego(10), "/", &[]).carve_targets().is_none());
}

#[test]
fn carving_moves_the_job_to_the_payload() {
    let mut j = job(ExtractJobKind::Stego(10), "/d/pic.jpg", &[]);
    assert!(j.needs_carving());
    let plan = j.create_temp_file(false, false).unwrap().unwrap();
    assert_eq!(plan.source, "/d/pic.jpg");
    assert_eq!(plan.offset, 10);
    assert_eq!(plan.cover, "/d/[lemmkk]pic.basis");
    assert_eq!(plan.payload, "/d/[lemmkk]pic.file");
    assert_eq!(j.path, "/d/[lemmkk]pic.file");
    assert_eq!(j.companions, vec!["/d/[lemmkk]pic.basis".to_string(), "/d/pic.jpg".to_string()]);
    assert_eq!(j.kind, ExtractJobKind::Stego(10));
}

#[test]
fn carving_replaces_the_companions() {
    let mut j = job(ExtractJobKind::Stego(4), "/d/pic.gif", &["/d/old"]);
    j.create_temp_file(false, false).unwrap().unwrap();
    assert_eq!(j.companions, vec!["/d/[lemmkk]pic.basis".to_string(), "/d/pic.gif".to_string()]);
}

#[test]
fn carving_refuses_existing_targets() {
    for (cover_exists, payload_exists) in [(true, false), (false, true), (true, true)] {
        let mut j = job(ExtractJobKind::Stego(10), "/d/pic.jpg", &[]);
        assert_eq!(
            j.create_temp_file(cover_exists, payload_exists).err(),
            Some(CarveError::TargetExists)
        );
        assert_eq!(j.path, "/d/pic.jpg");
        assert!(j.companions.is_empty());
    }
}

#[test]
fn carving_without_file_name_fails() {
    let mut j = job(ExtractJobKind::Stego(10), "/", &[]);
    assert_eq!(j.create_temp_file(false, false).err(), Some(CarveError::NoFileName));
    assert_eq!(j.path, "/");
}

#[test]
fn nothing_to_carve_leaves_the_job() {
    let mut zero = job(ExtractJobKind::Stego(0), "/d/pic.jpg", &[]);
    assert!(!zero.needs_carving());
    assert!(zero.create_temp_file(true, true).unwrap().is_none());
    assert_eq!(zero.path, "/d/pic.jpg");
    let mut normal = job(ExtractJobKind::Normal, "/d/a.7z", &[]);
    assert!(normal.create_temp_file(false, false).unwrap().is_none());
    assert_eq!(normal.path, "/d/a.7z");
    assert_eq!(ExtractJobKind::default(), ExtractJobKind::Normal);
}

#[test]
fn split_needs_its_primary_file() {
    let kind = ExtractJobKind::Split { volume: 2, legacy_zip_split: false };
    assert!(!job(kind, "", &["/d/a.part2.rar"]).is_resolved());
    assert!(job(kind, "/d/a.part1.rar", &["/d/a.part2.rar"]).is_resolved());
    assert!(job(ExtractJobKind::Normal, "", &[]).is_resolved());
}
