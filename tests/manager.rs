use lemmekk::{
    needs_head, CarveOutcome, DeferOperation, ExtractConfig, ExtractJob, ExtractJobKind, Extractor, SourceFile,
};

fn src(path: &str) -> SourceFile {
    SourceFile { path: path.to_string(), head: None }
}

fn zip_src(path: &str, head: &[u8]) -> SourceFile {
    SourceFile { path: path.to_string(), head: Some(head.to_vec()) }
}

fn run(files: Vec<SourceFile>) -> Extractor {
    let mut e = Extractor::default();
    e.load(ExtractConfig::default(), files);
    e.create_extract_job();
    e
}

fn find<'a>(e: &'a Extractor, package: &str) -> &'a ExtractJob {
    e.jobs.iter().find(|j| j.package == package).unwrap()
}

#[test]
fn rar_parts_merge_into_one_job() {
    let e = run(vec![src("/d/X.part2.rar"), src("/d/X.part1.rar"), src("/d/X.part3.rar")]);
    assert_eq!(e.jobs.len(), 1);
    let j = &e.jobs[0];
    assert_eq!(j.package, "X");
    assert_eq!(j.kind, ExtractJobKind::Split { volume: 3, legacy_zip_split: false });
    assert_eq!(j.path, "/d/X.part1.rar");
    assert_eq!(j.companions, vec!["/d/X.part2.rar".to_string(), "/d/X.part3.rar".to_string()]);
}

#[test]
fn parts_in_other_directories_stay_apart() {
    let e = run(vec![
        src("/d/X.part1.rar"),
        src("/d/X.part2.rar"),
        src("/e/X.part1.rar"),
        src("/e/X.part2.rar"),
    ]);
    assert_eq!(e.jobs.len(), 2);
    assert!(e.jobs.iter().all(|j| j.companions.len() == 1));
}

#[test]
fn incomplete_split_is_dropped() {
    let e = run(vec![src("/d/X.part1.rar"), src("/d/X.part3.rar"), src("/d/Y.7z.001")]);
    assert_eq!(e.jobs.len(), 1);
    assert_eq!(e.jobs[0].package, "Y");
}

#[test]
fn lone_file_is_a_normal_job() {
    let e = run(vec![src("/d/report.txt")]);
    assert_eq!(e.jobs.len(), 1);
    let j = &e.jobs[0];
    assert_eq!(j.kind, ExtractJobKind::Normal);
    assert_eq!(j.package, "report");
    assert_eq!(j.path, "/d/report.txt");
    assert!(j.companions.is_empty());
}

#[test]
fn zip_without_standard_header_is_legacy_split() {
    let mut e = Extractor::default();
    e.load(ExtractConfig::default(), vec![zip_src("/d/a.zip", &[0x00, 0x01, 0x02, 0x03])]);
    e.load_unchecked_jobs();
    assert_eq!(e.jobs.len(), 1);
    assert_eq!(e.jobs[0].kind, ExtractJobKind::Split { volume: 0, legacy_zip_split: true });
    assert_eq!(e.jobs[0].companions, vec!["/d/a.zip".to_string()]);
}

#[test]
fn zip_with_standard_header_is_normal() {
    let e = run(vec![zip_src("/d/a.zip", &[0x50, 0x4B, 0x03, 0x04])]);
    assert_eq!(e.jobs.len(), 1);
    assert_eq!(e.jobs[0].kind, ExtractJobKind::Normal);
    let unread = run(vec![src("/d/b.zip")]);
    assert_eq!(unread.jobs[0].kind, ExtractJobKind::Normal);
}

#[test]
fn legacy_zip_joins_its_numbered_volumes() {
    let e = run(vec![
        src("/d/a.z01"),
        zip_src("/d/a.zip", &[0x50, 0x4B, 0x07, 0x08]),
        src("/d/a.z02"),
    ]);
    assert_eq!(e.jobs.len(), 1);
    let j = &e.jobs[0];
    assert_eq!(j.kind, ExtractJobKind::Split { volume: 2, legacy_zip_split: true });
    assert_eq!(j.path, "/d/a.z01");
    assert_eq!(j.companions, vec!["/d/a.zip".to_string(), "/d/a.z02".to_string()]);
}

#[test]
fn empty_source_list_gives_no_jobs() {
    let mut e = run(vec![]);
    assert!(e.jobs.is_empty());
    e.config.method.recognize_steganography = true;
    e.separate_stego(vec![]);
    e.retain_jobs(&vec![]);
    assert!(e.jobs.is_empty());
}

#[test]
fn excluded_extensions_are_left_out() {
    let mut config = ExtractConfig::default();
    config.excluded_suffix = vec!["txt".to_string(), "".to_string()];
    let mut e = Extractor::default();
    e.load(config, vec![src("/d/a.txt"), src("/d/b.7z"), src("/d/README"), src("/d/c.TXT")]);
    let kept: Vec<&str> = e.files.iter().map(|f| f.path.as_str()).collect();
    assert_eq!(kept, vec!["/d/b.7z", "/d/c.TXT"]);
}

#[test]
fn head_is_needed_for_zip_only() {
    assert!(needs_head("/d/a.zip"));
    assert!(!needs_head("/d/a.ZIP"));
    assert!(!needs_head("/d/a.zip.001"));
    assert!(!needs_head("/d/zip"));
}

#[test]
fn cover_scan_marks_drops_and_passes_jobs() {
    let mut e = run(vec![
        src("/d/plain.7z"),
        src("/d/pic.png"),
        src("/d/broken.png"),
        src("/d/unread.jpg"),
        src("/d/X.part1.rar"),
    ]);
    e.config.method.recognize_steganography = true;
    let candidates = e.stego_candidates();
    assert_eq!(candidates.len(), e.jobs.len());
    let mut heads = vec![];
    for (j, wanted) in e.jobs.iter().zip(candidates.iter()) {
        assert_eq!(*wanted, j.kind == ExtractJobKind::Normal);
        let head = match j.path.as_str() {
            "/d/plain.7z" => Some(vec![0x37, 0x7A, 0xBC, 0xAF]),
            "/d/pic.png" => Some(vec![0x89, 0x50, 0x4E, 0x47, 0xAE, 0x42, 0x60, 0x82, 0x52, 0x61, 0x72, 0x21, 0x1A, 0x07, 0x00]),
            "/d/broken.png" => Some(vec![0x89, 0x50, 0x4E, 0x47]),
            _ => None,
        };
        heads.push(head);
    }
    e.separate_stego(heads);
    assert_eq!(e.jobs.len(), 3);
    assert_eq!(find(&e, "plain").kind, ExtractJobKind::Normal);
    assert_eq!(find(&e, "pic").kind, ExtractJobKind::Stego(8));
    assert_eq!(find(&e, "X").kind, ExtractJobKind::Split { volume: 1, legacy_zip_split: false });
}

#[test]
fn cover_scan_switched_off_changes_nothing() {
    let mut e = run(vec![src("/d/pic.png")]);
    assert_eq!(e.stego_candidates(), vec![false]);
    e.separate_stego(vec![None]);
    assert_eq!(e.jobs.len(), 1);
    assert_eq!(e.jobs[0].kind, ExtractJobKind::Normal);
}

#[test]
fn retain_keeps_flagged_jobs() {
    let mut e = run(vec![src("/d/a.7z"), src("/d/b.7z"), src("/d/c.7z")]);
    let first = e.jobs[0].package.clone();
    let third = e.jobs[2].package.clone();
    e.retain_jobs(&vec![true, false]);
    let left: Vec<String> = e.jobs.iter().map(|j| j.package.clone()).collect();
    assert_eq!(left, vec![first, third]);
}

#[test]
fn default_config_values() {
    let c = ExtractConfig::default();
    assert_eq!(c.token_hot_boundary, 30);
    assert_eq!(c.defer_operation, DeferOperation::DoNothing);
    assert_eq!(c.get_command_7z(), "7z");
    let mut d = c.clone();
    d.path_7z = Some("/opt/7zz".to_string());
    assert_eq!(d.get_command_7z(), "/opt/7zz");
}

#[test]
fn split_without_first_volume_is_dropped() {
    let e = run(vec![src("/d/X.part2.rar"), src("/d/X.part3.rar")]);
    assert!(e.jobs.is_empty());
    let legacy = run(vec![zip_src("/d/a.zip", &[0, 0, 0, 0]), src("/d/a.z02")]);
    assert!(legacy.jobs.is_empty());
}

#[test]
fn legacy_zip_and_first_volume_agree_in_either_order() {
    let legacy = || zip_src("/d/X.zip", &[0x00, 0x00, 0x00, 0x00]);
    for files in [vec![legacy(), src("/d/X.z01")], vec![src("/d/X.z01"), legacy()]] {
        let e = run(files);
        assert_eq!(e.jobs.len(), 1);
        assert_eq!(e.jobs[0].kind, ExtractJobKind::Split { volume: 1, legacy_zip_split: true });
        assert_eq!(e.jobs[0].path, "/d/X.z01");
        assert_eq!(e.jobs[0].companions, vec!["/d/X.zip".to_string()]);
    }
}

#[test]
fn carving_outcomes_decide_which_jobs_stay() {
    let mut e = run(vec![src("/d/a.7z"), src("/d/b.7z"), src("/d/c.7z"), src("/d/d.7z")]);
    let names: Vec<String> = e.jobs.iter().map(|j| j.package.clone()).collect();
    e.retain_carved(&vec![
        CarveOutcome::NotNeeded,
        CarveOutcome::Refused,
        CarveOutcome::Written,
        CarveOutcome::WriteFailed,
    ]);
    let left: Vec<String> = e.jobs.iter().map(|j| j.package.clone()).collect();
    assert_eq!(left, vec![names[0].clone(), names[2].clone()]);
}

#[test]
fn rar_parts_among_other_files_in_any_order() {
    let e = run(vec![
        src("/d/X.part3.rar"),
        src("/d/notes.txt"),
        src("/d/Y.part1.rar"),
        src("/d/X.part1.rar"),
        src("/e/X.part9.rar"),
        src("/d/X.part2.rar"),
    ]);
    let j = e
        .jobs
        .iter()
        .find(|j| j.package == "X" && j.path == "/d/X.part1.rar")
        .unwrap();
    assert_eq!(j.kind, ExtractJobKind::Split { volume: 3, legacy_zip_split: false });
    let mut companions = j.companions.clone();
    companions.sort();
    assert_eq!(companions, vec!["/d/X.part2.rar".to_string(), "/d/X.part3.rar".to_string()]);
    assert_eq!(e.jobs.len(), 3);
}
