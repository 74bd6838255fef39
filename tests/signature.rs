use lemmekk::{scan_cover, CoverScan, ExtractJob, ExtractJobKind, StegoError};

fn png_with_zip(filler: usize) -> Vec<u8> {
    let mut buf = vec![0x89, 0x50, 0x4E, 0x47];
    buf.extend(std::iter::repeat(0x11u8).take(filler));
    buf.extend([0xAE, 0x42, 0x60, 0x82]);
    buf.extend([0x50, 0x4B, 0x03, 0x04]);
    buf.extend([0x00, 0x01, 0x02]);
    buf
}

fn normal_job(path: &str) -> ExtractJob {
    ExtractJob {
        package: "p".to_string(),
        kind: ExtractJobKind::Normal,
        path: path.to_string(),
        token: String::new(),
        companions: vec![],
    }
}

#[test]
fn png_followed_by_zip_gives_offset_after_trailer() {
    let buf = png_with_zip(6);
    let found = scan_cover(&buf).unwrap().unwrap();
    assert_eq!(
        found,
        CoverScan { cover: 1, trailer_end: 14, archive: 0, archive_start: 14 }
    );
    let job = normal_job("/d/pic.png");
    assert_eq!(job.find_target_file_offset(&buf), Ok(Some(14)));
}

#[test]
fn archive_further_behind_trailer_keeps_trailer_end() {
    let mut buf = vec![0xFF, 0xD8, 0xFF, 0x00, 0xFF, 0xD9, 0x00, 0x00];
    buf.extend([0x37, 0x7A, 0xBC, 0xAF, 0x27, 0x1C]);
    let found = scan_cover(&buf).unwrap().unwrap();
    assert_eq!(found.cover, 0);
    assert_eq!(found.trailer_end, 6);
    assert_eq!(found.archive, 3);
    assert_eq!(found.archive_start, 8);
}

#[test]
fn gif_covers_are_recognised() {
    let buf = vec![0x47, 0x49, 0x46, 0x38, 0x37, 0x61, 0x00, 0x3B, 0x1F, 0x8B];
    let found = scan_cover(&buf).unwrap().unwrap();
    assert_eq!(found.cover, 3);
    assert_eq!(found.trailer_end, 8);
    assert_eq!(found.archive, 7);
}

#[test]
fn no_cover_header_is_not_steganographic() {
    let buf = vec![0x50, 0x4B, 0x03, 0x04, 0x00];
    assert_eq!(scan_cover(&buf), Ok(None));
    assert_eq!(scan_cover(&vec![]), Ok(None));
    assert_eq!(normal_job("/d/a.zip").find_target_file_offset(&buf), Ok(None));
}

#[test]
fn cover_without_trailer_fails() {
    let buf = vec![0x89, 0x50, 0x4E, 0x47, 0x00, 0x00, 0x50, 0x4B, 0x03, 0x04];
    assert_eq!(scan_cover(&buf), Err(StegoError::MissingTrailer));
}

#[test]
fn cover_without_archive_after_trailer_fails() {
    let mut buf = png_with_zip(2);
    buf.truncate(10);
    assert_eq!(scan_cover(&buf), Err(StegoError::MissingArchive));
}

#[test]
fn archive_before_trailer_does_not_count() {
    let buf = vec![0x89, 0x50, 0x4E, 0x47, 0x50, 0x4B, 0x03, 0x04, 0xAE, 0x42, 0x60, 0x82];
    assert_eq!(scan_cover(&buf), Err(StegoError::MissingArchive));
}

#[test]
fn stego_job_keeps_its_offset() {
    let mut job = normal_job("/d/pic.png");
    job.kind = ExtractJobKind::Stego(42);
    assert_eq!(job.find_target_file_offset(&vec![]), Ok(Some(42)));
}
