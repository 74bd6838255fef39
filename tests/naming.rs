use lemmekk::{parse_volume_name, VolumeName};

fn volume(package: &str, volume: usize) -> VolumeName {
    VolumeName::Volume { package: package.to_string(), volume }
}

#[test]
fn rar_part_names_give_package_and_volume() {
    assert_eq!(parse_volume_name("X.part1.rar"), volume("X", 1));
    assert_eq!(parse_volume_name("X.part12.rar"), volume("X", 12));
    assert_eq!(parse_volume_name("my.file.part003.exe"), volume("my.file", 3));
}

#[test]
fn rar_part_names_ignore_case() {
    assert_eq!(parse_volume_name("Pack.PART2.RAR"), volume("Pack", 2));
    assert_eq!(parse_volume_name("Pack.Part7.Exe"), volume("Pack", 7));
}

#[test]
fn numbered_names_need_three_digits() {
    assert_eq!(parse_volume_name("a.7z.001"), volume("a", 1));
    assert_eq!(parse_volume_name("a.ZIP.0010"), volume("a", 10));
    assert_eq!(parse_volume_name("b.tar.123"), volume("b", 123));
    assert_eq!(parse_volume_name("a.7z.01"), VolumeName::Plain);
}

#[test]
fn zip_split_names_need_two_digits() {
    assert_eq!(parse_volume_name("a.z01"), volume("a", 1));
    assert_eq!(parse_volume_name("a.Z105"), volume("a", 105));
    assert_eq!(parse_volume_name("a.z1"), VolumeName::Plain);
}

#[test]
fn ordinary_names_are_plain() {
    assert_eq!(parse_volume_name("report.txt"), VolumeName::Plain);
    assert_eq!(parse_volume_name("a.zip"), VolumeName::Plain);
    assert_eq!(parse_volume_name("a.part.rar"), VolumeName::Plain);
    assert_eq!(parse_volume_name("a.partx1.rar"), VolumeName::Plain);
    assert_eq!(parse_volume_name(""), VolumeName::Plain);
}

#[test]
fn package_may_hold_the_pattern_itself() {
    assert_eq!(parse_volume_name("a.part2.part3.rar"), volume("a.part2", 3));
    assert_eq!(parse_volume_name("日本.part1.rar"), volume("日本", 1));
}

#[test]
fn volume_number_too_large_is_unparsable() {
    assert_eq!(parse_volume_name("a.part99999999999999999999999.rar"), VolumeName::Unparsable);
    assert_eq!(parse_volume_name("a.7z.99999999999999999999999"), VolumeName::Unparsable);
}
