use crypto_verity::detect::PackageManager;
use crypto_verity::metadata::{
    holds_checksums, lists_conffiles, load_conffiles, load_md5s, metadata_directory, LoadError,
    MetadataFile,
};

const OTHERS: [PackageManager; 6] = [
    PackageManager::Dnf,
    PackageManager::Eopkg,
    PackageManager::Nix,
    PackageManager::Pacman,
    PackageManager::Zypper,
    PackageManager::Unknown,
];

fn file(name: &str, contents: &str) -> MetadataFile {
    MetadataFile { name: name.to_string(), contents: contents.to_string() }
}

fn sum<'a>(table: &'a crypto_verity::table::ChecksumTable, path: &str) -> Option<&'a str> {
    table.get(path).map(|sum| sum.as_str())
}

#[test]
fn checksum_record_round_trip() {
    let files =
        vec![file("foo.md5sums", "d41d8cd98f00b204e9800998ecf8427e  /etc/foo.conf")];
    let table = load_md5s(PackageManager::Apt, &files).ok().unwrap();
    assert_eq!(sum(&table, "/etc/foo.conf"), Some("d41d8cd98f00b204e9800998ecf8427e"));
    assert_eq!(table.len(), 1);
}

#[test]
fn checksum_record_round_trip_with_a_final_line_feed() {
    let files =
        vec![file("foo.md5sums", "d41d8cd98f00b204e9800998ecf8427e  /etc/foo.conf\n")];
    let table = load_md5s(PackageManager::Apt, &files).ok().unwrap();
    assert_eq!(sum(&table, "/etc/foo.conf"), Some("d41d8cd98f00b204e9800998ecf8427e"));
    assert_eq!(table.len(), 1);
}

#[test]
fn checksums_of_several_files_share_one_table() {
    let files = vec![
        file("a.md5sums", "aa  /usr/bin/a\nab  /usr/share/a\n"),
        file("b.md5sums", "bb  /usr/bin/b\n"),
    ];
    let table = load_md5s(PackageManager::Apt, &files).ok().unwrap();
    assert_eq!(table.len(), 3);
    assert_eq!(sum(&table, "/usr/bin/a"), Some("aa"));
    assert_eq!(sum(&table, "/usr/share/a"), Some("ab"));
    assert_eq!(sum(&table, "/usr/bin/b"), Some("bb"));
    assert_eq!(sum(&table, "/usr/bin/c"), None);
}

#[test]
fn blank_lines_in_a_checksum_file_add_no_entries() {
    let files = vec![file("a.md5sums", "\n\naa  /usr/bin/a\n\n\nab  /usr/share/a\n\n")];
    let table = load_md5s(PackageManager::Apt, &files).ok().unwrap();
    assert_eq!(table.len(), 2);
    assert_eq!(sum(&table, "/usr/bin/a"), Some("aa"));
    assert_eq!(sum(&table, "/usr/share/a"), Some("ab"));
    assert_eq!(sum(&table, ""), None);
}

#[test]
fn blank_lines_in_a_manifest_add_no_entries() {
    let files = vec![file("a.conffiles", "\n/etc/a.conf\n\n\n/etc/a.d/b.conf\n\n")];
    assert_eq!(
        load_conffiles(PackageManager::Apt, &files),
        Ok(vec!["/etc/a.conf".to_string(), "/etc/a.d/b.conf".to_string()])
    );
}

#[test]
fn an_empty_checksum_file_gives_an_empty_table() {
    let files = vec![file("a.md5sums", ""), file("b.md5sums", "\n\n")];
    let table = load_md5s(PackageManager::Apt, &files).ok().unwrap();
    assert!(table.is_empty());
}

#[test]
fn no_files_give_empty_results() {
    assert!(load_md5s(PackageManager::Apt, &Vec::new()).ok().unwrap().is_empty());
    assert_eq!(load_conffiles(PackageManager::Apt, &Vec::new()), Ok(Vec::new()));
}

#[test]
fn a_later_file_overwrites_an_earlier_one() {
    let first = file("a.md5sums", "11111111111111111111111111111111  /etc/shared.conf\n");
    let second = file("b.md5sums", "22222222222222222222222222222222  /etc/shared.conf\n");
    let table =
        load_md5s(PackageManager::Apt, &vec![file("a.md5sums", &first.contents), file("b.md5sums", &second.contents)])
            .ok()
            .unwrap();
    assert_eq!(table.len(), 1);
    assert_eq!(sum(&table, "/etc/shared.conf"), Some("22222222222222222222222222222222"));
    let table = load_md5s(PackageManager::Apt, &vec![second, first]).ok().unwrap();
    assert_eq!(table.len(), 1);
    assert_eq!(sum(&table, "/etc/shared.conf"), Some("11111111111111111111111111111111"));
}

#[test]
fn a_later_line_overwrites_an_earlier_one() {
    let files = vec![file("a.md5sums", "old  /etc/a\nkeep  /etc/b\nnew  /etc/a\n")];
    let table = load_md5s(PackageManager::Apt, &files).ok().unwrap();
    assert_eq!(table.len(), 2);
    assert_eq!(sum(&table, "/etc/a"), Some("new"));
    assert_eq!(sum(&table, "/etc/b"), Some("keep"));
}

#[test]
fn only_checksum_files_are_read_for_checksums() {
    let files = vec![
        file("a.conffiles", "/etc/a.conf\n"),
        file("a.list", "not a record\n"),
        file("md5sums", "neither is this\n"),
        file("a.md5sums.bak", "nor this\n"),
        file("a.md5sums", "aa  /usr/bin/a\n"),
    ];
    let table = load_md5s(PackageManager::Apt, &files).ok().unwrap();
    assert_eq!(table.len(), 1);
    assert_eq!(sum(&table, "/usr/bin/a"), Some("aa"));
}

#[test]
fn only_manifests_are_read_for_configuration_files() {
    let files = vec![
        file("a.md5sums", "aa  /usr/bin/a\n"),
        file("conffiles", "/etc/none\n"),
        file("a.conffiles", "/etc/a.conf\n"),
        file("b.conffiles.dpkg-new", "/etc/pending\n"),
    ];
    assert_eq!(load_conffiles(PackageManager::Apt, &files), Ok(vec!["/etc/a.conf".to_string()]));
}

#[test]
fn configuration_files_come_in_file_then_line_order() {
    let files = vec![
        file("b.conffiles", "/etc/b1\n/etc/b2\n"),
        file("a.conffiles", "/etc/a1\n"),
        file("c.conffiles", "/etc/c1\n/etc/b1\n"),
    ];
    assert_eq!(
        load_conffiles(PackageManager::Apt, &files),
        Ok(vec![
            "/etc/b1".to_string(),
            "/etc/b2".to_string(),
            "/etc/a1".to_string(),
            "/etc/c1".to_string(),
            "/etc/b1".to_string(),
        ])
    );
}

#[test]
fn configuration_file_lines_are_kept_verbatim() {
    let files = vec![file("a.conffiles", "/etc/a b  c \n remove-on-upgrade /etc/d\n")];
    assert_eq!(
        load_conffiles(PackageManager::Apt, &files),
        Ok(vec!["/etc/a b  c ".to_string(), " remove-on-upgrade /etc/d".to_string()])
    );
}

#[test]
fn other_package_managers_are_unsupported_by_both_loaders() {
    let files = vec![file("a.md5sums", "aa  /usr/bin/a\n"), file("a.conffiles", "/etc/a\n")];
    for manager in OTHERS {
        assert_eq!(
            load_md5s(manager, &files).err(),
            Some(LoadError::UnsupportedPackageManager)
        );
        assert_eq!(load_conffiles(manager, &files), Err(LoadError::UnsupportedPackageManager));
    }
}

#[test]
fn unsupported_is_told_apart_from_nothing_to_report() {
    let files: Vec<MetadataFile> = Vec::new();
    assert!(load_md5s(PackageManager::Apt, &files).is_ok());
    assert!(load_conffiles(PackageManager::Apt, &files).is_ok());
    assert!(load_md5s(PackageManager::Unknown, &files).is_err());
    assert!(load_conffiles(PackageManager::Unknown, &files).is_err());
}

#[test]
fn unsupported_comes_before_malformed() {
    let files = vec![file("a.md5sums", "malformed\n")];
    assert_eq!(
        load_md5s(PackageManager::Pacman, &files).err(),
        Some(LoadError::UnsupportedPackageManager)
    );
}

#[test]
fn a_line_without_the_delimiter_is_malformed() {
    let files = vec![file("a.md5sums", "aa /usr/bin/a\n")];
    assert_eq!(
        load_md5s(PackageManager::Apt, &files).err(),
        Some(LoadError::MalformedRecord { file: 0, line: 0 })
    );
}

#[test]
fn a_line_of_three_fields_is_malformed() {
    let files = vec![file("a.md5sums", "aa  /usr/bin/a  extra\n")];
    assert_eq!(
        load_md5s(PackageManager::Apt, &files).err(),
        Some(LoadError::MalformedRecord { file: 0, line: 0 })
    );
}

#[test]
fn a_line_of_one_space_is_malformed() {
    let files = vec![file("a.md5sums", "aa  /usr/bin/a\n \n")];
    assert_eq!(
        load_md5s(PackageManager::Apt, &files).err(),
        Some(LoadError::MalformedRecord { file: 0, line: 1 })
    );
}

#[test]
fn the_first_malformed_line_is_named() {
    let files = vec![
        file("a.md5sums", "aa  /usr/bin/a\n"),
        file("notes.txt", "free text\n"),
        file("b.md5sums", "bb  /usr/bin/b\n\nbroken\nalso broken\n"),
        file("c.md5sums", "broken too\n"),
    ];
    assert_eq!(
        load_md5s(PackageManager::Apt, &files).err(),
        Some(LoadError::MalformedRecord { file: 2, line: 2 })
    );
}

#[test]
fn a_malformed_checksum_file_does_not_stop_the_manifests() {
    let files = vec![file("a.md5sums", "broken\n"), file("a.conffiles", "/etc/a\n")];
    assert!(load_md5s(PackageManager::Apt, &files).is_err());
    assert_eq!(load_conffiles(PackageManager::Apt, &files), Ok(vec!["/etc/a".to_string()]));
}

#[test]
fn holds_checksums_goes_by_the_end_of_the_name() {
    assert!(holds_checksums("apt.md5sums"));
    assert!(holds_checksums("libc6:amd64.md5sums"));
    assert!(holds_checksums(".md5sums"));
    assert!(!holds_checksums("md5sums"));
    assert!(!holds_checksums("apt.md5sums~"));
    assert!(!holds_checksums("apt.MD5SUMS"));
    assert!(!holds_checksums("apt.conffiles"));
    assert!(!holds_checksums(""));
}

#[test]
fn lists_conffiles_goes_by_the_end_of_the_name() {
    assert!(lists_conffiles("apt.conffiles"));
    assert!(lists_conffiles(".conffiles"));
    assert!(!lists_conffiles("conffiles"));
    assert!(!lists_conffiles("apt.conffiles.old"));
    assert!(!lists_conffiles("apt.md5sums"));
    assert!(!lists_conffiles(""));
}

#[test]
fn metadata_directory_is_known_for_apt_alone() {
    assert_eq!(metadata_directory(PackageManager::Apt), Some("/var/lib/dpkg/info"));
    for manager in OTHERS {
        assert_eq!(metadata_directory(manager), None);
    }
}
