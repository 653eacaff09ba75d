use fw2tar::archive::{ArchiveWalk, EntryAction, EntryKind};
use fw2tar::config::{
    all_extractor_names, check_firmware, check_outputs, is_known_extractor, parse_extractors,
    Fw2tarError, OutputCleanup,
};
use fw2tar::devices::{device_log_text, sorted_unique};
use fw2tar::digest::{hex_encode, sha1_hex};
use fw2tar::naming::archive_file_name;
use fw2tar::rootfs::{find_linux_filesystems, likeness_of, DirSummary};
use fw2tar::text::{split_list, str_less};
use fw2tar::args::Args;

fn strings(v: &[&str]) -> Vec<String> {
    v.iter().map(|s| s.to_string()).collect()
}

#[test]
fn hex_encoding_is_two_lower_digits_per_byte() {
    assert_eq!(hex_encode(&[0x00, 0xff, 0x1a, 0x09]), "00ff1a09");
    assert_eq!(hex_encode(&[]), "");
}

#[test]
fn sha1_hex_of_known_inputs() {
    assert_eq!(sha1_hex(b"abc"), "a9993e364706816aba3e25717850c26c9cd0d89d");
    assert_eq!(sha1_hex(b""), "da39a3ee5e6b4b0d3255bfef95601890afd80709");
}

#[test]
fn hashing_the_same_archive_twice_agrees() {
    let bytes: Vec<u8> = (0..5000u32).map(|i| (i % 251) as u8).collect();
    let first = sha1_hex(&bytes);
    let second = sha1_hex(&bytes.clone());
    assert_eq!(first, second);
    assert_eq!(first.len(), 40);
    let mut changed = bytes.clone();
    changed[17] ^= 1;
    assert_ne!(sha1_hex(&changed), first);
}

#[test]
fn archive_names_are_per_engine_and_index() {
    assert_eq!(archive_file_name("unblob", 0), "rootfs.unblob.0.tar.gz");
    assert_eq!(archive_file_name("binwalk", 12), "rootfs.binwalk.12.tar.gz");
    assert_eq!(archive_file_name("binwalkv3", 305), "rootfs.binwalkv3.305.tar.gz");
}

#[test]
fn engine_list_defaults_to_all_known() {
    assert_eq!(all_extractor_names(), strings(&["binwalk", "binwalkv3", "unblob"]));
    assert_eq!(parse_extractors(None).unwrap(), strings(&["binwalk", "binwalkv3", "unblob"]));
    assert!(is_known_extractor(&"unblob".to_string()));
    assert!(!is_known_extractor(&"unblob2".to_string()));
}

#[test]
fn engine_list_is_split_at_commas() {
    assert_eq!(parse_extractors(Some("unblob,binwalk")).unwrap(), strings(&["unblob", "binwalk"]));
    assert_eq!(split_list("a,,b"), strings(&["a", "", "b"]));
    assert_eq!(split_list(""), strings(&[""]));
    assert_eq!(split_list("x,"), strings(&["x", ""]));
}

#[test]
fn unknown_engine_is_a_configuration_error() {
    match parse_extractors(Some("unblob,foo,bar")) {
        Err(Fw2tarError::InvalidExtractor(n)) => assert_eq!(n, "foo"),
        other => panic!("unexpected {other:?}"),
    }
    match parse_extractors(Some("")) {
        Err(Fw2tarError::InvalidExtractor(n)) => assert_eq!(n, ""),
        other => panic!("unexpected {other:?}"),
    }
}

#[test]
fn firmware_must_be_a_regular_file() {
    let fw = "fw.bin".to_string();
    assert!(check_firmware(&fw, true, true).is_ok());
    assert!(matches!(check_firmware(&fw, false, true), Err(Fw2tarError::FirmwareNotAFile(ref p)) if p == "fw.bin"));
    assert!(matches!(check_firmware(&fw, false, false), Err(Fw2tarError::FirmwareDoesNotExist(ref p)) if p == "fw.bin"));
}

#[test]
fn earlier_outputs_need_force() {
    let a = "o/rootfs.tar.gz".to_string();
    let s = "o/xfs-extract".to_string();
    assert!(matches!(check_outputs(&a, &s, true, true, false), Err(Fw2tarError::OutputExists(ref p)) if p == "o/rootfs.tar.gz"));
    assert!(matches!(check_outputs(&a, &s, false, true, false), Err(Fw2tarError::OutputExists(ref p)) if p == "o/xfs-extract"));
    assert_eq!(
        check_outputs(&a, &s, false, false, false).unwrap(),
        OutputCleanup { remove_archive: false, remove_scratch: false }
    );
    assert_eq!(
        check_outputs(&a, &s, true, false, true).unwrap(),
        OutputCleanup { remove_archive: true, remove_scratch: false }
    );
    assert_eq!(
        check_outputs(&a, &s, true, true, true).unwrap(),
        OutputCleanup { remove_archive: true, remove_scratch: true }
    );
}

#[test]
fn default_args() {
    let a = Args::new("fw.bin".to_string());
    assert_eq!(a.primary_limit, 1);
    assert_eq!(a.secondary_limit, 0);
    assert_eq!(a.timeout, 20);
    assert!(a.output.is_none() && a.extractors.is_none() && !a.force);
}

#[test]
fn lexicographic_order() {
    assert!(str_less("a", "b"));
    assert!(str_less("/dev/a", "/dev/ab"));
    assert!(!str_less("/dev/ab", "/dev/a"));
    assert!(!str_less("same", "same"));
    assert!(str_less("", "x"));
    assert!(str_less("B", "a"));
}

#[test]
fn device_log_is_sorted_and_deduplicated() {
    let paths = strings(&["/dev/tty1", "/dev/null", "/dev/tty1", "/dev/console"]);
    assert_eq!(sorted_unique(&paths), strings(&["/dev/console", "/dev/null", "/dev/tty1"]));
    assert_eq!(device_log_text(&paths).unwrap(), "/dev/console\n/dev/null\n/dev/tty1");
    assert_eq!(device_log_text(&strings(&["/dev/x"])).unwrap(), "/dev/x");
    assert_eq!(device_log_text(&Vec::new()), None);
}

fn dir(path: &str, depth: usize, subdirs: &[&str], files: usize) -> DirSummary {
    DirSummary { path: path.to_string(), depth, subdirs: strings(subdirs), size: 100 * files as u64, num_files: files }
}

fn tree() -> Vec<DirSummary> {
    vec![
        dir("/x", 0, &["squashfs-root", "noise"], 300),
        dir("/x/noise", 1, &["bin"], 2),
        dir("/x/squashfs-root", 1, &["bin", "etc", "lib", "usr", "var", "opt"], 250),
        dir("/x/squashfs-root/opt/recovery", 3, &["bin", "etc", "sbin"], 20),
        dir("/x/other", 1, &["bin", "etc", "lib", "usr", "var"], 250),
    ]
}

#[test]
fn likeness_counts_canonical_directories() {
    assert_eq!(likeness_of(&strings(&["bin", "etc", "lib", "usr", "var", "opt"])), 5);
    assert_eq!(likeness_of(&strings(&["bin", "bin"])), 1);
    assert_eq!(likeness_of(&strings(&[])), 0);
}

#[test]
fn rootfs_candidates_are_ranked() {
    let found = find_linux_filesystems(&tree());
    let paths: Vec<&str> = found.iter().map(|c| c.path.as_str()).collect();
    assert_eq!(paths, vec!["/x/other", "/x/squashfs-root", "/x/squashfs-root/opt/recovery"]);
    assert_eq!(found[0].score, 5);
    assert_eq!(found[2].score, 3);
    assert_eq!(found[2].num_files, 20);
}

#[test]
fn rootfs_identification_is_idempotent_and_order_blind() {
    let first = find_linux_filesystems(&tree());
    let second = find_linux_filesystems(&tree());
    let mut reversed = tree();
    reversed.reverse();
    let third = find_linux_filesystems(&reversed);
    let key = |v: &Vec<fw2tar::rootfs::RootfsCandidate>| -> Vec<String> { v.iter().map(|c| c.path.clone()).collect() };
    assert_eq!(key(&first), key(&second));
    assert_eq!(key(&first), key(&third));
}

#[test]
fn flat_tree_has_no_candidates() {
    assert!(find_linux_filesystems(&vec![dir("/x", 0, &[], 12)]).is_empty());
    assert!(find_linux_filesystems(&Vec::new()).is_empty());
}

#[test]
fn archive_walk_omits_devices_and_stops_at_cycles() {
    let mut walk = ArchiveWalk::new();
    assert_eq!(walk.visit(EntryKind::Directory, (1, 2), "/".to_string()), EntryAction::AppendAndDescend);
    assert_eq!(walk.visit(EntryKind::Regular, (1, 3), "/etc/passwd".to_string()), EntryAction::Append);
    assert_eq!(walk.visit(EntryKind::Symlink, (1, 4), "/a".to_string()), EntryAction::Append);
    assert_eq!(walk.visit(EntryKind::Symlink, (1, 5), "/b".to_string()), EntryAction::Append);
    assert_eq!(walk.visit(EntryKind::CharDevice, (1, 6), "/dev/null".to_string()), EntryAction::OmitDevice);
    assert_eq!(walk.visit(EntryKind::BlockDevice, (1, 7), "/dev/sda".to_string()), EntryAction::OmitDevice);
    assert_eq!(walk.visit(EntryKind::Fifo, (1, 8), "/run/fifo".to_string()), EntryAction::OmitDevice);
    assert_eq!(walk.visit(EntryKind::Directory, (1, 2), "/loop".to_string()), EntryAction::SkipCycle);
    assert_eq!(walk.nodes, 4);
    assert_eq!(walk.removed_devices, strings(&["/dev/null", "/dev/sda", "/run/fifo"]));
}
