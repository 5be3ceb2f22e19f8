use dfree::device::{is_eligible, is_hidden_mount};
use dfree::ignore::IgnoreList;
use dfree::normalize::normalize;
use dfree::report::{report_line, report_lines};
use dfree::select::{enumerate_query, minimum_query};
use dfree::{Device, SpaceError};

fn dev(device_type: &str, free: u64, mount_point: &str, fs_type: &str) -> Device {
    Device::new(
        device_type.to_string(),
        free,
        mount_point.to_string(),
        fs_type.to_string(),
    )
}

#[test]
fn duplicate_collapses_and_minimum_is_home() {
    let raw = vec![
        dev("local", 100, "/", "ext4"),
        dev("local", 50, "/home", "ext4"),
        dev("local", 50, "/home", "ext4"),
    ];
    let all = enumerate_query(&raw).unwrap();
    assert_eq!(all.len(), 2);
    let min = minimum_query(&raw, None).unwrap();
    assert_eq!(min.mount_point, "/home");
    assert_eq!(min.free, 50);
    assert_eq!(report_line(&min), "/home: 50 B");
}

#[test]
fn equal_free_space_breaks_tie_by_mount_point() {
    let raw = vec![dev("local", 10, "/", "ext4"), dev("local", 10, "/mnt", "ext4")];
    let min = minimum_query(&raw, None).unwrap();
    assert_eq!(min.mount_point, "/");
}

#[test]
fn pseudo_filesystem_is_excluded_from_minimum() {
    let raw = vec![dev("local", 10, "/", "ext4"), dev("local", 5, "/mnt", "tmpfs")];
    let min = minimum_query(&raw, None).unwrap();
    assert_eq!(min.mount_point, "/");
    assert_eq!(report_line(&min), "/: 10 B");
}

#[test]
fn excluding_the_only_candidate_fails() {
    let raw = vec![dev("local", 10, "/", "ext4")];
    let ignore = IgnoreList::parse("/");
    let r = minimum_query(&raw, Some(&ignore));
    assert!(matches!(r, Err(SpaceError::NoDevices)));
}

#[test]
fn network_only_input_fails_with_no_devices() {
    let raw = vec![dev("network", 10, "/mnt", "nfs")];
    assert!(matches!(minimum_query(&raw, None), Err(SpaceError::NoDevices)));
    assert!(matches!(enumerate_query(&raw), Err(SpaceError::NoDevices)));
}

#[test]
fn no_devices_message_is_distinct() {
    let e = SpaceError::NoDevices;
    assert_eq!(e.message(), "No devices found");
}

#[test]
fn decode_error_message_carries_raw_output() {
    let e = SpaceError::Decode {
        detail: "expected value at line 1 column 1".to_string(),
        stdout: "duf: unknown flag".to_string(),
        stderr: "usage: duf [...]".to_string(),
    };
    let msg = e.message();
    assert_eq!(
        msg,
        "expected value at line 1 column 1\nduf returned an error:\n\nstdout:\nduf: unknown flag\nstderr:\nusage: duf [...]"
    );
    assert!(msg.contains("duf: unknown flag"));
    assert!(msg.contains("usage: duf [...]"));
}

#[test]
fn source_invocation_message_names_the_source() {
    let e = SpaceError::SourceInvocation {
        detail: "No such file or directory".to_string(),
    };
    assert_eq!(e.message(), "Couldn't open duf: No such file or directory");
}

#[test]
fn normalizing_twice_equals_normalizing_once() {
    let raw = vec![
        dev("local", 100, "/", "ext4"),
        dev("local", 50, "/home", "ext4"),
        dev("local", 50, "/home", "ext4"),
        dev("network", 7, "/mnt/share", "nfs"),
    ];
    let once = normalize(&raw);
    let twice = normalize(&once);
    let mut a = enumerate_query(&once).unwrap();
    let mut b = enumerate_query(&twice).unwrap();
    assert_eq!(a.len(), 2);
    assert_eq!(b.len(), 2);
    for (x, y) in a.drain(..).zip(b.drain(..)) {
        assert_eq!(x.mount_point, y.mount_point);
        assert_eq!(x.free, y.free);
        assert_eq!(x.device_type, y.device_type);
        assert_eq!(x.fs_type, y.fs_type);
    }
}

#[test]
fn filter_excludes_every_ineligible_kind() {
    let raw = vec![
        dev("network", 10, "/net", "nfs"),
        dev("local", 10, "/ram", "ramfs"),
        dev("local", 10, "/tmp", "tmpfs"),
        dev("local", 10, "/auto", "autofs"),
        dev("local", 10, "/mnt/.hidden", "ext4"),
        dev("local", 10, "/", "ext4"),
    ];
    let all = enumerate_query(&raw).unwrap();
    assert_eq!(all.len(), 1);
    assert_eq!(all[0].mount_point, "/");
}

#[test]
fn eligibility_of_single_records() {
    assert!(is_eligible(&dev("local", 1, "/", "ext4")));
    assert!(!is_eligible(&dev("network", 1, "/", "ext4")));
    assert!(!is_eligible(&dev("local", 1, "/", "ramfs")));
    assert!(!is_eligible(&dev("local", 1, "/", "tmpfs")));
    assert!(!is_eligible(&dev("local", 1, "/", "autofs")));
    assert!(!is_eligible(&dev("local", 1, "/a/.b", "ext4")));
}

#[test]
fn hidden_mount_detection() {
    assert!(!is_hidden_mount("/"));
    assert!(is_hidden_mount("/.dotfile"));
    assert!(is_hidden_mount("/mnt/.snapshot"));
    assert!(!is_hidden_mount("/mnt/data"));
    assert!(is_hidden_mount(".relative"));
    assert!(!is_hidden_mount("relative"));
    assert!(!is_hidden_mount("/trailing/"));
}

#[test]
fn enumerate_order_is_independent_of_input_order() {
    let raw1 = vec![
        dev("local", 30, "/c", "ext4"),
        dev("local", 10, "/b", "ext4"),
        dev("local", 10, "/a", "ext4"),
    ];
    let raw2 = vec![
        dev("local", 10, "/a", "ext4"),
        dev("local", 30, "/c", "ext4"),
        dev("local", 10, "/b", "ext4"),
    ];
    let out1 = enumerate_query(&raw1).unwrap();
    let out2 = enumerate_query(&raw2).unwrap();
    assert_eq!(out1.len(), 3);
    assert_eq!(out2.len(), 3);
    for (x, y) in out1.iter().zip(out2.iter()) {
        assert_eq!(x.mount_point, y.mount_point);
        assert_eq!(x.free, y.free);
    }
    assert_eq!(out1[0].mount_point, "/a");
    assert_eq!(out1[1].mount_point, "/b");
    assert_eq!(out1[2].mount_point, "/c");
}

#[test]
fn minimum_is_no_larger_than_any_candidate() {
    let raw = vec![
        dev("local", 42, "/x", "ext4"),
        dev("local", 7, "/y", "ext4"),
        dev("local", 99, "/z", "ext4"),
    ];
    let min = minimum_query(&raw, None).unwrap();
    for d in normalize(&raw) {
        assert!(min.free <= d.free);
    }
    assert_eq!(min.mount_point, "/y");
}

#[test]
fn excluded_mounts_are_never_returned() {
    let raw = vec![
        dev("local", 1, "/a", "ext4"),
        dev("local", 2, "/b", "ext4"),
        dev("local", 3, "/c", "ext4"),
    ];
    let ignore = IgnoreList::parse("/a,/b");
    let min = minimum_query(&raw, Some(&ignore)).unwrap();
    assert_eq!(min.mount_point, "/c");
}

#[test]
fn ignore_list_parsing_is_literal() {
    let l = IgnoreList::parse("/a,/b");
    assert_eq!(l.entries, vec!["/a".to_string(), "/b".to_string()]);
    let l = IgnoreList::parse("");
    assert_eq!(l.entries, vec!["".to_string()]);
    let l = IgnoreList::parse("/,");
    assert_eq!(l.entries, vec!["/".to_string(), "".to_string()]);
    let l = IgnoreList::parse(" /a, /b ");
    assert_eq!(l.entries, vec![" /a".to_string(), " /b ".to_string()]);
    assert!(l.contains_mount(" /a"));
    assert!(!l.contains_mount("/a"));
}

#[test]
fn report_lines_follow_candidate_order_and_binary_units() {
    let devices = vec![
        dev("local", 512, "/small", "ext4"),
        dev("local", 1024, "/kib", "ext4"),
        dev("local", 1536, "/frac", "ext4"),
        dev("local", 1048576, "/mib", "ext4"),
    ];
    let lines = report_lines(&devices);
    assert_eq!(
        lines,
        vec![
            "/small: 512 B".to_string(),
            "/kib: 1 KiB".to_string(),
            "/frac: 1.50 KiB".to_string(),
            "/mib: 1 MiB".to_string(),
        ]
    );
}

#[test]
fn string_order_is_lexicographic() {
    assert!(dfree::strcmp::str_le("/a", "/b"));
    assert!(dfree::strcmp::str_le("/a", "/a"));
    assert!(!dfree::strcmp::str_le("/b", "/a"));
    assert!(dfree::strcmp::str_le("/a", "/ab"));
    assert!(!dfree::strcmp::str_le("/ab", "/a"));
    assert!(dfree::strcmp::str_eq("/a", "/a"));
    assert!(!dfree::strcmp::str_eq("/a", "/A"));
}
