use std::collections::HashMap;

use den::config::TierConfig;
use den::cpus::Cpus;
use den::docker::{
    collect_output, container_counters, container_ip, container_spec, counters, download_of,
    download_refused,
    exit_code_or_default, file_parts, managed_label, pack_upload, state_flag, unpack_download,
    upload_of, ArchiveError, Attachment, CpuSample, OutputFrame, StatsSample,
};

fn parts(path: &str) -> Option<(String, String)> {
    file_parts(path)
}

fn pair(a: &str, b: &str) -> Option<(String, String)> {
    Some((a.to_string(), b.to_string()))
}

#[test]
fn paths_fall_into_directory_and_name() {
    assert_eq!(parts("/home/sandbox/a.txt"), pair("/home/sandbox", "a.txt"));
    assert_eq!(parts("/a"), pair("/", "a"));
    assert_eq!(parts("a"), pair("", "a"));
    assert_eq!(parts("a/b/"), pair("a", "b"));
    assert_eq!(parts("a//b/./"), pair("a", "b"));
    assert_eq!(parts("/./a"), pair("/", "a"));
    assert_eq!(parts("./a"), pair(".", "a"));
    assert_eq!(parts("/a/../b"), pair("/a/..", "b"));
    assert_eq!(parts(""), None);
    assert_eq!(parts("/"), None);
    assert_eq!(parts("."), None);
    assert_eq!(parts("/a/.."), None);
}

#[test]
fn paths_fall_apart_as_std_has_it() {
    for path in [
        "/home/sandbox/x", "/home/sandbox", "x", "x/", "x/y", "x//y", "//x", "/", "", ".", "..",
        "./x", "x/.", "x/./", "x/..", "/..", "/.", "a/./b", "a/b/.", ".x", "x.", "x/.y", "/./.",
        "./.", "x/./.", "é/ü",
    ] {
        let p = std::path::Path::new(path);
        let expected = p.file_name().map(|n| {
            (
                p.parent().unwrap().to_str().unwrap().to_string(),
                n.to_str().unwrap().to_string(),
            )
        });
        assert_eq!(file_parts(path), expected, "{path}");
    }
}

#[test]
fn what_is_uploaded_can_be_downloaded() {
    let contents: Vec<Vec<u8>> = vec![
        vec![],
        b"print(\"hello\")".to_vec(),
        vec![0u8; 512],
        (0..2000u32).map(|i| (i % 251) as u8).collect(),
    ];
    let long = format!("/home/sandbox/{}", "n".repeat(250));
    for content in &contents {
        for path in ["/home/sandbox/script.py", "/home/sandbox/a b/ü.bin", long.as_str()] {
            let u = pack_upload(path, content).unwrap();
            assert_ne!(&u.archive, content);
            assert_eq!(&unpack_download(path, &u.archive).unwrap(), content);
        }
    }
    assert_eq!(pack_upload("/home/sandbox/a/b", &vec![1]).unwrap().dir, "/home/sandbox/a");
}

#[test]
fn an_upload_is_one_named_file_with_the_usual_permissions() {
    let u = pack_upload("/home/sandbox/dir/f.txt", &b"abc".to_vec()).unwrap();
    assert_eq!(u.dir, "/home/sandbox/dir");
    let mut archive = tar::Archive::new(u.archive.as_slice());
    let mut names = Vec::new();
    for entry in archive.entries().unwrap() {
        let entry = entry.unwrap();
        assert_eq!(entry.header().mode().unwrap(), 0o644);
        assert_eq!(entry.size(), 3);
        names.push(entry.path().unwrap().to_str().unwrap().to_string());
    }
    assert_eq!(names, vec!["f.txt".to_string()]);
}

#[test]
fn a_path_without_a_name_cannot_be_uploaded_to() {
    let e = pack_upload("/home/sandbox/..", &vec![]).unwrap_err();
    assert_eq!(e.message(), "invalid file path: /home/sandbox/..");
    // a name that no archive can hold
    let e = pack_upload("/home/sandbox/a\0b", &vec![]).unwrap_err();
    assert!(e.message().starts_with("tar append: "));
}

#[test]
fn archives_that_cannot_be_read() {
    let e = unpack_download("/x", &vec![]).unwrap_err();
    assert_eq!(e.message(), "file not found in archive: /x");
    let e = unpack_download("/x", &vec![1u8; 512]).unwrap_err();
    assert!(e.message().starts_with("tar entry: "));
}

#[test]
fn archive_failures_are_told_by_step() {
    let up = |e| upload_of("d".into(), Err(e)).unwrap_err().message();
    assert_eq!(up(ArchiveError::Append("x".into())), "tar append: x");
    assert_eq!(up(ArchiveError::Finish("x".into())), "tar finalize: x");
    let u = upload_of("d".into(), Ok(vec![7])).unwrap();
    assert_eq!((u.dir.as_str(), u.archive.as_slice()), ("d", &[7u8][..]));
    let down = |e| download_of("/p", Err(e)).unwrap_err().message();
    assert_eq!(down(ArchiveError::Read("x".into())), "tar read: x");
    assert_eq!(down(ArchiveError::Entry("x".into())), "tar entry: x");
    assert_eq!(download_of("/p", Ok(Some(vec![1, 2]))).unwrap(), vec![1, 2]);
    assert_eq!(
        download_of("/p", Ok(None)).unwrap_err().message(),
        "file not found in archive: /p"
    );
}

#[test]
fn a_missing_file_is_told_apart() {
    let e = download_refused(Some(404), "no such path", "/home/sandbox/x");
    assert_eq!(e.message(), "file not found: /home/sandbox/x");
    assert_eq!(e.status(), 404);
    let e = download_refused(Some(500), "broken", "/x");
    assert_eq!(e.message(), "docker: broken");
    assert_eq!(download_refused(None, "gone", "/x").status(), 500);
}

#[test]
fn output_is_collected_by_stream() {
    let frames = vec![
        OutputFrame::StdOut(b"one ".to_vec()),
        OutputFrame::StdErr(b"warn".to_vec()),
        OutputFrame::Other,
        OutputFrame::StdOut("zwei ü".as_bytes().to_vec()),
    ];
    let r = collect_output(&frames, Some(3));
    assert_eq!(r.stdout, "one zwei ü");
    assert_eq!(r.stderr, "warn");
    assert_eq!(r.exit_code, 3);
    let r = collect_output(&vec![], None);
    assert_eq!((r.stdout.as_str(), r.stderr.as_str(), r.exit_code), ("", "", -1));
}

#[test]
fn what_is_no_text_is_replaced() {
    let r = collect_output(&vec![OutputFrame::StdOut(vec![b'a', 0xFF, b'b'])], Some(0));
    assert_eq!(r.stdout, "a\u{FFFD}b");
}

#[test]
fn exit_codes_and_flags() {
    assert_eq!(exit_code_or_default(Some(137)), 137);
    assert_eq!(exit_code_or_default(None), -1);
    assert!(state_flag(Some(Some(true))));
    assert!(!state_flag(Some(Some(false))));
    assert!(!state_flag(Some(None)));
    assert!(!state_flag(None));
}

fn net(network: &str, ip: Option<&str>) -> Attachment {
    Attachment { network: network.into(), ip: ip.map(|s| s.to_string()) }
}

#[test]
fn the_address_in_the_wanted_network_is_used() {
    let nets = Some(vec![net("bridge", Some("172.17.0.2")), net("den-net", Some("172.18.0.9"))]);
    assert_eq!(container_ip("c", &nets, &None).unwrap(), "172.17.0.2");
    assert_eq!(container_ip("c", &nets, &Some("den-net".into())).unwrap(), "172.18.0.9");
    let e = container_ip("c", &nets, &Some("other".into())).unwrap_err();
    assert_eq!(e.message(), "proxy: no IP for container c");
}

#[test]
fn missing_addresses_are_errors() {
    let e = container_ip("c", &None, &None).unwrap_err();
    assert_eq!(e.message(), "proxy: no network settings for container c");
    for nets in [vec![], vec![net("b", None)], vec![net("b", Some(""))]] {
        let e = container_ip("c", &Some(nets), &None).unwrap_err();
        assert_eq!(e.message(), "proxy: no IP for container c");
    }
}

fn tier(memory_mb: u64) -> TierConfig {
    let mut tmpfs = HashMap::new();
    tmpfs.insert("/tmp".to_string(), "size=1m".to_string());
    TierConfig {
        image: "ubuntu:24.04".into(),
        memory_mb,
        cpus: Cpus { bits: 0.5f64.to_bits() },
        pids: 99,
        timeout_secs: 60,
        pool_size: 1,
        readonly_rootfs: true,
        tmpfs: Some(tmpfs),
        max_concurrent_execs: 4,
    }
}

#[test]
fn containers_are_locked_down() {
    let s = container_spec(
        &tier(256),
        500_000_000,
        "den-vol-1",
        &vec!["/data:/d:ro".into(), "/x:/y".into()],
        &Some("den-net".into()),
    );
    assert_eq!(s.image, "ubuntu:24.04");
    assert_eq!(s.memory, 256 * 1024 * 1024);
    assert_eq!(s.nano_cpus, 500_000_000);
    assert_eq!(s.pids_limit, 99);
    assert_eq!(s.cap_drop, vec!["ALL".to_string()]);
    assert_eq!(s.cap_add, vec!["NET_BIND_SERVICE".to_string()]);
    assert_eq!(s.security_opt, vec!["no-new-privileges:true".to_string()]);
    assert!(s.readonly_rootfs);
    assert_eq!(s.tmpfs.unwrap()["/tmp"], "size=1m");
    assert_eq!(s.network_mode.as_deref(), Some("den-net"));
    assert_eq!(
        s.binds,
        vec![
            "den-vol-1:/home/sandbox".to_string(),
            "/data:/d:ro".to_string(),
            "/x:/y".to_string()
        ]
    );
    assert_eq!(s.label, managed_label());
    assert_eq!(s.label.0, "den.managed");
    assert_eq!(s.label.1, "true");
}

#[test]
fn a_huge_memory_limit_reads_as_signed() {
    let s = container_spec(&tier(1 << 43), 1, "v", &vec![], &None);
    assert_eq!(s.memory, i64::MIN);
    assert_eq!(s.binds.len(), 1);
    assert!(s.network_mode.is_none());
}

#[test]
fn missing_statistics_count_as_nothing() {
    let r = counters(&StatsSample {
        memory_usage: Some(7),
        memory_limit: None,
        pids_current: Some(2),
        pids_limit: Some(9),
        cpu: Some(CpuSample { total_usage: Some(50), system_usage: None, online_cpus: None }),
        precpu: Some(CpuSample {
            total_usage: Some(40),
            system_usage: Some(4),
            online_cpus: Some(8),
        }),
    });
    assert_eq!((r.memory_usage_bytes, r.memory_limit_bytes), (7, 0));
    assert_eq!((r.pids_current, r.pids_limit), (2, 9));
    let c = r.cpu.unwrap();
    assert_eq!((c.usage, c.previous_usage), (50, 40));
    assert_eq!((c.system, c.previous_system), (0, 4));
    assert_eq!(c.online_cpus, 1);
    let r = counters(&StatsSample {
        memory_usage: None,
        memory_limit: None,
        pids_current: None,
        pids_limit: None,
        cpu: None,
        precpu: None,
    });
    assert!(r.cpu.is_none());
}

#[test]
fn no_statistics_are_an_error() {
    let e = container_counters("c1", &None).unwrap_err();
    assert_eq!(e.message(), "no stats returned for container c1");
    let sample = StatsSample {
        memory_usage: Some(7),
        memory_limit: Some(8),
        pids_current: None,
        pids_limit: None,
        cpu: None,
        precpu: None,
    };
    let r = container_counters("c1", &Some(sample)).unwrap();
    assert_eq!((r.memory_usage_bytes, r.memory_limit_bytes), (7, 8));
}
