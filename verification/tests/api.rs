use den::api::{
    exec_outcome, exec_response, exec_timeout, guess_mime, health, oom_verdict,
    sanitize_file_path, validate_bind_mount, validate_bind_mounts, wants_oom_check,
};
use den::docker::ExecResult;
use den::error::DenError;

// --- sanitize_file_path ---

#[test]
fn sanitize_simple_path() {
    assert_eq!(
        sanitize_file_path("main.py").unwrap(),
        "/home/sandbox/main.py"
    );
}

#[test]
fn sanitize_nested_path() {
    assert_eq!(
        sanitize_file_path("src/lib/utils.ts").unwrap(),
        "/home/sandbox/src/lib/utils.ts"
    );
}

#[test]
fn sanitize_strips_leading_slash() {
    assert_eq!(
        sanitize_file_path("/readme.md").unwrap(),
        "/home/sandbox/readme.md"
    );
}

#[test]
fn sanitize_blocks_traversal_to_root() {
    assert!(sanitize_file_path("../../etc/passwd").is_err());
}

#[test]
fn sanitize_blocks_traversal_above_sandbox() {
    assert!(sanitize_file_path("../../../etc/shadow").is_err());
}

#[test]
fn sanitize_allows_dot_dot_within_sandbox() {
    // Going up then back down within /home/sandbox is fine
    assert_eq!(
        sanitize_file_path("a/b/../c.txt").unwrap(),
        "/home/sandbox/a/c.txt"
    );
}

#[test]
fn sanitize_blocks_dot_dot_escaping_sandbox() {
    // a/../../ would go to /home which is above /home/sandbox
    assert!(sanitize_file_path("a/../../secret").is_err());
}

#[test]
fn sanitize_rejects_empty_path() {
    assert!(sanitize_file_path("").is_err());
    assert!(sanitize_file_path("/").is_err());
}

#[test]
fn sanitize_ignores_current_dir() {
    assert_eq!(
        sanitize_file_path("./file.txt").unwrap(),
        "/home/sandbox/file.txt"
    );
}

#[test]
fn sanitize_deeply_nested() {
    assert_eq!(
        sanitize_file_path("a/b/c/d/e/f.txt").unwrap(),
        "/home/sandbox/a/b/c/d/e/f.txt"
    );
}

#[test]
fn sanitize_edges() {
    assert_eq!(sanitize_file_path("a/..").unwrap(), "/home/sandbox");
    assert_eq!(sanitize_file_path(".").unwrap(), "/home/sandbox");
    assert_eq!(sanitize_file_path("//a///b//").unwrap(), "/home/sandbox/a/b");
    assert_eq!(sanitize_file_path("a/./b/.").unwrap(), "/home/sandbox/a/b");
    assert_eq!(sanitize_file_path(".hidden").unwrap(), "/home/sandbox/.hidden");
    assert_eq!(sanitize_file_path("...").unwrap(), "/home/sandbox/...");
    assert_eq!(sanitize_file_path("é/ü").unwrap(), "/home/sandbox/é/ü");
    // a sibling whose name only begins like the home is out of reach
    assert!(sanitize_file_path("../sandbox2/x").is_err());
}

#[test]
fn sanitize_errors_have_messages() {
    assert_eq!(sanitize_file_path("///").unwrap_err().message(), "empty file path");
    assert_eq!(sanitize_file_path("..").unwrap_err().message(), "path traversal blocked");
    assert_eq!(sanitize_file_path("..").unwrap_err().status(), 500);
}

// --- validate_bind_mount ---

#[test]
fn bind_valid_rw() {
    assert!(validate_bind_mount("/host/project:/workspace:rw").is_ok());
}

#[test]
fn bind_valid_no_mode() {
    assert!(validate_bind_mount("/host/project:/workspace").is_ok());
}

#[test]
fn bind_valid_ro() {
    assert!(validate_bind_mount("/data/models:/models:ro").is_ok());
}

#[test]
fn bind_rejects_relative_host() {
    assert!(validate_bind_mount("relative/path:/workspace").is_err());
}

#[test]
fn bind_rejects_relative_container() {
    assert!(validate_bind_mount("/host:relative").is_err());
}

#[test]
fn bind_rejects_docker_socket() {
    assert!(validate_bind_mount("/var/run/docker.sock:/docker.sock").is_err());
}

#[test]
fn bind_rejects_proc() {
    assert!(validate_bind_mount("/proc:/proc:ro").is_err());
}

#[test]
fn bind_rejects_etc() {
    assert!(validate_bind_mount("/etc/passwd:/etc/passwd:ro").is_err());
}

#[test]
fn bind_rejects_home_sandbox_target() {
    assert!(validate_bind_mount("/host:/home/sandbox").is_err());
}

#[test]
fn bind_rejects_bad_mode() {
    assert!(validate_bind_mount("/host:/container:exec").is_err());
}

#[test]
fn bind_rejects_no_colon() {
    assert!(validate_bind_mount("/just/a/path").is_err());
}

#[test]
fn bind_faults_have_messages() {
    let m = |s: &str| validate_bind_mount(s).unwrap_err().message();
    assert_eq!(
        m("x"),
        "invalid bind mount format (expected host:container[:mode]): x"
    );
    assert_eq!(m("a:/b"), "bind mount paths must be absolute: a:/b");
    assert_eq!(
        m("/a:/home/sandbox:ro"),
        "bind mount cannot target /home/sandbox (reserved for volume): /a:/home/sandbox:ro"
    );
    assert_eq!(
        m("/sys/fs:/x"),
        "bind mount host path blocked (/sys): /sys/fs:/x"
    );
    assert_eq!(m("/dev:/x"), "bind mount host path blocked (/dev): /dev:/x");
    assert_eq!(m("/root:/x"), "bind mount host path blocked (/root): /root:/x");
    assert_eq!(m("/a:/b:"), "bind mount mode must be 'ro' or 'rw': /a:/b:");
    assert_eq!(
        m("/a:/b:ro:z"),
        "bind mount mode must be 'ro' or 'rw': /a:/b:ro:z"
    );
}

#[test]
fn the_first_faulty_mount_is_reported() {
    assert!(validate_bind_mounts(&vec![]).is_ok());
    assert!(validate_bind_mounts(&vec!["/a:/b".into(), "/c:/d:ro".into()]).is_ok());
    let e = validate_bind_mounts(&vec!["/a:/b".into(), "/proc:/p".into(), "x".into()]);
    assert_eq!(
        e.unwrap_err().message(),
        "bind mount host path blocked (/proc): /proc:/p"
    );
}

// --- guess_mime ---

#[test]
fn mime_text_files() {
    assert_eq!(guess_mime("file.txt"), "text/plain; charset=utf-8");
    assert_eq!(guess_mime("file.md"), "text/plain; charset=utf-8");
    assert_eq!(guess_mime("file.py"), "text/plain; charset=utf-8");
    assert_eq!(guess_mime("file.rs"), "text/plain; charset=utf-8");
}

#[test]
fn mime_json() {
    assert_eq!(guess_mime("data.json"), "application/json");
}

#[test]
fn mime_images() {
    assert_eq!(guess_mime("photo.png"), "image/png");
    assert_eq!(guess_mime("photo.jpg"), "image/jpeg");
    assert_eq!(guess_mime("photo.jpeg"), "image/jpeg");
}

#[test]
fn mime_unknown_defaults_to_octet_stream() {
    assert_eq!(guess_mime("file.bin"), "application/octet-stream");
    assert_eq!(guess_mime("noext"), "application/octet-stream");
}

#[test]
fn mime_pdf() {
    assert_eq!(guess_mime("doc.pdf"), "application/pdf");
}

#[test]
fn mime_goes_by_the_last_dot() {
    assert_eq!(guess_mime("a.json.txt"), "text/plain; charset=utf-8");
    assert_eq!(guess_mime("json"), "application/json");
    assert_eq!(guess_mime("a."), "application/octet-stream");
    assert_eq!(guess_mime("a.JSON"), "application/octet-stream");
    for (path, mime) in [
        ("a.log", "text/plain; charset=utf-8"),
        ("a.csv", "text/plain; charset=utf-8"),
        ("a.html", "text/html"),
        ("a.htm", "text/html"),
        ("a.js", "text/javascript"),
        ("a.mjs", "text/javascript"),
        ("a.css", "text/css"),
        ("a.xml", "application/xml"),
        ("a.gif", "image/gif"),
        ("a.svg", "image/svg+xml"),
        ("a.yml", "text/plain; charset=utf-8"),
        ("a.toml", "text/plain; charset=utf-8"),
    ] {
        assert_eq!(guess_mime(path), mime);
    }
}

// --- commands ---

#[test]
fn exec_timeout_is_capped() {
    assert_eq!(exec_timeout(None), 30);
    assert_eq!(exec_timeout(Some(5)), 5);
    assert_eq!(exec_timeout(Some(0)), 0);
    assert_eq!(exec_timeout(Some(300)), 300);
    assert_eq!(exec_timeout(Some(301)), 300);
    assert_eq!(exec_timeout(Some(u64::MAX)), 300);
}

fn ended(exit_code: i64) -> ExecResult {
    ExecResult { stdout: "out".into(), stderr: "err".into(), exit_code }
}

#[test]
fn a_command_that_takes_too_long_times_out() {
    let e = exec_outcome(30, None).unwrap_err();
    assert_eq!(e.message(), "timeout after 30s");
    assert_eq!(e.status(), 504);
    assert_eq!(exec_outcome(30, Some(Ok(ended(3)))).unwrap().exit_code, 3);
    let e = exec_outcome(30, Some(Err(DenError::Docker("gone".into())))).unwrap_err();
    assert_eq!(e.message(), "docker: gone");
}

#[test]
fn memory_is_blamed_only_for_killed_commands() {
    assert!(wants_oom_check(137));
    assert!(!wants_oom_check(0));
    assert!(!wants_oom_check(-1));
    assert!(oom_verdict(137, Some(Ok(true))));
    assert!(!oom_verdict(137, Some(Ok(false))));
    assert!(!oom_verdict(137, Some(Err(DenError::Docker("x".into())))));
    assert!(!oom_verdict(137, None));
    assert!(!oom_verdict(1, Some(Ok(true))));
    let r = exec_response(ended(137), Some(Ok(true)));
    assert_eq!((r.stdout.as_str(), r.stderr.as_str()), ("out", "err"));
    assert_eq!(r.exit_code, 137);
    assert!(r.oom_killed);
    assert!(!exec_response(ended(0), None).oom_killed);
}

#[test]
fn health_follows_docker() {
    assert_eq!(health(Some(Ok(()))).unwrap(), "ok");
    assert_eq!(health(None).unwrap_err().message(), "docker ping timeout");
    let e = health(Some(Err(DenError::Docker("down".into())))).unwrap_err();
    assert_eq!(e.message(), "docker: down");
}
