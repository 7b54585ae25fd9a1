use den::error::DenError;
use den::sandbox::SandboxState;

#[test]
fn every_error_has_its_status_and_text() {
    let cases: Vec<(DenError, u16, &str)> = vec![
        (DenError::Docker("boom".into()), 500, "docker: boom"),
        (
            DenError::FileNotFound { path: "/home/sandbox/x".into() },
            404,
            "file not found: /home/sandbox/x",
        ),
        (DenError::SandboxNotFound { id: "a-1".into() }, 404, "sandbox a-1 not found"),
        (
            DenError::InvalidState {
                id: "a-1".into(),
                current: SandboxState::Running,
                operation: "resume (already running)".into(),
            },
            409,
            "sandbox a-1 in state Running, cannot resume (already running)",
        ),
        (
            DenError::PoolExhausted { tier: "t".into() },
            503,
            "no sandboxes available for tier t",
        ),
        (
            DenError::InsufficientResources { reason: "full".into() },
            503,
            "insufficient resources: full",
        ),
        (DenError::TierNotFound { tier: "t".into() }, 404, "tier t not found"),
        (
            DenError::TooManyExecs { id: "a-1".into(), limit: 4 },
            429,
            "sandbox a-1 has reached its limit of concurrent execs: 4",
        ),
        (DenError::Timeout { seconds: 300 }, 504, "timeout after 300s"),
        (DenError::Timeout { seconds: u64::MAX }, 504, "timeout after 18446744073709551615s"),
        (DenError::Proxy("no".into()), 500, "proxy: no"),
        (DenError::Config("bad".into()), 500, "config: bad"),
        (DenError::Other("anything".into()), 500, "anything"),
    ];
    for (e, status, text) in cases {
        assert_eq!(e.status(), status);
        assert_eq!(e.message(), text);
    }
}
