use codex_status::hooks::{
    is_reserved_identity_env_var, HookError, HookResponse, HookResult, HookSessionIdentity,
};
use codex_status::ids::{SessionId, ThreadId, ThreadToken};

fn pair(name: &str, value: &str) -> (String, String) {
    (name.to_string(), value.to_string())
}

#[test]
fn only_failed_abort_aborts() {
    let error = || HookError { message: "boom".to_string() };
    assert!(!HookResult::Success.should_abort_operation());
    assert!(!HookResult::FailedContinue(error()).should_abort_operation());
    assert!(HookResult::FailedAbort(error()).should_abort_operation());
    let response = HookResponse { hook_name: "notify".to_string(), result: HookResult::FailedAbort(error()) };
    assert!(response.result.should_abort_operation());
}

#[test]
fn thread_ids_render_as_hyphenated_uuids() {
    let id = ThreadId::from_u128(0x0123_4567_89ab_cdef_0123_4567_89ab_cdef);
    assert_eq!(id.to_string(), "01234567-89ab-cdef-0123-456789abcdef");
    assert_eq!(ThreadId::from_u128(0).to_string(), "00000000-0000-0000-0000-000000000000");
    assert_eq!(
        SessionId::from_thread_id(ThreadId::from_u128(u128::MAX)).to_string(),
        "ffffffff-ffff-ffff-ffff-ffffffffffff"
    );
}

#[test]
fn root_identity_exports_no_parent() {
    let thread = ThreadId::from_u128(0xa);
    let identity = HookSessionIdentity::root(thread, ThreadToken::new("SECRET-REDACTED".to_string()));
    assert_eq!(identity.session_id.uuid, 0xa);
    assert_eq!(
        identity.reserved_environment(),
        vec![
            pair("CODEX_THREAD_ID", "00000000-0000-0000-0000-00000000000a"),
            pair("CODEX_SESSION_ID", "00000000-0000-0000-0000-00000000000a"),
            pair("CODEX_THREAD_TOKEN", "SECRET-REDACTED"),
        ]
    );
}

#[test]
fn child_identity_exports_its_parent() {
    let identity = HookSessionIdentity {
        thread_id: ThreadId::from_u128(2),
        parent_thread_id: Some(ThreadId::from_u128(1)),
        session_id: SessionId { uuid: 1 },
        thread_token: ThreadToken::new("t".to_string()),
    };
    assert_eq!(
        identity.reserved_environment(),
        vec![
            pair("CODEX_THREAD_ID", "00000000-0000-0000-0000-000000000002"),
            pair("CODEX_PARENT_THREAD_ID", "00000000-0000-0000-0000-000000000001"),
            pair("CODEX_SESSION_ID", "00000000-0000-0000-0000-000000000001"),
            pair("CODEX_THREAD_TOKEN", "t"),
        ]
    );
}

#[test]
fn applying_identity_replaces_spoofed_values_and_is_idempotent() {
    let identity = HookSessionIdentity::root(ThreadId::from_u128(5), ThreadToken::new("tok".to_string()));
    let mut environment = vec![
        pair("PATH", "/bin"),
        pair("CODEX_THREAD_ID", "spoofed"),
        pair("CODEX_PARENT_THREAD_ID", "stale"),
        pair("HOME", "/root"),
        pair("CODEX_THREAD_TOKEN", "stolen"),
    ];
    identity.apply_to_environment(&mut environment, false);
    let expected = vec![
        pair("PATH", "/bin"),
        pair("HOME", "/root"),
        pair("CODEX_THREAD_ID", "00000000-0000-0000-0000-000000000005"),
        pair("CODEX_SESSION_ID", "00000000-0000-0000-0000-000000000005"),
        pair("CODEX_THREAD_TOKEN", "tok"),
    ];
    assert_eq!(environment, expected);
    identity.apply_to_environment(&mut environment, false);
    assert_eq!(environment, expected);
}

#[test]
fn reserved_names_match_exactly() {
    assert!(is_reserved_identity_env_var("CODEX_THREAD_ID", false));
    assert!(is_reserved_identity_env_var("CODEX_PARENT_THREAD_ID", false));
    assert!(is_reserved_identity_env_var("CODEX_SESSION_ID", false));
    assert!(is_reserved_identity_env_var("CODEX_THREAD_TOKEN", false));
    assert!(!is_reserved_identity_env_var("codex_thread_id", false));
    assert!(!is_reserved_identity_env_var("CODEX_THREAD_ID ", false));
    assert!(!is_reserved_identity_env_var("", false));
}

#[test]
fn reserved_names_ignoring_ascii_case() {
    assert!(is_reserved_identity_env_var("codex_thread_id", true));
    assert!(is_reserved_identity_env_var("Codex_Parent_Thread_Id", true));
    assert!(is_reserved_identity_env_var("CODEX_SESSION_ID", true));
    assert!(is_reserved_identity_env_var("codex_thread_TOKEN", true));
    assert!(!is_reserved_identity_env_var("codex_thread_id ", true));
    assert!(!is_reserved_identity_env_var("codex_thread_ıd", true));
    assert!(!is_reserved_identity_env_var("CODEX_THREAD", true));
    assert!(!is_reserved_identity_env_var("", true));
}

#[test]
fn applying_identity_ignoring_case_removes_lower_case_spoofs() {
    let identity = HookSessionIdentity::root(ThreadId::from_u128(5), ThreadToken::new("tok".to_string()));
    let mut environment = vec![
        pair("codex_thread_id", "spoofed"),
        pair("Path", "C:\\bin"),
        pair("codex_parent_thread_id", "stale"),
    ];
    let mut exact = environment.clone();
    identity.apply_to_environment(&mut environment, true);
    assert_eq!(
        environment,
        vec![
            pair("Path", "C:\\bin"),
            pair("CODEX_THREAD_ID", "00000000-0000-0000-0000-000000000005"),
            pair("CODEX_SESSION_ID", "00000000-0000-0000-0000-000000000005"),
            pair("CODEX_THREAD_TOKEN", "tok"),
        ]
    );
    identity.apply_to_environment(&mut exact, false);
    assert_eq!(exact.len(), 6);
    assert_eq!(exact[0], pair("codex_thread_id", "spoofed"));
}
