use agentsview_desktop::env_file::parse_desktop_env_content;
use agentsview_desktop::env_file::resolve_home_dir_from_lookup;
use agentsview_desktop::env_merge::build_sidecar_env;
use agentsview_desktop::env_merge::normalize_env_key;
use agentsview_desktop::login_shell::parse_nul_env;
use agentsview_desktop::login_shell::select_login_shell;
use agentsview_desktop::login_shell::should_probe_login_shell;

fn lookup(pairs: &[(Vec<u8>, Vec<u8>)], key: &[u8]) -> Option<Vec<u8>> {
    pairs
        .iter()
        .find(|(k, _)| k.as_slice() == key)
        .map(|(_, v)| v.clone())
}

#[test]
fn should_probe_login_shell_skips_windows_or_explicit_skip() {
    assert!(should_probe_login_shell(None, false));
    assert!(!should_probe_login_shell(Some(&b"1".to_vec()), false));
    assert!(!should_probe_login_shell(None, true));
}

#[test]
fn build_sidecar_env_applies_precedence_and_path_override() {
    let merged = build_sidecar_env(
        &vec![
            (b"PATH".to_vec(), b"/bin".to_vec()),
            (b"HOME".to_vec(), b"/base".to_vec()),
        ],
        &vec![(b"HOME".to_vec(), b"/login".to_vec())],
        &vec![(b"HOME".to_vec(), b"/desktop".to_vec())],
        Some(b"/custom/path".to_vec()),
        false,
    );
    assert_eq!(merged.get(b"HOME"), Some(&b"/desktop".to_vec()));
    assert_eq!(merged.get(b"PATH"), Some(&b"/custom/path".to_vec()));
}

#[test]
fn build_sidecar_env_supports_case_insensitive_windows_keys() {
    let merged = build_sidecar_env(
        &vec![(b"Path".to_vec(), b"A".to_vec())],
        &vec![(b"PATH".to_vec(), b"B".to_vec())],
        &vec![],
        Some(b"C".to_vec()),
        true,
    );
    assert_eq!(merged.len(), 1);
    assert_eq!(merged.get(b"PATH"), Some(&b"C".to_vec()));
}

#[test]
fn build_sidecar_env_precedence_chain_for_one_colliding_key() {
    // Inherited alone.
    let merged = build_sidecar_env(
        &vec![(b"K".to_vec(), b"inherited".to_vec())],
        &vec![],
        &vec![],
        None,
        false,
    );
    assert_eq!(merged.get(b"K"), Some(&b"inherited".to_vec()));
    // Login shell beats inherited.
    let merged = build_sidecar_env(
        &vec![(b"K".to_vec(), b"inherited".to_vec())],
        &vec![(b"K".to_vec(), b"login".to_vec())],
        &vec![],
        None,
        false,
    );
    assert_eq!(merged.get(b"K"), Some(&b"login".to_vec()));
    // The override file beats both.
    let merged = build_sidecar_env(
        &vec![(b"K".to_vec(), b"inherited".to_vec())],
        &vec![(b"K".to_vec(), b"login".to_vec())],
        &vec![(b"K".to_vec(), b"file".to_vec())],
        None,
        false,
    );
    assert_eq!(merged.get(b"K"), Some(&b"file".to_vec()));
    // A forced path beats every source of PATH.
    let merged = build_sidecar_env(
        &vec![(b"PATH".to_vec(), b"inherited".to_vec())],
        &vec![(b"PATH".to_vec(), b"login".to_vec())],
        &vec![(b"PATH".to_vec(), b"file".to_vec())],
        Some(b"forced".to_vec()),
        false,
    );
    assert_eq!(merged.get(b"PATH"), Some(&b"forced".to_vec()));
    assert_eq!(merged.len(), 1);
}

#[test]
fn case_insensitive_merge_collapses_to_single_uppercase_key() {
    let merged = build_sidecar_env(
        &vec![(b"Path".to_vec(), b"A".to_vec())],
        &vec![(b"PATH".to_vec(), b"B".to_vec())],
        &vec![],
        None,
        true,
    );
    assert_eq!(merged.len(), 1);
    assert_eq!(merged.get(b"PATH"), Some(&b"B".to_vec()));
    assert_eq!(merged.get(b"Path"), None);
}

#[test]
fn normalize_env_key_uppercases_only_when_case_insensitive() {
    assert_eq!(normalize_env_key(b"pAtH", true), b"PATH".to_vec());
    assert_eq!(normalize_env_key(b"pAtH", false), b"pAtH".to_vec());
}

#[test]
fn parse_desktop_env_content_ignores_comments_and_invalid_lines() {
    let parsed = parse_desktop_env_content(
        r#"
            # comment
            PATH=/custom/bin
            BADLINE
            =missingkey
            FOO = bar
            "#,
    );
    assert_eq!(lookup(&parsed, b"PATH"), Some(b"/custom/bin".to_vec()));
    assert_eq!(lookup(&parsed, b"FOO"), Some(b"bar".to_vec()));
    assert!(lookup(&parsed, b"BADLINE").is_none());
    assert_eq!(parsed.len(), 2);
}

#[test]
fn resolve_home_dir_from_lookup_honors_platform_precedence() {
    let home = Some(b"/home/a".to_vec());
    let userprofile = Some(b"C:\\Users\\a".to_vec());
    let resolved_unix =
        resolve_home_dir_from_lookup(home.clone(), userprofile.clone(), None, None, false);
    assert_eq!(resolved_unix, Some(b"/home/a".to_vec()));

    let resolved_windows = resolve_home_dir_from_lookup(home, userprofile, None, None, true);
    assert_eq!(resolved_windows, Some(b"C:\\Users\\a".to_vec()));
}

#[test]
fn resolve_home_dir_from_lookup_combines_drive_and_path() {
    let resolved = resolve_home_dir_from_lookup(
        None,
        Some(Vec::new()),
        Some(b"C:".to_vec()),
        Some(b"\\Users\\b".to_vec()),
        true,
    );
    assert_eq!(resolved, Some(b"C:\\Users\\b".to_vec()));
    let unresolved = resolve_home_dir_from_lookup(None, None, Some(b"C:".to_vec()), None, true);
    assert_eq!(unresolved, None);
}

#[test]
fn parse_nul_env_tolerates_invalid_utf8_entries() {
    let raw = b"PATH=/bin\0BROKEN=\xFF\xFE\0EMPTY=\0\0";
    let parsed = parse_nul_env(raw);
    assert!(lookup(&parsed, b"PATH").is_some());
    let broken = lookup(&parsed, b"BROKEN").expect("BROKEN key present");
    assert_eq!(broken, b"\xFF\xFE".to_vec());
}

#[test]
fn parse_nul_env_discards_keyless_segments() {
    let raw = b"=nokey\0PLAIN\0OK=1\0EMPTY=\0";
    let parsed = parse_nul_env(raw);
    assert_eq!(parsed.len(), 2);
    assert_eq!(parsed[0], (b"OK".to_vec(), b"1".to_vec()));
    assert_eq!(parsed[1], (b"EMPTY".to_vec(), Vec::new()));
}

#[test]
fn select_login_shell_prefers_configured_nonblank_shell() {
    assert_eq!(
        select_login_shell(Some("/bin/bash".to_string()), false),
        "/bin/bash".to_string()
    );
    assert_eq!(
        select_login_shell(Some("   ".to_string()), false),
        "/bin/sh".to_string()
    );
    assert_eq!(select_login_shell(None, true), "/bin/zsh".to_string());
    assert_eq!(select_login_shell(None, false), "/bin/sh".to_string());
}
