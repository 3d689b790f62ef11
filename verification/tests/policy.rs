use minimal_agent::config::PolicyConfig;
use minimal_agent::policy_bash::{check_policy, format_command_result, PolicyResult};
use minimal_agent::types::BashResult;

fn plain_policy(default_action: &str) -> PolicyConfig {
    PolicyConfig {
        default_action: default_action.to_owned(),
        deny_patterns: Vec::new(),
        auto_commands: Vec::new(),
    }
}

#[test]
fn deny_pattern_beats_auto_list() {
    // "ls -R" starts with the allow-listed "ls ", but the recursive-listing
    // deny pattern fires first
    let policy = plain_policy("ask");
    assert_eq!(check_policy("ls -R", &policy), PolicyResult::Deny);
    assert_eq!(check_policy("ls -laR /tmp", &policy), PolicyResult::Deny);
}

#[test]
fn configured_deny_pattern_beats_auto_list() {
    let policy = PolicyConfig {
        default_action: "ask".to_owned(),
        deny_patterns: vec!["^pwd$".to_owned()],
        auto_commands: Vec::new(),
    };
    assert_eq!(check_policy("pwd", &policy), PolicyResult::Deny);
}

#[test]
fn shell_injection_behind_allowed_prefix_is_denied_not_asked() {
    // the deny tier matches the rm -rf / pattern before the metacharacter
    // tier can turn this into a mere question
    let policy = plain_policy("ask");
    assert_eq!(check_policy("ls; rm -rf /", &policy), PolicyResult::Deny);
}

#[test]
fn read_only_command_runs_unattended() {
    let policy = plain_policy("ask");
    assert_eq!(check_policy("ls -la", &policy), PolicyResult::Auto);
}

#[test]
fn secret_file_in_argument_tail_is_denied() {
    let policy = plain_policy("ask");
    assert_eq!(check_policy("cat .env", &policy), PolicyResult::Deny);
}

#[test]
fn metacharacters_need_approval_even_after_allowed_prefix() {
    let policy = plain_policy("ask");
    assert_eq!(check_policy("echo hi && ls", &policy), PolicyResult::Ask);
    assert_eq!(check_policy("git status | head", &policy), PolicyResult::Ask);
}

#[test]
fn unknown_command_falls_back_to_default_action() {
    assert_eq!(check_policy("custom-tool", &plain_policy("deny")), PolicyResult::Deny);
    assert_eq!(check_policy("custom-tool", &plain_policy("ask")), PolicyResult::Ask);
}

#[test]
fn configured_auto_command_is_honored() {
    let policy = PolicyConfig {
        default_action: "deny".to_owned(),
        deny_patterns: Vec::new(),
        auto_commands: vec!["cargo check".to_owned()],
    };
    assert_eq!(check_policy("cargo check", &policy), PolicyResult::Auto);
    assert_eq!(check_policy("cargo check --workspace", &policy), PolicyResult::Auto);
    assert_eq!(check_policy("cargo checkout", &policy), PolicyResult::Deny);
}

#[test]
fn malformed_configured_pattern_is_skipped() {
    let policy = PolicyConfig {
        default_action: "ask".to_owned(),
        deny_patterns: vec!["(".to_owned()],
        auto_commands: Vec::new(),
    };
    assert_eq!(check_policy("pwd", &policy), PolicyResult::Auto);
}

#[test]
fn command_is_trimmed_before_classification() {
    let policy = plain_policy("ask");
    assert_eq!(check_policy("   pwd   ", &policy), PolicyResult::Auto);
}

#[test]
fn file_heuristic_ignores_the_command_word_itself() {
    // "secret" appears in the command word, not the argument tail
    let policy = plain_policy("ask");
    assert_eq!(check_policy("secret-tool", &policy), PolicyResult::Ask);
    assert_eq!(check_policy("show secret.txt", &policy), PolicyResult::Deny);
}

#[test]
fn command_result_rendering() {
    let r = BashResult { stdout: "hello\n".to_owned(), stderr: "".to_owned(), code: 0 };
    assert_eq!(format_command_result("echo hello", &r), "[command] echo hello\n[stdout]\nhello");

    let r = BashResult { stdout: "".to_owned(), stderr: "boom\n".to_owned(), code: 2 };
    assert_eq!(
        format_command_result("false", &r),
        "[command] false\n[stderr]\nboom\n[exit_code] 2"
    );

    let r = BashResult { stdout: "  \n".to_owned(), stderr: "".to_owned(), code: 0 };
    assert_eq!(format_command_result("true", &r), "[command] true");
}
