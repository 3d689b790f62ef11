//! The command policy classifier: a five-tier ordered ladder deciding
//! whether a shell command runs unattended, needs approval, or is refused.
//! First match wins: deny patterns, then dangerous-file heuristics on the
//! argument tail, then shell metacharacters, then the auto-allow list, then
//! the configured fallback. Also the rendering of a finished command's
//! result for the conversation.

use vstd::prelude::*;
use crate::config::PolicyConfig;
use crate::strutil::{
    str_to_chars, chars_to_string, trim_chars, trim_spec, trim_end_spec, trim_end_chars,
    split_ws, join_chars_from, join_spec, tokens_spec, append_chars, chars_eq,
    starts_with_chars, eq_str, views_of, dec_int, i64_to_dec_chars,
};
use crate::types::BashResult;

verus! {

/// What the policy decides about one command.
#[derive(Clone, Copy, Debug, PartialEq, Eq, Structural)]
pub enum PolicyResult {
    Auto,
    Ask,
    Deny,
}

/// Whether `pattern` is a regular expression that `regex::Regex::new`
/// accepts.
pub uninterp spec fn re_valid(pattern: Seq<char>) -> bool;

/// Whether the regular expression `pattern` matches somewhere in `text`.
pub uninterp spec fn re_match(pattern: Seq<char>, text: Seq<char>) -> bool;

/// Relies on `regex::Regex::new` and `regex::Regex::is_match`: whether a
/// pattern compiles, and whether it then matches a text, depend on the two
/// strings alone.
#[verifier::external_body]
fn regex_try_match(pattern: &str, text: &str) -> (r: Option<bool>)
    ensures
        r is Some <==> re_valid(pattern@),
        r matches Some(m) ==> m == re_match(pattern@, text@),
{
    regex::Regex::new(pattern).ok().map(|re| re.is_match(text))
}

/// The views of a sequence of owned strings.
pub open spec fn views_of_strings(s: Seq<String>) -> Seq<Seq<char>> {
    Seq::new(s.len(), |i: int| s[i]@)
}

/// The built-in patterns of destructive operations: recursive removal,
/// device writes, cloud and cluster deletion verbs, fork bombs,
/// pipe-to-shell, recursive permission changes, recursive listing, and
/// in-place stream edits.
pub open spec fn builtin_deny_patterns() -> Seq<Seq<char>> {
    seq![
        "rm\\s+(-[rf]+\\s+)*\\/"@,
        "rm\\s+-rf?\\s+\\*"@,
        "rm\\s+-rf?\\s+\\.\\*"@,
        "mkfs"@,
        "dd\\s+if=.*of=\\/dev"@,
        ">\\s*\\/dev\\/sd"@,
        "gcloud\\s+.*delete"@,
        "gcloud\\s+.*destroy"@,
        "aws\\s+.*delete"@,
        "aws\\s+.*terminate"@,
        "kubectl\\s+delete"@,
        ":\\(\\)\\s*\\{.*\\|.*&.*\\}"@,
        "chmod\\s+-R\\s+777\\s+\\/"@,
        "chown\\s+-R.*\\/"@,
        "curl.*\\|\\s*(ba)?sh"@,
        "wget.*\\|\\s*(ba)?sh"@,
        "ls\\s+-[^\\s]*R"@,
        "ls\\s+-R"@,
        "sed\\s.*-i"@,
    ]
}

/// The built-in filename heuristics for secret or generated material,
/// matched against a command's argument tail.
pub open spec fn dangerous_file_patterns() -> Seq<Seq<char>> {
    seq![
        "\\.env$"@,
        "\\.env\\."@,
        "\\.dev\\.vars$"@,
        "credentials"@,
        "secret"@,
        "\\.pem$"@,
        "\\.key$"@,
        "id_rsa"@,
        "id_ed25519"@,
        "package-lock\\.json$"@,
        "yarn\\.lock$"@,
        "pnpm-lock\\.yaml$"@,
        "\\.DS_Store$"@,
        "node_modules"@,
    ]
}

/// The built-in read-only commands that run without approval.
pub open spec fn builtin_auto_commands() -> Seq<Seq<char>> {
    seq![
        "ls"@,
        "ls -la"@,
        "ls -l"@,
        "ls -a"@,
        "pwd"@,
        "whoami"@,
        "date"@,
        "which"@,
        "cat"@,
        "head"@,
        "tail"@,
        "less"@,
        "more"@,
        "wc"@,
        "file"@,
        "stat"@,
        "tree"@,
        "find"@,
        "fd"@,
        "grep"@,
        "rg"@,
        "sed -n"@,
        "git status"@,
        "git diff"@,
        "git log"@,
        "git branch"@,
    ]
}

fn builtin_deny_vec() -> (r: Vec<String>)
    ensures
        views_of_strings(r@) == builtin_deny_patterns(),
{
    let mut v: Vec<String> = Vec::new();
    v.push("rm\\s+(-[rf]+\\s+)*\\/".to_owned());
    v.push("rm\\s+-rf?\\s+\\*".to_owned());
    v.push("rm\\s+-rf?\\s+\\.\\*".to_owned());
    v.push("mkfs".to_owned());
    v.push("dd\\s+if=.*of=\\/dev".to_owned());
    v.push(">\\s*\\/dev\\/sd".to_owned());
    v.push("gcloud\\s+.*delete".to_owned());
    v.push("gcloud\\s+.*destroy".to_owned());
    v.push("aws\\s+.*delete".to_owned());
    v.push("aws\\s+.*terminate".to_owned());
    v.push("kubectl\\s+delete".to_owned());
    v.push(":\\(\\)\\s*\\{.*\\|.*&.*\\}".to_owned());
    v.push("chmod\\s+-R\\s+777\\s+\\/".to_owned());
    v.push("chown\\s+-R.*\\/".to_owned());
    v.push("curl.*\\|\\s*(ba)?sh".to_owned());
    v.push("wget.*\\|\\s*(ba)?sh".to_owned());
    v.push("ls\\s+-[^\\s]*R".to_owned());
    v.push("ls\\s+-R".to_owned());
    v.push("sed\\s.*-i".to_owned());
    proof {
        assert(views_of_strings(v@) =~= builtin_deny_patterns());
    }
    v
}

fn dangerous_file_vec() -> (r: Vec<String>)
    ensures
        views_of_strings(r@) == dangerous_file_patterns(),
{
    let mut v: Vec<String> = Vec::new();
    v.push("\\.env$".to_owned());
    v.push("\\.env\\.".to_owned());
    v.push("\\.dev\\.vars$".to_owned());
    v.push("credentials".to_owned());
    v.push("secret".to_owned());
    v.push("\\.pem$".to_owned());
    v.push("\\.key$".to_owned());
    v.push("id_rsa".to_owned());
    v.push("id_ed25519".to_owned());
    v.push("package-lock\\.json$".to_owned());
    v.push("yarn\\.lock$".to_owned());
    v.push("pnpm-lock\\.yaml$".to_owned());
    v.push("\\.DS_Store$".to_owned());
    v.push("node_modules".to_owned());
    proof {
        assert(views_of_strings(v@) =~= dangerous_file_patterns());
    }
    v
}

fn builtin_auto_vec() -> (r: Vec<String>)
    ensures
        views_of_strings(r@) == builtin_auto_commands(),
{
    let mut v: Vec<String> = Vec::new();
    v.push("ls".to_owned());
    v.push("ls -la".to_owned());
    v.push("ls -l".to_owned());
    v.push("ls -a".to_owned());
    v.push("pwd".to_owned());
    v.push("whoami".to_owned());
    v.push("date".to_owned());
    v.push("which".to_owned());
    v.push("cat".to_owned());
    v.push("head".to_owned());
    v.push("tail".to_owned());
    v.push("less".to_owned());
    v.push("more".to_owned());
    v.push("wc".to_owned());
    v.push("file".to_owned());
    v.push("stat".to_owned());
    v.push("tree".to_owned());
    v.push("find".to_owned());
    v.push("fd".to_owned());
    v.push("grep".to_owned());
    v.push("rg".to_owned());
    v.push("sed -n".to_owned());
    v.push("git status".to_owned());
    v.push("git diff".to_owned());
    v.push("git log".to_owned());
    v.push("git branch".to_owned());
    proof {
        assert(views_of_strings(v@) =~= builtin_auto_commands());
    }
    v
}

/// Whether some pattern in the list both compiles and matches `text`.
/// Patterns that do not compile are skipped, never an error.
pub open spec fn deny_hit(patterns: Seq<Seq<char>>, text: Seq<char>) -> bool {
    exists|i: int|
        0 <= i < patterns.len() && re_valid(#[trigger] patterns[i]) && re_match(
            patterns[i],
            text,
        )
}

/// A hit in a concatenated pattern list is a hit in one of its halves.
proof fn lemma_deny_hit_concat(a: Seq<Seq<char>>, b: Seq<Seq<char>>, text: Seq<char>)
    ensures
        deny_hit(a + b, text) <==> (deny_hit(a, text) || deny_hit(b, text)),
{
    if deny_hit(a + b, text) {
        let w = choose|i: int|
            0 <= i < (a + b).len() && re_valid(#[trigger] (a + b)[i]) && re_match(
                (a + b)[i],
                text,
            );
        if w < a.len() {
            assert((a + b)[w] == a[w]);
        } else {
            assert((a + b)[w] == b[w - a.len()]);
        }
    }
    if deny_hit(a, text) {
        let w = choose|i: int|
            0 <= i < a.len() && re_valid(#[trigger] a[i]) && re_match(a[i], text);
        assert((a + b)[w] == a[w]);
        assert(deny_hit(a + b, text));
    }
    if deny_hit(b, text) {
        let w = choose|i: int|
            0 <= i < b.len() && re_valid(#[trigger] b[i]) && re_match(b[i], text);
        assert((a + b)[a.len() + w] == b[w]);
        assert(deny_hit(a + b, text));
    }
}

/// The same, for the allow list.
proof fn lemma_auto_hit_concat(a: Seq<Seq<char>>, b: Seq<Seq<char>>, cmd: Seq<char>)
    ensures
        auto_hit(a + b, cmd) <==> (auto_hit(a, cmd) || auto_hit(b, cmd)),
{
    if auto_hit(a + b, cmd) {
        let w = choose|i: int|
            0 <= i < (a + b).len() && (cmd == #[trigger] (a + b)[i] || ((a + b)[i]
                + seq![' ']).is_prefix_of(cmd));
        if w < a.len() {
            assert((a + b)[w] == a[w]);
        } else {
            assert((a + b)[w] == b[w - a.len()]);
        }
    }
    if auto_hit(a, cmd) {
        let w = choose|i: int|
            0 <= i < a.len() && (cmd == #[trigger] a[i] || (a[i] + seq![' ']).is_prefix_of(cmd));
        assert((a + b)[w] == a[w]);
        assert(auto_hit(a + b, cmd));
    }
    if auto_hit(b, cmd) {
        let w = choose|i: int|
            0 <= i < b.len() && (cmd == #[trigger] b[i] || (b[i] + seq![' ']).is_prefix_of(cmd));
        assert((a + b)[a.len() + w] == b[w]);
        assert(auto_hit(a + b, cmd));
    }
}

fn scan_patterns(patterns: &Vec<String>, text: &str) -> (r: bool)
    ensures
        r == deny_hit(views_of_strings(patterns@), text@),
{
    let ghost pv = views_of_strings(patterns@);
    let mut i: usize = 0;
    while i < patterns.len()
        invariant
            i <= patterns@.len(),
            pv == views_of_strings(patterns@),
            forall|k: int| 0 <= k < i ==> !(re_valid(#[trigger] pv[k]) && re_match(pv[k], text@)),
        decreases patterns@.len() - i,
    {
        proof {
            assert(pv[i as int] == patterns@[i as int]@);
        }
        match regex_try_match(patterns[i].as_str(), text) {
            Some(true) => {
                proof {
                    assert(re_valid(pv[i as int]) && re_match(pv[i as int], text@));
                }
                return true;
            },
            _ => {},
        }
        i += 1;
    }
    proof {
        if deny_hit(pv, text@) {
            let w = choose|k: int|
                0 <= k < pv.len() && re_valid(#[trigger] pv[k]) && re_match(pv[k], text@);
            assert(!(re_valid(pv[w]) && re_match(pv[w], text@)));
        }
    }
    false
}

/// Whether the command contains a shell metacharacter: `|`, `;`, `&`, a
/// backquote, `$`, `(` or `)`.
pub open spec fn is_meta(c: char) -> bool {
    c == '|' || c == ';' || c == '&' || c == '`' || c == '$' || c == '(' || c == ')'
}

pub open spec fn has_meta(cmd: Seq<char>) -> bool {
    exists|i: int| 0 <= i < cmd.len() && is_meta(#[trigger] cmd[i])
}

fn scan_meta(cmd: &Vec<char>) -> (r: bool)
    ensures
        r == has_meta(cmd@),
{
    let mut i: usize = 0;
    while i < cmd.len()
        invariant
            i <= cmd@.len(),
            forall|k: int| 0 <= k < i ==> !is_meta(#[trigger] cmd@[k]),
        decreases cmd@.len() - i,
    {
        let c = cmd[i];
        if c == '|' || c == ';' || c == '&' || c == '`' || c == '$' || c == '(' || c == ')' {
            return true;
        }
        i += 1;
    }
    false
}

/// The command's argument tail: everything after its first
/// whitespace-delimited token, the tokens joined by single spaces.
pub open spec fn args_tail(cmd: Seq<char>) -> Seq<char> {
    if tokens_spec(cmd).len() == 0 {
        Seq::empty()
    } else {
        join_spec(tokens_spec(cmd).skip(1), seq![' '])
    }
}

/// Whether the command is on the allow list: equal to an entry, or an entry
/// followed by a space and more.
pub open spec fn auto_hit(autos: Seq<Seq<char>>, cmd: Seq<char>) -> bool {
    exists|i: int|
        0 <= i < autos.len() && (cmd == #[trigger] autos[i] || (autos[i]
            + seq![' ']).is_prefix_of(cmd))
}

fn scan_autos(autos: &Vec<String>, cmd: &Vec<char>) -> (r: bool)
    ensures
        r == auto_hit(views_of_strings(autos@), cmd@),
{
    let ghost av = views_of_strings(autos@);
    let mut i: usize = 0;
    while i < autos.len()
        invariant
            i <= autos@.len(),
            av == views_of_strings(autos@),
            forall|k: int|
                0 <= k < i ==> !(cmd@ == #[trigger] av[k] || (av[k]
                    + seq![' ']).is_prefix_of(cmd@)),
        decreases autos@.len() - i,
    {
        proof {
            assert(av[i as int] == autos@[i as int]@);
        }
        let entry = str_to_chars(autos[i].as_str());
        if chars_eq(cmd, &entry) {
            return true;
        }
        let mut entry_sp = entry;
        entry_sp.push(' ');
        proof {
            assert(entry_sp@ =~= av[i as int] + seq![' ']);
        }
        if starts_with_chars(cmd, &entry_sp) {
            return true;
        }
        i += 1;
    }
    proof {
        if auto_hit(av, cmd@) {
            let w = choose|k: int|
                0 <= k < av.len() && (cmd@ == #[trigger] av[k] || (av[k]
                    + seq![' ']).is_prefix_of(cmd@));
            assert(!(cmd@ == av[w] || (av[w] + seq![' ']).is_prefix_of(cmd@)));
        }
    }
    false
}

/// The five-tier decision on a raw command under a policy: deny patterns
/// first, then dangerous-file heuristics on the argument tail, then
/// metacharacters, then the allow list, then the configured fallback.
pub open spec fn spec_check_policy(
    command: Seq<char>,
    default_action: Seq<char>,
    cfg_deny: Seq<Seq<char>>,
    cfg_auto: Seq<Seq<char>>,
) -> PolicyResult {
    let cmd = trim_spec(command);
    if deny_hit(builtin_deny_patterns() + cfg_deny, cmd) {
        PolicyResult::Deny
    } else if deny_hit(dangerous_file_patterns(), args_tail(cmd)) {
        PolicyResult::Deny
    } else if has_meta(cmd) {
        PolicyResult::Ask
    } else if auto_hit(builtin_auto_commands() + cfg_auto, cmd) {
        PolicyResult::Auto
    } else if default_action == "deny"@ {
        PolicyResult::Deny
    } else {
        PolicyResult::Ask
    }
}

/// Classifies a command under the given policy. Total and deterministic: a
/// configured pattern that does not compile is skipped, not an error.
pub fn check_policy(command: &str, policy: &PolicyConfig) -> (r: PolicyResult)
    ensures
        r == spec_check_policy(
            command@,
            policy.default_action@,
            views_of_strings(policy.deny_patterns@),
            views_of_strings(policy.auto_commands@),
        ),
{
    let raw = str_to_chars(command);
    let cmd = trim_chars(&raw);
    let cmd_str = chars_to_string(&cmd);

    // deny tier: builtin patterns first, then the configured ones
    proof {
        lemma_deny_hit_concat(
            builtin_deny_patterns(),
            views_of_strings(policy.deny_patterns@),
            cmd@,
        );
    }
    let deny = builtin_deny_vec();
    if scan_patterns(&deny, cmd_str.as_str()) {
        return PolicyResult::Deny;
    }
    if scan_patterns(&policy.deny_patterns, cmd_str.as_str()) {
        return PolicyResult::Deny;
    }

    // dangerous-file tier, on the argument tail only
    let toks = split_ws(&cmd);
    let sep = vec![' '];
    let args = if toks.len() == 0 {
        Vec::new()
    } else {
        join_chars_from(&toks, 1, &sep)
    };
    proof {
        if toks@.len() > 0 {
            assert(views_of(toks@).skip(1) == tokens_spec(cmd@).skip(1));
            assert(sep@ =~= seq![' ']);
        }
        assert(args@ == args_tail(cmd@));
    }
    let args_str = chars_to_string(&args);
    let files = dangerous_file_vec();
    if scan_patterns(&files, args_str.as_str()) {
        return PolicyResult::Deny;
    }

    // metacharacter tier
    if scan_meta(&cmd) {
        return PolicyResult::Ask;
    }

    // auto-allow tier: builtin entries, then the configured ones
    proof {
        lemma_auto_hit_concat(
            builtin_auto_commands(),
            views_of_strings(policy.auto_commands@),
            cmd@,
        );
    }
    let autos = builtin_auto_vec();
    if scan_autos(&autos, &cmd) {
        return PolicyResult::Auto;
    }
    if scan_autos(&policy.auto_commands, &cmd) {
        return PolicyResult::Auto;
    }

    // fallback tier
    if eq_str(policy.default_action.as_str(), "deny") {
        PolicyResult::Deny
    } else {
        PolicyResult::Ask
    }
}

/// Any command matching a deny pattern — built in or configured — is
/// denied, whatever the allow list holds: the deny tier is decided first.
pub proof fn lemma_deny_dominates(
    command: Seq<char>,
    default_action: Seq<char>,
    cfg_deny: Seq<Seq<char>>,
    cfg_auto: Seq<Seq<char>>,
)
    requires
        deny_hit(builtin_deny_patterns() + cfg_deny, trim_spec(command)),
    ensures
        spec_check_policy(command, default_action, cfg_deny, cfg_auto) == PolicyResult::Deny,
{
}

/// When no tier matches, the configured default decides: "deny" denies, and
/// anything else asks.
pub proof fn lemma_default_action(
    command: Seq<char>,
    default_action: Seq<char>,
    cfg_deny: Seq<Seq<char>>,
    cfg_auto: Seq<Seq<char>>,
)
    requires
        !deny_hit(builtin_deny_patterns() + cfg_deny, trim_spec(command)),
        !deny_hit(dangerous_file_patterns(), args_tail(trim_spec(command))),
        !has_meta(trim_spec(command)),
        !auto_hit(builtin_auto_commands() + cfg_auto, trim_spec(command)),
    ensures
        spec_check_policy(command, default_action, cfg_deny, cfg_auto) == (if default_action
            == "deny"@ {
            PolicyResult::Deny
        } else {
            PolicyResult::Ask
        }),
{
}

/// The spec of [`format_command_result`]: the command, then the trimmed
/// streams that are not blank, then a nonzero exit code.
pub open spec fn spec_format_command_result(
    command: Seq<char>,
    stdout: Seq<char>,
    stderr: Seq<char>,
    code: int,
) -> Seq<char> {
    let base = "[command] "@ + command;
    let with_out = if trim_spec(stdout).len() != 0 {
        base + "\n[stdout]\n"@ + trim_end_spec(stdout)
    } else {
        base
    };
    let with_err = if trim_spec(stderr).len() != 0 {
        with_out + "\n[stderr]\n"@ + trim_end_spec(stderr)
    } else {
        with_out
    };
    if code != 0 {
        with_err + "\n[exit_code] "@ + dec_int(code)
    } else {
        with_err
    }
}

/// Renders a command's captured output for the conversation buffer.
pub fn format_command_result(command: &str, result: &BashResult) -> (r: String)
    ensures
        r@ == spec_format_command_result(
            command@,
            result.stdout@,
            result.stderr@,
            result.code as int,
        ),
{
    let mut out: Vec<char> = Vec::new();
    let head = str_to_chars("[command] ");
    append_chars(&mut out, &head);
    let cmdc = str_to_chars(command);
    append_chars(&mut out, &cmdc);

    let stdout_chars = str_to_chars(result.stdout.as_str());
    let stdout_trim = trim_chars(&stdout_chars);
    if stdout_trim.len() != 0 {
        let tag = str_to_chars("\n[stdout]\n");
        append_chars(&mut out, &tag);
        let body = trim_end_chars(&stdout_chars);
        append_chars(&mut out, &body);
    }

    let stderr_chars = str_to_chars(result.stderr.as_str());
    let stderr_trim = trim_chars(&stderr_chars);
    if stderr_trim.len() != 0 {
        let tag = str_to_chars("\n[stderr]\n");
        append_chars(&mut out, &tag);
        let body = trim_end_chars(&stderr_chars);
        append_chars(&mut out, &body);
    }

    if result.code != 0 {
        let tag = str_to_chars("\n[exit_code] ");
        append_chars(&mut out, &tag);
        let digits = i64_to_dec_chars(result.code as i64);
        append_chars(&mut out, &digits);
    }
    proof {
        assert(out@ =~= spec_format_command_result(
            command@,
            result.stdout@,
            result.stderr@,
            result.code as int,
        ));
    }
    chars_to_string(&out)
}

} // verus!
