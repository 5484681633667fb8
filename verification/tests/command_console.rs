use git_integrity::repository::command_console::{
    fallback_shell, finish_git_command, finish_terminal_command, is_definitely_read_only_terminal_command,
    is_read_only_git_subcommand, plan_git_command, plan_terminal_command, raw_git_result, takes_write_lock,
    terminal_environment, terminal_root, tokenize_git_args, ProcessOutput,
};

fn words(line: &str) -> Vec<String> {
    tokenize_git_args(line).unwrap()
}

fn output(success: bool) -> ProcessOutput {
    ProcessOutput {
        stdout: b"out\xff".to_vec(),
        stderr: b"err".to_vec(),
        success,
        exit_code: Some(if success { 0 } else { 1 }),
    }
}

#[test]
fn lines_are_split_like_a_shell_splits_them() {
    assert_eq!(words("  log  --oneline\t-10 "), vec!["log", "--oneline", "-10"]);
    assert_eq!(words("commit -m \"a \\\"b\\\" \\\\ \\n\""), vec!["commit", "-m", "a \"b\" \\ \\n"]);
    assert_eq!(words("a'b c'd"), vec!["ab cd"]);
    assert_eq!(words("'a\\'"), vec!["a\\"]);
    assert_eq!(words("\"\" ''"), vec!["", ""]);
    assert_eq!(words("a\\ b"), vec!["a\\", "b"]);
    assert!(words(" \u{3000}").is_empty());
    assert_eq!(tokenize_git_args("log \"x").unwrap_err(), "Unclosed quote in command");
    assert_eq!(tokenize_git_args("log 'x\"").unwrap_err(), "Unclosed quote in command");
}

#[test]
fn only_known_commands_count_as_reading() {
    for name in ["status", "log", "diff", "show", "blame", "ls-files"] {
        assert!(is_read_only_git_subcommand(name));
    }
    assert!(!is_read_only_git_subcommand("Status"));
    assert!(!is_read_only_git_subcommand("branch"));
    let reads = |line: &str| is_definitely_read_only_terminal_command(line);
    assert!(reads("git status"));
    assert!(reads("GIT Log"));
    assert!(reads("ls -la"));
    assert!(reads("'where' git"));
    assert!(!reads("git"));
    assert!(!reads("git commit"));
    assert!(!reads(""));
    assert!(!reads("rm x"));
    for line in ["ls; rm x", "ls | sh", "ls & rm", "ls > x", "ls < x", "ls `x`", "ls $(x)", "ls\nrm", "ls \"x"] {
        assert!(!reads(line));
    }
}

#[test]
fn a_git_line_becomes_arguments() {
    let plan = plan_git_command("/repo", "git log -1").unwrap();
    assert_eq!(plan.parts, vec!["log", "-1"]);
    assert_eq!(plan.arguments, vec!["-C", "/repo", "-c", "color.ui=false", "log", "-1"]);
    assert!(plan.read_only);
    assert!(!plan_git_command("/repo", "push").unwrap().read_only);
    let empty = "Type a git subcommand, e.g. \"status\" or \"log --oneline -10\"";
    assert_eq!(plan_git_command("/repo", " git ").err().unwrap(), empty);
    assert_eq!(plan_git_command("/repo", "").err().unwrap(), empty);
    assert_eq!(plan_git_command("/repo", "'").err().unwrap(), "Unclosed quote in command");
}

#[test]
fn a_git_command_is_recorded_and_refreshes() {
    let done = finish_git_command(plan_git_command("/repo", "fetch").unwrap(), Ok(output(true)));
    assert_eq!(done.recorded.unwrap(), vec!["fetch"]);
    assert!(done.recorded_success);
    assert!(done.refresh);
    let result = done.result.ok().unwrap();
    assert_eq!(result.stdout, "out\u{fffd}");
    assert_eq!(result.stderr, "err");
    assert_eq!(result.exit_code, Some(0));
    assert!(result.success && !result.read_only);
    let stopped = finish_git_command(plan_git_command("/repo", "fetch").unwrap(), Err("too slow".to_string()));
    assert!(!stopped.recorded_success && !stopped.refresh);
    assert_eq!(stopped.recorded.unwrap(), vec!["fetch"]);
    assert_eq!(stopped.result.err().unwrap(), "too slow");
    assert!(raw_git_result(&output(false), true).read_only);
}

#[test]
fn a_terminal_line_is_handed_to_the_shell() {
    let plan = plan_terminal_command("  Git push origin ", false).unwrap();
    assert_eq!(plan.command, "Git push origin");
    assert_eq!(plan.shell_arguments, vec!["-l", "-c", "Git push origin"]);
    assert_eq!(plan.git_arguments.as_ref().unwrap(), &vec!["push", "origin"]);
    assert!(takes_write_lock(&plan));
    assert_eq!(terminal_root(&plan, "/repo/sub", Some("/repo".to_string())).unwrap(), "/repo");
    assert_eq!(
        terminal_root(&plan, "/repo/sub", None).unwrap_err(),
        "Bare repositories are not supported by the embedded Terminal"
    );
    let done = finish_terminal_command(plan, Ok(output(false)));
    assert!(done.refresh && !done.recorded_success);
    assert_eq!(done.recorded.unwrap(), vec!["push", "origin"]);

    let plan = plan_terminal_command("dir", true).unwrap();
    assert_eq!(plan.shell_arguments, vec!["/D", "/S", "/C", "dir"]);
    assert!(plan.git_arguments.is_none());
    assert!(!takes_write_lock(&plan));
    assert_eq!(terminal_root(&plan, "/repo/sub", None).unwrap(), "/repo/sub");
    let done = finish_terminal_command(plan, Ok(output(true)));
    assert!(!done.refresh && done.recorded.is_none());

    assert!(plan_terminal_command("git", false).unwrap().git_arguments.is_none());
    assert_eq!(
        plan_terminal_command(" ", false).err().unwrap(),
        "Type a command, e.g. \"git status\", \"pwd\", or \"gh pr status\""
    );
    assert_eq!(fallback_shell(true), "cmd.exe");
    assert_eq!(fallback_shell(false), "/bin/sh");
    assert_eq!(terminal_environment()[0], ("GIT_TERMINAL_PROMPT".to_string(), "0".to_string()));
    assert_eq!(terminal_environment().len(), 4);
}

#[test]
fn quoted_arguments_are_read_back() {
    let list = ["", "a b", "say \"hi\"", "back\\slash", "\\\"", "tab\there", "'single'"];
    let quote = |word: &&str| format!("\"{}\"", word.replace('\\', "\\\\").replace('"', "\\\""));
    let line: Vec<String> = list.iter().map(quote).collect();
    assert_eq!(words(&line.join(" ")), list);
}
