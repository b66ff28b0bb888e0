use sandbox_shell_mcp::command::{
    build_command, configure_command, inherited_names, pty_size, PtySize,
};
use sandbox_shell_mcp::params::PtyStartParams;

fn params(command: &str) -> PtyStartParams {
    PtyStartParams {
        command: command.to_string(),
        args: None,
        cwd: None,
        cols: None,
        rows: None,
    }
}

fn nothing() -> [Option<String>; 6] {
    [None, None, None, None, None, None]
}

#[test]
fn size_defaults_to_120_by_40() {
    assert_eq!(
        pty_size(&params("bash")),
        PtySize {
            rows: 40,
            cols: 120,
            pixel_width: 0,
            pixel_height: 0
        }
    );
}

#[test]
fn size_is_taken_from_the_request() {
    let mut asked = params("bash");
    asked.cols = Some(80);
    asked.rows = Some(24);
    assert_eq!(
        pty_size(&asked),
        PtySize {
            rows: 24,
            cols: 80,
            pixel_width: 0,
            pixel_height: 0
        }
    );
}

#[test]
fn command_has_arguments_in_order() {
    let mut asked = params("printf");
    asked.args = Some(vec!["%s".to_string(), "ready".to_string()]);
    let cmd = build_command(&asked, &nothing());
    let argv: Vec<&str> = cmd.get_argv().iter().map(|a| a.to_str().unwrap()).collect();
    assert_eq!(argv, ["printf", "%s", "ready"]);
    assert!(cmd.get_cwd().is_none());
}

#[test]
fn command_without_arguments_is_the_program_alone() {
    let cmd = build_command(&params("bash"), &nothing());
    assert_eq!(cmd.get_argv().len(), 1);
    assert_eq!(cmd.get_argv()[0].to_str(), Some("bash"));
}

#[test]
fn command_runs_in_the_requested_directory() {
    let mut asked = params("bash");
    asked.cwd = Some("/tmp".to_string());
    let cmd = build_command(&asked, &nothing());
    assert_eq!(cmd.get_cwd().and_then(|d| d.to_str()), Some("/tmp"));
}

#[test]
fn variables_are_taken_over_except_term() {
    assert_eq!(inherited_names(), ["HOME", "PATH", "USER", "TERM", "LANG", "SHELL"]);
    let ambient = [
        Some("/home/me".to_string()),
        Some("/bin".to_string()),
        Some("me".to_string()),
        Some("dumb".to_string()),
        Some("C".to_string()),
        Some("/bin/ash".to_string()),
    ];
    let cmd = build_command(&params("bash"), &ambient);
    let value = |name: &str| cmd.get_env(name).and_then(|v| v.to_str());
    assert_eq!(value("HOME"), Some("/home/me"));
    assert_eq!(value("PATH"), Some("/bin"));
    assert_eq!(value("USER"), Some("me"));
    assert_eq!(value("TERM"), Some("xterm-256color"));
    assert_eq!(value("LANG"), Some("C"));
    assert_eq!(value("SHELL"), Some("/bin/ash"));
}

#[test]
fn other_variables_are_left_alone() {
    let mut cmd = portable_pty::CommandBuilder::new("bash");
    cmd.env_clear();
    cmd.env("EDITOR", "ed");
    cmd.env("LANG", "C");
    cmd.env("TERM", "dumb");
    let ambient = [Some("/root".to_string()), None, None, None, None, None];
    configure_command(&mut cmd, &params("ignored"), &ambient);
    let env: Vec<(&str, &str)> = cmd.iter_full_env_as_str().collect();
    assert_eq!(
        env,
        [
            ("EDITOR", "ed"),
            ("HOME", "/root"),
            ("LANG", "C"),
            ("TERM", "xterm-256color")
        ]
    );
    assert_eq!(cmd.get_argv().len(), 1);
    assert_eq!(cmd.get_argv()[0].to_str(), Some("bash"));
}

#[test]
fn exactly_the_variables_with_a_value_and_term_are_set() {
    let ambient = [
        None,
        Some("/bin".to_string()),
        None,
        Some("dumb".to_string()),
        Some("C".to_string()),
        None,
    ];
    let cmd = build_command(&params("bash"), &ambient);
    let set: Vec<(&str, &str)> = cmd.iter_extra_env_as_str().collect();
    assert_eq!(set, [("LANG", "C"), ("PATH", "/bin"), ("TERM", "xterm-256color")]);

    let cmd = build_command(&params("bash"), &nothing());
    let set: Vec<(&str, &str)> = cmd.iter_extra_env_as_str().collect();
    assert_eq!(set, [("TERM", "xterm-256color")]);
}
