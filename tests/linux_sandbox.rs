use turn_engine::linux_sandbox::create_linux_sandbox_command_args;

#[test]
fn arguments_without_bubblewrap() {
    let args = create_linux_sandbox_command_args(
        vec!["ls".to_string(), "-la".to_string()],
        "{\"mode\":\"read-only\"}".to_string(),
        "/repo",
        None,
    );
    assert_eq!(
        args,
        vec![
            "--sandbox-policy-cwd",
            "/repo",
            "--sandbox-policy",
            "{\"mode\":\"read-only\"}",
            "--",
            "ls",
            "-la"
        ]
    );
}

#[test]
fn arguments_with_bubblewrap() {
    let args = create_linux_sandbox_command_args(
        vec!["-x".to_string()],
        "{}".to_string(),
        "/w",
        Some("/usr/bin/bwrap"),
    );
    assert_eq!(
        args,
        vec![
            "--sandbox-policy-cwd",
            "/w",
            "--sandbox-policy",
            "{}",
            "--use-bwrap-sandbox",
            "--bwrap-path",
            "/usr/bin/bwrap",
            "--",
            "-x"
        ]
    );
}
