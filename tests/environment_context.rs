use turn_engine::active_turn::TurnContext;
use turn_engine::environment_context::EnvironmentContext;
use turn_engine::environment_context::Shell;
use turn_engine::environment_context::ShellType;
use turn_engine::environment_context::WorkspaceConfiguration;
use turn_engine::environment_context::WorkspaceEntry;

fn fake_shell() -> Shell {
    Shell {
        shell_type: ShellType::Bash,
        shell_path: "/bin/bash".to_string(),
    }
}

#[test]
fn serialize_workspace_write_environment_context() {
    let cwd = "/repo".to_string();
    let context = EnvironmentContext::new(Some(cwd.clone()), fake_shell(), None);

    let expected = format!(
        r#"<environment_context>
  <cwd>{cwd}</cwd>
  <shell>bash</shell>
</environment_context>"#,
        cwd = cwd,
    );

    assert_eq!(context.serialize_to_xml(), expected);
}

#[test]
fn serialize_read_only_environment_context() {
    let context = EnvironmentContext::new(None, fake_shell(), None);

    let expected = r#"<environment_context>
  <shell>bash</shell>
</environment_context>"#;

    assert_eq!(context.serialize_to_xml(), expected);
}

#[test]
fn serialize_external_sandbox_environment_context() {
    let context = EnvironmentContext::new(None, fake_shell(), None);

    let expected = r#"<environment_context>
  <shell>bash</shell>
</environment_context>"#;

    assert_eq!(context.serialize_to_xml(), expected);
}

#[test]
fn serialize_external_sandbox_with_restricted_network_environment_context() {
    let context = EnvironmentContext::new(None, fake_shell(), None);

    let expected = r#"<environment_context>
  <shell>bash</shell>
</environment_context>"#;

    assert_eq!(context.serialize_to_xml(), expected);
}

#[test]
fn serialize_full_access_environment_context() {
    let context = EnvironmentContext::new(None, fake_shell(), None);

    let expected = r#"<environment_context>
  <shell>bash</shell>
</environment_context>"#;

    assert_eq!(context.serialize_to_xml(), expected);
}

#[test]
fn equals_except_shell_compares_cwd() {
    let context1 = EnvironmentContext::new(Some("/repo".to_string()), fake_shell(), None);
    let context2 = EnvironmentContext::new(Some("/repo".to_string()), fake_shell(), None);
    assert!(context1.equals_except_shell(&context2));
}

#[test]
fn equals_except_shell_ignores_sandbox_policy() {
    let context1 = EnvironmentContext::new(Some("/repo".to_string()), fake_shell(), None);
    let context2 = EnvironmentContext::new(Some("/repo".to_string()), fake_shell(), None);

    assert!(context1.equals_except_shell(&context2));
}

#[test]
fn equals_except_shell_compares_cwd_differences() {
    let context1 = EnvironmentContext::new(Some("/repo1".to_string()), fake_shell(), None);
    let context2 = EnvironmentContext::new(Some("/repo2".to_string()), fake_shell(), None);

    assert!(!context1.equals_except_shell(&context2));
}

#[test]
fn equals_except_shell_ignores_shell() {
    let context1 = EnvironmentContext::new(
        Some("/repo".to_string()),
        Shell {
            shell_type: ShellType::Bash,
            shell_path: "/bin/bash".into(),
        },
        None,
    );
    let context2 = EnvironmentContext::new(
        Some("/repo".to_string()),
        Shell {
            shell_type: ShellType::Zsh,
            shell_path: "/bin/zsh".into(),
        },
        None,
    );

    assert!(context1.equals_except_shell(&context2));
}

#[test]
fn serialize_environment_context_with_workspace_configuration() {
    let cwd = "/repo".to_string();
    let workspaces = vec![(
        cwd.clone(),
        WorkspaceEntry {
            hint: "repo".to_string(),
            associated_remote_urls: Some(vec![(
                "origin".to_string(),
                "https://example.com/repo.git".to_string(),
            )]),
            latest_git_commit_hash: Some("abc123".to_string()),
        },
    )];
    let workspace_configuration = WorkspaceConfiguration { workspaces };
    let context = EnvironmentContext::new(
        Some(cwd.clone()),
        fake_shell(),
        Some(workspace_configuration),
    );

    let expected = r#"<environment_context>
  <cwd>/repo</cwd>
  <shell>bash</shell>
  <workspace_configuration>
    <workspace path="/repo" hint="repo">
      <latest_git_commit_hash>abc123</latest_git_commit_hash>
      <associated_remote_urls>
        <remote name="origin">https://example.com/repo.git</remote>
      </associated_remote_urls>
    </workspace>
  </workspace_configuration>
</environment_context>"#;

    assert_eq!(context.serialize_to_xml(), expected);
}

#[test]
fn empty_remote_list_and_missing_hash_are_left_out() {
    let workspaces = vec![
        (
            "/a".to_string(),
            WorkspaceEntry {
                hint: "a".to_string(),
                associated_remote_urls: Some(Vec::new()),
                latest_git_commit_hash: None,
            },
        ),
        (
            "/b".to_string(),
            WorkspaceEntry {
                hint: "b".to_string(),
                associated_remote_urls: None,
                latest_git_commit_hash: Some("f00".to_string()),
            },
        ),
    ];
    let context = EnvironmentContext::new(
        None,
        Shell {
            shell_type: ShellType::Zsh,
            shell_path: "/bin/zsh".to_string(),
        },
        Some(WorkspaceConfiguration { workspaces }),
    );
    let expected = r#"<environment_context>
  <shell>zsh</shell>
  <workspace_configuration>
    <workspace path="/a" hint="a">
    </workspace>
    <workspace path="/b" hint="b">
      <latest_git_commit_hash>f00</latest_git_commit_hash>
    </workspace>
  </workspace_configuration>
</environment_context>"#;
    assert_eq!(context.serialize_to_xml(), expected);
}

#[test]
fn diff_reports_only_a_changed_cwd() {
    let before = TurnContext {
        sub_id: "1".to_string(),
        cwd: "/a".to_string(),
    };
    let after = TurnContext {
        sub_id: "2".to_string(),
        cwd: "/b".to_string(),
    };
    let changed = EnvironmentContext::diff(&before, &after, &fake_shell());
    assert_eq!(changed.cwd, Some("/b".to_string()));
    assert_eq!(changed.workspace_configuration, None);
    let same = EnvironmentContext::diff(&before, &before, &fake_shell());
    assert_eq!(same.cwd, None);
    assert_eq!(same.shell, fake_shell());
}

#[test]
fn from_turn_context_takes_the_cwd() {
    let turn = TurnContext {
        sub_id: "1".to_string(),
        cwd: "/work".to_string(),
    };
    let context = EnvironmentContext::from_turn_context(&turn, &fake_shell());
    assert_eq!(context.cwd, Some("/work".to_string()));
    assert_eq!(context.shell.name(), "bash");
}

#[test]
fn shell_names() {
    let name = |shell_type| {
        Shell {
            shell_type,
            shell_path: String::new(),
        }
        .name()
    };
    assert_eq!(name(ShellType::Zsh), "zsh");
    assert_eq!(name(ShellType::PowerShell), "powershell");
    assert_eq!(name(ShellType::Sh), "sh");
    assert_eq!(name(ShellType::Cmd), "cmd");
}
