use turn_engine::terminal_multiplexer::ForkPanePlacement;
use turn_engine::terminal_multiplexer::Multiplexer;
use turn_engine::terminal_multiplexer::build_tmux_new_pane_args;
use turn_engine::terminal_multiplexer::build_zellij_new_pane_args;
use turn_engine::terminal_multiplexer::fork_spawn_config;
use turn_engine::terminal_multiplexer::resume_command_parts;
use turn_engine::terminal_multiplexer::tmux_split_flags;
use turn_engine::terminal_multiplexer::validate_fork_placement;
use turn_engine::terminal_multiplexer::zellij_direction;

fn words(ws: &[&str]) -> Vec<String> {
    ws.iter().map(|w| w.to_string()).collect()
}

#[test]
fn resume_command_has_three_parts() {
    assert_eq!(
        resume_command_parts("/usr/bin/codex", "thread-1"),
        words(&["/usr/bin/codex", "resume", "thread-1"])
    );
}

#[test]
fn zellij_directions() {
    assert_eq!(zellij_direction(ForkPanePlacement::Right), Some("right"));
    assert_eq!(zellij_direction(ForkPanePlacement::Down), Some("down"));
    assert_eq!(zellij_direction(ForkPanePlacement::Left), None);
    assert_eq!(zellij_direction(ForkPanePlacement::Float), None);
}

#[test]
fn zellij_pane_arguments() {
    let cmd = words(&["codex", "resume", "t"]);
    assert_eq!(
        build_zellij_new_pane_args(&cmd, None),
        words(&["action", "new-pane", "--close-on-exit", "--", "codex", "resume", "t"])
    );
    assert_eq!(
        build_zellij_new_pane_args(&cmd, Some(ForkPanePlacement::Float)),
        words(&["action", "new-pane", "--close-on-exit", "--floating", "--", "codex", "resume", "t"])
    );
    assert_eq!(
        build_zellij_new_pane_args(&cmd, Some(ForkPanePlacement::Down)),
        words(&[
            "action",
            "new-pane",
            "--close-on-exit",
            "--direction",
            "down",
            "--",
            "codex",
            "resume",
            "t"
        ])
    );
}

#[test]
fn tmux_flags_per_placement() {
    assert_eq!(tmux_split_flags(None), ["-h", ""]);
    assert_eq!(tmux_split_flags(Some(ForkPanePlacement::Right)), ["-h", ""]);
    assert_eq!(tmux_split_flags(Some(ForkPanePlacement::Left)), ["-h", "-b"]);
    assert_eq!(tmux_split_flags(Some(ForkPanePlacement::Down)), ["-v", ""]);
    assert_eq!(tmux_split_flags(Some(ForkPanePlacement::Up)), ["-v", "-b"]);
}

#[test]
fn tmux_pane_arguments_quote_the_command() {
    let cmd = words(&["/opt/my codex", "resume", "t"]);
    assert_eq!(
        build_tmux_new_pane_args(&cmd, Some(ForkPanePlacement::Up)),
        words(&["split-window", "-v", "-b", "'/opt/my codex' resume t"])
    );
    assert_eq!(
        build_tmux_new_pane_args(&words(&["codex", "resume", "t"]), None),
        words(&["split-window", "-h", "codex resume t"])
    );
}

#[test]
fn tmux_falls_back_to_plain_join_on_nul() {
    let cmd = words(&["co\0dex", "resume"]);
    assert_eq!(
        build_tmux_new_pane_args(&cmd, None),
        words(&["split-window", "-h", "co\0dex resume"])
    );
}

#[test]
fn spawn_config_per_multiplexer() {
    let z = fork_spawn_config(Multiplexer::Zellij, "codex", "t", Some(ForkPanePlacement::Right));
    assert_eq!(z.program, "zellij");
    assert_eq!(z.description, "Zellij pane");
    assert_eq!(
        z.args,
        words(&[
            "action",
            "new-pane",
            "--close-on-exit",
            "--direction",
            "right",
            "--",
            "codex",
            "resume",
            "t"
        ])
    );
    let t = fork_spawn_config(Multiplexer::Tmux, "codex", "t", None);
    assert_eq!(t.program, "tmux");
    assert_eq!(t.description, "tmux pane");
    assert_eq!(t.args, words(&["split-window", "-h", "codex resume t"]));
}

#[test]
fn placement_validation() {
    assert_eq!(validate_fork_placement(None, None), Ok(()));
    assert_eq!(
        validate_fork_placement(None, Some(ForkPanePlacement::Right)),
        Err("Fork pane placement requires a terminal multiplexer.".to_string())
    );
    assert_eq!(
        validate_fork_placement(Some(Multiplexer::Zellij), Some(ForkPanePlacement::Float)),
        Ok(())
    );
    assert_eq!(
        validate_fork_placement(Some(Multiplexer::Zellij), Some(ForkPanePlacement::Left)),
        Err("Zellij only supports /fork [right|down|float].".to_string())
    );
    assert_eq!(
        validate_fork_placement(Some(Multiplexer::Tmux), Some(ForkPanePlacement::Up)),
        Ok(())
    );
    assert_eq!(
        validate_fork_placement(Some(Multiplexer::Tmux), Some(ForkPanePlacement::Float)),
        Err("tmux does not support /fork float.".to_string())
    );
}
