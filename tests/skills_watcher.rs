use turn_engine::skills_watcher::SkillsDebounce;
use turn_engine::skills_watcher::is_skill_event;
use turn_engine::skills_watcher::is_skills_root_path;

fn roots() -> Vec<String> {
    vec!["/home/u/.codex/skills".to_string(), "/repo/.codex/skills".to_string()]
}

#[test]
fn paths_under_a_root_are_skill_paths() {
    assert!(is_skills_root_path("/home/u/.codex/skills/foo/SKILL.md", &roots()));
    assert!(is_skills_root_path("/repo/.codex/skills", &roots()));
}

#[test]
fn prefix_match_is_by_component() {
    assert!(!is_skills_root_path("/home/u/.codex/skillset/x", &roots()));
}

#[test]
fn a_skills_component_anywhere_counts() {
    assert!(is_skills_root_path("/elsewhere/skills/a.md", &[]));
    assert!(!is_skills_root_path("/elsewhere/myskills/a.md", &[]));
}

#[test]
fn access_events_never_count() {
    let paths = vec!["/repo/.codex/skills/a".to_string()];
    assert!(!is_skill_event(true, &paths, &roots()));
    assert!(is_skill_event(false, &paths, &roots()));
    assert!(!is_skill_event(false, &["/tmp/x".to_string()], &roots()));
    assert!(!is_skill_event(false, &[], &roots()));
}

#[test]
fn debounce_announces_once_after_the_quiet_window() {
    let mut d = SkillsDebounce::new(0);
    assert!(!d.pending);
    d.on_event(false, 10);
    assert!(!d.pending);
    d.on_event(true, 100);
    assert!(d.pending);
    assert_eq!(d.next_emit_ms, 350);
    d.on_event(true, 200);
    assert_eq!(d.next_emit_ms, 450);
    assert!(d.on_deadline());
    assert!(!d.on_deadline());
    d.on_event(true, u64::MAX - 10);
    assert_eq!(d.next_emit_ms, u64::MAX);
}
