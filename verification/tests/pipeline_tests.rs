use cpr::errors::{ProjectInitError, RenderError};
use cpr::format::EnvValue;
use cpr::pipeline::{
    advance, classify_clone_error, run_walk, sort_paths, ErrorPolicy, FileAction, FileEntry,
    ReadFailureChoice, ScaffoldPhase, WalkEnd,
};
use cpr::render::ValueEnv;

fn readable(path: &str, content: &str) -> FileEntry {
    FileEntry {
        path: path.to_string(),
        content: Some(content.to_string()),
    }
}

fn unreadable(path: &str) -> FileEntry {
    FileEntry {
        path: path.to_string(),
        content: None,
    }
}

fn env_with_v() -> ValueEnv {
    let mut env = ValueEnv::new();
    env.bind("v".to_string(), EnvValue::Text("ok".to_string()));
    env
}

#[test]
fn skip_all_choice_skips_the_failure_and_renders_the_rest() {
    let files = vec![unreadable("a.txt"), readable("b.txt", "value: {{ v }}")];
    let env = env_with_v();
    let mut policy = ErrorPolicy::new();
    let choices = vec![ReadFailureChoice::SkipAll];
    let result = run_walk(&files, &env, &mut policy, &choices);
    // a.txt is left untouched, b.txt rendered, and the run completes
    assert_eq!(result.skipped, vec!["a.txt".to_string()]);
    assert_eq!(result.rendered.len(), 1);
    assert_eq!(result.rendered[0].path, "b.txt");
    assert_eq!(result.rendered[0].text, "value: ok");
    assert!(matches!(result.outcome, WalkEnd::Completed));
    assert!(policy.skip_all);
}

#[test]
fn later_failures_skip_silently_once_skip_all_is_armed() {
    let files = vec![
        unreadable("a.txt"),
        unreadable("b.txt"),
        readable("c.txt", "{{ v }}"),
    ];
    let env = env_with_v();
    let mut policy = ErrorPolicy::new();
    // one choice only: the second failure must not consume another
    let choices = vec![ReadFailureChoice::SkipAll];
    let result = run_walk(&files, &env, &mut policy, &choices);
    assert_eq!(result.skipped, vec!["a.txt".to_string(), "b.txt".to_string()]);
    assert_eq!(result.rendered.len(), 1);
    assert!(matches!(result.outcome, WalkEnd::Completed));
}

#[test]
fn skip_once_prompts_again_on_the_next_failure() {
    let files = vec![unreadable("a.txt"), unreadable("b.txt")];
    let env = ValueEnv::new();
    let mut policy = ErrorPolicy::new();
    let choices = vec![ReadFailureChoice::SkipOnce, ReadFailureChoice::SkipOnce];
    let result = run_walk(&files, &env, &mut policy, &choices);
    assert_eq!(result.skipped.len(), 2);
    assert!(matches!(result.outcome, WalkEnd::Completed));
    assert!(!policy.skip_all);
}

#[test]
fn abort_choice_ends_the_walk_with_the_failing_file() {
    let files = vec![
        readable("a.txt", "fine"),
        unreadable("b.txt"),
        readable("c.txt", "never rendered"),
    ];
    let env = ValueEnv::new();
    let mut policy = ErrorPolicy::new();
    let choices = vec![ReadFailureChoice::Abort];
    let result = run_walk(&files, &env, &mut policy, &choices);
    assert_eq!(result.rendered.len(), 1);
    assert_eq!(result.rendered[0].path, "a.txt");
    match &result.outcome {
        WalkEnd::Aborted(path) => assert_eq!(path, "b.txt"),
        other => panic!("expected abort, got {:?} rendered files", matches!(other, WalkEnd::Completed)),
    }
}

#[test]
fn render_failure_is_fatal() {
    let files = vec![
        readable("a.txt", "{{ missing }}"),
        readable("b.txt", "never reached"),
    ];
    let env = ValueEnv::new();
    let mut policy = ErrorPolicy::new();
    let result = run_walk(&files, &env, &mut policy, &vec![]);
    assert!(result.rendered.is_empty());
    match &result.outcome {
        WalkEnd::RenderFailed(path, e) => {
            assert_eq!(path, "a.txt");
            assert_eq!(*e, RenderError::MissingValue);
        }
        _ => panic!("expected a fatal render failure"),
    }
}

#[test]
fn walk_without_choices_aborts_when_a_prompt_is_needed() {
    let files = vec![unreadable("a.txt")];
    let env = ValueEnv::new();
    let mut policy = ErrorPolicy::new();
    let result = run_walk(&files, &env, &mut policy, &vec![]);
    assert!(matches!(result.outcome, WalkEnd::Aborted(_)));
}

#[test]
fn policy_transitions() {
    let mut policy = ErrorPolicy::new();
    assert!(policy.needs_prompt());
    assert!(matches!(
        policy.apply_choice(ReadFailureChoice::SkipOnce),
        FileAction::Skip
    ));
    assert!(policy.needs_prompt());
    assert!(matches!(
        policy.apply_choice(ReadFailureChoice::SkipAll),
        FileAction::Skip
    ));
    assert!(!policy.needs_prompt());
    assert!(matches!(
        policy.apply_choice(ReadFailureChoice::Abort),
        FileAction::Abort
    ));
}

#[test]
fn sort_paths_orders_lexicographically() {
    let paths = vec![
        "src/main.c".to_string(),
        "Makefile".to_string(),
        "README.md".to_string(),
        "src/lib.c".to_string(),
        "Makefile".to_string(),
    ];
    let sorted = sort_paths(paths);
    assert_eq!(
        sorted,
        vec![
            "Makefile".to_string(),
            "Makefile".to_string(),
            "README.md".to_string(),
            "src/lib.c".to_string(),
            "src/main.c".to_string(),
        ]
    );
}

#[test]
fn sort_paths_of_empty_is_empty() {
    assert!(sort_paths(vec![]).is_empty());
}

#[test]
fn clone_errors_are_classified_by_message() {
    assert!(matches!(
        classify_clone_error("remote: repository not found"),
        ProjectInitError::GitRepoNotFound
    ));
    assert!(matches!(
        classify_clone_error("connection refused"),
        ProjectInitError::GitCloneFail
    ));
}

#[test]
fn phases_advance_through_the_chain() {
    let mut p = ScaffoldPhase::Resolving;
    for expected in [
        ScaffoldPhase::Cloning,
        ScaffoldPhase::SchemaCheck,
        ScaffoldPhase::Prompting,
        ScaffoldPhase::Walking,
        ScaffoldPhase::Cleanup,
        ScaffoldPhase::Done,
        ScaffoldPhase::Done,
    ] {
        p = advance(p, true);
        assert_eq!(p, expected);
    }
}

#[test]
fn hard_errors_are_terminal_except_during_cleanup() {
    assert_eq!(advance(ScaffoldPhase::Cloning, false), ScaffoldPhase::Failed);
    assert_eq!(advance(ScaffoldPhase::Walking, false), ScaffoldPhase::Failed);
    assert_eq!(advance(ScaffoldPhase::Failed, true), ScaffoldPhase::Failed);
    // a cleanup failure is only a warning: the run still finishes
    assert_eq!(advance(ScaffoldPhase::Cleanup, false), ScaffoldPhase::Done);
}
