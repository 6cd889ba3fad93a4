use bench_runner::dispatch::{
    join_path, recipe_for, registry, BuildAction, BuildJob, BuildStep, Strategy,
};
use bench_runner::discovery::same_text;

fn done_target(a: &BuildAction) -> Option<Option<String>> {
    match a {
        BuildAction::Done { target } => Some(target.clone()),
        _ => None,
    }
}

#[test]
fn unknown_language_is_not_runnable() {
    let (job, action) = BuildJob::begin("zig", "b/zig");
    assert_eq!(job.step, BuildStep::Finished);
    assert_eq!(done_target(&action), Some(None));
}

#[test]
fn missing_source_is_not_runnable() {
    for lang in ["c", "bmb"] {
        let dir = format!("benches/compute/fib/{}", lang);
        let (mut job, action) = BuildJob::begin(lang, &dir);
        match &action {
            BuildAction::CheckExists { path } => {
                assert!(path.starts_with(&dir));
            }
            _ => panic!("expected a source check"),
        }
        let next = job.advance(false);
        assert_eq!(job.step, BuildStep::Finished);
        assert_eq!(done_target(&next), Some(None));
    }
}

#[test]
fn c_is_compiled_with_gcc() {
    let (mut job, action) = BuildJob::begin("c", "d/c");
    match action {
        BuildAction::CheckExists { path } => assert_eq!(path, "d/c/main.c"),
        _ => panic!("expected a source check"),
    }
    match job.advance(true) {
        BuildAction::Run { program, args } => {
            assert_eq!(program, "gcc");
            assert_eq!(args, vec!["-O3", "-o", "d/c/main", "d/c/main.c"]);
        }
        _ => panic!("expected a compiler run"),
    }
    assert_eq!(job.step, BuildStep::Compiling);
    let done = job.advance(true);
    assert_eq!(done_target(&done), Some(Some("d/c/main".to_string())));
}

#[test]
fn failed_c_compile_is_not_runnable() {
    let (mut job, _) = BuildJob::begin("c", "d/c");
    job.advance(true);
    let done = job.advance(false);
    assert_eq!(done_target(&done), Some(None));
    assert_eq!(job.step, BuildStep::Finished);
}

#[test]
fn bmb_native_build_is_preferred() {
    let (mut job, _) = BuildJob::begin("bmb", "d/bmb");
    match job.advance(true) {
        BuildAction::Run { program, args } => {
            assert_eq!(program, "bmb");
            assert_eq!(args, vec!["build", "-o", "d/bmb/main", "d/bmb/main.bmb"]);
        }
        _ => panic!("expected a toolchain build"),
    }
    let done = job.advance(true);
    assert_eq!(done_target(&done), Some(Some("d/bmb/main".to_string())));
}

#[test]
fn bmb_falls_back_to_interpreter_wrapper() {
    let (mut job, _) = BuildJob::begin("bmb", "d/bmb");
    job.advance(true);
    match job.advance(false) {
        BuildAction::WriteScript { path, contents } => {
            assert_eq!(path, "d/bmb/run.sh");
            assert_eq!(contents, "#!/bin/sh\nbmb run d/bmb/main.bmb\n");
        }
        _ => panic!("expected a wrapper script"),
    }
    match job.advance(true) {
        BuildAction::MarkExecutable { path } => assert_eq!(path, "d/bmb/run.sh"),
        _ => panic!("expected the wrapper to be made executable"),
    }
    let done = job.advance(true);
    assert_eq!(done_target(&done), Some(Some("d/bmb/run.sh".to_string())));
}

#[test]
fn wrapper_write_failure_is_not_runnable() {
    let (mut job, _) = BuildJob::begin("bmb", "d/bmb");
    job.advance(true);
    job.advance(false);
    assert_eq!(done_target(&job.advance(false)), Some(None));
}

#[test]
fn wrapper_permission_failure_is_not_runnable() {
    let (mut job, _) = BuildJob::begin("bmb", "d/bmb");
    job.advance(true);
    job.advance(false);
    job.advance(true);
    assert_eq!(done_target(&job.advance(false)), Some(None));
}

#[test]
fn registry_holds_c_and_bmb() {
    let reg = registry();
    assert_eq!(reg.len(), 2);
    assert_eq!(reg[0].language, "c");
    assert_eq!(reg[0].strategy, Strategy::Compiled);
    assert_eq!(reg[1].language, "bmb");
    assert_eq!(reg[1].strategy, Strategy::Toolchain);
    assert_eq!(recipe_for("bmb").map(|r| r.source_file), Some("main.bmb".to_string()));
    assert!(recipe_for("python").is_none());
}

#[test]
fn text_helpers() {
    assert!(same_text("c", "c"));
    assert!(!same_text("c", "cc"));
    assert!(!same_text("bmb", "bmc"));
    assert_eq!(join_path("a/b", "main.c"), "a/b/main.c");
}
