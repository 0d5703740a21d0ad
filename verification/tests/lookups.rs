use pipeline_service::parse_error::ParseErrorKind;
use pipeline_service::task_cache::{
    create_builtin_task_stub, SourceStep, TaskCache, TaskCacheConfig, TaskCacheError, TaskLookup, TaskSource,
};
use pipeline_service::template::TemplateEngine;
use std::path::PathBuf;

fn engine() -> TemplateEngine {
    TemplateEngine::new(PathBuf::from("/repo")).with_resource_repo("templates".to_string(), PathBuf::from("/other"))
}

#[test]
fn local_reference_has_one_candidate_under_the_root() {
    let c = engine().template_candidates("steps/build.yml");
    assert_eq!(c, vec![(PathBuf::from("/repo/steps/build.yml"), true)]);
}

#[test]
fn repository_named_first_is_the_only_candidate() {
    let c = engine().template_candidates("templates@jobs/test.yml");
    assert_eq!(c, vec![(PathBuf::from("/other/jobs/test.yml"), true)]);
}

#[test]
fn path_at_repository_tries_the_repository_then_the_root() {
    let c = engine().template_candidates("steps/build.yml@templates");
    assert_eq!(
        c,
        vec![
            (PathBuf::from("/other/steps/build.yml"), false),
            (PathBuf::from("/repo/steps/build.yml@templates"), true),
        ]
    );
}

#[test]
fn unknown_repository_falls_back_to_the_root() {
    let c = engine().template_candidates("a.yml@nowhere");
    assert_eq!(c, vec![(PathBuf::from("/repo/a.yml@nowhere"), true)]);
}

#[test]
fn located_gives_the_hit() {
    let e = engine();
    let p = e.located("steps/build.yml@templates", Some(1)).unwrap();
    assert_eq!(p, PathBuf::from("/repo/steps/build.yml@templates"));
    let p = e.located("steps/build.yml@templates", Some(0)).unwrap();
    assert_eq!(p, PathBuf::from("/other/steps/build.yml"));
}

#[test]
fn missing_template_in_repository_error() {
    let err = engine().located("templates@jobs/test.yml", None).unwrap_err();
    assert_eq!(err.kind, ParseErrorKind::TemplateError);
    assert_eq!(
        err.message,
        "template error in 'templates@jobs/test.yml': template 'jobs/test.yml' not found in repository 'templates' (looked in /other/jobs/test.yml)"
    );
}

#[test]
fn missing_local_template_error() {
    let err = engine().located("steps/missing.yml", Some(3)).unwrap_err();
    assert_eq!(
        err.message,
        "template error in 'steps/missing.yml': template 'steps/missing.yml' not found (looked in /repo/steps/missing.yml)"
    );
}

fn cache(allow_download: bool, task_sources: Vec<TaskSource>) -> TaskCache {
    TaskCache::with_config(TaskCacheConfig { cache_dir: PathBuf::from("/cache"), allow_download, task_sources })
}

#[test]
fn cache_key_joins_name_and_version() {
    assert_eq!(TaskCache::cache_key("Bash", "3"), "Bash@3");
}

#[test]
fn lookup_prefers_loaded_then_disk() {
    let c = cache(true, vec![TaskSource::AzureDevOps]);
    assert!(matches!(c.lookup_step("Bash", "3", true, true), TaskLookup::Cached));
    match c.lookup_step("Bash", "3", false, true) {
        TaskLookup::LoadFromDisk(p) => assert_eq!(p, PathBuf::from("/cache/Bash/3")),
        other => panic!("unexpected {:?}", other),
    }
    assert!(matches!(c.lookup_step("Bash", "3", false, false), TaskLookup::Download));
}

#[test]
fn lookup_without_downloads_is_not_found() {
    let c = cache(false, vec![]);
    match c.lookup_step("Bash", "3", false, false) {
        TaskLookup::NotFound(TaskCacheError::TaskNotFound(n, v)) => {
            assert_eq!(n, "Bash");
            assert_eq!(v, "3");
        },
        other => panic!("unexpected {:?}", other),
    }
}

#[test]
fn sources_are_tried_in_order_until_one_gives_the_task() {
    let c = cache(true, vec![TaskSource::LocalDir(PathBuf::from("/tasks")), TaskSource::AzureDevOps]);
    assert!(matches!(c.download_step("Bash", "3", &vec![]), SourceStep::Try(0)));
    assert!(matches!(c.download_step("Bash", "3", &vec![false]), SourceStep::Try(1)));
    assert!(matches!(c.download_step("Bash", "3", &vec![true]), SourceStep::Fetched(0)));
    assert!(matches!(c.download_step("Bash", "3", &vec![false, true]), SourceStep::Fetched(1)));
    match c.download_step("Bash", "3", &vec![false, false]) {
        SourceStep::NotFound(TaskCacheError::TaskNotFound(n, v)) => {
            assert_eq!(n, "Bash");
            assert_eq!(v, "3");
        },
        other => panic!("unexpected {:?}", other),
    }
}

#[test]
fn stub_inputs_carry_no_extras() {
    let m = create_builtin_task_stub("Bash", "3").unwrap();
    assert!(!m.inputs.is_empty());
    for i in &m.inputs {
        assert!(i.help_mark_down.is_none());
        assert!(i.group_name.is_none());
        assert!(i.options.is_none());
        assert!(i.properties.is_none());
        assert!(i.validation.is_none());
        assert!(i.aliases.is_none());
    }
}
