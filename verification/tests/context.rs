use harness::context::{
    ContextCache, ContextDirectories, ContextError, FileSignature, SessionContext, builtin_agents,
    civil_date_from_days, clear_context_directories, compose_system_prompt,
    configure_context_directories, current_time_shanghai, join_documents, non_empty_path,
};

#[test]
fn civil_dates_of_known_days() {
    assert_eq!(civil_date_from_days(0), (1970, 1, 1));
    assert_eq!(civil_date_from_days(-1), (1969, 12, 31));
    assert_eq!(civil_date_from_days(59), (1970, 3, 1));
    assert_eq!(civil_date_from_days(11_016), (2000, 2, 29));
    assert_eq!(civil_date_from_days(19_782), (2024, 2, 29));
    assert_eq!(civil_date_from_days(20_000), (2024, 10, 4));
}

#[test]
fn shanghai_time_is_eight_hours_ahead() {
    assert_eq!(current_time_shanghai(0), "1970-01-01 08:00:00");
    assert_eq!(current_time_shanghai(1_700_000_000), "2023-11-15 06:13:20");
    assert_eq!(current_time_shanghai(57_599), "1970-01-01 23:59:59");
    assert_eq!(current_time_shanghai(57_600), "1970-01-02 00:00:00");
}

#[test]
fn builds_prompt_in_section_order() {
    let prompt = compose_system_prompt("NOW", "B\nA", "", "summary");
    let builtin = builtin_agents("NOW");
    assert!(builtin.contains("当前时间`YYYY-MM-DD HH:mm:ss`：NOW\n"));
    assert!(!builtin.contains("{{current_time}}"));
    assert_eq!(
        prompt,
        format!(
            "===以下是关于你的介绍===\n{builtin}B\nA\n\n===以下是关于用户的介绍===\n\n===历史会话记录摘要===\nsummary"
        )
    );
    assert!(prompt.starts_with("===以下是关于你的介绍===\n## 身份\n"));
    assert!(prompt.ends_with("B\nA\n\n===以下是关于用户的介绍===\n\n===历史会话记录摘要===\nsummary"));
}

#[test]
fn documents_are_joined_by_line_breaks() {
    assert_eq!(join_documents(&vec!["B".to_string(), "A".to_string()]), "B\nA");
    assert_eq!(join_documents(&vec![]), "");
    assert_eq!(join_documents(&vec!["only".to_string()]), "only");
}

#[test]
fn unset_directories_contribute_nothing() {
    let directories = ContextDirectories::default();
    let failed = || Err(ContextError::ReadFile { path: "x".into(), source: "gone".into() });
    let prompt = directories.build_system_prompt("s", "T", failed(), failed()).unwrap();
    assert_eq!(prompt, compose_system_prompt("T", "", "", "s"));
}

#[test]
fn first_failed_read_is_reported() {
    let directories = ContextDirectories {
        agents_directory: Some("agents".into()),
        persona_directory: Some("persona".into()),
    };
    let agents_error = ContextError::ReadDirectory { path: "agents".into(), source: "denied".into() };
    let persona_error = ContextError::InvalidUtf8 { path: "persona/p.md".into(), source: "bad".into() };
    assert_eq!(
        directories.build_system_prompt("", "T", Err(agents_error.clone()), Err(persona_error.clone())),
        Err(agents_error)
    );
    assert_eq!(
        SessionContext::initialize(&directories, "", "T", Ok("A".into()), Err(persona_error.clone()))
            .err(),
        Some(persona_error)
    );
    let context =
        SessionContext::initialize(&directories, "h", "T", Ok("A".into()), Ok("P".into())).unwrap();
    assert_eq!(context.system_prompt, compose_system_prompt("T", "A", "P", "h"));
}

#[test]
fn context_errors_render_their_path() {
    let error = ContextError::ReadFile { path: "a/b.md".into(), source: "denied".into() };
    assert_eq!(error.to_string(), "failed to read context file 'a/b.md': denied");
    let error = ContextError::ReadDirectory { path: "a".into(), source: "missing".into() };
    assert_eq!(error.to_string(), "failed to read context directory 'a': missing");
    let error = ContextError::InvalidUtf8 { path: "c".into(), source: "byte 3".into() };
    assert_eq!(error.to_string(), "context file 'c' is not UTF-8: byte 3");
}

#[test]
fn blank_paths_disable_directories() {
    assert_eq!(non_empty_path("  \t".into()), None);
    assert_eq!(non_empty_path(" dir ".into()), Some(" dir ".into()));
    let mut directories = ContextDirectories::default();
    let mut cache = ContextCache::default();
    configure_context_directories(&mut directories, &mut cache, "agents".into(), " ".into());
    assert_eq!(directories.agents_directory, Some("agents".into()));
    assert_eq!(directories.persona_directory, None);
    clear_context_directories(&mut directories, &mut cache);
    assert_eq!(directories, ContextDirectories::default());
}

#[test]
fn cache_answers_only_for_the_same_files() {
    let mut cache = ContextCache::default();
    let signature = vec![FileSignature { path: "a.md".into(), length: 3, modified: Some(7) }];
    assert_eq!(cache.agents.lookup(&Some("dir".into()), &signature), None);
    cache.agents.store(Some("dir".into()), signature.clone(), "abc".into());
    assert_eq!(cache.agents.lookup(&Some("dir".into()), &signature), Some("abc".into()));
    let touched = vec![FileSignature { path: "a.md".into(), length: 3, modified: Some(8) }];
    assert_eq!(cache.agents.lookup(&Some("dir".into()), &touched), None);
    assert_eq!(cache.agents.lookup(&Some("other".into()), &signature), None);
    assert_eq!(cache.persona.lookup(&None, &vec![]), Some(String::new()));
}
