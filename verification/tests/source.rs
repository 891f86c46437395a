use sx::duration::GRANT_TTL_SECS;
use sx::paths::FilePath;
use sx::source::{
    allow_all_prompt, build_sources, first_run_prompt, per_command_prompt, Source,
    AWS_SOURCE_PREFIX,
};

#[test]
fn aws_source_uses_profile_in_prompts_and_key() {
    let src = Source::Aws {
        key: format!("{AWS_SOURCE_PREFIX}prod"),
        profile: "prod".to_string(),
    };
    assert_eq!(src.key(), "aws:prod");
    let ttl = GRANT_TTL_SECS;
    let first = first_run_prompt(&src, Some(&["cmd".to_string()]), ttl);
    assert!(first.contains("AWS credentials for profile:\n  prod"));
    assert!(first.contains("This command will run:\n  cmd"));
    assert!(allow_all_prompt(&src, ttl).contains("AWS credentials for profile:\n  prod"));
    assert!(per_command_prompt(&src, &["cmd".to_string()])
        .contains("with AWS credentials for profile:\n  prod"));
}

#[test]
fn env_source_keeps_existing_prompt_wording() {
    let src = Source::Env {
        key: "/tmp/.env".to_string(),
        path: FilePath::from_text("/tmp/.env"),
    };
    assert_eq!(src.key(), "/tmp/.env");
    let ttl = GRANT_TTL_SECS;
    assert!(first_run_prompt(&src, None, ttl).contains("secrets in:\n  /tmp/.env"));
    assert!(per_command_prompt(&src, &["x".to_string()])
        .contains("with secrets from:\n  /tmp/.env"));
}

#[test]
fn prompts_reflect_the_chosen_lease() {
    let src = Source::Env {
        key: "/tmp/.env".to_string(),
        path: FilePath::from_text("/tmp/.env"),
    };
    assert!(first_run_prompt(&src, None, GRANT_TTL_SECS).contains("for 1 hour."));
    assert!(allow_all_prompt(&src, 86_400).contains("for 1 day,"));
    assert!(allow_all_prompt(&src, 1800).contains("for 30 minutes,"));
}

#[test]
fn prompts_have_their_exact_wording() {
    let src = Source::aws("prod");
    let argv = ["gh".to_string(), "pr".to_string(), "create".to_string()];
    assert_eq!(
        first_run_prompt(&src, Some(&argv), 3600),
        "Grant access to AWS credentials for profile:\n  prod\nfor 1 hour.\nThis command will run:\n  gh pr create"
    );
    assert_eq!(
        first_run_prompt(&src, None, 60),
        "Grant access to AWS credentials for profile:\n  prod\nfor 1 minute."
    );
    assert_eq!(
        per_command_prompt(&src, &argv),
        "Run command:\n  gh pr create\nwith AWS credentials for profile:\n  prod"
    );
    assert_eq!(
        allow_all_prompt(&src, 7200),
        "Allow ALL commands to use AWS credentials for profile:\n  prod\nfor 2 hours, without confirming each one."
    );
}

#[test]
fn files_come_before_profiles() {
    let files = vec![FilePath::from_text("/b/.env"), FilePath::from_text("/a/.env")];
    let profiles = vec!["y".to_string(), "x".to_string()];
    let sources = build_sources(&files, &profiles);
    let keys: Vec<&str> = sources.iter().map(|s| s.key()).collect();
    assert_eq!(keys, ["/b/.env", "/a/.env", "aws:y", "aws:x"]);
}

#[test]
fn a_path_that_is_not_text_is_shown_with_replacements() {
    let src = Source::env(FilePath::from_bytes(vec![b'/', 0xff, b'x']));
    assert_eq!(src.key(), "/\u{fffd}x");
    assert_eq!(src.subject(), "secrets in:\n  /\u{fffd}x");
    assert_eq!(src.subject_from(), "secrets from:\n  /\u{fffd}x");
    match src.copy() {
        Source::Env { key, path } => {
            assert_eq!(key, "/\u{fffd}x");
            assert_eq!(path.as_bytes(), [b'/', 0xff, b'x']);
        }
        other => panic!("unexpected {other:?}"),
    }
}

#[test]
fn paths_join_as_the_system_joins_them() {
    let join = |base: &str, rel: &str| {
        String::from_utf8(FilePath::from_text(base).join(rel).as_bytes().to_vec()).unwrap()
    };
    for (base, rel) in [("/a", "b"), ("/a/", "b"), ("/a", "/b"), ("", "b"), ("/a", ""), ("a/b", "c/d")] {
        let expected = std::path::Path::new(base).join(rel);
        assert_eq!(join(base, rel), expected.to_str().unwrap());
    }
}

#[test]
fn absolute_paths_are_never_profile_keys() {
    for path in ["/aws:prod", "/w/aws:prod", "/"] {
        let src = Source::env(FilePath::from_text(path));
        assert_eq!(src.key(), path);
        assert!(!src.key().starts_with(AWS_SOURCE_PREFIX));
    }
    let odd = Source::env(FilePath::from_bytes(vec![b'/', 0xf0, 0x9f, b'a']));
    assert!(odd.key().starts_with('/'));
    assert!(Source::aws("prod").key().starts_with(AWS_SOURCE_PREFIX));
}
