use sx::aws::{
    aws_cli_configured, aws_cli_probed, config_read, mint_aws, parse_env_no_export, Fetch, Output,
};
use sx::env_file::read_env;
use sx::paths::FilePath;
use sx::proto::Response;
use sx::source::Source;
use sx::vars::Vars;

fn out(success: bool, stdout: &[u8], stderr: &[u8]) -> Output {
    Output { success, stdout: stdout.to_vec(), stderr: stderr.to_vec() }
}

#[test]
fn parses_env_no_export_lines() {
    let out = "AWS_ACCESS_KEY_ID=AKIA123\n\
               AWS_SECRET_ACCESS_KEY=secret/with+slashes\n\
               AWS_SESSION_TOKEN=tok==\n\
               AWS_CREDENTIAL_EXPIRATION=2026-01-01T00:00:00Z\n";
    let map = parse_env_no_export(out);
    assert_eq!(map.get("AWS_ACCESS_KEY_ID").unwrap(), "AKIA123");
    assert_eq!(map.get("AWS_SECRET_ACCESS_KEY").unwrap(), "secret/with+slashes");
    // A value containing `=` is preserved after the first split.
    assert_eq!(map.get("AWS_SESSION_TOKEN").unwrap(), "tok==");
    assert_eq!(map.get("AWS_CREDENTIAL_EXPIRATION").unwrap(), "2026-01-01T00:00:00Z");
    assert_eq!(map.len(), 4);
}

#[test]
fn skips_blank_and_malformed_lines() {
    let map = parse_env_no_export("\n  \nNOEQUALS\nA=1\n");
    assert_eq!(map.len(), 1);
    assert_eq!(map.get("A").unwrap(), "1");
}

#[test]
fn exported_names_are_trimmed_and_later_lines_win() {
    let map = parse_env_no_export("  A = 1\r\nA=2\n=x\nB=\n\r\nC=3");
    assert_eq!(map.get("A").unwrap(), "2");
    assert_eq!(map.get("").unwrap(), "x");
    assert_eq!(map.get("B").unwrap(), "");
    assert_eq!(map.get("C").unwrap(), "3");
    assert_eq!(map.len(), 4);
    // The whitespace after `=` belongs to the value.
    assert_eq!(parse_env_no_export("A = 1").get("A").unwrap(), " 1");
}

#[test]
fn exported_values_keep_their_blanks() {
    let map = parse_env_no_export("A= x \n B =\t\r\nC=y  ");
    assert_eq!(map.get("A").unwrap(), " x ");
    assert_eq!(map.get("B").unwrap(), "\t");
    assert_eq!(map.get("C").unwrap(), "y  ");
    assert_eq!(map.len(), 3);
}

#[test]
fn lines_count_one_by_one() {
    let texts = ["", "A=1", "A=1\n", "B=2\nA=3", "NOEQUALS", "\n\n", "C= x \r\nA=", "  ", "A=1\r\n"];
    for a in texts {
        for b in texts {
            let both = parse_env_no_export(&format!("{a}\n{b}"));
            let mut list = parse_env_no_export(a).entries();
            list.extend(parse_env_no_export(b).entries());
            assert_eq!(both.entries(), Vars::from_pairs(&list).entries(), "{a:?} {b:?}");
        }
    }
    // A carriage return before the line break is part of it.
    assert_eq!(parse_env_no_export("A=1\r").get("A").unwrap(), "1\r");
    assert_eq!(parse_env_no_export("A=1\r\nB=2").get("A").unwrap(), "1");
}

#[test]
fn a_dollar_elsewhere_leaves_the_values_alone() {
    let text = b"# cost $5\nAPI_KEY=abc\nP='$x'\n".to_vec();
    let values = read_env("/p/.env", Ok(text)).unwrap();
    assert_eq!(values.get("API_KEY").unwrap(), "abc");
    assert_eq!(values.get("P").unwrap(), "$x");
}

#[test]
fn the_names_do_not_depend_on_the_environment() {
    let text = b"A=$SXUNSETVAR/x\nB_1.c=1\nexport D=\"$A-${A}\"\nE=\\$x\n".to_vec();
    let values = read_env("/p/.env", Ok(text)).unwrap();
    assert_eq!(values.names(), ["A", "B_1.c", "D", "E"]);
    assert_eq!(values.get("B_1.c").unwrap(), "1");
    assert_eq!(values.get("E").unwrap(), "$x");
    match read_env("/p/.env", Ok(b"A=$x\nB=${y\n".to_vec())) {
        Err(Response::Error { message }) => assert_eq!(
            message,
            "reading /p/.env: Error parsing line: '${y', error at line index: 2"
        ),
        other => panic!("unexpected {other:?}"),
    }
}

#[test]
fn the_override_is_probed_before_the_config_is_read() {
    let src = Source::aws("prod");
    match src.values(Some(FilePath::from_text("/opt/aws"))) {
        Fetch::Probe { path, profile } => {
            assert_eq!(path.as_bytes(), b"/opt/aws");
            assert_eq!(profile, "prod");
        }
        other => panic!("unexpected {other:?}"),
    }
    assert!(matches!(src.values(Some(FilePath::from_text(""))), Fetch::ReadConfig { .. }));
    assert!(matches!(src.values(None), Fetch::ReadConfig { .. }));
    match Source::env(FilePath::from_text("/p/.env")).values(Some(FilePath::from_text("/opt/aws"))) {
        Fetch::ReadFile { path, key } => {
            assert_eq!(path.as_bytes(), b"/p/.env");
            assert_eq!(key, "/p/.env");
        }
        other => panic!("unexpected {other:?}"),
    }
}

#[test]
fn the_configured_path_is_probed() {
    let file = b"other=1\naws_cli_path=/usr/local/bin/aws\n".to_vec();
    match config_read(Ok(Some(file)), "prod") {
        Fetch::Probe { path, profile } => {
            assert_eq!(path.as_bytes(), b"/usr/local/bin/aws");
            assert_eq!(profile, "prod");
        }
        other => panic!("unexpected {other:?}"),
    }
}

#[test]
fn a_missing_setting_is_reported() {
    let expected = "AWS CLI path is not configured; run `sxd setup` (or `sxd install`) to record it in ~/.sx/config.";
    for file in [None, Some(b"other=1\n".to_vec())] {
        match config_read(Ok(file), "prod") {
            Fetch::Ready { values: Err(Response::Error { message }) } => {
                assert_eq!(message, expected)
            }
            other => panic!("unexpected {other:?}"),
        }
    }
}

#[test]
fn an_unreadable_config_is_reported() {
    match config_read(Err("$HOME is not set".to_string()), "prod") {
        Fetch::Ready { values: Err(Response::Error { message }) } => {
            assert_eq!(message, "cannot read ~/.sx/config: $HOME is not set; run `sxd setup`.")
        }
        other => panic!("unexpected {other:?}"),
    }
    match config_read(Ok(Some(b"not an assignment\n".to_vec())), "prod") {
        Fetch::Ready { values: Err(Response::Error { message }) } => assert_eq!(
            message,
            "cannot read ~/.sx/config: Error parsing line: 'not an assignment', error at line index: 4; run `sxd setup`."
        ),
        other => panic!("unexpected {other:?}"),
    }
    assert!(matches!(
        aws_cli_configured(Ok(None), "prod"),
        Fetch::Ready { values: Err(Response::Error { .. }) }
    ));
}

#[test]
fn only_an_executable_is_spawned() {
    match aws_cli_probed(FilePath::from_text("/opt/aws"), true, "prod") {
        Fetch::Spawn { path, args, profile } => {
            assert_eq!(path.as_bytes(), b"/opt/aws");
            assert_eq!(
                args,
                ["configure", "export-credentials", "--profile", "prod", "--format", "env-no-export"]
            );
            assert_eq!(profile, "prod");
        }
        other => panic!("unexpected {other:?}"),
    }
    match aws_cli_probed(FilePath::from_text("/opt/aws"), false, "prod") {
        Fetch::Ready { values: Err(Response::Error { message }) } => assert_eq!(
            message,
            "configured aws CLI path /opt/aws does not exist or isn't executable; re-run `sxd setup` (the CLI may have moved)."
        ),
        other => panic!("unexpected {other:?}"),
    }
}

#[test]
fn minting_keeps_stderr_out_of_the_values() {
    let aws = FilePath::from_text("/opt/aws");
    let values = mint_aws(&aws, "prod", Ok(out(true, b"A=1\n", b"B=2\n"))).unwrap();
    assert_eq!(values.len(), 1);
    assert_eq!(values.get("A").unwrap(), "1");
    match mint_aws(&aws, "prod", Ok(out(false, b"A=1\n", b"  token expired\n"))) {
        Err(Response::Denied { reason }) => assert_eq!(
            reason,
            "aws could not export credentials for profile prod: token expired"
        ),
        other => panic!("unexpected {other:?}"),
    }
    match mint_aws(&aws, "prod", Err("No such file or directory (os error 2)".to_string())) {
        Err(Response::Error { message }) => assert_eq!(
            message,
            "cannot run `/opt/aws` to mint credentials for profile prod: No such file or directory (os error 2) (re-run `sxd setup` — the AWS CLI may have moved)"
        ),
        other => panic!("unexpected {other:?}"),
    }
}

#[test]
fn minted_output_that_is_not_text_is_replaced() {
    let aws = FilePath::from_text("/opt/aws");
    let values = mint_aws(&aws, "p", Ok(out(true, b"A=\xff!\n", b""))).unwrap();
    assert_eq!(values.get("A").unwrap(), "\u{fffd}!");
}

#[test]
fn env_files_give_their_values() {
    let text = b"# comment\nFOO=bar\nexport QUOTED=\"a b\"\nFOO=baz\nSINGLE='x # y'\n".to_vec();
    let values = read_env("/p/.env", Ok(text)).unwrap();
    assert_eq!(values.names(), ["FOO", "QUOTED", "SINGLE"]);
    assert_eq!(values.get("FOO").unwrap(), "baz");
    assert_eq!(values.get("QUOTED").unwrap(), "a b");
    assert_eq!(values.get("SINGLE").unwrap(), "x # y");
    assert!(values.get("NONE").is_none());
}

#[test]
fn env_file_errors_are_reported_with_the_file() {
    match read_env("/p/.env", Ok(b"A=1\nfoo bar\n".to_vec())) {
        Err(Response::Error { message }) => assert_eq!(
            message,
            "reading /p/.env: Error parsing line: 'foo bar', error at line index: 4"
        ),
        other => panic!("unexpected {other:?}"),
    }
    match read_env("/p/.env", Err("Permission denied (os error 13)".to_string())) {
        Err(Response::Error { message }) => assert_eq!(
            message,
            "reading /p/.env: Permission denied (os error 13): Permission denied (os error 13)"
        ),
        other => panic!("unexpected {other:?}"),
    }
    match read_env("/p/.env", Ok(vec![b'A', b'=', 0xff, b'\n'])) {
        Err(Response::Error { message }) => assert_eq!(
            message,
            "reading /p/.env: stream did not contain valid UTF-8: stream did not contain valid UTF-8"
        ),
        other => panic!("unexpected {other:?}"),
    }
}
