use sx::config::{
    cmd_setup, config_path, discover_aws_cli, find_on_path, get, is_executable_file, read_all,
    read_value, report_recorded, store_aws_cli_path, sx_dir, write_value, Hunt, Recorded, Search,
    Setup, AWS_CLI_PATH,
};
use sx::paths::FilePath;

#[test]
fn missing_file_reads_as_not_configured() {
    assert!(read_value(read_all(None), AWS_CLI_PATH).unwrap().is_none());
}

#[test]
fn write_then_read_round_trips() {
    let file = write_value(read_all(None), AWS_CLI_PATH, "/usr/local/bin/aws").unwrap();
    assert_eq!(
        read_value(read_all(Some(file.as_bytes())), AWS_CLI_PATH).unwrap().as_deref(),
        Some("/usr/local/bin/aws")
    );
}

#[test]
fn write_preserves_other_keys() {
    let old = "other_key=keep-me\naws_cli_path=/old/aws\n";
    let file = write_value(read_all(Some(old.as_bytes())), AWS_CLI_PATH, "/new/aws").unwrap();
    assert_eq!(
        read_value(read_all(Some(file.as_bytes())), "other_key").unwrap().as_deref(),
        Some("keep-me")
    );
    assert_eq!(
        read_value(read_all(Some(file.as_bytes())), AWS_CLI_PATH).unwrap().as_deref(),
        Some("/new/aws")
    );
}

fn text(p: &FilePath) -> String {
    String::from_utf8(p.as_bytes().to_vec()).unwrap()
}

/// Runs a search where only the paths in `executable` are executable files.
fn search(mut step: Search, executable: &[&str]) -> Option<(String, bool)> {
    loop {
        step = match step {
            Search::Probe { candidate, hunt } => {
                let hit = executable.contains(&text(&candidate.path).as_str());
                hunt.probed(candidate, hit)
            }
            Search::Found { candidate } => {
                return Some((text(&candidate.path), candidate.canonicalize))
            }
            Search::Missing => return None,
        };
    }
}

#[test]
fn discovers_executable_aws_on_path() {
    // A PATH whose first entry has no `aws`, second entry does.
    let found = search(find_on_path(b"/empty:/bin", "aws"), &["/bin/aws"]);
    assert_eq!(found, Some(("/bin/aws".to_string(), true)));
    assert_eq!(search(discover_aws_cli(Some(b"/empty:/bin")), &["/bin/aws"]), found);
}

#[test]
fn non_executable_aws_is_ignored() {
    assert!(!is_executable_file(true, 0o644));
    assert!(search(find_on_path(b"/bin", "aws"), &[]).is_none());
    assert!(search(discover_aws_cli(Some(b"/bin")), &[]).is_none());
}

#[test]
fn the_first_entry_of_the_path_wins() {
    let executable = ["/b/aws", "/c/aws", "/usr/local/bin/aws"];
    assert_eq!(
        search(discover_aws_cli(Some(b"/a:/c:/b")), &executable),
        Some(("/c/aws".to_string(), true))
    );
}

#[test]
fn well_known_places_come_last() {
    let both = ["/usr/local/bin/aws", "/opt/homebrew/bin/aws"];
    assert_eq!(
        search(discover_aws_cli(Some(b"/a")), &both),
        Some(("/usr/local/bin/aws".to_string(), false))
    );
    assert_eq!(
        search(discover_aws_cli(None), &both[1..]),
        Some(("/opt/homebrew/bin/aws".to_string(), false))
    );
}

/// Every candidate of a search, in order.
fn probes(mut step: Search) -> Vec<String> {
    let mut all = Vec::new();
    while let Search::Probe { candidate, hunt } = step {
        all.push(text(&candidate.path));
        step = hunt.probed(candidate, false);
    }
    assert!(matches!(step, Search::Missing));
    all
}

#[test]
fn empty_path_entries_are_relative() {
    assert_eq!(probes(find_on_path(b":/a::/b/", "aws")), ["aws", "/a/aws", "aws", "/b/aws"]);
    assert_eq!(probes(find_on_path(b"", "aws")), ["aws"]);
}

#[test]
fn execute_bits_count() {
    assert!(is_executable_file(true, 0o755));
    assert!(is_executable_file(true, 0o001));
    assert!(is_executable_file(true, 0o100_010));
    assert!(!is_executable_file(true, 0o666));
    assert!(!is_executable_file(false, 0o755));
}

#[test]
fn set_writes_sorted_lines() {
    let file = sx::config::set(Some(b"z=1\na=2\nz=3\n"), "m", "x").unwrap();
    assert_eq!(file, "a=2\nm=x\nz=3\n");
    assert_eq!(get(Some(file.as_bytes()), "z").unwrap().as_deref(), Some("3"));
    assert!(get(Some(file.as_bytes()), "y").unwrap().is_none());
}

#[test]
fn values_that_need_quotes_are_written_with_them() {
    let file = sx::config::set(None, "k", "a b").unwrap();
    assert_eq!(file, "k=\"a b\"\n");
    let file = sx::config::set(None, "k", "\"$x\\\n'").unwrap();
    assert_eq!(file, "k=\"\\\"\\$x\\\\\\n'\"\n");
}

#[test]
fn every_value_reads_back() {
    let values = [
        "a b", " lead", "trail ", "#x", "a #c", "a\tb", "q\"q", "'s'", "\"", "b\\s", "\\", "$HOME",
        "${x}", "a$", "l1\nl2", "\n", "\r", "x\r", "\r\n", "\u{a0}", "\u{a0}#", "=", "\\n", "\\$",
        "export", "\0", "/Users/a b/bin/aws",
    ];
    for value in values {
        let file = sx::config::set(None, "old", value).unwrap();
        let file = sx::config::set(Some(file.as_bytes()), "k", value).unwrap();
        assert_eq!(get(Some(file.as_bytes()), "k").unwrap().as_deref(), Some(value), "{file}");
        assert_eq!(get(Some(file.as_bytes()), "old").unwrap().as_deref(), Some(value), "{file}");
    }
}

#[test]
fn quoted_keys_survive_a_write() {
    let old = b"other=\"keep me\" # why\nlast='$x'\n";
    let file = sx::config::set(Some(old), AWS_CLI_PATH, "/new/aws").unwrap();
    assert_eq!(get(Some(file.as_bytes()), "other").unwrap().as_deref(), Some("keep me"));
    assert_eq!(get(Some(file.as_bytes()), "last").unwrap().as_deref(), Some("$x"));
    assert_eq!(get(Some(file.as_bytes()), AWS_CLI_PATH).unwrap().as_deref(), Some("/new/aws"));
}

#[test]
fn a_recorded_path_reads_back() {
    let path = FilePath::from_text("/Applications/AWS CLI/aws");
    let file = store_aws_cli_path(Some(b"keep=1\n"), &path).unwrap();
    assert_eq!(file, "aws_cli_path=\"/Applications/AWS CLI/aws\"\nkeep=1\n");
    assert_eq!(
        get(Some(file.as_bytes()), AWS_CLI_PATH).unwrap().as_deref(),
        Some("/Applications/AWS CLI/aws")
    );
    assert_eq!(get(Some(file.as_bytes()), "keep").unwrap().as_deref(), Some("1"));
}

#[test]
fn plain_values_read_back_as_they_are() {
    for value in ["", "/opt/aws", "a#b", "x=y", "\u{e9}t\u{e9}", "a\u{a0}b", "1,2;3", "`|&*~"] {
        let file = sx::config::set(Some(b"keep=1\n"), "k.x_9", value).unwrap();
        assert_eq!(get(Some(file.as_bytes()), "k.x_9").unwrap().as_deref(), Some(value));
        assert_eq!(get(Some(file.as_bytes()), "keep").unwrap().as_deref(), Some("1"));
    }
}

#[test]
fn a_broken_file_is_not_rewritten() {
    match sx::config::set(Some(b"broken line\n"), "k", "v") {
        Err(e) => assert_eq!(
            e.message(),
            "Error parsing line: 'broken line', error at line index: 7"
        ),
        Ok(file) => panic!("unexpected {file}"),
    }
}

#[test]
fn the_config_lives_in_the_home_directory() {
    assert_eq!(text(&sx_dir(Some(FilePath::from_text("/home/u"))).unwrap()), "/home/u/.sx");
    assert_eq!(
        text(&config_path(Some(FilePath::from_text("/home/u/"))).unwrap()),
        "/home/u/.sx/config"
    );
    assert_eq!(sx_dir(None).unwrap_err(), "$HOME is not set");
    assert_eq!(config_path(None).unwrap_err(), "$HOME is not set");
}

#[test]
fn setup_reports_what_it_does() {
    let cfg = FilePath::from_text("/h/.sx/config");
    match cmd_setup(Some(FilePath::from_text("/bin/aws")), &cfg, true) {
        Setup::Print { text } => {
            assert_eq!(text, "# would write aws_cli_path=/bin/aws to /h/.sx/config\n")
        }
        other => panic!("unexpected {other:?}"),
    }
    match cmd_setup(Some(FilePath::from_text("/bin/aws")), &cfg, false) {
        Setup::Save { path, value, text } => {
            assert_eq!(path.as_bytes(), b"/bin/aws");
            assert_eq!(value, "/bin/aws");
            assert_eq!(
                text,
                "Found aws CLI: /bin/aws\nSaved aws_cli_path=/bin/aws to /h/.sx/config\n"
            );
        }
        other => panic!("unexpected {other:?}"),
    }
    match cmd_setup(None, &cfg, true) {
        Setup::Fail { message } => assert_eq!(
            message,
            "could not find the `aws` CLI on your PATH. Install the AWS CLI (https://aws.amazon.com/cli/), or set `aws_cli_path=<absolute path>` manually in /h/.sx/config."
        ),
        other => panic!("unexpected {other:?}"),
    }
}

#[test]
fn install_reports_what_was_recorded() {
    let found = Recorded::Path { path: FilePath::from_text("/bin/aws") };
    assert_eq!(report_recorded(&found), (true, "Resolved aws CLI: /bin/aws\n".to_string()));
    assert_eq!(
        report_recorded(&Recorded::Missing),
        (
            false,
            "warning: could not find the `aws` CLI on PATH; AWS minting will not work until you install it and run `sxd setup`.\n".to_string()
        )
    );
    assert_eq!(
        report_recorded(&Recorded::Failed),
        (
            false,
            "warning: failed to record the aws CLI path (writing ~/.sx/config); run `sxd setup`.\n".to_string()
        )
    );
}

#[test]
fn a_search_ends_after_the_last_candidate() {
    let mut step = discover_aws_cli(None);
    let mut probes = 0;
    while let Search::Probe { candidate, hunt } = step {
        probes += 1;
        let h: Hunt = hunt;
        step = h.probed(candidate, false);
    }
    assert_eq!(probes, 2);
    assert!(matches!(step, Search::Missing));
}
