use sx::state::State;
use sx::vars::Vars;

const SEC: u64 = 1_000_000_000;

fn vars(pairs: &[(&str, &str)]) -> Vars {
    let mut v = Vars::new();
    for (k, x) in pairs {
        v.insert(k.to_string(), x.to_string());
    }
    v
}

#[test]
fn a_grant_is_live_until_its_lease_ends() {
    let mut state = State::default();
    state.add("/e".to_string(), vars(&[("B", "2"), ("A", "1")]), 10, false, 5 * SEC);
    let live = state.live("/e", 14 * SEC + (SEC - 1)).unwrap();
    assert!(!live.allow_all);
    assert_eq!(
        live.values,
        [("A".to_string(), "1".to_string()), ("B".to_string(), "2".to_string())]
    );
    assert!(state.live("/other", 6 * SEC).is_none());
    assert!(state.live("/e", 15 * SEC).is_none());
    // Expired grants are dropped for good.
    assert!(state.live("/e", 6 * SEC).is_none());
}

#[test]
fn a_new_grant_replaces_the_old_one() {
    let mut state = State::default();
    state.add("/e".to_string(), vars(&[("A", "1")]), 10, true, 0);
    state.add("/f".to_string(), vars(&[("C", "3")]), 10, false, 0);
    state.add("/e".to_string(), vars(&[("B", "2")]), 20, false, SEC);
    let info = state.info(SEC);
    assert_eq!(info.len(), 2);
    assert_eq!(info[0].source, "/f");
    assert_eq!(info[1].source, "/e");
    assert_eq!(info[1].names, ["B"]);
    assert!(!info[1].allow_all);
    assert_eq!(info[1].expires_in_secs, 20);
}

#[test]
fn upgrading_refreshes_the_lease_and_keeps_the_values() {
    let mut state = State::default();
    state.add("/e".to_string(), vars(&[("A", "1")]), 10, false, 0);
    state.add("/f".to_string(), vars(&[("B", "2")]), 10, false, 0);
    assert!(state.set_allow_all("/e", 30, 5 * SEC));
    let live = state.live("/e", 34 * SEC).unwrap();
    assert!(live.allow_all);
    assert_eq!(live.values, [("A".to_string(), "1".to_string())]);
    assert!(state.live("/f", 34 * SEC).is_none());
    assert!(!state.set_allow_all("/f", 30, 34 * SEC));
    assert!(!state.set_allow_all("/none", 30, 34 * SEC));
}

#[test]
fn clearing_counts_what_it_drops() {
    let mut state = State::default();
    state.add("/e".to_string(), vars(&[]), 10, false, 0);
    state.add("/f".to_string(), vars(&[]), 10, false, 0);
    state.add("/g".to_string(), vars(&[]), 10, false, 0);
    assert_eq!(state.clear(Some("/none")), 0);
    assert_eq!(state.clear(Some("/f")), 1);
    assert!(state.live("/f", 0).is_none());
    assert!(state.live("/e", 0).is_some());
    assert_eq!(state.clear(None), 2);
    assert!(state.info(0).is_empty());
}

#[test]
fn the_snapshot_shows_names_and_whole_seconds() {
    let mut state = State::default();
    state.add("/e".to_string(), vars(&[("B", "secret"), ("A", "hidden")]), 10, true, 0);
    let info = state.info(SEC / 2);
    assert_eq!(info[0].names, ["A", "B"]);
    assert_eq!(info[0].expires_in_secs, 9);
    assert!(info[0].allow_all);
    let shown = format!("{info:?}");
    assert!(!shown.contains("secret") && !shown.contains("hidden"));
    assert!(state.info(10 * SEC).is_empty());
}

#[test]
fn extreme_leases_do_not_overflow() {
    let mut state = State::default();
    state.add("/e".to_string(), vars(&[]), u64::MAX, false, u64::MAX);
    assert_eq!(state.info(u64::MAX)[0].expires_in_secs, u64::MAX);
}

#[test]
fn named_values_are_sorted_by_code_point() {
    let pairs = [("b", "1"), ("B", "2"), ("\u{e9}", "3"), ("a", "4"), ("B", "5"), ("", "6"), ("ab", "7")];
    let list: Vec<(String, String)> =
        pairs.iter().map(|(k, v)| (k.to_string(), v.to_string())).collect();
    let v = Vars::from_pairs(&list);
    assert_eq!(v.names(), ["", "B", "a", "ab", "b", "\u{e9}"]);
    assert_eq!(v.get("B").unwrap(), "5");
    assert_eq!(v.entries().len(), 6);
    assert_eq!(v.len(), 6);
}
