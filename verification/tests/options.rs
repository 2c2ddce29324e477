use linefilter::options::{read_switch, separate_options, ParseState, TokenKind};

fn strings(items: &[&str]) -> Vec<String> {
    items.iter().map(|s| s.to_string()).collect()
}

fn lists(args: &[&str]) -> (Vec<String>, Vec<String>) {
    let mut both = separate_options(strings(args));
    assert_eq!(both.len(), 2);
    let excludes = both.pop().unwrap();
    let includes = both.pop().unwrap();
    (includes, excludes)
}

#[test]
fn no_arguments_give_two_empty_lists() {
    assert_eq!(lists(&[]), (strings(&[]), strings(&[])));
}

#[test]
fn plain_tokens_are_inclusion_patterns() {
    assert_eq!(lists(&["a", "b"]), (strings(&["a", "b"]), strings(&[])));
}

#[test]
fn once_switch_excludes_one_pattern() {
    assert_eq!(lists(&["-v", "x", "y", "z"]), (strings(&["y", "z"]), strings(&["x"])));
    assert_eq!(lists(&["a", "-v", "x", "b", "-v", "y"]), (strings(&["a", "b"]), strings(&["x", "y"])));
}

#[test]
fn sticky_switch_excludes_until_cancelled() {
    assert_eq!(lists(&["-V", "a", "c", "-G", "b"]), (strings(&["b"]), strings(&["a", "c"])));
    assert_eq!(lists(&["-V", "a", "b", "c"]), (strings(&[]), strings(&["a", "b", "c"])));
    assert_eq!(lists(&["p", "-V", "a", "-G", "q", "r"]), (strings(&["p", "q", "r"]), strings(&["a"])));
}

#[test]
fn cancel_without_sticky_changes_nothing() {
    assert_eq!(lists(&["-G", "a", "-G", "b"]), (strings(&["a", "b"]), strings(&[])));
}

#[test]
fn trailing_switch_is_ignored() {
    assert_eq!(lists(&["a", "-v"]), (strings(&["a"]), strings(&[])));
    assert_eq!(lists(&["-V"]), (strings(&[]), strings(&[])));
    assert_eq!(lists(&["-G"]), (strings(&[]), strings(&[])));
    assert_eq!(lists(&["-v", "-V", "-G"]), (strings(&[]), strings(&[])));
}

#[test]
fn once_then_sticky_is_sticky() {
    assert_eq!(lists(&["-v", "-V", "foo", "bar"]), (strings(&[]), strings(&["foo", "bar"])));
}

#[test]
fn sticky_then_once_excludes_one_pattern_only() {
    assert_eq!(lists(&["-V", "-v", "foo", "bar"]), (strings(&["bar"]), strings(&["foo"])));
}

#[test]
fn cancel_after_once_restores_inclusion() {
    assert_eq!(lists(&["-v", "-G", "foo"]), (strings(&["foo"]), strings(&[])));
}

#[test]
fn repeated_once_switch_excludes_one_pattern() {
    assert_eq!(lists(&["-v", "-v", "a", "b"]), (strings(&["b"]), strings(&["a"])));
}

#[test]
fn other_dash_tokens_are_patterns() {
    assert_eq!(
        lists(&["-x", "-vV", "--", "-", "-g", "-v ", " -v", "-VG"]),
        (strings(&["-x", "-vV", "--", "-", "-g", "-v ", " -v", "-VG"]), strings(&[]))
    );
    assert_eq!(lists(&["-v", "-x", "-V", "-y"]), (strings(&[]), strings(&["-x", "-y"])));
}

#[test]
fn empty_pattern_is_accepted() {
    assert_eq!(lists(&["", "-v", ""]), (strings(&[""]), strings(&[""])));
}

#[test]
fn patterns_are_kept_verbatim_and_in_order() {
    assert_eq!(
        lists(&["b b", "a", "-V", "日本", "Z", "-G", "a"]),
        (strings(&["b b", "a", "a"]), strings(&["日本", "Z"]))
    );
}

#[test]
fn every_token_is_counted_once() {
    let args = ["a", "-v", "b", "-V", "c", "-v", "-G", "d", "-v"];
    let (includes, excludes) = lists(&args);
    let switches = args.iter().filter(|t| read_switch(t).is_some()).count();
    assert_eq!(switches, 5);
    assert_eq!(includes.len() + excludes.len() + switches, args.len());
    assert_eq!(includes, strings(&["a", "d"]));
    assert_eq!(excludes, strings(&["b", "c"]));
}

#[test]
fn read_switch_knows_the_three_switches() {
    assert_eq!(read_switch("-v"), Some(ParseState::ExcludeOnce));
    assert_eq!(read_switch("-V"), Some(ParseState::ExcludeSticky));
    assert_eq!(read_switch("-G"), Some(ParseState::Include));
    assert_eq!(read_switch("-g"), None);
    assert_eq!(read_switch("v"), None);
    assert_eq!(read_switch("-"), None);
    assert_eq!(read_switch(""), None);
    assert_eq!(read_switch("-vv"), None);
    assert_eq!(read_switch("xv"), None);
    assert_eq!(read_switch("\u{2d}\u{476}"), None);
}

#[test]
fn advance_from_each_state() {
    let states = [ParseState::Include, ParseState::ExcludeOnce, ParseState::ExcludeSticky];
    for state in states {
        assert_eq!(state.advance("-v"), (ParseState::ExcludeOnce, TokenKind::Switch));
        assert_eq!(state.advance("-V"), (ParseState::ExcludeSticky, TokenKind::Switch));
        assert_eq!(state.advance("-G"), (ParseState::Include, TokenKind::Switch));
    }
    assert_eq!(ParseState::Include.advance("p"), (ParseState::Include, TokenKind::IncludePattern));
    assert_eq!(ParseState::ExcludeOnce.advance("p"), (ParseState::Include, TokenKind::ExcludePattern));
    assert_eq!(
        ParseState::ExcludeSticky.advance("p"),
        (ParseState::ExcludeSticky, TokenKind::ExcludePattern)
    );
}
