use linefilter::filter::{extract, filter_text, render_lines};

fn strings(items: &[&str]) -> Vec<String> {
    items.iter().map(|s| s.to_string()).collect()
}

#[test]
fn no_arguments_keep_every_line() {
    assert_eq!(filter_text("apple\nbanana\ncherry\n", strings(&[])), "apple\nbanana\ncherry\n");
}

#[test]
fn one_inclusion_pattern() {
    assert_eq!(filter_text("apple\nbanana\ncherry\n", strings(&["an"])), "banana\n");
}

#[test]
fn two_inclusion_patterns_must_both_occur() {
    assert_eq!(
        filter_text("apple pie\nbanana bread\napple bread\n", strings(&["apple", "bread"])),
        "apple bread\n"
    );
}

#[test]
fn one_exclusion_pattern() {
    assert_eq!(filter_text("apple\nbanana\ncherry\n", strings(&["-v", "an"])), "apple\ncherry\n");
}

#[test]
fn inclusion_and_exclusion_together() {
    assert_eq!(
        filter_text("log: ok\nlog: err\ntrace: ok\n", strings(&["log", "-v", "err"])),
        "log: ok\n"
    );
}

#[test]
fn sticky_exclusion_then_inclusion() {
    assert_eq!(filter_text("a\nb\nc\nd\n", strings(&["-V", "a", "c", "-G", "b"])), "b\n");
}

#[test]
fn empty_input_gives_empty_output() {
    assert_eq!(filter_text("", strings(&["x"])), "");
    assert_eq!(filter_text("", strings(&[])), "");
}

#[test]
fn nothing_retained_gives_empty_output() {
    assert_eq!(filter_text("apple\nbanana\n", strings(&["zzz"])), "");
}

#[test]
fn crlf_input_is_written_with_line_feeds() {
    assert_eq!(filter_text("one\r\ntwo\r\nthree", strings(&["t"])), "two\nthree\n");
}

#[test]
fn terminator_is_not_matched() {
    assert_eq!(filter_text("ab\ncd\n", strings(&["\n"])), "");
    assert_eq!(filter_text("ab\r\ncd\r\n", strings(&["\r"])), "");
    assert_eq!(filter_text("ab\ncd\n", strings(&["b\nc"])), "");
}

#[test]
fn carriage_return_inside_a_line_is_content() {
    assert_eq!(filter_text("a\rb\nc\n", strings(&["\r"])), "a\rb\n");
    assert_eq!(filter_text("a\r\r\nb\n", strings(&["\r"])), "a\r\n");
    assert_eq!(filter_text("a\nb\r", strings(&["\r"])), "b\r\n");
}

#[test]
fn empty_pattern_matches_every_line() {
    assert_eq!(filter_text("a\n\nb\n", strings(&[""])), "a\n\nb\n");
    assert_eq!(filter_text("a\n\nb\n", strings(&["-v", ""])), "");
}

#[test]
fn matching_is_case_sensitive() {
    assert_eq!(filter_text("Apple\napple\n", strings(&["apple"])), "apple\n");
}

#[test]
fn matching_is_bytewise_on_multibyte_text() {
    assert_eq!(filter_text("caf\u{e9}\ncafe\n", strings(&["\u{e9}"])), "caf\u{e9}\n");
    assert_eq!(filter_text("日本語\n英語\n", strings(&["-v", "本"])), "英語\n");
    assert_eq!(filter_text("日本語\r\n英語\r\n", strings(&["語"])), "日本語\n英語\n");
}

#[test]
fn dash_tokens_that_are_no_switch_are_patterns() {
    assert_eq!(filter_text("-x\n-v\nx\n", strings(&["-x"])), "-x\n");
    assert_eq!(filter_text("--\n-G1\nx\n", strings(&["-v", "-G1", "-"])), "--\n");
}

#[test]
fn blank_lines_are_lines() {
    assert_eq!(filter_text("\n\n", strings(&[])), "\n\n");
    assert_eq!(filter_text("\n", strings(&[])), "\n");
    assert_eq!(filter_text("\r\n", strings(&[])), "\n");
}

#[test]
fn extract_returns_lines_in_input_order() {
    let kept = extract("b1\na\nb2\nb3", &strings(&["b"]), &strings(&["2"]));
    assert_eq!(kept, strings(&["b1", "b3"]));
}

#[test]
fn extract_with_no_patterns_returns_all_lines() {
    assert_eq!(extract("x\r\ny\nz", &strings(&[]), &strings(&[])), strings(&["x", "y", "z"]));
    assert_eq!(extract("", &strings(&[]), &strings(&[])), strings(&[]));
}

#[test]
fn extract_output_is_a_subsequence_of_the_lines() {
    let input = "k1\nx\nk2\nk1\ny\nk3\n";
    let lines: Vec<&str> = input.lines().collect();
    let kept = extract(input, &strings(&["k"]), &strings(&["3"]));
    let mut at: usize = 0;
    for line in &kept {
        while at < lines.len() && lines[at] != line {
            at += 1;
        }
        assert!(at < lines.len());
        at += 1;
    }
    assert_eq!(kept, strings(&["k1", "k2", "k1"]));
}

#[test]
fn two_runs_give_the_same_output() {
    let args = strings(&["a", "-v", "b"]);
    let first = filter_text("ab\na\nca\nb\n", args.clone());
    let second = filter_text("ab\na\nca\nb\n", args);
    assert_eq!(first, "a\nca\n");
    assert_eq!(first, second);
}

#[test]
fn pattern_order_does_not_matter() {
    let input = "abc\nacb\nab\nbcd\ncab d\n";
    let one = extract(input, &strings(&["a", "b", "c"]), &strings(&["d", "cb"]));
    let two = extract(input, &strings(&["c", "a", "b"]), &strings(&["cb", "d"]));
    assert_eq!(one, strings(&["abc"]));
    assert_eq!(one, two);
    assert_eq!(
        filter_text(input, strings(&["a", "-v", "d", "c"])),
        filter_text(input, strings(&["c", "a", "-v", "d"]))
    );
}

#[test]
fn render_lines_ends_each_line_with_a_line_feed() {
    assert_eq!(render_lines(&strings(&[])), "");
    assert_eq!(render_lines(&strings(&["a"])), "a\n");
    assert_eq!(render_lines(&strings(&["a", "", "b c"])), "a\n\nb c\n");
}
