use sentinel_rs::lines::split_lines;
use sentinel_rs::rules::{RuleSet, ScrubError};
use sentinel_rs::scrub::{render_records, scrub_document, scrub_lines, scrub_mapped, scrub_text};

fn rules_of(pairs: &[(&str, &str)]) -> Vec<(String, String)> {
    pairs.iter().map(|(p, r)| (p.to_string(), r.to_string())).collect()
}

fn compiled(pairs: &[(&str, &str)]) -> RuleSet {
    match RuleSet::compile(&rules_of(pairs)) {
        Ok(set) => set,
        Err(e) => panic!("rules failed to compile: {:?}", e),
    }
}

#[test]
fn ssn_is_redacted() {
    let rules = rules_of(&[(r"\d{3}-\d{2}-\d{4}", "[SSN]")]);
    assert_eq!(scrub_text("id 123-45-6789 ok", &rules), Ok("id [SSN] ok".to_string()));
}

#[test]
fn rules_chain_in_order() {
    let rules = rules_of(&[("a", "b"), ("b", "c")]);
    assert_eq!(scrub_text("a", &rules), Ok("c".to_string()));
}

#[test]
fn rule_order_matters() {
    let rules = rules_of(&[("b", "c"), ("a", "b")]);
    assert_eq!(scrub_text("a", &rules), Ok("b".to_string()));
}

#[test]
fn empty_rules_keep_every_line() {
    let set = compiled(&[]);
    assert_eq!(set.len(), 0);
    let content = "first\nsecond line\n\nlast";
    let out = scrub_document(&set, content);
    assert_eq!(out, vec!["first", "second line", "", "last"]);
    assert_eq!(scrub_text("unchanged text", &[]), Ok("unchanged text".to_string()));
}

#[test]
fn line_without_match_is_unchanged() {
    let rules = rules_of(&[(r"\d+", "#"), ("secret", "***")]);
    assert_eq!(scrub_text("nothing to see here", &rules), Ok("nothing to see here".to_string()));
}

#[test]
fn every_occurrence_is_replaced() {
    let rules = rules_of(&[("a", "b")]);
    assert_eq!(scrub_text("a a a", &rules), Ok("b b b".to_string()));
    let rules = rules_of(&[(r"\d", "X")]);
    assert_eq!(scrub_text("1-22-333", &rules), Ok("X-XX-XXX".to_string()));
}

#[test]
fn template_expands_capture_groups() {
    let rules = rules_of(&[(r"(\w+)@(\w+)", "$2 at $1")]);
    assert_eq!(scrub_text("mail bob@host now", &rules), Ok("mail host at bob now".to_string()));
}

#[test]
fn invalid_pattern_is_rejected() {
    let rules = rules_of(&[("ok", "fine"), ("(", "x"), ("[", "y")]);
    match scrub_text("ok", &rules) {
        Err(ScrubError::InvalidPattern { pattern, reason }) => {
            assert_eq!(pattern, "(");
            assert!(!reason.is_empty());
        }
        other => panic!("expected an invalid pattern, got {:?}", other),
    }
    assert!(RuleSet::compile(&rules).is_err());
}

#[test]
fn compiled_rule_set_keeps_every_rule() {
    let set = compiled(&[("a", "1"), ("b", "2"), ("c", "3")]);
    assert_eq!(set.len(), 3);
}

#[test]
fn lines_keep_their_positions() {
    let set = compiled(&[(r"user\d+", "[USER]"), (r"\d+", "N")]);
    let owned: Vec<String> = (0..2000).map(|i| format!("line {} user{} end", i, i * 7)).collect();
    let lines: Vec<&str> = owned.iter().map(|s| s.as_str()).collect();
    let out = scrub_lines(&set, &lines);
    assert_eq!(out.len(), 2000);
    for (i, line) in out.iter().enumerate() {
        assert_eq!(line, "line N [USER] end", "line {}", i);
    }
    let mixed = vec!["a1", "b", "c22"];
    assert_eq!(scrub_lines(&set, &mixed), vec!["aN", "b", "cN"]);
}

#[test]
fn repeated_calls_give_identical_output() {
    let set = compiled(&[("x+", "y"), ("y", "zz")]);
    let content = "xx a\nb x\nxxx";
    let first = scrub_document(&set, content);
    let second = scrub_document(&set, content);
    assert_eq!(first, second);
    assert_eq!(first, vec!["zz a", "b zz", "zz"]);
}

#[test]
fn split_handles_line_endings() {
    assert_eq!(split_lines("a\r\nb\n\nc"), vec!["a", "b", "", "c"]);
    assert_eq!(split_lines("a\nb\n"), vec!["a", "b"]);
    assert_eq!(split_lines(""), Vec::<&str>::new());
    assert_eq!(split_lines("\n"), vec![""]);
    assert_eq!(split_lines("\r\n"), vec![""]);
    assert_eq!(split_lines("a\rb"), vec!["a\rb"]);
    assert_eq!(split_lines("a\r\r\nb"), vec!["a\r", "b"]);
    assert_eq!(split_lines("héllo\nwörld"), vec!["héllo", "wörld"]);
}

#[test]
fn mapped_and_decoded_strategies_agree() {
    let set = compiled(&[(r"\d{3}-\d{2}-\d{4}", "[SSN]"), ("é", "e")]);
    let content = "id 123-45-6789 ok\r\ncafé 000-00-0000\n\nend\n";
    let mapped = scrub_mapped(&set, content.as_bytes());
    let decoded = scrub_document(&set, content);
    assert_eq!(mapped, Ok(decoded.clone()));
    assert_eq!(decoded, vec!["id [SSN] ok", "cafe [SSN]", "", "end"]);
}

#[test]
fn mapped_rejects_invalid_utf8() {
    let set = compiled(&[("a", "b")]);
    match scrub_mapped(&set, &[b'a', 0xff, b'\n']) {
        Err(ScrubError::InvalidUtf8 { reason }) => assert!(!reason.is_empty()),
        other => panic!("expected a decoding error, got {:?}", other),
    }
}

#[test]
fn records_end_with_one_newline_each() {
    let lines = vec!["a".to_string(), "".to_string(), "b c".to_string()];
    assert_eq!(render_records(&lines), "a\n\nb c\n");
    assert_eq!(render_records(&[]), "");
}

#[test]
fn last_line_keeps_carriage_return_without_newline() {
    assert_eq!(split_lines("baz\r"), vec!["baz\r"]);
    assert_eq!(split_lines("foo\r\nbaz\r"), vec!["foo", "baz\r"]);
    assert_eq!(split_lines("\r"), vec!["\r"]);
    let set = compiled(&[]);
    assert_eq!(scrub_mapped(&set, b"baz\r"), Ok(vec!["baz\r".to_string()]));
    assert_eq!(scrub_document(&set, "baz\r"), vec!["baz\r"]);
}

#[test]
fn ssn_file_content_gives_one_record() {
    let set = compiled(&[(r"\d{3}-\d{2}-\d{4}", "[SSN]")]);
    let out = match scrub_mapped(&set, b"id 123-45-6789 ok\n") {
        Ok(lines) => lines,
        Err(e) => panic!("unexpected error: {:?}", e),
    };
    assert_eq!(out.len(), 1);
    assert_eq!(render_records(&out), "id [SSN] ok\n");
}
