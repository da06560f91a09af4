use parrot::parser::{parse, FilterPred, ParseError, Script, Target};
use parrot::scanner::{scan, ScanError, Token, TokenKind};
use parrot::snapshot::SnapshotStatus;

fn toks(line: &str) -> Vec<Token> {
    scan(line).expect("scan failed")
}

#[test]
fn scanning_is_deterministic() {
    let line = "run --tag 'smoke test' all";
    let first = scan(line);
    let second = scan(line);
    assert_eq!(first, second);
}

#[test]
fn scanner_splits_on_unquoted_whitespace() {
    let ts = toks("run  all");
    assert_eq!(ts.len(), 2);
    assert_eq!(ts[0].kind, TokenKind::Word);
    assert_eq!(ts[0].text, "run");
    assert_eq!(ts[0].offset, 0);
    assert_eq!(ts[1].kind, TokenKind::Word);
    assert_eq!(ts[1].text, "all");
    assert_eq!(ts[1].offset, 5);
}

#[test]
fn scanner_quotes_keep_whitespace_and_strip_quotes() {
    let ts = toks("filter \"two words\" 'and more'");
    assert_eq!(ts.len(), 3);
    assert_eq!(ts[1].kind, TokenKind::QuotedString);
    assert_eq!(ts[1].text, "two words");
    assert_eq!(ts[1].offset, 7);
    assert_eq!(ts[2].kind, TokenKind::QuotedString);
    assert_eq!(ts[2].text, "and more");
}

#[test]
fn scanner_flags_strip_dashes() {
    let ts = toks("-t --tag");
    assert_eq!(ts.len(), 2);
    assert_eq!(ts[0].kind, TokenKind::Flag);
    assert_eq!(ts[0].text, "t");
    assert_eq!(ts[0].offset, 0);
    assert_eq!(ts[1].kind, TokenKind::Flag);
    assert_eq!(ts[1].text, "tag");
    assert_eq!(ts[1].offset, 3);
}

#[test]
fn scanner_unterminated_quote_reports_offset() {
    let r = scan("run 'oops");
    assert_eq!(r, Err(ScanError::UnterminatedQuote(4)));
}

#[test]
fn parse_run_all() {
    assert_eq!(parse(&toks("run all")), Ok(Script::Run(Target::All)));
}

#[test]
fn abbreviations_are_exact_not_prefixes() {
    // only `q`/`quit` map to Quit; a bare `r` is no command at all
    assert_eq!(parse(&toks("q")), Ok(Script::Quit));
    assert_eq!(parse(&toks("quit")), Ok(Script::Quit));
    let r = parse(&toks("r"));
    assert!(r != Ok(Script::Quit));
    assert_eq!(r, Err(ParseError::UnknownCommand(String::from("r"))));
}

#[test]
fn keywords_are_case_insensitive() {
    assert_eq!(parse(&toks("RUN All")), Ok(Script::Run(Target::All)));
    assert_eq!(parse(&toks("Update sel")), Ok(Script::Update(Target::Selected)));
}

#[test]
fn missing_target_defaults_to_selected() {
    assert_eq!(parse(&toks("run")), Ok(Script::Run(Target::Selected)));
    assert_eq!(parse(&toks("show")), Ok(Script::Show(Target::Selected)));
    assert_eq!(parse(&toks("update")), Ok(Script::Update(Target::Selected)));
}

#[test]
fn bad_target_is_an_error() {
    assert_eq!(
        parse(&toks("run everything")),
        Err(ParseError::InvalidTarget(String::from("everything")))
    );
}

#[test]
fn filter_without_predicate_is_an_error() {
    let r = parse(&toks("filter"));
    assert_eq!(r, Err(ParseError::MissingFilterPredicate));
    assert!(!matches!(r, Ok(Script::Filter(_))));
}

#[test]
fn filter_predicates_parse_by_key() {
    let r = parse(&toks("filter tag:smoke status:failed name:gre greet"));
    assert_eq!(
        r,
        Ok(Script::Filter(vec![
            FilterPred::ByTag(String::from("smoke")),
            FilterPred::ByStatus(SnapshotStatus::Failed),
            FilterPred::ByName(String::from("gre")),
            FilterPred::BySubstring(String::from("greet")),
        ]))
    );
}

#[test]
fn unknown_filter_key_is_an_error() {
    assert_eq!(
        parse(&toks("filter color:red")),
        Err(ParseError::UnknownFilterKey(String::from("color")))
    );
}

#[test]
fn bad_status_value_is_an_error() {
    assert_eq!(
        parse(&toks("filter status:green")),
        Err(ParseError::InvalidStatus(String::from("green")))
    );
}

#[test]
fn quoted_predicate_is_a_bare_substring() {
    assert_eq!(
        parse(&toks("filter 'tag:smoke'")),
        Ok(Script::Filter(vec![FilterPred::BySubstring(String::from("tag:smoke"))]))
    );
}

#[test]
fn trailing_tokens_after_bare_commands_are_errors() {
    assert_eq!(
        parse(&toks("quit now")),
        Err(ParseError::TrailingTokens(String::from("now")))
    );
    assert_eq!(
        parse(&toks("run all please")),
        Err(ParseError::TrailingTokens(String::from("please")))
    );
}

#[test]
fn parse_errors_carry_readable_messages() {
    let e = parse(&toks("frobnicate")).unwrap_err();
    assert_eq!(e.message(), "unknown command: frobnicate");
    let e = parse(&toks("filter color:red")).unwrap_err();
    assert_eq!(e.message(), "unknown filter key: color");
}

#[test]
fn empty_line_is_an_error() {
    assert_eq!(parse(&toks("   ")), Err(ParseError::EmptyInput));
}
