use subtitle_lsp::entry::Token;
use subtitle_lsp::errors::ErrorKind;
use subtitle_lsp::parser::{next_token, parse};
use subtitle_lsp::timecode::{Timecode, Timespan};

const SIMPLE_SRT: &str = "
1
00:05:00,400 --> 00:05:15,300
This is an example of
a subtitle.
";

fn tc(hours: u32, minutes: u32, seconds: u32, milliseconds: u32) -> Timecode {
    Timecode { hours, minutes, seconds, milliseconds }
}

#[test]
fn test_lex() {
    let (entries, errors) = parse(SIMPLE_SRT);
    assert_eq!(entries.len(), 1);
    assert_eq!(errors.len(), 0);
    assert_eq!(entries[0].index, 1);
    assert_eq!(entries[0].timespan, Timespan { start: tc(0, 5, 0, 400), end: tc(0, 5, 15, 300) });
    assert_eq!(entries[0].text, "This is an example of\na subtitle.");
}

#[test]
fn empty_input_parses_to_nothing() {
    let (entries, errors) = parse("");
    assert_eq!(entries.len(), 0);
    assert_eq!(errors.len(), 0);
}

#[test]
fn blank_lines_alone_parse_to_nothing() {
    let (entries, errors) = parse("\n\n\n");
    assert_eq!(entries.len(), 0);
    assert_eq!(errors.len(), 0);
}

#[test]
fn two_entry_example() {
    let src = "1\n00:05:00,400 --> 00:05:15,300\nThis is an example of\na subtitle.\n\n2\n00:05:16,000 --> 00:05:18,000\nSecond line.\n";
    let (entries, errors) = parse(src);
    assert_eq!(errors.len(), 0);
    assert_eq!(entries.len(), 2);
    assert_eq!(entries[0].index, 1);
    assert_eq!(
        entries[0].timespan,
        Timespan { start: tc(0, 5, 0, 400), end: tc(0, 5, 15, 300) }
    );
    assert_eq!(entries[0].text, "This is an example of\na subtitle.");
    assert_eq!(entries[1].index, 2);
    assert_eq!(
        entries[1].timespan,
        Timespan { start: tc(0, 5, 16, 0), end: tc(0, 5, 18, 0) }
    );
    assert_eq!(entries[1].text, "Second line.");
}

#[test]
fn empty_text_block_is_permitted() {
    let src = "1\n00:00:01,000 --> 00:00:02,000\n\n2\n00:00:03,000 --> 00:00:04,000\nHi.\n";
    let (entries, errors) = parse(src);
    assert_eq!(errors.len(), 0);
    assert_eq!(entries.len(), 2);
    assert_eq!(entries[0].text, "");
    assert_eq!(entries[1].text, "Hi.");
}

#[test]
fn empty_text_block_at_end_of_input() {
    let (entries, errors) = parse("7\n01:02:03,004 --> 01:02:03,900\n");
    assert_eq!(errors.len(), 0);
    assert_eq!(entries.len(), 1);
    assert_eq!(entries[0].index, 7);
    assert_eq!(entries[0].text, "");
}

#[test]
fn recovery_keeps_good_entries() {
    let src = "1\n00:00:01,000 --> 00:00:02,000\nfirst\n\n2\n00:00:03,000 00:00:04,000\nbroken\n\n3\n00:00:05,000 --> 00:00:06,000\nthird\n";
    let (entries, errors) = parse(src);
    assert_eq!(entries.len(), 2);
    assert_eq!(errors.len(), 1);
    assert_eq!(entries[0].index, 1);
    assert_eq!(entries[1].index, 3);
    assert_eq!(errors[0].kind, ErrorKind::MalformedTimespan);
    // the error span is confined to the malformed middle block
    let block_start = src.find("2\n00:00:03").unwrap();
    let block_end = src.find("\n\n3").unwrap() + 1;
    assert_eq!(errors[0].span.start, block_start);
    assert!(errors[0].span.end <= block_end);
    assert!(errors[0].span.end > errors[0].span.start);
}

#[test]
fn malformed_index_line() {
    let (entries, errors) = parse("1x\n00:00:01,000 --> 00:00:02,000\nhi\n");
    assert_eq!(entries.len(), 0);
    assert_eq!(errors.len(), 1);
    assert_eq!(errors[0].kind, ErrorKind::MalformedIndex);
}

#[test]
fn index_overflow_is_malformed() {
    let (entries, errors) = parse("99999999999\n00:00:01,000 --> 00:00:02,000\nhi\n");
    assert_eq!(entries.len(), 0);
    assert_eq!(errors.len(), 1);
    assert_eq!(errors[0].kind, ErrorKind::MalformedIndex);
}

#[test]
fn malformed_timecode() {
    let (entries, errors) = parse("1\n00:0x:01,000 --> 00:00:02,000\nhi\n");
    assert_eq!(entries.len(), 0);
    assert_eq!(errors.len(), 1);
    assert_eq!(errors[0].kind, ErrorKind::MalformedTimecode);
}

#[test]
fn unexpected_character() {
    let (entries, errors) = parse("oops\n00:00:01,000 --> 00:00:02,000\nhi\n");
    assert_eq!(entries.len(), 0);
    assert_eq!(errors.len(), 1);
    assert_eq!(errors[0].kind, ErrorKind::UnexpectedCharacter);
}

#[test]
fn unterminated_block() {
    let (entries, errors) = parse("12");
    assert_eq!(entries.len(), 0);
    assert_eq!(errors.len(), 1);
    assert_eq!(errors[0].kind, ErrorKind::UnterminatedBlock);
}

#[test]
fn error_messages_name_the_failure() {
    let (_, errors) = parse("1\n00:00:01,000 00:00:02,000\nhi\n");
    assert_eq!(errors.len(), 1);
    assert_eq!(errors[0].message(), "malformed timespan: missing arrow");
}

#[test]
fn arrow_padding_is_flexible() {
    let (entries, errors) = parse("1\n00:00:01,000-->00:00:02,000\nhi\n");
    assert_eq!(errors.len(), 0);
    assert_eq!(entries.len(), 1);
    let (entries, errors) = parse("1\n00:00:01,000   -->\t00:00:02,000\nhi\n");
    assert_eq!(errors.len(), 0);
    assert_eq!(entries.len(), 1);
}

#[test]
fn milliseconds_are_exactly_three_digits() {
    let (entries, errors) = parse("1\n00:00:01,0000 --> 00:00:02,000\nhi\n");
    assert_eq!(entries.len(), 0);
    assert_eq!(errors.len(), 1);
}

#[test]
fn entry_spans_cover_their_blocks() {
    let src = "1\n00:00:01,000 --> 00:00:02,000\nhi\n\n2\n00:00:03,000 --> 00:00:04,000\nyo\n";
    let (entries, errors) = parse(src);
    assert_eq!(errors.len(), 0);
    assert_eq!(entries.len(), 2);
    assert_eq!(entries[0].span.start, 0);
    assert_eq!(entries[0].span.end, src.find("\n\n2").unwrap() + 1);
    assert_eq!(entries[1].span.start, src.find("2\n00").unwrap());
    assert_eq!(entries[1].span.end, src.len());
}

#[test]
fn next_token_prefers_timespan_over_index() {
    let line = "00:05:00,400 --> 00:05:15,300\n";
    match next_token(line, 0) {
        Some((Token::Timespan(ts), p)) => {
            assert_eq!(ts.start, tc(0, 5, 0, 400));
            assert_eq!(ts.end, tc(0, 5, 15, 300));
            assert_eq!(p, line.len());
        },
        other => panic!("expected a timespan token, got {:?}", other),
    }
}

#[test]
fn next_token_classifies_lines() {
    assert_eq!(next_token("42\n", 0), Some((Token::Index(42), 3)));
    assert_eq!(next_token("\nrest", 0), Some((Token::Delimeter, 1)));
    assert_eq!(
        next_token("00:05 is not a timecode\n", 0),
        Some((Token::Text("00:05 is not a timecode".to_string()), 24))
    );
    assert_eq!(next_token("", 0), None);
}

#[test]
fn trailing_content_spoils_a_timespan_line() {
    let (entries, errors) = parse("1\n00:00:01,000 --> 00:00:02,000 extra\nhi\n");
    assert_eq!(entries.len(), 0);
    assert_eq!(errors.len(), 1);
    assert_eq!(errors[0].kind, ErrorKind::MalformedTimespan);
    // as a bare line it is no timespan token either, just text
    let line = "00:00:01,000 --> 00:00:02,000 extra\n";
    match next_token(line, 0) {
        Some((Token::Text(t), _)) => assert_eq!(t, "00:00:01,000 --> 00:00:02,000 extra"),
        other => panic!("expected a text token, got {:?}", other),
    }
}
