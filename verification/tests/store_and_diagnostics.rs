use subtitle_lsp::diagnostics::{parse_diagnostics, position_of, to_positions};
use subtitle_lsp::parser::parse;
use subtitle_lsp::store::DocumentStore;
use subtitle_lsp::timecode::{Timecode, Timespan};
use subtitle_lsp::Entry;
use subtitle_lsp::Span;

const GOOD: &str = "1\n00:00:01,000 --> 00:00:02,000\nhello\n";
const MIXED: &str =
    "1\n00:00:01,000 --> 00:00:02,000\nfirst\n\n2\n00:00:03,000 00:00:04,000\nbroken\n\n3\n00:00:05,000 --> 00:00:06,000\nthird\n";

#[test]
fn store_open_and_get() {
    let mut store = DocumentStore::new();
    store.open("file:///a.srt".to_string(), GOOD.to_string(), Some(1));
    let uri = "file:///a.srt".to_string();
    let (entries, errors) = store.get(&uri).unwrap();
    assert_eq!(entries.len(), 1);
    assert_eq!(errors.len(), 0);
    assert_eq!(entries[0].index, 1);
}

#[test]
fn store_get_unknown_is_none() {
    let store = DocumentStore::new();
    assert!(store.get(&"file:///nope.srt".to_string()).is_none());
}

#[test]
fn store_close_forgets() {
    let mut store = DocumentStore::new();
    let uri = "file:///a.srt".to_string();
    store.open(uri.clone(), GOOD.to_string(), Some(1));
    store.close(&uri);
    assert!(store.get(&uri).is_none());
}

#[test]
fn store_documents_are_independent() {
    let mut store = DocumentStore::new();
    let a = "file:///a.srt".to_string();
    let b = "file:///b.srt".to_string();
    store.open(a.clone(), GOOD.to_string(), Some(1));
    store.open(b.clone(), MIXED.to_string(), Some(1));
    store.close(&a);
    let (entries, errors) = store.get(&b).unwrap();
    assert_eq!(entries.len(), 2);
    assert_eq!(errors.len(), 1);
}

#[test]
fn version_guard_ignores_stale_update() {
    let mut store = DocumentStore::new();
    let uri = "file:///a.srt".to_string();
    store.open(uri.clone(), GOOD.to_string(), Some(1));
    let newer = "3\n00:00:01,000 --> 00:00:02,000\nnewer\n";
    let stale = "9\n00:00:01,000 --> 00:00:02,000\nstale\n";
    let (entries, _) = store.apply_full_text(&uri, newer.to_string(), Some(3));
    assert_eq!(entries[0].index, 3);
    // a late update with an older version must not clobber the newer state
    let (entries, _) = store.apply_full_text(&uri, stale.to_string(), Some(2));
    assert_eq!(entries.len(), 1);
    assert_eq!(entries[0].index, 3);
    assert_eq!(entries[0].text, "newer");
    let (stored, _) = store.get(&uri).unwrap();
    assert_eq!(stored[0].index, 3);
    assert_eq!(stored[0].text, "newer");
}

#[test]
fn reparse_of_stored_text_is_idempotent() {
    let mut store = DocumentStore::new();
    let uri = "file:///a.srt".to_string();
    store.open(uri.clone(), MIXED.to_string(), Some(1));
    let first: Vec<_> = {
        let (entries, _) = store.get(&uri).unwrap();
        entries.clone()
    };
    // deliver the unmodified text again, with a newer version
    store.apply_full_text(&uri, MIXED.to_string(), Some(2));
    let (entries, _) = store.get(&uri).unwrap();
    assert_eq!(entries.len(), first.len());
    for (a, b) in entries.iter().zip(first.iter()) {
        assert_eq!(a, b);
    }
}

#[test]
fn apply_to_unknown_uri_inserts() {
    let mut store = DocumentStore::new();
    let uri = "file:///new.srt".to_string();
    let (entries, errors) = store.apply_full_text(&uri, GOOD.to_string(), Some(1));
    assert_eq!(entries.len(), 1);
    assert_eq!(errors.len(), 0);
    assert!(store.get(&uri).is_some());
}

#[test]
fn positions_are_zero_based_lines_and_columns() {
    let text = "ab\ncde\nf";
    assert_eq!(position_of(text, 0), (0, 0));
    assert_eq!(position_of(text, 1), (0, 1));
    assert_eq!(position_of(text, 3), (1, 0));
    assert_eq!(position_of(text, 5), (1, 2));
    assert_eq!(position_of(text, 7), (2, 0));
    // an offset at exactly end-of-input maps just past the last character
    assert_eq!(position_of(text, 8), (2, 1));
}

#[test]
fn diagnostics_point_at_the_malformed_block() {
    let (_, errors) = parse(MIXED);
    assert_eq!(errors.len(), 1);
    let diags = to_positions(MIXED, &errors);
    assert_eq!(diags.len(), 1);
    // the malformed block is the fifth line (index 4)
    assert_eq!(diags[0].line, 4);
    assert_eq!(diags[0].column, 0);
    assert_eq!(diags[0].message, "malformed timespan: missing arrow");
}

#[test]
fn diagnostics_are_ordered_by_position() {
    let src = "x\n\ny\n\n1\nz\nmore\n\nw\n";
    let diags = parse_diagnostics(src);
    assert!(diags.len() >= 2);
    for pair in diags.windows(2) {
        let earlier = (&pair[0].line, &pair[0].column);
        let later = (&pair[1].line, &pair[1].column);
        assert!(earlier <= later);
    }
}

#[test]
fn render_round_trips_the_entry() {
    let entry = Entry {
        index: 12,
        timespan: Timespan {
            start: Timecode { hours: 1, minutes: 2, seconds: 3, milliseconds: 4 },
            end: Timecode { hours: 1, minutes: 2, seconds: 59, milliseconds: 999 },
        },
        text: "two lines\nof text".to_string(),
        span: Span { start: 0, end: 0 },
    };
    let rendered = entry.render();
    assert_eq!(rendered, "12\n1:02:03,004 --> 1:02:59,999\ntwo lines\nof text\n");
    let (entries, errors) = parse(&rendered);
    assert_eq!(errors.len(), 0);
    assert_eq!(entries.len(), 1);
    assert!(entries[0].same_content(&entry));
}

#[test]
fn render_round_trips_empty_text() {
    let entry = Entry {
        index: 5,
        timespan: Timespan {
            start: Timecode { hours: 0, minutes: 0, seconds: 1, milliseconds: 0 },
            end: Timecode { hours: 0, minutes: 0, seconds: 2, milliseconds: 0 },
        },
        text: String::new(),
        span: Span { start: 0, end: 0 },
    };
    let rendered = entry.render();
    assert_eq!(rendered, "5\n0:00:01,000 --> 0:00:02,000\n");
    let (entries, errors) = parse(&rendered);
    assert_eq!(errors.len(), 0);
    assert_eq!(entries.len(), 1);
    assert!(entries[0].same_content(&entry));
}

#[test]
fn timecode_render_and_order() {
    let a = Timecode { hours: 0, minutes: 5, seconds: 0, milliseconds: 400 };
    let b = Timecode { hours: 0, minutes: 5, seconds: 15, milliseconds: 300 };
    assert_eq!(a.render(), "0:05:00,400");
    assert_eq!(b.render(), "0:05:15,300");
    let ts = Timespan { start: a, end: b };
    assert!(ts.is_ordered());
    assert_eq!(ts.render(), "0:05:00,400 --> 0:05:15,300");
    let backwards = Timespan { start: b, end: a };
    assert!(!backwards.is_ordered());
    assert!(a.in_range());
    let odd = Timecode { hours: 0, minutes: 73, seconds: 0, milliseconds: 0 };
    assert!(!odd.in_range());
}
