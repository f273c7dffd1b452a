//! Tests for the statement iterator and the identifier checksum.

use tlgen::errors::ParseError;
use tlgen::tl::Category;
use tlgen::tl_iterator::TlIterator;
use tlgen::utils::infer_id;

#[test]
fn parse_bad_separator() {
    let mut it = TlIterator::new("---foo---".into());
    assert_eq!(it.next(), Some(Err(ParseError::UnknownSeparator)));
    assert_eq!(it.next(), None);
}

#[test]
fn parse_file() {
    let mut it = TlIterator::new(
        "
            //@description This is the first definition of the test
            first#1 = t; // inline comment
            second and bad;
            third#3 = t;
            // trailing comment
        "
        .into(),
    );

    assert_eq!(it.next().unwrap().unwrap().id, 1);
    assert!(it.next().unwrap().is_err());
    assert_eq!(it.next().unwrap().unwrap().id, 3);
    assert_eq!(it.next(), None);
}

#[test]
fn tl_iterator_parse_bad_separator() {
    let mut it = TlIterator::new("---foo---".into());
    assert_eq!(it.next(), Some(Err(ParseError::UnknownSeparator)));
    assert_eq!(it.next(), None);
}

#[test]
fn tl_iterator_parse_file() {
    let mut it = TlIterator::new(
        "
            // leading; comment
            first = t; // inline comment
            second and bad;
            third = t;
            // trailing comment
        "
        .into(),
    );

    assert_eq!(it.next().unwrap().unwrap().name, "first");
    assert!(it.next().unwrap().is_err());
    assert_eq!(it.next().unwrap().unwrap().name, "third");
    assert_eq!(it.next(), None);
}

#[test]
fn check_infer_id() {
    // Note the type `bytes`
    let def = "rpc_answer_dropped msg_id:long seq_no:int bytes:int = RpcDropAnswer";
    assert_eq!(infer_id(def), 0xa43ad8b7);

    // Note the use of angle brackets
    let def = "msgs_ack msg_ids:Vector<long> = MsgsAck";
    assert_eq!(infer_id(def), 0x62d6b459);

    // Note the use of curly brackets
    let def = "invokeAfterMsg {X:Type} msg_id:long query:!X = X";
    assert_eq!(infer_id(def), 0xcb9f372d);

    // Note the use of `true` flags
    let def = "inputMessagesFilterPhoneCalls flags:# missed:flags.0?true = MessagesFilter";
    assert_eq!(infer_id(def), 0x80c99768);
}

#[test]
fn infer_id_deterministic() {
    let def = "msgs_ack msg_ids:Vector<long> = MsgsAck";
    assert_eq!(infer_id(def), infer_id(def));
}

#[test]
fn section_markers_switch_category() {
    let mut it = TlIterator::new(
        "one = T;\n---functions---\ntwo = T;\n---types---\nthree = T;".into(),
    );
    assert_eq!(it.next().unwrap().unwrap().category, Category::Types);
    assert_eq!(it.next().unwrap().unwrap().category, Category::Functions);
    assert_eq!(it.next().unwrap().unwrap().category, Category::Types);
    assert_eq!(it.next(), None);
}

#[test]
fn unknown_marker_recovers() {
    let mut it = TlIterator::new("---foo---;\nafter = T;".into());
    assert_eq!(it.next(), Some(Err(ParseError::UnknownSeparator)));
    assert_eq!(it.next().unwrap().unwrap().name, "after");
    assert_eq!(it.next(), None);
}

#[test]
fn split_three_statements() {
    let mut it = TlIterator::new("first#1 = t; // comment\nsecond and bad;\nthird#3 = t;".into());
    let first = it.next().unwrap();
    let second = it.next().unwrap();
    let third = it.next().unwrap();
    assert_eq!(first.unwrap().name, "first");
    assert!(second.is_err());
    assert_eq!(third.unwrap().name, "third");
    assert_eq!(it.next(), None);
}
