use dict_client::{read_lines, Phase, ReadError, Response, ResponseReader, StatusCode};

fn lines(ls: &[&str]) -> Vec<String> {
    ls.iter().map(|s| s.to_string()).collect()
}

#[test]
fn single_line_reply_has_no_blocks() {
    let (r, used) = read_lines(&lines(&["250 ok\r\n", "extra\r\n"]));
    let resp = r.expect("complete");
    assert_eq!(resp.code(), StatusCode::Okay);
    assert_eq!(resp.first_line(), "ok\r\n");
    assert!(resp.content.is_empty());
    assert_eq!(used, 1);
}

#[test]
fn single_block_reply() {
    let (r, used) = read_lines(&lines(&["151 \"hello\" wn\r\n", "hello\r\n", ".\r\n"]));
    let resp = r.expect("complete");
    assert_eq!(resp.code(), StatusCode::DefinitionFollows);
    assert_eq!(resp.content, vec!["hello\r\n".to_string()]);
    assert_eq!(used, 3);
}

#[test]
fn single_block_reply_with_empty_body() {
    let (r, _) = read_lines(&lines(&["152 0 matches\r\n", ".\r\n"]));
    let resp = r.expect("complete");
    assert!(resp.content.is_empty());
}

#[test]
fn counted_reply_keeps_blocks_apart() {
    let (r, used) = read_lines(&lines(&[
        "150 2 definitions found\r\n",
        "first\r\n",
        ".\r\n",
        "second a\r\n",
        "second b\r\n",
        ".\r\n",
        "250 ok\r\n",
    ]));
    let resp = r.expect("complete");
    assert_eq!(resp.code(), StatusCode::DefinitionsRetrieved);
    assert_eq!(resp.count(), 2);
    assert_eq!(
        resp.content,
        vec!["first\r\n".to_string(), "second a\r\nsecond b\r\n".to_string()]
    );
    assert_eq!(used, 6);
}

#[test]
fn counted_reply_of_zero_reads_nothing_more() {
    let (r, used) = read_lines(&lines(&["150 0 definitions found\r\n", "hello\r\n", ".\r\n"]));
    let resp = r.expect("complete");
    assert!(resp.content.is_empty());
    assert_eq!(used, 1);
}

#[test]
fn malformed_count_is_zero() {
    let (r, used) = read_lines(&lines(&["150 many definitions\r\n", "x\r\n"]));
    let resp = r.expect("complete");
    assert_eq!(resp.count(), 0);
    assert!(resp.content.is_empty());
    assert_eq!(used, 1);
}

#[test]
fn end_after_multi_line_header_is_incomplete() {
    let (r, used) = read_lines(&lines(&["151 \"x\" wn\r\n"]));
    match r {
        Err(ReadError::Incomplete(resp)) => {
            assert_eq!(resp.code(), StatusCode::DefinitionFollows);
            assert!(resp.content.is_empty());
        }
        other => panic!("unexpected {:?}", other),
    }
    assert_eq!(used, 1);

    let (r, used) = read_lines(&lines(&["151 \"x\" wn\r\n", "partial\r\n"]));
    match r {
        Err(ReadError::Incomplete(resp)) => {
            assert_eq!(resp.content, vec!["partial\r\n".to_string()]);
        }
        other => panic!("unexpected {:?}", other),
    }
    assert_eq!(used, 2);
}

#[test]
fn counted_reply_cut_short_keeps_finished_blocks() {
    let (r, _) = read_lines(&lines(&["150 3 found\r\n", "one\r\n", ".\r\n", "tw"]));
    match r {
        Err(ReadError::Incomplete(resp)) => {
            assert_eq!(resp.content, vec!["one\r\n".to_string(), "tw".to_string()]);
        }
        other => panic!("unexpected {:?}", other),
    }
}

#[test]
fn empty_source_is_no_response() {
    let (r, used) = read_lines(&Vec::new());
    assert!(matches!(r, Err(ReadError::NoResponse)));
    assert_eq!(used, 0);
}

#[test]
fn unknown_status_is_refused() {
    let (r, used) = read_lines(&lines(&["299 what\r\n", "x\r\n"]));
    match r {
        Err(ReadError::UnrecognizedStatus(l)) => assert_eq!(l, "299 what\r\n"),
        other => panic!("unexpected {:?}", other),
    }
    assert_eq!(used, 1);
}

#[test]
fn terminator_is_matched_after_trimming() {
    let (r, _) = read_lines(&lines(&["151 x\r\n", " .  \n", "after\r\n"]));
    let resp = r.expect("complete");
    assert!(resp.content.is_empty());
    let (r, _) = read_lines(&lines(&["151 x\r\n", "..\r\n", ". .\r\n", ".\r\n"]));
    let resp = r.expect("complete");
    assert_eq!(resp.content, vec!["..\r\n. .\r\n".to_string()]);
}

#[test]
fn reader_fed_step_by_step() {
    let mut reader = ResponseReader::new();
    assert_eq!(reader.phase(), Phase::AwaitHeader);
    reader.feed(Some("220 banner <id@host>\r\n"));
    assert_eq!(reader.phase(), Phase::SingleBlock);
    reader.feed(Some("text\r\n"));
    assert!(!reader.is_finished());
    reader.feed(Some(".\r\n"));
    assert!(reader.is_finished());
    let resp = reader.into_outcome().expect("complete");
    assert_eq!(resp.code(), StatusCode::TextMsgId);
    assert_eq!(resp.content, vec!["text\r\n".to_string()]);
}

#[test]
fn header_line_parts() {
    let resp = Response::from_line("552 no match\r\n").expect("known");
    assert_eq!(resp.code(), StatusCode::NoMatch);
    assert_eq!(resp.first_line(), "no match\r\n");
    assert!(resp.code().is_error());
    assert!(!resp.is_multple_data());
    assert!(Response::from_line("abc def").is_none());
    assert!(Response::from_line("250\r\n").is_none());
    assert!(Response::from_line("250").is_none());
    assert!(Response::from_line("250\tok\r\n").is_none());
    let resp = Response::from_line("+250 ok\r\n").expect("signed token");
    assert_eq!(resp.code(), StatusCode::Okay);
}

#[test]
fn count_from_header_text() {
    let resp = Response::from_line("150 12 definitions retrieved\r\n").unwrap();
    assert_eq!(resp.count(), 12);
    assert!(resp.is_multple_data());
    let resp = Response::from_line("150 7\r\n").unwrap();
    assert_eq!(resp.count(), 7);
    let resp = Response::from_line("150 99999999999999999999999 found\r\n").unwrap();
    assert_eq!(resp.count(), 0);
}

#[test]
fn parse_whole_text() {
    let resp = Response::parse("151 \"a\" wn\nbody line\n.\n").expect("complete");
    assert_eq!(resp.code(), StatusCode::DefinitionFollows);
    assert_eq!(resp.first_line(), "\"a\" wn");
    assert_eq!(resp.content, vec!["body line\n".to_string()]);

    let resp = Response::parse("250 ok\n").expect("complete");
    assert_eq!(resp.first_line(), "ok");
    let resp = Response::parse("250 ok\nx").expect("complete");
    assert_eq!(resp.first_line(), "ok");
    let resp = Response::parse("250 ok").expect("complete");
    assert_eq!(resp.first_line(), "ok");
    assert!(resp.content.is_empty());

    let resp = Response::parse("150 2 found\none\n.\ntwo\n.\n").expect("complete");
    assert_eq!(resp.content, vec!["one\n".to_string(), "two\n".to_string()]);

    assert!(matches!(Response::parse("151 x\nno end"), Err(ReadError::Incomplete(_))));
    assert!(matches!(Response::parse("999 x\nbody"), Err(ReadError::UnrecognizedStatus(_))));
    assert!(matches!(Response::parse("250\nbody"), Err(ReadError::UnrecognizedStatus(_))));
    assert!(matches!(Response::parse(""), Err(ReadError::NoResponse)));
}

#[test]
fn header_without_space_is_unrecognized() {
    let (r, used) = read_lines(&lines(&["250\r\n"]));
    assert!(matches!(r, Err(ReadError::UnrecognizedStatus(_))));
    assert_eq!(used, 1);
}

#[test]
fn count_is_zero_for_other_replies() {
    let resp = Response::from_line("250 7 x\r\n").unwrap();
    assert_eq!(resp.count(), 0);
    let resp = Response::from_line("150 +3 found\r\n").unwrap();
    assert_eq!(resp.count(), 3);
    let resp = Response::from_line("150  2 found\r\n").unwrap();
    assert_eq!(resp.count(), 2);
    let resp = Response::from_line("150 \t2\r\n").unwrap();
    assert_eq!(resp.count(), 2);
}

#[test]
fn counted_reply_after_extra_spaces() {
    let (r, used) = read_lines(&lines(&["150  1 found\r\n", "only\r\n", ".\r\n", "250 ok\r\n"]));
    let resp = r.expect("complete");
    assert_eq!(resp.content, vec!["only\r\n".to_string()]);
    assert_eq!(used, 3);
}

#[test]
fn terminator_padded_with_unicode_space() {
    let (r, _) = read_lines(&lines(&["151 x\r\n", "body\r\n", "\u{a0}.\u{3000}\r\n"]));
    let resp = r.expect("complete");
    assert_eq!(resp.content, vec!["body\r\n".to_string()]);
}
