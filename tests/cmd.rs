use dict_client::Command;

#[test]
fn builder() {
    let cmd = Command::define("test", "test");
    assert_eq!(cmd.to_message(), "DEFINE test test\r\n");

    let mat = Command::matches("test", "exact", "test");
    assert_eq!(mat.to_message(), "MATCH test exact test\r\n");

    let cmd = Command::show_db();
    assert_eq!(cmd.to_message(), "SHOW DB\r\n");

    let cmd = Command::client(&String::from("value"));
    assert_eq!(cmd.to_message(), "CLIENT value\r\n");
}

#[test]
fn every_command_matches_the_wire_table() {
    let cases: Vec<(Command, &str)> = vec![
        (Command::define("!", "apple"), "DEFINE ! apple\r\n"),
        (Command::matches("*", "prefix", "app"), "MATCH * prefix app\r\n"),
        (Command::client("my client"), "CLIENT my client\r\n"),
        (
            Command::Auth { username: "joe".to_string(), authentication_string: "abc123".to_string() },
            "AUTH joe abc123\r\n",
        ),
        (Command::show_db(), "SHOW DB\r\n"),
        (Command::show_strat(), "SHOW STRAT\r\n"),
        (Command::show_info(), "SHOW INFO\r\n"),
        (Command::ShowServer, "SHOW SERVER\r\n"),
        (Command::Status, "STATUS\r\n"),
        (Command::Help, "HELP\r\n"),
        (Command::Quit, "QUIT\r\n"),
    ];
    for (c, line) in cases {
        assert_eq!(c.to_message(), line);
    }
}

#[test]
fn encoded_line_splits_back_into_verb_and_arguments() {
    let c = Command::matches("wn", "exact", "tree");
    let msg = c.to_message();
    assert!(msg.ends_with("\r\n"));
    let body = &msg[..msg.len() - 2];
    let words: Vec<&str> = body.split(' ').collect();
    assert_eq!(words, vec!["MATCH", "wn", "exact", "tree"]);

    let c = Command::define("*", "word");
    let msg = c.to_message();
    let words: Vec<&str> = msg.trim_end_matches("\r\n").split(' ').collect();
    assert_eq!(words, vec!["DEFINE", "*", "word"]);
}

#[test]
fn builders_keep_their_arguments() {
    match Command::define("db", "w") {
        Command::Define { database, word } => {
            assert_eq!(database, "db");
            assert_eq!(word, "w");
        }
        _ => panic!("wrong variant"),
    }
    match Command::matches("db", "s", "w") {
        Command::Match { database, strategy, word } => {
            assert_eq!(database, "db");
            assert_eq!(strategy, "s");
            assert_eq!(word, "w");
        }
        _ => panic!("wrong variant"),
    }
}
