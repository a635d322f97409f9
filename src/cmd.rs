use vstd::prelude::*;

verus! {

/// A request of the DICT protocol, one per command line.
#[derive(Debug, Clone, PartialEq, Eq)]
pub enum Command {
    Define { database: String, word: String },
    Match { database: String, strategy: String, word: String },
    Client { text: String },
    Auth { username: String, authentication_string: String },
    ShowDb,
    ShowStrat,
    ShowInfo,
    ShowServer,
    Status,
    Help,
    Quit,
}

/// The line terminator of the protocol.
pub open spec fn crlf() -> Seq<char> {
    seq!['\r', '\n']
}

/// A single space.
pub open spec fn space() -> Seq<char> {
    seq![' ']
}

impl Command {
    /// The request line, without its terminator, as the table of the
    /// protocol lays it out.
    pub open spec fn spec_line(&self) -> Seq<char> {
        match self {
            Command::Define { database, word } => "DEFINE"@ + space() + database@ + space() + word@,
            Command::Match { database, strategy, word } => "MATCH"@ + space() + database@ + space()
                + strategy@ + space() + word@,
            Command::Client { text } => "CLIENT"@ + space() + text@,
            Command::Auth { username, authentication_string } => "AUTH"@ + space() + username@
                + space() + authentication_string@,
            Command::ShowDb => "SHOW"@ + space() + "DB"@,
            Command::ShowStrat => "SHOW"@ + space() + "STRAT"@,
            Command::ShowInfo => "SHOW"@ + space() + "INFO"@,
            Command::ShowServer => "SHOW"@ + space() + "SERVER"@,
            Command::Status => "STATUS"@,
            Command::Help => "HELP"@,
            Command::Quit => "QUIT"@,
        }
    }

    /// The request as sent: the line followed by CRLF.
    pub open spec fn spec_message(&self) -> Seq<char> {
        self.spec_line() + crlf()
    }

    /// Looks up `word` in `database` ("!" for the first match, "*" for all).
    pub fn define(database: &str, word: &str) -> (r: Command)
        ensures
            r matches Command::Define { database: d, word: w } && d@ == database@ && w@ == word@,
    {
        Command::Define { database: String::from_str(database), word: String::from_str(word) }
    }

    /// Matches `word` in `database` under `strategy` ("exact", "prefix", ...).
    pub fn matches(database: &str, strategy: &str, word: &str) -> (r: Command)
        ensures
            r matches Command::Match { database: d, strategy: s, word: w } && d@ == database@
                && s@ == strategy@ && w@ == word@,
    {
        Command::Match {
            database: String::from_str(database),
            strategy: String::from_str(strategy),
            word: String::from_str(word),
        }
    }

    /// Identifies the client to the server.
    pub fn client(text: &str) -> (r: Command)
        ensures
            r matches Command::Client { text: t } && t@ == text@,
    {
        Command::Client { text: String::from_str(text) }
    }

    /// Lists the databases.
    pub fn show_db() -> (r: Command)
        ensures
            r is ShowDb,
    {
        Command::ShowDb
    }

    /// Lists the matching strategies.
    pub fn show_strat() -> (r: Command)
        ensures
            r is ShowStrat,
    {
        Command::ShowStrat
    }

    /// Asks for database information.
    pub fn show_info() -> (r: Command)
        ensures
            r is ShowInfo,
    {
        Command::ShowInfo
    }

    /// Encodes the request: verb, arguments separated by single spaces, CRLF.
    /// No escaping is done.
    pub fn to_message(&self) -> (r: String)
        ensures
            r@ == self.spec_message(),
    {
        let mut line = match self {
            Command::Define { database, word } => {
                let mut s = String::from_str("DEFINE ");
                s.append(database.as_str());
                s.append(" ");
                s.append(word.as_str());
                s
            },
            Command::Match { database, strategy, word } => {
                let mut s = String::from_str("MATCH ");
                s.append(database.as_str());
                s.append(" ");
                s.append(strategy.as_str());
                s.append(" ");
                s.append(word.as_str());
                s
            },
            Command::Client { text } => {
                let mut s = String::from_str("CLIENT ");
                s.append(text.as_str());
                s
            },
            Command::Auth { username, authentication_string } => {
                let mut s = String::from_str("AUTH ");
                s.append(username.as_str());
                s.append(" ");
                s.append(authentication_string.as_str());
                s
            },
            Command::ShowDb => String::from_str("SHOW DB"),
            Command::ShowStrat => String::from_str("SHOW STRAT"),
            Command::ShowInfo => String::from_str("SHOW INFO"),
            Command::ShowServer => String::from_str("SHOW SERVER"),
            Command::Status => String::from_str("STATUS"),
            Command::Help => String::from_str("HELP"),
            Command::Quit => String::from_str("QUIT"),
        };
        proof {
            reveal_strlit("DEFINE ");
            reveal_strlit("DEFINE");
            reveal_strlit("MATCH ");
            reveal_strlit("MATCH");
            reveal_strlit("CLIENT ");
            reveal_strlit("CLIENT");
            reveal_strlit("AUTH ");
            reveal_strlit("AUTH");
            reveal_strlit(" ");
            reveal_strlit("SHOW DB");
            reveal_strlit("SHOW STRAT");
            reveal_strlit("SHOW INFO");
            reveal_strlit("SHOW SERVER");
            reveal_strlit("SHOW");
            reveal_strlit("DB");
            reveal_strlit("STRAT");
            reveal_strlit("INFO");
            reveal_strlit("SERVER");
            reveal_strlit("\r\n");
        }
        line.append("\r\n");
        assert(line@ =~= self.spec_message());
        line
    }
}

/// No character of `s` is a space.
pub open spec fn no_space(s: Seq<char>) -> bool {
    forall|i: int| 0 <= i < s.len() ==> #[trigger] s[i] != ' '
}

/// No character of `s` is a carriage return or a line feed.
pub open spec fn no_line_break(s: Seq<char>) -> bool {
    forall|i: int| 0 <= i < s.len() ==> #[trigger] s[i] != '\r' && s[i] != '\n'
}

/// Words joined by single spaces.
pub open spec fn join_words(ws: Seq<Seq<char>>) -> Seq<char>
    decreases ws.len(),
{
    if ws.len() == 0 {
        Seq::empty()
    } else if ws.len() == 1 {
        ws[0]
    } else {
        ws[0] + space() + join_words(ws.drop_first())
    }
}

/// The text cut at every space: one word more than there are spaces.
pub open spec fn split_words(s: Seq<char>) -> Seq<Seq<char>>
    decreases s.len(),
{
    if s.len() == 0 {
        seq![Seq::empty()]
    } else {
        let rest = split_words(s.drop_first());
        if s[0] == ' ' {
            seq![Seq::<char>::empty()] + rest
        } else {
            rest.update(0, seq![s[0]] + rest[0])
        }
    }
}

impl Command {
    /// The verb of the request, as one or two words.
    pub open spec fn verb(&self) -> Seq<Seq<char>> {
        match self {
            Command::Define { .. } => seq!["DEFINE"@],
            Command::Match { .. } => seq!["MATCH"@],
            Command::Client { .. } => seq!["CLIENT"@],
            Command::Auth { .. } => seq!["AUTH"@],
            Command::ShowDb => seq!["SHOW"@, "DB"@],
            Command::ShowStrat => seq!["SHOW"@, "STRAT"@],
            Command::ShowInfo => seq!["SHOW"@, "INFO"@],
            Command::ShowServer => seq!["SHOW"@, "SERVER"@],
            Command::Status => seq!["STATUS"@],
            Command::Help => seq!["HELP"@],
            Command::Quit => seq!["QUIT"@],
        }
    }

    /// The arguments of the request, in the order they are sent.
    pub open spec fn arguments(&self) -> Seq<Seq<char>> {
        match self {
            Command::Define { database, word } => seq![database@, word@],
            Command::Match { database, strategy, word } => seq![database@, strategy@, word@],
            Command::Client { text } => seq![text@],
            Command::Auth { username, authentication_string } => seq![
                username@,
                authentication_string@,
            ],
            _ => Seq::empty(),
        }
    }
}

proof fn lemma_split_len(s: Seq<char>)
    ensures
        split_words(s).len() >= 1,
    decreases s.len(),
{
    if s.len() > 0 {
        lemma_split_len(s.drop_first());
    }
}

proof fn lemma_split_prefix(a: Seq<char>, t: Seq<char>)
    requires
        no_space(a),
    ensures
        split_words(a + t) == split_words(t).update(0, a + split_words(t)[0]),
    decreases a.len(),
{
    lemma_split_len(t);
    if a.len() == 0 {
        assert(a + t =~= t);
        assert(a + split_words(t)[0] =~= split_words(t)[0]);
        assert(split_words(t).update(0, split_words(t)[0]) =~= split_words(t));
    } else {
        let a1 = a.drop_first();
        assert(no_space(a1)) by {
            assert forall|i: int| 0 <= i < a1.len() implies #[trigger] a1[i] != ' ' by {
                assert(a1[i] == a[i + 1]);
            }
        }
        lemma_split_prefix(a1, t);
        assert((a + t).drop_first() =~= a1 + t);
        assert((a + t)[0] == a[0]);
        assert(seq![a[0]] + (a1 + split_words(t)[0]) =~= a + split_words(t)[0]);
        assert(split_words(a + t) =~= split_words(t).update(0, a + split_words(t)[0]));
    }
}

proof fn lemma_split_join(ws: Seq<Seq<char>>)
    requires
        ws.len() >= 1,
        forall|i: int| 0 <= i < ws.len() ==> no_space(#[trigger] ws[i]),
    ensures
        split_words(join_words(ws)) == ws,
    decreases ws.len(),
{
    assert(no_space(ws[0]));
    if ws.len() == 1 {
        lemma_split_prefix(ws[0], Seq::empty());
        assert(ws[0] + Seq::<char>::empty() =~= ws[0]);
        assert(split_words(Seq::<char>::empty()).update(0, ws[0]) =~= ws);
    } else {
        let rest = ws.drop_first();
        assert forall|i: int| 0 <= i < rest.len() implies no_space(#[trigger] rest[i]) by {
            assert(rest[i] == ws[i + 1]);
        }
        lemma_split_join(rest);
        let t = space() + join_words(rest);
        assert(ws[0] + space() + join_words(rest) =~= ws[0] + t);
        lemma_split_prefix(ws[0], t);
        assert(t.drop_first() =~= join_words(rest));
        assert(ws[0] + Seq::<char>::empty() =~= ws[0]);
        assert(split_words(t).update(0, ws[0] + split_words(t)[0]) =~= ws);
    }
}

proof fn lemma_join_small(ws: Seq<Seq<char>>)
    ensures
        ws.len() == 1 ==> join_words(ws) == ws[0],
        ws.len() == 2 ==> join_words(ws) == ws[0] + space() + ws[1],
        ws.len() == 3 ==> join_words(ws) == ws[0] + space() + (ws[1] + space() + ws[2]),
        ws.len() == 4 ==> join_words(ws) == ws[0] + space() + (ws[1] + space() + (ws[2] + space()
            + ws[3])),
{
    if 2 <= ws.len() <= 4 {
        let r1 = ws.drop_first();
        assert(r1[0] == ws[1]);
        assert(join_words(ws) == ws[0] + space() + join_words(r1));
        if r1.len() == 1 {
            assert(join_words(r1) == ws[1]);
        } else {
            let r2 = r1.drop_first();
            assert(r2[0] == ws[2]);
            assert(join_words(r1) == ws[1] + space() + join_words(r2));
            if r2.len() == 1 {
                assert(join_words(r2) == ws[2]);
            } else {
                let r3 = r2.drop_first();
                assert(r3[0] == ws[3]);
                assert(join_words(r2) == ws[2] + space() + join_words(r3));
                assert(join_words(r3) == ws[3]);
            }
        }
    }
}

proof fn lemma_join_no_line_break(ws: Seq<Seq<char>>)
    requires
        forall|i: int| 0 <= i < ws.len() ==> no_line_break(#[trigger] ws[i]),
    ensures
        no_line_break(join_words(ws)),
    decreases ws.len(),
{
    if ws.len() >= 2 {
        let rest = ws.drop_first();
        assert forall|i: int| 0 <= i < rest.len() implies no_line_break(#[trigger] rest[i]) by {
            assert(rest[i] == ws[i + 1]);
        }
        lemma_join_no_line_break(rest);
        let j = ws[0] + space() + join_words(rest);
        assert(no_line_break(ws[0]));
        assert forall|i: int| 0 <= i < j.len() implies #[trigger] j[i] != '\r' && j[i] != '\n' by {
            if i < ws[0].len() {
                assert(j[i] == ws[0][i]);
            } else if i > ws[0].len() {
                assert(j[i] == join_words(rest)[i - ws[0].len() - 1]);
            }
        }
    } else if ws.len() == 1 {
        assert(no_line_break(ws[0]));
    }
}

/// Encoding and reading back agree: the request sent is its verb and
/// arguments joined by single spaces and followed by CRLF, and cutting the
/// line before the CRLF at its spaces gives back exactly the verb words and
/// the arguments, in order, provided no argument holds a space.
pub proof fn lemma_message_round_trip(c: Command)
    requires
        forall|i: int| 0 <= i < c.arguments().len() ==> no_space(#[trigger] c.arguments()[i]),
    ensures
        c.spec_message() == join_words(c.verb() + c.arguments()) + crlf(),
        split_words(c.spec_message().subrange(0, c.spec_message().len() - 2)) == c.verb()
            + c.arguments(),
{
    reveal_strlit("DEFINE");
    reveal_strlit("MATCH");
    reveal_strlit("CLIENT");
    reveal_strlit("AUTH");
    reveal_strlit("SHOW");
    reveal_strlit("DB");
    reveal_strlit("STRAT");
    reveal_strlit("INFO");
    reveal_strlit("SERVER");
    reveal_strlit("STATUS");
    reveal_strlit("HELP");
    reveal_strlit("QUIT");
    let ws = c.verb() + c.arguments();
    assert forall|i: int| 0 <= i < ws.len() implies no_space(#[trigger] ws[i]) by {
        if i >= c.verb().len() {
            assert(ws[i] == c.arguments()[i - c.verb().len()]);
        }
    }
    lemma_join_small(ws);
    assert(ws.len() <= 4);
    assert(join_words(ws) =~= c.spec_line());
    lemma_split_join(ws);
    assert(c.spec_message().subrange(0, c.spec_message().len() - 2) =~= c.spec_line());
    assert(c.spec_message().subrange(c.spec_message().len() - 2, c.spec_message().len() as int)
        =~= crlf());
    if forall|i: int| 0 <= i < c.arguments().len() ==> no_line_break(#[trigger] c.arguments()[i]) {
        assert forall|i: int| 0 <= i < ws.len() implies no_line_break(#[trigger] ws[i]) by {
            if i >= c.verb().len() {
                assert(ws[i] == c.arguments()[i - c.verb().len()]);
            }
        }
        lemma_join_no_line_break(ws);
    }
}

} // verus!
