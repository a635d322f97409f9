use vstd::prelude::*;

use crate::reader::{initial_state, read_rest, reports, run_text, step, ReadError, ResponseReader};
use crate::reader_laws::lemma_blocks_agree_after_header;
use crate::status::StatusCode;
use crate::text::{find_char, find_from, first_word, first_word_of, parse_decimal, spec_decimal};

verus! {

/// The texts held by a list of strings.
pub open spec fn texts(v: Seq<String>) -> Seq<Seq<char>> {
    v.map_values(|s: String| s@)
}

/// The status token of a header line: its text before the first space, or
/// the whole line when it holds no space.
pub open spec fn header_token(l: Seq<char>) -> Seq<char> {
    l.subrange(0, find_from(l, ' ', 0))
}

/// The remainder of a header line after its first space; empty when the
/// line holds no space.
pub open spec fn header_meta(l: Seq<char>) -> Seq<char> {
    let k = find_from(l, ' ', 0);
    if k < l.len() {
        l.subrange(k + 1, l.len() as int)
    } else {
        Seq::empty()
    }
}

/// The code that a header line names: its status token classified, and
/// `None` when the line holds no space to end that token.
pub open spec fn header_code(l: Seq<char>) -> Option<StatusCode> {
    if find_from(l, ' ', 0) < l.len() {
        StatusCode::spec_from_text(header_token(l))
    } else {
        None
    }
}

/// The item count that a header's text announces: its first word read as
/// a decimal number, or zero when that word is missing or no such number.
pub open spec fn spec_count(meta: Seq<char>) -> nat {
    match spec_decimal(first_word(meta)) {
        Some(v) => if v <= usize::MAX {
            v as nat
        } else {
            0
        },
        None => 0,
    }
}

/// One reply of the server: its status, the text of its header after the
/// status token, and its body blocks.
#[derive(Debug)]
pub struct Response {
    /// status code from the header line
    code: StatusCode,
    /// metadata of the response: the header after the status token
    first_line: String,
    /// body blocks of the response, in the order received
    pub content: Vec<String>,
}

impl Response {
    pub closed spec fn spec_code(&self) -> StatusCode {
        self.code
    }

    pub closed spec fn spec_first_line(&self) -> Seq<char> {
        self.first_line@
    }

    pub closed spec fn spec_content(&self) -> Seq<Seq<char>> {
        texts(self.content@)
    }

    /// The response holds exactly this status, header text and blocks.
    pub open spec fn holds(
        &self,
        code: StatusCode,
        first_line: Seq<char>,
        content: Seq<Seq<char>>,
    ) -> bool {
        &&& self.spec_code() == code
        &&& self.spec_first_line() == first_line
        &&& self.spec_content() == content
    }

    /// A response with no body blocks.
    pub(crate) fn header_only(code: StatusCode, first_line: String) -> (r: Response)
        ensures
            r.holds(code, first_line@, Seq::empty()),
    {
        let r = Response { code, first_line, content: Vec::new() };
        assert(r.spec_content() =~= Seq::empty());
        r
    }

    /// A response from its parts.
    pub(crate) fn assemble(code: StatusCode, first_line: String, content: Vec<String>) -> (r: Response)
        ensures
            r.holds(code, first_line@, texts(content@)),
    {
        Response { code, first_line, content }
    }

    /// Reads a header line, split at its first space: `None` when the line
    /// holds no space or the text before that space names no code. The
    /// header text is what follows the space; the response has no blocks.
    pub fn from_line(line: &str) -> (r: Option<Response>)
        ensures
            match header_code(line@) {
                Some(c) => r matches Some(resp) && resp.holds(c, header_meta(line@), Seq::empty()),
                None => r is None,
            },
            find_from(line@, ' ', 0) == line@.len() ==> r is None,
    {
        let k = find_char(line, ' ');
        let n = line.unicode_len();
        if k >= n {
            return None;
        }
        let token = line.substring_char(0, k);
        match StatusCode::from_str(token) {
            Some(code) => {
                let meta = String::from_str(line.substring_char(k + 1, n));
                Some(Response::header_only(code, meta))
            },
            None => None,
        }
    }

    /// Reads a whole reply held in one text. The header line is the text
    /// before the first '\n' (all of it when there is none); the lines after
    /// that '\n', each ending after its own '\n', are framed as a reader
    /// frames the lines of a connection. A complete or incomplete reply
    /// keeps as header text what lies between the header's first space and
    /// its end, and a complete reply has as many blocks as its status calls
    /// for. An empty text holds no header line: no response.
    pub fn parse(content: &str) -> (r: Result<Response, ReadError>)
        ensures
            ({
                let k = find_from(content@, '\n', 0);
                let header = content@.subrange(0, k);
                let body = if k < content@.len() {
                    content@.subrange(k + 1, content@.len() as int)
                } else {
                    Seq::empty()
                };
                &&& content@.len() == 0 ==> (r matches Err(ReadError::NoResponse))
                &&& content@.len() > 0 ==> reports(
                    r,
                    run_text(step(initial_state(), Some(header)), body),
                )
                &&& (r matches Ok(resp) ==> resp.spec_first_line() == header_meta(header))
                &&& (r matches Err(ReadError::Incomplete(resp)) ==> resp.spec_first_line()
                    == header_meta(header))
            }),
            r matches Ok(resp) ==> {
                let n = resp.spec_content().len();
                &&& !resp.spec_code().spec_is_multi_line() ==> n == 0
                &&& resp.spec_code().spec_is_multi_line() && resp.spec_code()
                    != StatusCode::DefinitionsRetrieved ==> n <= 1
                &&& resp.spec_code() == StatusCode::DefinitionsRetrieved ==> n == spec_count(
                    resp.spec_first_line(),
                )
            },
    {
        let n = content.unicode_len();
        if n == 0 {
            return Err(ReadError::NoResponse);
        }
        let k = find_char(content, '\n');
        let header = content.substring_char(0, k);
        let from = if k < n {
            k + 1
        } else {
            n
        };
        let body = content.substring_char(from, n);
        assert(k >= n ==> body@ =~= Seq::<char>::empty());
        let mut reader = ResponseReader::new();
        reader.feed(Some(header));
        proof {
            lemma_blocks_agree_after_header(header@, body@);
        }
        read_rest(reader, body)
    }

    /// The status of the reply.
    pub fn code(&self) -> (r: StatusCode)
        ensures
            r == self.spec_code(),
    {
        self.code
    }

    /// The header text after the status token.
    pub fn first_line(&self) -> (r: &str)
        ensures
            r@ == self.spec_first_line(),
    {
        self.first_line.as_str()
    }

    /// Whether the status announces text blocks.
    pub fn is_multple_data(&self) -> (r: bool)
        ensures
            r == self.spec_code().spec_is_multi_line(),
    {
        self.code.is_multple_data()
    }

    /// The item count that a counted reply's header text announces; zero
    /// for any other reply, and when the first word is missing or is no
    /// decimal number that fits.
    pub fn count(&self) -> (r: usize)
        ensures
            r as nat == if self.spec_code() == StatusCode::DefinitionsRetrieved {
                spec_count(self.spec_first_line())
            } else {
                0
            },
    {
        if self.code != StatusCode::DefinitionsRetrieved {
            return 0;
        }
        let word = first_word_of(self.first_line.as_str());
        match parse_decimal(word) {
            Some(v) => v,
            None => 0,
        }
    }
}

} // verus!
