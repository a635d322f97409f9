use vstd::prelude::*;

use crate::response::{header_code, header_meta, spec_count, texts, Response};
use crate::status::StatusCode;
use crate::text::{find_char, find_from, is_dot_line, is_terminator, lemma_find_bounds};

verus! {

/// Where the reader stands in one exchange.
#[derive(Debug, Clone, Copy, PartialEq, Eq, Structural)]
pub enum Phase {
    /// No line read yet.
    AwaitHeader,
    /// Collecting the one block of a multi-line reply.
    SingleBlock,
    /// Collecting the blocks of a counted reply.
    CountedBlocks,
    /// The reply is complete.
    Complete,
    /// The source ended before any header line.
    NoResponse,
    /// The header's status token names no code.
    Unrecognized,
    /// The source ended inside a block.
    Truncated,
}

impl Phase {
    /// The exchange is over: no further line is read.
    pub open spec fn spec_is_final(self) -> bool {
        !(self == Phase::AwaitHeader || self == Phase::SingleBlock || self == Phase::CountedBlocks)
    }
}

/// The abstract state of a reader.
pub struct ReaderState {
    pub phase: Phase,
    pub code: StatusCode,
    /// The header text (for an unrecognized status, the whole header line).
    pub first_line: Seq<char>,
    /// The blocks completed so far.
    pub content: Seq<Seq<char>>,
    /// The block being collected.
    pub block: Seq<char>,
    /// The blocks of a counted reply still to come, this one included.
    pub remaining: nat,
}

/// The state before an exchange.
pub open spec fn initial_state() -> ReaderState {
    ReaderState {
        phase: Phase::AwaitHeader,
        code: StatusCode::Okay,
        first_line: Seq::empty(),
        content: Seq::empty(),
        block: Seq::empty(),
        remaining: 0,
    }
}

/// The blocks once the block being collected is closed, if it holds text.
pub open spec fn with_partial(s: ReaderState) -> Seq<Seq<char>> {
    if s.block.len() > 0 {
        s.content.push(s.block)
    } else {
        s.content
    }
}

/// The state after a header line has been read.
pub open spec fn after_header(s: ReaderState, l: Seq<char>) -> ReaderState {
    match header_code(l) {
        None => ReaderState { phase: Phase::Unrecognized, first_line: l, ..s },
        Some(c) => {
            let meta = header_meta(l);
            let phase = if !c.spec_is_multi_line() {
                Phase::Complete
            } else if c == StatusCode::DefinitionsRetrieved {
                if spec_count(meta) == 0 {
                    Phase::Complete
                } else {
                    Phase::CountedBlocks
                }
            } else {
                Phase::SingleBlock
            };
            ReaderState {
                phase,
                code: c,
                first_line: meta,
                content: Seq::empty(),
                block: Seq::empty(),
                remaining: if c == StatusCode::DefinitionsRetrieved {
                    spec_count(meta)
                } else {
                    0
                },
            }
        },
    }
}

/// One transition: the state after the source yields `line`, `None` being
/// the end of the stream. A final state never changes.
pub open spec fn step(s: ReaderState, line: Option<Seq<char>>) -> ReaderState {
    match s.phase {
        Phase::AwaitHeader => match line {
            None => ReaderState { phase: Phase::NoResponse, ..s },
            Some(l) => after_header(s, l),
        },
        Phase::SingleBlock => match line {
            None => ReaderState {
                phase: Phase::Truncated,
                content: with_partial(s),
                block: Seq::empty(),
                ..s
            },
            Some(l) => if is_dot_line(l) {
                ReaderState {
                    phase: Phase::Complete,
                    content: with_partial(s),
                    block: Seq::empty(),
                    ..s
                }
            } else {
                ReaderState { block: s.block + l, ..s }
            },
        },
        Phase::CountedBlocks => match line {
            None => ReaderState {
                phase: Phase::Truncated,
                content: with_partial(s),
                block: Seq::empty(),
                ..s
            },
            Some(l) => if is_dot_line(l) {
                ReaderState {
                    phase: if s.remaining <= 1 {
                        Phase::Complete
                    } else {
                        Phase::CountedBlocks
                    },
                    content: s.content.push(s.block),
                    block: Seq::empty(),
                    remaining: if s.remaining <= 1 {
                        0
                    } else {
                        (s.remaining - 1) as nat
                    },
                    ..s
                }
            } else {
                ReaderState { block: s.block + l, ..s }
            },
        },
        _ => s,
    }
}

/// The view of an optional line.
pub open spec fn line_view(line: Option<&str>) -> Option<Seq<char>> {
    match line {
        Some(l) => Some(l@),
        None => None,
    }
}

/// Why an exchange gave no complete response.
#[derive(Debug)]
pub enum ReadError {
    /// The source ended before any header line.
    NoResponse,
    /// The header's status token names no code; the header line is kept.
    UnrecognizedStatus(String),
    /// The source ended inside a block; what was collected is kept.
    Incomplete(Response),
}

/// The outcome `r` is what a reader in the final state `s` reports.
pub open spec fn reports(r: Result<Response, ReadError>, s: ReaderState) -> bool {
    match s.phase {
        Phase::Complete => r matches Ok(resp) && resp.holds(s.code, s.first_line, s.content),
        Phase::Truncated => r matches Err(ReadError::Incomplete(resp)) && resp.holds(
            s.code,
            s.first_line,
            s.content,
        ),
        Phase::Unrecognized => r matches Err(ReadError::UnrecognizedStatus(l)) && l@
            == s.first_line,
        Phase::NoResponse => r matches Err(ReadError::NoResponse),
        _ => false,
    }
}

/// The response-framing state machine of one exchange. It is handed the
/// lines of the source one at a time, each with its terminator, and then
/// the end of the stream as `None`, until it is finished.
pub struct ResponseReader {
    phase: Phase,
    code: StatusCode,
    first_line: String,
    content: Vec<String>,
    block: String,
    remaining: usize,
}

impl View for ResponseReader {
    type V = ReaderState;

    closed spec fn view(&self) -> ReaderState {
        ReaderState {
            phase: self.phase,
            code: self.code,
            first_line: self.first_line@,
            content: texts(self.content@),
            block: self.block@,
            remaining: self.remaining as nat,
        }
    }
}

impl ResponseReader {
    /// A reader that awaits the header line.
    pub fn new() -> (r: ResponseReader)
        ensures
            r@ == initial_state(),
    {
        let r = ResponseReader {
            phase: Phase::AwaitHeader,
            code: StatusCode::Okay,
            first_line: String::new(),
            content: Vec::new(),
            block: String::new(),
            remaining: 0,
        };
        assert(r@.content =~= Seq::empty());
        r
    }

    /// The phase of the exchange.
    pub fn phase(&self) -> (r: Phase)
        ensures
            r == self@.phase,
    {
        self.phase
    }

    /// Whether the exchange is over.
    pub fn is_finished(&self) -> (r: bool)
        ensures
            r == self@.phase.spec_is_final(),
    {
        !matches!(self.phase, Phase::AwaitHeader | Phase::SingleBlock | Phase::CountedBlocks)
    }

    /// Closes the block being collected, if it holds text.
    fn close_partial(&mut self)
        ensures
            final(self)@ == (ReaderState {
                content: with_partial(old(self)@),
                block: Seq::empty(),
                ..old(self)@
            }),
    {
        if self.block.unicode_len() > 0 {
            let b = self.block.clone();
            self.block = String::new();
            self.content.push(b);
            assert(texts(self.content@) =~= texts(old(self).content@).push(old(self).block@));
        } else {
            self.block = String::new();
            assert(self.block@ =~= Seq::empty());
        }
    }

    /// Hands the reader the next line of the source, or `None` at the end
    /// of the stream.
    pub fn feed(&mut self, line: Option<&str>)
        ensures
            final(self)@ == step(old(self)@, line_view(line)),
    {
        match self.phase {
            Phase::AwaitHeader => match line {
                None => {
                    self.phase = Phase::NoResponse;
                },
                Some(l) => self.read_header(l),
            },
            Phase::SingleBlock => match line {
                None => {
                    self.close_partial();
                    self.phase = Phase::Truncated;
                },
                Some(l) => {
                    if is_terminator(l) {
                        self.close_partial();
                        self.phase = Phase::Complete;
                    } else {
                        self.block.append(l);
                    }
                },
            },
            Phase::CountedBlocks => match line {
                None => {
                    self.close_partial();
                    self.phase = Phase::Truncated;
                },
                Some(l) => {
                    if is_terminator(l) {
                        let b = self.block.clone();
                        self.block = String::new();
                        self.content.push(b);
                        assert(texts(self.content@) =~= texts(old(self).content@).push(
                            old(self).block@,
                        ));
                        if self.remaining <= 1 {
                            self.remaining = 0;
                            self.phase = Phase::Complete;
                        } else {
                            self.remaining = self.remaining - 1;
                        }
                    } else {
                        self.block.append(l);
                    }
                },
            },
            _ => {},
        }
    }

    /// Reads the header line.
    fn read_header(&mut self, l: &str)
        requires
            old(self)@.phase == Phase::AwaitHeader,
        ensures
            final(self)@ == after_header(old(self)@, l@),
    {
        match Response::from_line(l) {
            None => {
                self.first_line = String::from_str(l);
                self.phase = Phase::Unrecognized;
            },
            Some(resp) => {
                let code = resp.code();
                let n = resp.count();
                self.phase = if !code.is_multple_data() {
                    Phase::Complete
                } else if code == StatusCode::DefinitionsRetrieved {
                    if n == 0 {
                        Phase::Complete
                    } else {
                        Phase::CountedBlocks
                    }
                } else {
                    Phase::SingleBlock
                };
                self.code = code;
                self.first_line = String::from_str(resp.first_line());
                self.content = Vec::new();
                self.block = String::new();
                self.remaining = n;
                assert(texts(self.content@) =~= Seq::empty());
            },
        }
    }

    /// The outcome of a finished exchange.
    pub fn into_outcome(self) -> (r: Result<Response, ReadError>)
        requires
            self@.phase.spec_is_final(),
        ensures
            reports(r, self@),
    {
        let ResponseReader { phase, code, first_line, content, block: _, remaining: _ } = self;
        match phase {
            Phase::NoResponse => Err(ReadError::NoResponse),
            Phase::Unrecognized => Err(ReadError::UnrecognizedStatus(first_line)),
            Phase::Truncated => Err(ReadError::Incomplete(Response::assemble(code, first_line, content))),
            _ => Ok(Response::assemble(code, first_line, content)),
        }
    }
}

} // verus!

verus! {

/// Runs the reader from state `s` over `lines`, starting at index `i`:
/// each line is handed over in turn until the reader is finished, and the
/// end of the stream after the last one. Gives the final state and the
/// index of the first line left unread.
pub open spec fn run(s: ReaderState, lines: Seq<Seq<char>>, i: int) -> (ReaderState, int)
    decreases lines.len() - i,
{
    if s.phase.spec_is_final() || i < 0 {
        (s, i)
    } else if i >= lines.len() {
        (step(s, None), i)
    } else {
        run(step(s, Some(lines[i])), lines, i + 1)
    }
}

/// Reads one reply from a source that yields `lines` and then ends. Gives
/// the outcome and how many lines were read; the lines after those are
/// left for the next exchange.
pub fn read_lines(lines: &Vec<String>) -> (r: (Result<Response, ReadError>, usize))
    ensures
        reports(r.0, run(initial_state(), texts(lines@), 0).0),
        r.1 as int == run(initial_state(), texts(lines@), 0).1,
{
    let ghost ls = texts(lines@);
    let n = lines.len();
    let mut reader = ResponseReader::new();
    let mut i: usize = 0;
    while i < n && !reader.is_finished()
        invariant
            n == lines@.len(),
            ls == texts(lines@),
            0 <= i <= n,
            run(reader@, ls, i as int) == run(initial_state(), ls, 0),
        decreases n - i,
    {
        assert(ls[i as int] == lines@[i as int]@);
        reader.feed(Some(lines[i].as_str()));
        i = i + 1;
    }
    if !reader.is_finished() {
        reader.feed(None);
    }
    (reader.into_outcome(), i)
}

} // verus!

verus! {

/// The length of the first line of `t`: up to and including its first
/// '\n', or all of `t` when it holds none.
pub open spec fn first_line_len(t: Seq<char>) -> int {
    let k = find_from(t, '\n', 0);
    if k < t.len() {
        k + 1
    } else {
        t.len() as int
    }
}

/// Runs the reader from state `s` over the lines of the text `t`, then the
/// end of the stream, until it is finished; gives the final state.
pub open spec fn run_text(s: ReaderState, t: Seq<char>) -> ReaderState
    decreases t.len(),
    via run_text_decreases
{
    if s.phase.spec_is_final() {
        s
    } else if t.len() == 0 {
        step(s, None)
    } else {
        run_text(
            step(s, Some(t.subrange(0, first_line_len(t)))),
            t.subrange(first_line_len(t), t.len() as int),
        )
    }
}

#[via_fn]
proof fn run_text_decreases(s: ReaderState, t: Seq<char>) {
    lemma_find_bounds(t, '\n', 0);
}

/// Hands `reader` the lines of `text`, then the end of the stream, until
/// it is finished, and gives its outcome.
pub(crate) fn read_rest(reader: ResponseReader, text: &str) -> (r: Result<Response, ReadError>)
    ensures
        reports(r, run_text(reader@, text@)),
{
    let mut reader = reader;
    let ghost start = reader@;
    let n = text.unicode_len();
    let mut pos: usize = 0;
    assert(text@.subrange(0, n as int) =~= text@);
    while pos < n && !reader.is_finished()
        invariant
            n == text@.len(),
            0 <= pos <= n,
            run_text(reader@, text@.subrange(pos as int, n as int)) == run_text(start, text@),
        decreases n - pos,
    {
        let rest = text.substring_char(pos, n);
        let k = find_char(rest, '\n');
        let len = if k < rest.unicode_len() {
            k + 1
        } else {
            k
        };
        let line = rest.substring_char(0, len);
        reader.feed(Some(line));
        proof {
            assert(rest@.subrange(len as int, rest@.len() as int) =~= text@.subrange(
                pos + len,
                n as int,
            ));
        }
        pos = pos + len;
    }
    if !reader.is_finished() {
        proof {
            assert(text@.subrange(pos as int, n as int).len() == 0);
        }
        reader.feed(None);
    }
    reader.into_outcome()
}

} // verus!
