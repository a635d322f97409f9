use vstd::prelude::*;

use crate::reader::{
    first_line_len, initial_state, run, run_text, step, with_partial, Phase, ReaderState,
};
use crate::response::{header_code, header_meta, spec_count};
use crate::status::StatusCode;
use crate::text::{is_dot_line, lemma_find_bounds};

verus! {

/// The number of blocks that a finished reply holds agrees with its status:
/// none for a single-line status, at most one for a multi-line status, and
/// as many as the header announces for the counted status (at most as many
/// when the stream ended early).
pub open spec fn blocks_agree(s: ReaderState) -> bool {
    let n = s.content.len();
    match s.phase {
        Phase::Complete => {
            &&& !s.code.spec_is_multi_line() ==> n == 0
            &&& s.code.spec_is_multi_line() && s.code != StatusCode::DefinitionsRetrieved ==> n <= 1
            &&& s.code == StatusCode::DefinitionsRetrieved ==> n == spec_count(s.first_line)
        },
        Phase::Truncated => {
            &&& s.code != StatusCode::DefinitionsRetrieved ==> n <= 1
            &&& s.code == StatusCode::DefinitionsRetrieved ==> n <= spec_count(s.first_line)
        },
        _ => true,
    }
}

/// What holds of every state that a reader reaches from the initial one.
pub open spec fn reachable_inv(s: ReaderState) -> bool {
    match s.phase {
        Phase::SingleBlock => {
            &&& s.code.spec_is_multi_line()
            &&& s.code != StatusCode::DefinitionsRetrieved
            &&& s.content.len() == 0
        },
        Phase::CountedBlocks => {
            &&& s.code == StatusCode::DefinitionsRetrieved
            &&& s.remaining >= 1
            &&& s.content.len() + s.remaining == spec_count(s.first_line)
        },
        _ => blocks_agree(s),
    }
}

proof fn lemma_step_inv(s: ReaderState, line: Option<Seq<char>>)
    requires
        reachable_inv(s),
    ensures
        reachable_inv(step(s, line)),
{
}

proof fn lemma_run_inv(s: ReaderState, lines: Seq<Seq<char>>, i: int)
    requires
        reachable_inv(s),
    ensures
        reachable_inv(run(s, lines, i).0),
    decreases lines.len() - i,
{
    if s.phase.spec_is_final() || i < 0 {
    } else if i >= lines.len() {
        lemma_step_inv(s, None);
    } else {
        lemma_step_inv(s, Some(lines[i]));
        lemma_run_inv(step(s, Some(lines[i])), lines, i + 1);
    }
}

/// Whatever lines the source yields, the reply read from them has as many
/// blocks as its status calls for: none for a single-line status, at most
/// one for a multi-line status, and exactly the announced count for the
/// counted status unless the stream ended early.
pub proof fn lemma_blocks_agree_with_status(lines: Seq<Seq<char>>)
    ensures
        blocks_agree(run(initial_state(), lines, 0).0),
{
    lemma_run_inv(initial_state(), lines, 0);
}

} // verus!

verus! {

/// The state that the end of the stream leaves when `extra` has been added
/// to the block being collected.
pub open spec fn truncated_with(s: ReaderState, extra: Seq<char>) -> ReaderState {
    let t = ReaderState { block: s.block + extra, ..s };
    ReaderState { phase: Phase::Truncated, content: with_partial(t), block: Seq::empty(), ..t }
}

proof fn lemma_run_without_terminator(s: ReaderState, lines: Seq<Seq<char>>, i: int)
    requires
        s.phase == Phase::SingleBlock || s.phase == Phase::CountedBlocks,
        0 <= i <= lines.len(),
        forall|j: int| i <= j < lines.len() ==> !is_dot_line(#[trigger] lines[j]),
    ensures
        run(s, lines, i) == (truncated_with(s, lines.subrange(i, lines.len() as int).flatten()), lines.len() as int),
    decreases lines.len() - i,
{
    let rest = lines.subrange(i, lines.len() as int);
    if i == lines.len() {
        assert(rest =~= Seq::empty());
        assert(s.block + rest.flatten() =~= s.block);
    } else {
        let t = step(s, Some(lines[i]));
        assert(t == ReaderState { block: s.block + lines[i], ..s });
        lemma_run_without_terminator(t, lines, i + 1);
        let tail = lines.subrange(i + 1, lines.len() as int);
        assert(rest.drop_first() =~= tail);
        assert(rest.flatten() == lines[i] + tail.flatten());
        assert(t.block + tail.flatten() =~= s.block + rest.flatten());
    }
}

/// When the source ends without ever sending the line "." after a
/// multi-line header, the exchange is incomplete: it has read every line,
/// and it keeps the status, the header text and, as its one block, all the
/// text that followed the header, if there was any.
pub proof fn lemma_unterminated_reply_is_incomplete(header: Seq<char>, body: Seq<Seq<char>>)
    requires
        header_code(header) matches Some(c) && c.spec_is_multi_line()
            && (c == StatusCode::DefinitionsRetrieved ==> spec_count(header_meta(header)) > 0),
        forall|j: int| 0 <= j < body.len() ==> !is_dot_line(#[trigger] body[j]),
    ensures
        ({
            let (s, k) = run(initial_state(), seq![header] + body, 0);
            &&& s.phase == Phase::Truncated
            &&& k == body.len() + 1
            &&& Some(s.code) == header_code(header)
            &&& s.first_line == header_meta(header)
            &&& s.content == if body.flatten().len() > 0 {
                seq![body.flatten()]
            } else {
                Seq::empty()
            }
        }),
{
    let lines = seq![header] + body;
    let s1 = step(initial_state(), Some(header));
    assert(lines[0] == header);
    assert forall|j: int| 1 <= j < lines.len() implies !is_dot_line(#[trigger] lines[j]) by {
        assert(lines[j] == body[j - 1]);
    }
    lemma_run_without_terminator(s1, lines, 1);
    assert(lines.subrange(1, lines.len() as int) =~= body);
    assert(s1.block + body.flatten() =~= body.flatten());
}

} // verus!

verus! {

/// The lines of a run of blocks, each followed by the terminator line `dot`.
pub open spec fn framed(bodies: Seq<Seq<Seq<char>>>, dot: Seq<char>) -> Seq<Seq<char>>
    decreases bodies.len(),
{
    if bodies.len() == 0 {
        Seq::empty()
    } else {
        bodies[0] + seq![dot] + framed(bodies.drop_first(), dot)
    }
}

/// No line of `ls` is a terminator.
pub open spec fn no_terminator(ls: Seq<Seq<char>>) -> bool {
    forall|j: int| 0 <= j < ls.len() ==> !is_dot_line(#[trigger] ls[j])
}

/// The text of each block: its lines, terminators included, end to end.
pub open spec fn block_texts(bodies: Seq<Seq<Seq<char>>>) -> Seq<Seq<char>> {
    bodies.map_values(|b: Seq<Seq<char>>| b.flatten())
}

proof fn lemma_run_block(s: ReaderState, lines: Seq<Seq<char>>, i: int, m: int)
    requires
        s.phase == Phase::SingleBlock || s.phase == Phase::CountedBlocks,
        0 <= i,
        0 <= m,
        i + m < lines.len(),
        forall|j: int| i <= j < i + m ==> !is_dot_line(#[trigger] lines[j]),
        is_dot_line(lines[i + m]),
    ensures
        run(s, lines, i) == run(
            step(
                ReaderState { block: s.block + lines.subrange(i, i + m).flatten(), ..s },
                Some(lines[i + m]),
            ),
            lines,
            i + m + 1,
        ),
    decreases m,
{
    if m == 0 {
        assert(lines.subrange(i, i) =~= Seq::empty());
        assert(s.block + lines.subrange(i, i).flatten() =~= s.block);
        assert(ReaderState { block: s.block, ..s } == s);
    } else {
        let t = step(s, Some(lines[i]));
        assert(t == ReaderState { block: s.block + lines[i], ..s });
        lemma_run_block(t, lines, i + 1, m - 1);
        let sub = lines.subrange(i, i + m);
        assert(sub.drop_first() =~= lines.subrange(i + 1, i + m));
        assert(sub.flatten() == lines[i] + lines.subrange(i + 1, i + m).flatten());
        assert(t.block + lines.subrange(i + 1, i + m).flatten() =~= s.block + sub.flatten());
    }
}

proof fn lemma_run_counted(
    s: ReaderState,
    lines: Seq<Seq<char>>,
    i: int,
    bodies: Seq<Seq<Seq<char>>>,
    dot: Seq<char>,
)
    requires
        s.phase == Phase::CountedBlocks,
        s.block.len() == 0,
        s.remaining == bodies.len(),
        bodies.len() >= 1,
        is_dot_line(dot),
        forall|k: int| 0 <= k < bodies.len() ==> no_terminator(#[trigger] bodies[k]),
        0 <= i,
        i + framed(bodies, dot).len() <= lines.len(),
        lines.subrange(i, i + framed(bodies, dot).len()) == framed(bodies, dot),
    ensures
        run(s, lines, i) == (
            ReaderState {
                phase: Phase::Complete,
                content: s.content + block_texts(bodies),
                block: Seq::empty(),
                remaining: 0,
                ..s
            },
            i + framed(bodies, dot).len(),
        ),
    decreases bodies.len(),
{
    let f = framed(bodies, dot);
    let b0 = bodies[0];
    let m = b0.len() as int;
    let tail = bodies.drop_first();
    assert(f == b0 + seq![dot] + framed(tail, dot));
    assert forall|j: int| i <= j < i + m implies !is_dot_line(#[trigger] lines[j]) by {
        assert(lines[j] == lines.subrange(i, i + f.len())[j - i]);
        assert(f[j - i] == b0[j - i]);
        assert(no_terminator(bodies[0]));
    }
    assert(lines[i + m] == lines.subrange(i, i + f.len())[m]);
    assert(lines[i + m] == dot);
    lemma_run_block(s, lines, i, m);
    assert(lines.subrange(i, i + m) =~= b0) by {
        assert forall|j: int| 0 <= j < m implies lines.subrange(i, i + m)[j] == b0[j] by {
            assert(lines[i + j] == lines.subrange(i, i + f.len())[j]);
        }
    }
    assert(s.block + b0.flatten() =~= b0.flatten());
    let t = step(ReaderState { block: b0.flatten(), ..s }, Some(dot));
    assert(block_texts(bodies)[0] == b0.flatten());
    if bodies.len() == 1 {
        assert(framed(tail, dot) =~= Seq::empty());
        assert(s.content + block_texts(bodies) =~= s.content.push(b0.flatten()));
    } else {
        assert(t.phase == Phase::CountedBlocks);
        let g = framed(tail, dot);
        assert forall|k: int| 0 <= k < tail.len() implies no_terminator(#[trigger] tail[k]) by {
            assert(tail[k] == bodies[k + 1]);
        }
        assert(lines.subrange(i + m + 1, i + m + 1 + g.len()) =~= g) by {
            assert forall|j: int| 0 <= j < g.len() implies lines.subrange(
                i + m + 1,
                i + m + 1 + g.len(),
            )[j] == g[j] by {
                assert(lines[i + m + 1 + j] == lines.subrange(i, i + f.len())[m + 1 + j]);
                assert(f[m + 1 + j] == g[j]);
            }
        }
        lemma_run_counted(t, lines, i + m + 1, tail, dot);
        assert(block_texts(tail) =~= block_texts(bodies).drop_first());
        assert(t.content + block_texts(tail) =~= s.content + block_texts(bodies));
    }
}

} // verus!

verus! {

/// When the header line finishes the exchange, nothing else is read.
proof fn lemma_header_alone(header: Seq<char>, rest: Seq<Seq<char>>)
    requires
        step(initial_state(), Some(header)).phase == Phase::Complete,
    ensures
        run(initial_state(), seq![header] + rest, 0) == (step(initial_state(), Some(header)), 1int),
{
    let lines = seq![header] + rest;
    assert(lines[0] == header);
    let s1 = step(initial_state(), Some(header));
    assert(run(s1, lines, 1) == (s1, 1int));
}

/// A reply whose status is not multi-line is complete after its header
/// line alone: it reads no further line and has no blocks.
pub proof fn lemma_single_line_reply(header: Seq<char>, rest: Seq<Seq<char>>)
    requires
        header_code(header) matches Some(c)
            && !c.spec_is_multi_line(),
    ensures
        ({
            let (s, k) = run(initial_state(), seq![header] + rest, 0);
            &&& s.phase == Phase::Complete
            &&& k == 1
            &&& Some(s.code) == header_code(header)
            &&& s.first_line == header_meta(header)
            &&& s.content.len() == 0
        }),
{
    lemma_header_alone(header, rest);
}

/// A counted reply that announces no items is complete after its header
/// line alone: it reads no further line and has no blocks.
pub proof fn lemma_zero_count_reads_header_only(header: Seq<char>, rest: Seq<Seq<char>>)
    requires
        header_code(header) == Some(StatusCode::DefinitionsRetrieved),
        spec_count(header_meta(header)) == 0,
    ensures
        ({
            let (s, k) = run(initial_state(), seq![header] + rest, 0);
            &&& s.phase == Phase::Complete
            &&& k == 1
            &&& s.content.len() == 0
        }),
{
    lemma_header_alone(header, rest);
}

/// A multi-line reply with one block is complete at the first terminator
/// line: its one block is all the text between header and terminator, or
/// it has no block when that text is empty. Nothing after the terminator
/// is read.
pub proof fn lemma_single_block_reply(
    header: Seq<char>,
    body: Seq<Seq<char>>,
    dot: Seq<char>,
    rest: Seq<Seq<char>>,
)
    requires
        header_code(header) matches Some(c) && c.spec_is_multi_line()
            && c != StatusCode::DefinitionsRetrieved,
        no_terminator(body),
        is_dot_line(dot),
    ensures
        ({
            let (s, k) = run(initial_state(), seq![header] + body + seq![dot] + rest, 0);
            &&& s.phase == Phase::Complete
            &&& k == body.len() + 2
            &&& Some(s.code) == header_code(header)
            &&& s.first_line == header_meta(header)
            &&& s.content == if body.flatten().len() > 0 {
                seq![body.flatten()]
            } else {
                Seq::empty()
            }
        }),
{
    let lines = seq![header] + body + seq![dot] + rest;
    let m = body.len() as int;
    assert(lines[0] == header);
    let s1 = step(initial_state(), Some(header));
    assert forall|j: int| 1 <= j < 1 + m implies !is_dot_line(#[trigger] lines[j]) by {
        assert(lines[j] == body[j - 1]);
    }
    assert(lines[1 + m] == dot);
    lemma_run_block(s1, lines, 1, m);
    assert(lines.subrange(1, 1 + m) =~= body);
    assert(s1.block + body.flatten() =~= body.flatten());
}

/// A counted reply whose header announces `n` items, followed by `n`
/// blocks each ended by a terminator line, is complete after the last
/// terminator: it holds exactly `n` blocks, the `k`-th being the text of
/// the `k`-th block alone, and nothing after is read.
pub proof fn lemma_counted_blocks_stay_apart(
    header: Seq<char>,
    bodies: Seq<Seq<Seq<char>>>,
    dot: Seq<char>,
    rest: Seq<Seq<char>>,
)
    requires
        header_code(header) == Some(StatusCode::DefinitionsRetrieved),
        spec_count(header_meta(header)) == bodies.len(),
        bodies.len() >= 1,
        is_dot_line(dot),
        forall|k: int| 0 <= k < bodies.len() ==> no_terminator(#[trigger] bodies[k]),
    ensures
        ({
            let (s, k) = run(initial_state(), seq![header] + framed(bodies, dot) + rest, 0);
            &&& s.phase == Phase::Complete
            &&& k == 1 + framed(bodies, dot).len()
            &&& s.first_line == header_meta(header)
            &&& s.content == block_texts(bodies)
            &&& s.content.len() == bodies.len()
        }),
{
    let f = framed(bodies, dot);
    let lines = seq![header] + f + rest;
    assert(lines[0] == header);
    let s1 = step(initial_state(), Some(header));
    assert(lines.subrange(1, 1 + f.len() as int) =~= f);
    lemma_run_counted(s1, lines, 1, bodies, dot);
    assert(s1.content + block_texts(bodies) =~= block_texts(bodies));
}

} // verus!

verus! {

proof fn lemma_run_text_inv(s: ReaderState, t: Seq<char>)
    requires
        reachable_inv(s),
    ensures
        reachable_inv(run_text(s, t)),
    decreases t.len(),
{
    if !s.phase.spec_is_final() {
        if t.len() == 0 {
            lemma_step_inv(s, None);
        } else {
            let e = first_line_len(t);
            lemma_find_bounds(t, '\n', 0);
            lemma_step_inv(s, Some(t.subrange(0, e)));
            lemma_run_text_inv(step(s, Some(t.subrange(0, e))), t.subrange(e, t.len() as int));
        }
    }
}

proof fn lemma_run_text_keeps_header(s: ReaderState, t: Seq<char>)
    requires
        s.phase != Phase::AwaitHeader,
    ensures
        run_text(s, t).first_line == s.first_line,
        run_text(s, t).code == s.code,
    decreases t.len(),
{
    if !s.phase.spec_is_final() && t.len() > 0 {
        let e = first_line_len(t);
        lemma_find_bounds(t, '\n', 0);
        lemma_run_text_keeps_header(step(s, Some(t.subrange(0, e))), t.subrange(e, t.len() as int));
    }
}

/// Whatever a text holds after a header line, the reply read from it has
/// as many blocks as its status calls for, and keeps the header's text.
pub proof fn lemma_blocks_agree_after_header(header: Seq<char>, t: Seq<char>)
    ensures
        blocks_agree(run_text(step(initial_state(), Some(header)), t)),
        ({
            let s = run_text(step(initial_state(), Some(header)), t);
            s.phase == Phase::Complete || s.phase == Phase::Truncated ==> s.first_line
                == header_meta(header)
        }),
{
    let s1 = step(initial_state(), Some(header));
    lemma_step_inv(initial_state(), Some(header));
    lemma_run_text_inv(s1, t);
    lemma_run_text_keeps_header(s1, t);
}

} // verus!
