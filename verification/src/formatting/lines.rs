//! How text is cut into lines, said of the text and the lines alone.

use vstd::prelude::*;
use vstd::utf8::encode_utf8;

use crate::chars::{text_bytes, text_bytes_is_encoded_len, the_longest_end_is_kept};
use crate::encoding::{added_text, closing_text, utf8_reads_as_itself};
use crate::formatting::complete::{split_chunks, split_stream, text_lines};
use crate::formatting::rows::{plain_rows, RowView};
use crate::formatting::text::{
    bounded_line, bounded_row, bounded_rows, fresh_line, has_long_row, note_input, partial_row,
    push_char, push_text, push_text_chunk, LineState, TextState,
};
use crate::model::TextEncoding;
use crate::store::{joined_bytes, ChunkView};
use crate::timestamp::Timestamp;

verus! {

pub open spec fn is_break(c: char) -> bool {
    c == '\r' || c == '\n'
}

/// A text in which nothing ends a line.
pub open spec fn is_one_line(text: Seq<char>) -> bool {
    forall|i: int| 0 <= i < text.len() ==> !is_break(#[trigger] text[i])
}

/// The place behind the end of a line at `end`. A carriage return and a line feed right after it
/// are one end.
pub open spec fn behind_break(text: Seq<char>, end: int) -> int {
    if text[end] == '\r' && end + 1 < text.len() && text[end + 1] == '\n' {
        end + 2
    } else {
        end + 1
    }
}

/// A text is cut into lines, each of which begins at one of `starts`, directly behind the end of
/// the one before; what is left behind the last of them is the open line.
pub open spec fn is_cut_into(
    text: Seq<char>,
    lines: Seq<RowView>,
    open: Seq<char>,
    starts: Seq<int>,
) -> bool {
    &&& starts.len() == lines.len() + 1
    &&& starts[0] == 0
    &&& 0 <= starts.last() <= text.len()
    &&& open == text.skip(starts.last())
    &&& is_one_line(open)
    &&& forall|k: int| 0 <= k < lines.len() ==> #[trigger] line_is_at(text, lines, starts, k)
}

/// A line stands where it begins, and something ends it.
pub open spec fn line_is_at(
    text: Seq<char>,
    lines: Seq<RowView>,
    starts: Seq<int>,
    k: int,
) -> bool {
    let end = starts[k] + lines[k].text.len();
    &&& 0 <= starts[k]
    &&& end < text.len()
    &&& lines[k].text == text.subrange(starts[k], end)
    &&& is_one_line(lines[k].text)
    &&& is_break(text[end])
    &&& starts[k + 1] == behind_break(text, end)
}

/// Each line has the time of the character at its start.
pub open spec fn have_times(
    lines: Seq<RowView>,
    starts: Seq<int>,
    times: Seq<Timestamp>,
) -> bool {
    forall|k: int|
        0 <= k < lines.len() ==> (#[trigger] lines[k]).received_at == times[starts[k]]
}

/// What is known of the open line agrees with the text.
spec fn agrees(
    state: LineState,
    text: Seq<char>,
    times: Seq<Timestamp>,
    lines: Seq<RowView>,
    starts: Seq<int>,
) -> bool {
    &&& times.len() == text.len()
    &&& is_cut_into(text, lines, state.current, starts)
    &&& have_times(lines, starts, times)
    &&& state.skip_lf == (text.len() > 0 && text.last() == '\r')
    &&& state.skip_lf ==> state.started_at is None
    &&& state.current.len() > 0 ==> state.started_at == Some(times[starts.last()])
}

proof fn a_character_is_added(
    state: LineState,
    text: Seq<char>,
    times: Seq<Timestamp>,
    lines: Seq<RowView>,
    starts: Seq<int>,
    c: char,
    at: Timestamp,
    sequence: u64,
) -> (after: Seq<int>)
    requires
        agrees(state, text, times, lines, starts),
        state.current.len() == 0 && state.started_at is Some ==> state.started_at == Some(at),
    ensures
        ({
            let (next, row) = push_char(state, c, at, sequence);
            let more = match row {
                Some(row) => lines.push(row),
                None => lines,
            };
            &&& agrees(next, text.push(c), times.push(at), more, after)
            &&& next.current.len() == 0 ==> next.started_at is None
        }),
{
    let (next, row) = push_char(state, c, at, sequence);
    let all = text.push(c);
    let all_times = times.push(at);
    let n = lines.len() as int;
    let start = starts.last();
    assert(starts[n] == start);
    if state.skip_lf && c == '\n' {
        let after = starts.update(n, start + 1);
        assert(state.current == text.skip(start));
        assert(start == text.len()) by {
            if start < text.len() {
                assert(text.skip(start).last() == text.last());
                assert(is_break(state.current[state.current.len() - 1]));
            }
        }
        assert forall|k: int| 0 <= k < n implies #[trigger] line_is_at(all, lines, after, k) by {
            assert(line_is_at(text, lines, starts, k));
            let end = starts[k] + lines[k].text.len();
            assert(all.subrange(starts[k], end) == text.subrange(starts[k], end));
            if k + 1 < n {
                assert(line_is_at(text, lines, starts, k + 1));
            } else {
                assert(end + 1 == text.len());
            }
        }
        if n == 0 {
            assert(text.len() == 0);
        }
        assert(all.skip(start + 1) == Seq::<char>::empty());
        assert(state.current == Seq::<char>::empty());
        assert(have_times(lines, after, all_times)) by {
            assert forall|k: int| 0 <= k < n implies (#[trigger] lines[k]).received_at
                == all_times[after[k]] by {
                assert(line_is_at(text, lines, starts, k));
            }
        }
        assert(agrees(next, all, all_times, lines, after));
        after
    } else if is_break(c) {
        let after = starts.push(all.len() as int);
        let more = lines.push(row->0);
        assert(all.subrange(start, text.len() as int) == text.skip(start));
        assert forall|k: int| 0 <= k < more.len() implies #[trigger] line_is_at(
            all,
            more,
            after,
            k,
        ) by {
            if k < n {
                assert(line_is_at(text, lines, starts, k));
                let end = starts[k] + lines[k].text.len();
                assert(all.subrange(starts[k], end) == text.subrange(starts[k], end));
                if end + 1 == text.len() && text[end] == '\r' {
                    assert(text.last() == '\r');
                    assert(c != '\n');
                }
            }
        }
        assert(all.skip(all.len() as int) == Seq::<char>::empty());
        assert(have_times(more, after, all_times)) by {
            assert forall|k: int| 0 <= k < more.len() implies (#[trigger] more[k]).received_at
                == all_times[after[k]] by {
                if k < n {
                    assert(line_is_at(text, lines, starts, k));
                    assert(lines[k].received_at == times[starts[k]]);
                }
            }
        }
        assert(agrees(next, all, all_times, more, after));
        after
    } else {
        assert(all.skip(start) == text.skip(start).push(c));
        assert forall|i: int| 0 <= i < next.current.len() implies !is_break(
            #[trigger] next.current[i],
        ) by {
            if i < state.current.len() {
                assert(state.current[i] == next.current[i]);
            }
        }
        assert forall|k: int| 0 <= k < n implies #[trigger] line_is_at(all, lines, starts, k) by {
            assert(line_is_at(text, lines, starts, k));
            let end = starts[k] + lines[k].text.len();
            assert(all.subrange(starts[k], end) == text.subrange(starts[k], end));
        }
        assert(have_times(lines, starts, all_times)) by {
            assert forall|k: int| 0 <= k < n implies (#[trigger] lines[k]).received_at
                == all_times[starts[k]] by {
                assert(line_is_at(text, lines, starts, k));
            }
        }
        assert(agrees(next, all, all_times, lines, starts));
        starts
    }
}

proof fn a_text_is_added(
    state: LineState,
    text: Seq<char>,
    times: Seq<Timestamp>,
    lines: Seq<RowView>,
    starts: Seq<int>,
    more: Seq<char>,
    at: Timestamp,
    sequence: u64,
) -> (after: Seq<int>)
    requires
        agrees(state, text, times, lines, starts),
        state.current.len() == 0 && state.started_at is Some ==> state.started_at == Some(at),
    ensures
        ({
            let (next, rows) = push_text(state, more, at, sequence);
            let all_times = times + Seq::new(more.len(), |i: int| at);
            &&& agrees(next, text + more, all_times, lines + rows, after)
            &&& more.len() > 0 && next.current.len() == 0 ==> next.started_at is None
            &&& next.current.len() == 0 && next.started_at is Some ==> next.started_at == Some(at)
        }),
    decreases more.len(),
{
    let all_times = times + Seq::new(more.len(), |i: int| at);
    if more.len() == 0 {
        assert(text + more == text);
        assert(all_times == times);
        assert(lines + Seq::<RowView>::empty() == lines);
        starts
    } else {
        let before = more.drop_last();
        let middle = a_text_is_added(state, text, times, lines, starts, before, at, sequence);
        let (line, rows) = push_text(state, before, at, sequence);
        let before_times = times + Seq::new(before.len(), |i: int| at);
        assert(text + more == (text + before).push(more.last()));
        assert(all_times == before_times.push(at));
        let c = more.last();
        let after = a_character_is_added(
            line,
            text + before,
            before_times,
            lines + rows,
            middle,
            c,
            at,
            sequence,
        );
        match push_char(line, c, at, sequence).1 {
            Some(row) => {
                assert((lines + rows).push(row) == lines + rows.push(row));
            },
            None => {},
        }
        after
    }
}

/// What a text and the line that was open before it are cut into: lines that a carriage return,
/// a line feed, or both in this order end, with nothing lost and nothing added, blank lines
/// included.
pub proof fn text_is_cut_into_lines(text: Seq<char>, at: Timestamp, sequence: u64) -> (starts: Seq<
    int,
>)
    ensures
        ({
            let (line, rows) = push_text(fresh_line(), text, at, sequence);
            &&& is_cut_into(text, rows, line.current, starts)
            &&& forall|k: int| 0 <= k < rows.len() ==> (#[trigger] rows[k]).received_at == at
        }),
{
    let none = Seq::<RowView>::empty();
    let empty = Seq::<char>::empty();
    assert(is_cut_into(empty, none, empty, seq![0int])) by {
        assert(empty.skip(0) == empty);
    }
    let starts = a_text_is_added(
        fresh_line(),
        empty,
        Seq::empty(),
        none,
        seq![0int],
        text,
        at,
        sequence,
    );
    let (line, rows) = push_text(fresh_line(), text, at, sequence);
    assert(empty + text == text);
    assert(none + rows == rows);
    let times = Seq::<Timestamp>::empty() + Seq::new(text.len(), |i: int| at);
    assert forall|k: int| 0 <= k < rows.len() implies (#[trigger] rows[k]).received_at == at by {
        assert(line_is_at(text, rows, starts, k));
        assert(rows[k].received_at == times[starts[k]]);
    }
    starts
}

/// The text of a stream, chunk by chunk.
pub open spec fn text_of_chunks(encoding: TextEncoding, chunks: Seq<ChunkView>) -> Seq<char>
    decreases chunks.len(),
{
    if chunks.len() == 0 {
        Seq::empty()
    } else {
        text_of_chunks(encoding, chunks.drop_last()) + added_text(
            encoding,
            joined_bytes(chunks.drop_last()),
            chunks.last().bytes,
        )
    }
}

/// When each character of a stream arrived.
pub open spec fn times_of_chunks(encoding: TextEncoding, chunks: Seq<ChunkView>) -> Seq<Timestamp>
    decreases chunks.len(),
{
    if chunks.len() == 0 {
        Seq::empty()
    } else {
        let last = chunks.last();
        let text = added_text(encoding, joined_bytes(chunks.drop_last()), last.bytes);
        times_of_chunks(encoding, chunks.drop_last()) + Seq::new(
            text.len(),
            |i: int| last.received_at,
        )
    }
}

/// Every chunk ends at least one character.
pub open spec fn each_adds_text(encoding: TextEncoding, chunks: Seq<ChunkView>) -> bool {
    forall|i: int|
        0 <= i < chunks.len() ==> added_text(
            encoding,
            joined_bytes(#[trigger] chunks.take(i)),
            chunks[i].bytes,
        ).len() > 0
}

/// The lines of a stream are those of its text, wherever it is cut into chunks, and each has the
/// time of the chunk with its first character.
pub proof fn streams_are_cut_into_lines(encoding: TextEncoding, chunks: Seq<ChunkView>) -> (starts:
    Seq<int>)
    requires
        each_adds_text(encoding, chunks),
    ensures
        ({
            let (line, rows) = split_chunks(encoding, chunks);
            &&& is_cut_into(text_of_chunks(encoding, chunks), rows, line.current, starts)
            &&& have_times(rows, starts, times_of_chunks(encoding, chunks))
            &&& line.current.len() > 0 ==> line.started_at == Some(
                times_of_chunks(encoding, chunks)[starts.last()],
            )
        }),
{
    chunks_agree(encoding, chunks)
}

proof fn chunks_agree(encoding: TextEncoding, chunks: Seq<ChunkView>) -> (starts: Seq<int>)
    requires
        each_adds_text(encoding, chunks),
    ensures
        ({
            let (line, rows) = split_chunks(encoding, chunks);
            let text = text_of_chunks(encoding, chunks);
            &&& agrees(line, text, times_of_chunks(encoding, chunks), rows, starts)
            &&& line.current.len() == 0 ==> line.started_at is None
        }),
    decreases chunks.len(),
{
    if chunks.len() == 0 {
        let empty = Seq::<char>::empty();
        assert(empty.skip(0) == empty);
        seq![0int]
    } else {
        let before = chunks.drop_last();
        let last = chunks.last();
        assert forall|i: int| 0 <= i < before.len() implies added_text(
            encoding,
            joined_bytes(#[trigger] before.take(i)),
            before[i].bytes,
        ).len() > 0 by {
            assert(before.take(i) == chunks.take(i));
        }
        let starts = chunks_agree(encoding, before);
        let (line, rows) = split_chunks(encoding, before);
        assert(chunks.take(chunks.len() - 1) == before);
        let text = added_text(encoding, joined_bytes(before), last.bytes);
        assert(text.len() > 0);
        let noted = if last.bytes.len() > 0 {
            note_input(line, last.received_at)
        } else {
            line
        };
        a_text_is_added(
            noted,
            text_of_chunks(encoding, before),
            times_of_chunks(encoding, before),
            rows,
            starts,
            text,
            last.received_at,
            last.sequence,
        )
    }
}

/// What is known of the open line agrees with the text but for the times.
spec fn agrees_untimed(
    state: LineState,
    text: Seq<char>,
    lines: Seq<RowView>,
    starts: Seq<int>,
) -> bool {
    &&& is_cut_into(text, lines, state.current, starts)
    &&& state.skip_lf == (text.len() > 0 && text.last() == '\r')
}

/// The lines do not depend on the times.
proof fn times_do_not_matter(
    a: LineState,
    b: LineState,
    text: Seq<char>,
    at: Timestamp,
    sequence: u64,
)
    requires
        a.current == b.current,
        a.skip_lf == b.skip_lf,
    ensures
        ({
            let x = push_text(a, text, at, sequence);
            let y = push_text(b, text, at, sequence);
            &&& x.0.current == y.0.current
            &&& x.0.skip_lf == y.0.skip_lf
            &&& x.1.len() == y.1.len()
            &&& forall|k: int| 0 <= k < x.1.len() ==> (#[trigger] x.1[k]).text == y.1[k].text
        }),
    decreases text.len(),
{
    if text.len() > 0 {
        times_do_not_matter(a, b, text.drop_last(), at, sequence);
    }
}

proof fn a_text_is_added_untimed(
    state: LineState,
    text: Seq<char>,
    lines: Seq<RowView>,
    starts: Seq<int>,
    more: Seq<char>,
    at: Timestamp,
    sequence: u64,
) -> (after: Seq<int>)
    requires
        agrees_untimed(state, text, lines, starts),
    ensures
        ({
            let (next, rows) = push_text(state, more, at, sequence);
            agrees_untimed(next, text + more, lines + rows, after)
        }),
{
    let timed = Seq::new(
        lines.len(),
        |k: int| RowView { received_at: at, text: lines[k].text },
    );
    let line = LineState {
        started_at: if state.current.len() > 0 {
            Some(at)
        } else {
            None
        },
        ..state
    };
    let times = Seq::new(text.len(), |i: int| at);
    assert(is_cut_into(text, timed, line.current, starts)) by {
        assert forall|k: int| 0 <= k < timed.len() implies #[trigger] line_is_at(
            text,
            timed,
            starts,
            k,
        ) by {
            assert(line_is_at(text, lines, starts, k));
        }
    }
    assert(have_times(timed, starts, times)) by {
        assert forall|k: int| 0 <= k < timed.len() implies (#[trigger] timed[k]).received_at
            == times[starts[k]] by {
            assert(line_is_at(text, lines, starts, k));
        }
    }
    if state.current.len() > 0 && state.skip_lf {
        assert(state.current.last() == text.last());
        assert(is_break(state.current[state.current.len() - 1]));
    }
    let after = a_text_is_added(line, text, times, timed, starts, more, at, sequence);
    times_do_not_matter(state, line, more, at, sequence);
    let x = push_text(state, more, at, sequence).1;
    let y = push_text(line, more, at, sequence).1;
    assert forall|k: int| 0 <= k < (lines + x).len() implies #[trigger] line_is_at(
        text + more,
        lines + x,
        after,
        k,
    ) by {
        assert(line_is_at(text + more, timed + y, after, k));
        if k >= lines.len() {
            assert(x[k - lines.len()].text == y[k - lines.len()].text);
        }
        assert((lines + x)[k].text == (timed + y)[k].text);
    }
    after
}

proof fn chunks_agree_untimed(encoding: TextEncoding, chunks: Seq<ChunkView>) -> (starts: Seq<int>)
    ensures
        ({
            let (line, rows) = split_chunks(encoding, chunks);
            agrees_untimed(line, text_of_chunks(encoding, chunks), rows, starts)
        }),
    decreases chunks.len(),
{
    if chunks.len() == 0 {
        let empty = Seq::<char>::empty();
        assert(empty.skip(0) == empty);
        seq![0int]
    } else {
        let before = chunks.drop_last();
        let last = chunks.last();
        let starts = chunks_agree_untimed(encoding, before);
        let (line, rows) = split_chunks(encoding, before);
        let noted = if last.bytes.len() > 0 {
            note_input(line, last.received_at)
        } else {
            line
        };
        a_text_is_added_untimed(
            noted,
            text_of_chunks(encoding, before),
            rows,
            starts,
            added_text(encoding, joined_bytes(before), last.bytes),
            last.received_at,
            last.sequence,
        )
    }
}

/// Complete formatting gives all lines of the text of a stream, and what is left at its end as a
/// last line, if it is not empty.
pub proof fn formatting_gives_all_lines(encoding: TextEncoding, chunks: Seq<ChunkView>) -> (result: (
    Seq<int>,
    Seq<char>,
))
    ensures
        ({
            let (starts, open) = result;
            let text = text_of_chunks(encoding, chunks) + if chunks.len() == 0 {
                Seq::empty()
            } else {
                closing_text(encoding, joined_bytes(chunks))
            };
            let rows = text_lines(encoding, chunks);
            if open.len() == 0 {
                is_cut_into(text, rows, open, starts)
            } else {
                &&& rows.len() > 0
                &&& is_cut_into(text, rows.drop_last(), open, starts)
                &&& rows.last().text == open
            }
        }),
{
    let starts = chunks_agree_untimed(encoding, chunks);
    let (line, rows) = split_chunks(encoding, chunks);
    let (last_line, all) = split_stream(encoding, chunks);
    let text = text_of_chunks(encoding, chunks);
    let closing = closing_text(encoding, joined_bytes(chunks));
    let after = if chunks.len() == 0 {
        assert(text + Seq::<char>::empty() == text);
        starts
    } else {
        let last = chunks.last();
        a_text_is_added_untimed(
            line,
            text,
            rows,
            starts,
            closing,
            last.received_at,
            last.sequence,
        )
    };
    let open = last_line.current;
    let partial = plain_rows(partial_row(last_line));
    if open.len() == 0 {
        assert(all + partial == all);
    } else {
        assert((all + partial).drop_last() == all);
        assert((all + partial).last().text == open);
    }
    (after, open)
}

/// A text in UTF-8 that comes in one chunk is cut into its lines.
pub proof fn a_received_text_is_shown_line_by_line(text: Seq<char>, chunk: ChunkView)
    requires
        chunk.bytes == encode_utf8(text),
    ensures
        text_of_chunks(TextEncoding::Utf8, seq![chunk]) == text,
        closing_text(TextEncoding::Utf8, joined_bytes(seq![chunk])) == Seq::<char>::empty(),
{
    let none = Seq::<ChunkView>::empty();
    assert(seq![chunk].drop_last() == none);
    reveal_with_fuel(text_of_chunks, 2);
    reveal_with_fuel(joined_bytes, 2);
    utf8_reads_as_itself(Seq::empty(), text);
    utf8_reads_as_itself(text, Seq::empty());
    assert(encode_utf8(Seq::<char>::empty()) == Seq::<u8>::empty());
    assert(joined_bytes(seq![chunk]) == chunk.bytes);
    assert(text_of_chunks(TextEncoding::Utf8, seq![chunk]) == text);
}

/// The lines in a row, with a line feed behind each of them.
pub open spec fn joined_lines(lines: Seq<RowView>) -> Seq<char> {
    lines.fold_left(Seq::empty(), |text: Seq<char>, line: RowView| text + line.text.push('\n'))
}

/// The number of line feeds in a text.
pub open spec fn line_feeds(text: Seq<char>) -> nat {
    text.filter(|c: char| c == '\n').len()
}

/// In a text without carriage returns every line feed ends a line, and the lines put together
/// again are the text.
pub proof fn lines_put_together_are_the_text(text: Seq<char>, at: Timestamp, sequence: u64)
    requires
        !text.contains('\r'),
    ensures
        ({
            let (line, rows) = push_text(fresh_line(), text, at, sequence);
            &&& joined_lines(rows) + line.current == text
            &&& rows.len() == line_feeds(text)
        }),
    decreases text.len(),
{
    reveal(Seq::filter);
    let (line, rows) = push_text(fresh_line(), text, at, sequence);
    if text.len() == 0 {
        assert(joined_lines(rows) + line.current == text);
    } else {
        let before = text.drop_last();
        assert(!before.contains('\r')) by {
            if before.contains('\r') {
                let i = choose|i: int| 0 <= i < before.len() && before[i] == '\r';
                assert(text[i] == '\r');
            }
        }
        assert(text[text.len() - 1] != '\r');
        lines_put_together_are_the_text(before, at, sequence);
        never_skips(before, at, sequence);
        let (open, some) = push_text(fresh_line(), before, at, sequence);
        if text.last() == '\n' {
            assert(rows.drop_last() == some);
            assert(joined_lines(rows) == joined_lines(some) + open.current.push('\n'));
            assert(joined_lines(rows) + line.current == (joined_lines(some) + open.current).push(
                '\n',
            ));
        } else {
            assert(joined_lines(rows) + line.current == (joined_lines(some) + open.current).push(
                text.last(),
            ));
        }
        assert(before.push(text.last()) == text);
    }
}

proof fn never_skips(text: Seq<char>, at: Timestamp, sequence: u64)
    requires
        !text.contains('\r'),
    ensures
        !push_text(fresh_line(), text, at, sequence).0.skip_lf,
    decreases text.len(),
{
    if text.len() > 0 {
        let before = text.drop_last();
        assert(!before.contains('\r')) by {
            if before.contains('\r') {
                let i = choose|i: int| 0 <= i < before.len() && before[i] == '\r';
                assert(text[i] == '\r');
            }
        }
        assert(text[text.len() - 1] != '\r');
        never_skips(before, at, sequence);
    }
}

/// A line that is short enough is shown whole; of one that is too long the end is shown behind an
/// ellipsis, as much as fits in half of what a line may have.
pub proof fn long_lines_are_shown_by_their_end(line: Seq<char>, max_bytes: nat) -> (gone: int)
    ensures
        encode_utf8(line).len() <= max_bytes ==> bounded_line(line, max_bytes) == line,
        encode_utf8(line).len() > max_bytes ==> {
            &&& 0 < gone <= line.len()
            &&& bounded_line(line, max_bytes) == seq!['…'] + line.skip(gone)
            &&& encode_utf8(line.skip(gone)).len() <= max_bytes / 2
            &&& encode_utf8(line.skip(gone - 1)).len() > max_bytes / 2
        },
{
    text_bytes_is_encoded_len(line);
    if encode_utf8(line).len() > max_bytes {
        the_longest_end_is_kept(line, max_bytes / 2)
    } else {
        0
    }
}

/// The lines that end in a chunk are those of its text, and the open line goes on with it; only
/// one that is too long is cut, and has the time of the chunk.
pub proof fn chunks_add_their_lines(
    state: TextState,
    encoding: TextEncoding,
    max_bytes: nat,
    chunk: ChunkView,
)
    requires
        chunk.bytes.len() > 0,
    ensures
        ({
            let text = added_text(encoding, state.input, chunk.bytes);
            let begun = if state.line.started_at is None && !state.line.skip_lf {
                LineState { started_at: Some(chunk.received_at), ..state.line }
            } else {
                state.line
            };
            let (line, rows) = push_text(begun, text, chunk.received_at, chunk.sequence);
            let (after, shown) = push_text_chunk(state, encoding, max_bytes, chunk);
            let long = encode_utf8(line.current).len() > max_bytes;
            &&& after.input == state.input + chunk.bytes
            &&& shown.len() == rows.len()
            &&& forall|i: int|
                0 <= i < rows.len() ==> (if encode_utf8((#[trigger] rows[i]).text).len()
                    <= max_bytes {
                    shown[i] == rows[i]
                } else {
                    shown[i].received_at == chunk.received_at && shown[i].text == bounded_line(
                        rows[i].text,
                        max_bytes,
                    )
                })
            &&& after.line.skip_lf == line.skip_lf
            &&& !long ==> after.line == line
            &&& long ==> after.line_limited && after.line.current == bounded_line(
                line.current,
                max_bytes,
            ) && after.line.started_at == Some(chunk.received_at)
        }),
        ({
            let text = added_text(encoding, state.input, chunk.bytes);
            let begun = note_input(state.line, chunk.received_at);
            let (line, rows) = push_text(begun, text, chunk.received_at, chunk.sequence);
            let (after, shown) = push_text_chunk(state, encoding, max_bytes, chunk);
            after.line_limited ==> {
                ||| state.line_limited
                ||| encode_utf8(line.current).len() > max_bytes
                ||| exists|i: int|
                    0 <= i < rows.len() && encode_utf8((#[trigger] rows[i]).text).len() > max_bytes
            }
        }),
{
    let text = added_text(encoding, state.input, chunk.bytes);
    let noted = note_input(state.line, chunk.received_at);
    let (line, rows) = push_text(noted, text, chunk.received_at, chunk.sequence);
    text_bytes_is_encoded_len(line.current);
    assert forall|i: int| 0 <= i < rows.len() implies text_bytes((#[trigger] rows[i]).text)
        == encode_utf8(rows[i].text).len() by {
        text_bytes_is_encoded_len(rows[i].text);
    }
    let (after, shown) = push_text_chunk(state, encoding, max_bytes, chunk);
    assert(shown == bounded_rows(rows, max_bytes, chunk.received_at));
    assert forall|i: int| 0 <= i < rows.len() implies (if encode_utf8(
        (#[trigger] rows[i]).text,
    ).len() <= max_bytes {
        shown[i] == rows[i]
    } else {
        shown[i].received_at == chunk.received_at && shown[i].text == bounded_line(
            rows[i].text,
            max_bytes,
        )
    }) by {
        assert(shown[i] == bounded_row(rows[i], max_bytes, chunk.received_at));
    }
    let long = encode_utf8(line.current).len() > max_bytes;
    assert(!long ==> after.line == line);
    if has_long_row(rows, max_bytes) {
        let i = choose|i: int|
            0 <= i < rows.len() && text_bytes((#[trigger] rows[i]).text) > max_bytes;
        assert(encode_utf8(rows[i].text).len() > max_bytes);
    }
}

} // verus!
