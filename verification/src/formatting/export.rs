//! Export of a snapshot as a text file.
//!
//! The file begins with a byte order mark; each row stands on a line of its own, with or without
//! its time. The text is produced piece by piece, and chunks are released as they are used up.

use std::collections::VecDeque;

use vstd::prelude::*;
use vstd::utf8::{encode_scalar, encode_utf8};

use crate::chars::text_bytes;
use crate::encoding::{added_text, text_so_far, StreamDecoder};
use crate::formatting::complete::{hex_rows, missing_bytes, split_chunks, text_lines};
use crate::formatting::display::{default_limits, rebuilt, DisplayFormatter};
use crate::formatting::hex::{
    fresh_hex, hex_skipped_bytes_modulo, partial_hex_row, push_bytes, push_bytes_concat,
    push_hex_chunks, HexState, IncrementalHexFormatter,
};
use crate::formatting::pieces::{PieceQueue, MAX_PIECE_BYTES};
use crate::formatting::rows::{ended_in, plain_rows, row_views, shown_text, FormattedRow, RowView};
use crate::formatting::text::{
    fresh_line, line_time, line_wf, note_input, partial_row, push_char, push_text,
    push_text_concat, push_text_keeps_wf, LineState,
};
use crate::model::{ReceiveMode, TextEncoding};
use crate::store::{
    chunk_views, joined_bytes, shared_bytes, total_bytes, ChunkView,
    ReceiveSnapshot, RxChunk,
};
use crate::timestamp::{timestamp_prefix, Timestamp};

verus! {

/// Text is decoded in pieces of at most this many bytes.
pub const EXPORT_DECODE_INPUT_BYTES: usize = 65_536;

/// The byte order mark at the start of the file.
pub const BYTE_ORDER_MARK: char = '\u{feff}';

/// Rows as lines of a text file.
pub open spec fn export_text(rows: Seq<RowView>, timestamps: bool, format: Seq<char>) -> Seq<char>
    decreases rows.len(),
{
    if rows.len() == 0 {
        Seq::empty()
    } else {
        export_text(rows.drop_last(), timestamps, format) + shown_text(
            rows.last(),
            timestamps,
            format,
        ) + seq!['\r', '\n']
    }
}

/// What is in the file of a line that is still open.
pub open spec fn open_text(line: LineState, timestamps: bool, format: Seq<char>) -> Seq<char> {
    if line.current.len() == 0 {
        Seq::empty()
    } else {
        shown_text(
            RowView { received_at: line.started_at->0, text: line.current },
            timestamps,
            format,
        )
    }
}

/// The text of a file with these rows.
pub open spec fn file_text(rows: Seq<RowView>, timestamps: bool, format: Seq<char>) -> Seq<char> {
    seq![BYTE_ORDER_MARK] + export_text(rows, timestamps, format)
}

/// Writes lines as their text comes in.
struct StreamingTextExporter {
    timestamps: bool,
    timestamp_format: String,
    line_open: bool,
    started_at: Option<Timestamp>,
    skip_lf: bool,
    /// Text that was not handed out yet.
    out: PieceQueue,
    /// Text that was handed out.
    taken: Ghost<Seq<char>>,
    /// The rows that are complete.
    rows: Ghost<Seq<RowView>>,
    /// The line that is open.
    line: Ghost<LineState>,
}

impl StreamingTextExporter {
    closed spec fn wf(self) -> bool {
        let format = self.timestamp_format@;
        &&& self.line_open == (self.line@.current.len() > 0)
        &&& self.skip_lf == self.line@.skip_lf
        &&& !self.line_open ==> self.started_at == self.line@.started_at
        &&& line_wf(self.line@)
        &&& self.out.wf()
        &&& self.taken@ + self.out@ == file_text(self.rows@, self.timestamps, format) + open_text(
            self.line@,
            self.timestamps,
            format,
        )
    }

    closed spec fn same_style(self, other: Self) -> bool {
        self.timestamps == other.timestamps && self.timestamp_format == other.timestamp_format
    }

    fn new(timestamps: bool, timestamp_format: &str) -> (exporter: Self)
        ensures
            exporter.wf(),
            exporter.timestamps == timestamps,
            exporter.timestamp_format@ == timestamp_format@,
            exporter.taken@ == Seq::<char>::empty(),
            exporter.rows@ == Seq::<RowView>::empty(),
            exporter.line@ == fresh_line(),
    {
        let mut out = PieceQueue::new();
        out.push(BYTE_ORDER_MARK);
        let exporter = StreamingTextExporter {
            timestamps,
            timestamp_format: timestamp_format.to_owned(),
            line_open: false,
            started_at: None,
            skip_lf: false,
            out,
            taken: Ghost(Seq::empty()),
            rows: Ghost(Seq::empty()),
            line: Ghost(fresh_line()),
        };
        assert(exporter.taken@ + exporter.out@ == file_text(
            exporter.rows@,
            timestamps,
            timestamp_format@,
        ) + open_text(exporter.line@, timestamps, timestamp_format@));
        exporter
    }

    fn note_input(&mut self, at: Timestamp)
        requires
            old(self).wf(),
        ensures
            final(self).wf(),
            final(self).same_style(*old(self)),
            final(self).taken == old(self).taken,
            final(self).rows == old(self).rows,
            final(self).line@ == note_input(old(self).line@, at),
    {
        if !self.line_open && self.started_at.is_none() && !self.skip_lf {
            self.started_at = Some(at);
        }
        proof {
            self.line@ = note_input(self.line@, at);
        }
    }

    /// Writes the time of the line, if there is none of it yet.
    fn start_row(&mut self, at: Timestamp)
        requires
            old(self).wf(),
        ensures
            final(self).same_style(*old(self)),
            final(self).taken == old(self).taken,
            final(self).rows == old(self).rows,
            final(self).line == old(self).line,
            final(self).line_open,
            final(self).out.wf(),
            final(self).skip_lf == old(self).skip_lf,
            final(self).taken@ + final(self).out@ == file_text(
                old(self).rows@,
                old(self).timestamps,
                old(self).timestamp_format@,
            ) + shown_text(
                RowView {
                    received_at: line_time(old(self).line@, at),
                    text: old(self).line@.current,
                },
                old(self).timestamps,
                old(self).timestamp_format@,
            ),
    {
        let ghost before = self.taken@ + self.out@;
        let ghost row = RowView {
            received_at: line_time(self.line@, at),
            text: self.line@.current,
        };
        if !self.line_open {
            if self.timestamps {
                let time = match self.started_at {
                    Some(started_at) => started_at,
                    None => at,
                };
                let prefix = timestamp_prefix(time, self.timestamp_format.as_str());
                self.out.append(prefix.as_str());
                assert(self.taken@ + self.out@ == before + prefix@);
                assert(shown_text(row, true, self.timestamp_format@) == prefix@);
            } else {
                assert(shown_text(row, false, self.timestamp_format@) == Seq::<char>::empty());
            }
            self.line_open = true;
        }
    }

    /// Ends the line.
    fn finish_row(&mut self, at: Timestamp)
        requires
            old(self).wf(),
        ensures
            final(self).wf(),
            final(self).same_style(*old(self)),
            final(self).taken == old(self).taken,
            final(self).rows@ == old(self).rows@.push(
                RowView {
                    received_at: line_time(old(self).line@, at),
                    text: old(self).line@.current,
                },
            ),
            final(self).line@ == (LineState { skip_lf: old(self).line@.skip_lf, ..fresh_line() }),
    {
        self.start_row(at);
        let ghost before = self.taken@ + self.out@;
        self.out.push('\r');
        self.out.push('\n');
        self.line_open = false;
        self.started_at = None;
        proof {
            let row = RowView {
                received_at: line_time(self.line@, at),
                text: self.line@.current,
            };
            let rows = self.rows@.push(row);
            assert(self.taken@ + self.out@ == before + seq!['\r', '\n']);
            assert(rows.drop_last() =~= self.rows@);
            assert(self.taken@ + self.out@ == file_text(
                rows,
                self.timestamps,
                self.timestamp_format@,
            ));
            self.rows@ = rows;
            self.line@ = LineState { skip_lf: self.line@.skip_lf, ..fresh_line() };
            assert(self.taken@ + self.out@ == file_text(
                rows,
                self.timestamps,
                self.timestamp_format@,
            ) + open_text(self.line@, self.timestamps, self.timestamp_format@));
        }
    }

    fn push_char(&mut self, c: char, at: Timestamp, sequence: u64)
        requires
            old(self).wf(),
        ensures
            final(self).wf(),
            final(self).same_style(*old(self)),
            final(self).taken == old(self).taken,
            ({
                let (line, row) = push_char(old(self).line@, c, at, sequence);
                &&& final(self).line@ == line
                &&& final(self).rows@ == match row {
                    Some(row) => old(self).rows@.push(row),
                    None => old(self).rows@,
                }
            }),
    {
        if self.skip_lf && c == '\n' {
            self.skip_lf = false;
            proof {
                self.line@ = LineState { skip_lf: false, ..self.line@ };
            }
        } else if c == '\r' || c == '\n' {
            self.finish_row(at);
            self.skip_lf = c == '\r';
            proof {
                self.line@ = LineState { skip_lf: c == '\r', ..self.line@ };
            }
        } else {
            self.start_row(at);
            let ghost before = self.taken@ + self.out@;
            self.out.push(c);
            self.skip_lf = false;
            proof {
                let line = push_char(self.line@, c, at, sequence).0;
                assert(self.taken@ + self.out@ == before.push(c));
                let (timestamps, format) = (self.timestamps, self.timestamp_format@);
                let row = RowView {
                    received_at: line_time(self.line@, at),
                    text: self.line@.current,
                };
                assert(shown_text(row, timestamps, format).push(c) == open_text(
                    line,
                    timestamps,
                    format,
                ));
                assert(before.push(c) == file_text(self.rows@, timestamps, format) + open_text(
                    line,
                    timestamps,
                    format,
                ));
                self.line@ = line;
            }
        }
    }

    fn push_text(&mut self, text: &str, at: Timestamp, sequence: u64)
        requires
            old(self).wf(),
        ensures
            final(self).wf(),
            final(self).same_style(*old(self)),
            final(self).taken == old(self).taken,
            ({
                let (line, rows) = push_text(old(self).line@, text@, at, sequence);
                &&& final(self).line@ == line
                &&& final(self).rows@ == old(self).rows@ + rows
            }),
    {
        for c in it: text.chars()
            invariant
                it.seq() == text@,
                self.wf(),
                self.same_style(*old(self)),
                self.taken == old(self).taken,
                ({
                    let (line, rows) = push_text(
                        old(self).line@,
                        text@.take(it.index()),
                        at,
                        sequence,
                    );
                    &&& self.line@ == line
                    &&& self.rows@ == old(self).rows@ + rows
                }),
        {
            assert(text@.take(it.index() + 1).drop_last() == text@.take(it.index()));
            self.push_char(c, at, sequence);
            assert(self.rows@ =~= old(self).rows@ + push_text(
                old(self).line@,
                text@.take(it.index() + 1),
                at,
                sequence,
            ).1);
        }
        assert(text@.take(text@.len() as int) == text@);
    }

    /// Ends the line that is open, if there is one.
    fn finish(&mut self)
        requires
            old(self).wf(),
        ensures
            final(self).wf(),
            final(self).same_style(*old(self)),
            final(self).taken == old(self).taken,
            final(self).rows@ == old(self).rows@ + plain_rows(partial_row(old(self).line@)),
            final(self).line@.current.len() == 0,
    {
        let ghost line = self.line@;
        if self.line_open {
            // The line is open, so it has its time already.
            let at = Timestamp::epoch();
            self.finish_row(at);
            assert(plain_rows(partial_row(line)) == seq![
                (RowView { received_at: line.started_at->0, text: line.current }),
            ]);
        }
        assert(self.rows@ =~= old(self).rows@ + plain_rows(partial_row(line)));
    }

    /// Adds complete rows.
    fn push_rows(&mut self, rows: &Vec<FormattedRow>)
        requires
            old(self).wf(),
            old(self).line@ == fresh_line(),
        ensures
            final(self).wf(),
            final(self).same_style(*old(self)),
            final(self).taken == old(self).taken,
            final(self).rows@ == old(self).rows@ + row_views(rows@),
            final(self).line@ == fresh_line(),
    {
        let mut i: usize = 0;
        while i < rows.len()
            invariant
                i <= rows@.len(),
                self.wf(),
                self.same_style(*old(self)),
                self.taken == old(self).taken,
                self.rows@ == old(self).rows@ + row_views(rows@).take(i as int),
                self.line@ == fresh_line(),
            decreases rows@.len() - i,
        {
            self.push_row(&rows[i]);
            assert(self.rows@ =~= old(self).rows@ + row_views(rows@).take(i + 1));
            i += 1;
        }
        assert(row_views(rows@).take(i as int) == row_views(rows@));
    }

    fn push_row(&mut self, row: &FormattedRow)
        requires
            old(self).wf(),
            old(self).line@ == fresh_line(),
        ensures
            final(self).wf(),
            final(self).same_style(*old(self)),
            final(self).taken == old(self).taken,
            final(self).rows@ == old(self).rows@.push(row@),
            final(self).line@ == fresh_line(),
    {
        let ghost before = self.taken@ + self.out@;
        if self.timestamps {
            let prefix = timestamp_prefix(row.received_at, self.timestamp_format.as_str());
            self.out.append(prefix.as_str());
        }
        self.out.append(row.text.as_str());
        self.out.push('\r');
        self.out.push('\n');
        proof {
            let (timestamps, format) = (self.timestamps, self.timestamp_format@);
            let rows = self.rows@.push(row@);
            assert(rows.drop_last() =~= self.rows@);
            assert(self.taken@ + self.out@ == before + shown_text(row@, timestamps, format) + seq![
                '\r',
                '\n',
            ]);
            assert(self.taken@ + self.out@ == file_text(rows, timestamps, format) + open_text(
                self.line@,
                timestamps,
                format,
            ));
            self.rows@ = rows;
        }
    }

    /// Hands out the next piece of the text that has come together.
    fn take(&mut self) -> (piece: String)
        requires
            old(self).wf(),
        ensures
            final(self).wf(),
            final(self).same_style(*old(self)),
            final(self).taken@ == old(self).taken@ + piece@,
            final(self).taken@ + final(self).out@ == old(self).taken@ + old(self).out@,
            text_bytes(piece@) <= MAX_PIECE_BYTES,
            old(self).out.count() > 0 ==> final(self).out.count() == old(self).out.count() - 1,
            final(self).rows == old(self).rows,
            final(self).line == old(self).line,
    {
        let piece = self.out.take();
        proof {
            self.taken@ = self.taken@ + piece@;
            assert(self.taken@ + self.out@ == old(self).taken@ + (piece@ + self.out@));
        }
        piece
    }
}

/// A stream has been read on by at most one piece: part of the first chunk that is kept, or the
/// rest of it, and then it is let go. `used` is how much of that chunk was read before.
pub open spec fn read_on(
    kept: Seq<ChunkView>,
    used: int,
    kept_after: Seq<ChunkView>,
    used_after: int,
) -> bool {
    if kept_after == kept {
        &&& used <= used_after <= used + EXPORT_DECODE_INPUT_BYTES
        &&& used_after > used ==> kept.len() > 0 && used_after < kept[0].bytes.len()
    } else {
        &&& kept.len() > 0
        &&& kept_after == kept.skip(1)
        &&& used_after == 0
        &&& kept[0].bytes.len() - used <= EXPORT_DECODE_INPUT_BYTES
    }
}

/// A text export in the making: chunks are decoded piece by piece.
struct TextSource {
    encoding: TextEncoding,
    /// Gone once the stream has ended.
    decoder: Option<StreamDecoder>,
    chunks: VecDeque<RxChunk>,
    /// How much of the first chunk is used up.
    offset: usize,
    /// The time and the number of the last chunk, for what is left at the end of the stream.
    end: Option<(Timestamp, u64)>,
    all: Ghost<Seq<ChunkView>>,
    done: Ghost<Seq<ChunkView>>,
}

/// The first `len` bytes of a chunk.
pub open spec fn chunk_start(chunk: ChunkView, len: int) -> ChunkView {
    ChunkView { bytes: chunk.bytes.take(len), ..chunk }
}

/// More bytes of a chunk continue the lines of the bytes before them.
proof fn split_chunks_extend(
    encoding: TextEncoding,
    done: Seq<ChunkView>,
    chunk: ChunkView,
    start: int,
    end: int,
)
    requires
        0 <= start < end <= chunk.bytes.len(),
        ({
            let before = joined_bytes(done);
            let (x, y) = (chunk.bytes.take(start), chunk.bytes.subrange(start, end));
            &&& text_so_far(encoding, before + x) == text_so_far(encoding, before) + added_text(
                encoding,
                before,
                x,
            )
            &&& text_so_far(encoding, before + x + y) == text_so_far(encoding, before + x)
                + added_text(encoding, before + x, y)
        }),
    ensures
        ({
            let (line, rows) = if start == 0 {
                let (line, rows) = split_chunks(encoding, done);
                (note_input(line, chunk.received_at), rows)
            } else {
                split_chunks(encoding, done.push(chunk_start(chunk, start)))
            };
            let text = added_text(
                encoding,
                joined_bytes(done) + chunk.bytes.take(start),
                chunk.bytes.subrange(start, end),
            );
            let (after, more) = push_text(line, text, chunk.received_at, chunk.sequence);
            split_chunks(encoding, done.push(chunk_start(chunk, end))) == (after, rows + more)
        }),
{
    let before = joined_bytes(done);
    let (x, y) = (chunk.bytes.take(start), chunk.bytes.subrange(start, end));
    let (line, rows) = split_chunks(encoding, done);
    let noted = note_input(line, chunk.received_at);
    let (a, b) = (added_text(encoding, before, x), added_text(encoding, before + x, y));
    assert(x + y == chunk.bytes.take(end));
    assert(before + x + y == before + chunk.bytes.take(end));
    assert(added_text(encoding, before, chunk.bytes.take(end)) == a + b);
    assert(done.push(chunk_start(chunk, end)).drop_last() == done);
    assert(done.push(chunk_start(chunk, start)).drop_last() == done);
    push_text_concat(noted, a, b, chunk.received_at, chunk.sequence);
    if start == 0 {
        assert(x == Seq::<u8>::empty());
        assert(before + x == before);
        assert(a == Seq::<char>::empty());
        assert(a + b == b);
    } else {
        let first = push_text(noted, a, chunk.received_at, chunk.sequence);
        let second = push_text(first.0, b, chunk.received_at, chunk.sequence);
        assert(rows + (first.1 + second.1) == rows + first.1 + second.1);
    }
}

proof fn split_chunks_keeps_wf(encoding: TextEncoding, chunks: Seq<ChunkView>)
    ensures
        line_wf(split_chunks(encoding, chunks).0),
    decreases chunks.len(),
{
    if chunks.len() > 0 {
        let last = chunks.last();
        split_chunks_keeps_wf(encoding, chunks.drop_last());
        let line = split_chunks(encoding, chunks.drop_last()).0;
        let noted = if last.bytes.len() > 0 {
            note_input(line, last.received_at)
        } else {
            line
        };
        let text = added_text(encoding, joined_bytes(chunks.drop_last()), last.bytes);
        push_text_keeps_wf(noted, text, last.received_at, last.sequence);
    }
}

/// An empty chunk changes nothing.
proof fn split_chunks_skip_empty(encoding: TextEncoding, done: Seq<ChunkView>, chunk: ChunkView)
    requires
        chunk.bytes.len() == 0,
    ensures
        split_chunks(encoding, done.push(chunk)) == split_chunks(encoding, done),
        joined_bytes(done.push(chunk)) == joined_bytes(done),
{
    assert(done.push(chunk).drop_last() == done);
    assert(joined_bytes(done) + chunk.bytes == joined_bytes(done));
    assert(added_text(encoding, joined_bytes(done), chunk.bytes) == Seq::<char>::empty());
    let rows = split_chunks(encoding, done).1;
    assert(rows + Seq::<RowView>::empty() == rows);
}

impl TextSource {
    /// The bytes that were used up, in chunks.
    closed spec fn consumed(self) -> Seq<ChunkView> {
        if self.offset == 0 {
            self.done@
        } else {
            self.done@.push(chunk_start(self.chunks@[0]@, self.offset as int))
        }
    }

    closed spec fn wf(self) -> bool {
        &&& self.done@ + chunk_views(self.chunks@) == self.all@
        &&& self.offset > 0 ==> self.chunks@.len() > 0 && self.offset < self.chunks@[0]@.bytes.len()
        &&& match self.end {
            Some(end) => self.all@.len() > 0 && end.0 == self.all@.last().received_at && end.1
                == self.all@.last().sequence,
            None => self.all@.len() == 0,
        }
        &&& match self.decoder {
            Some(decoder) => {
                &&& decoder.encoding() == self.encoding
                &&& decoder.input() == joined_bytes(self.consumed())
                &&& self.offset > 0 ==> text_so_far(
                    self.encoding,
                    joined_bytes(self.consumed()),
                ) == text_so_far(self.encoding, joined_bytes(self.done@)) + added_text(
                    self.encoding,
                    joined_bytes(self.done@),
                    self.chunks@[0]@.bytes.take(self.offset as int),
                )
            },
            None => self.chunks@.len() == 0,
        }
    }

    /// The exporter has what the used up bytes amount to.
    closed spec fn agrees(self, exporter: StreamingTextExporter) -> bool {
        match self.decoder {
            Some(_) => (exporter.line@, exporter.rows@) == split_chunks(
                self.encoding,
                self.consumed(),
            ),
            None => exporter.line@.current.len() == 0 && exporter.rows@ == text_lines(
                self.encoding,
                self.all@,
            ),
        }
    }

    closed spec fn read_on_to(self, after: Self) -> bool {
        read_on(
            chunk_views(self.chunks@),
            self.offset as int,
            chunk_views(after.chunks@),
            after.offset as int,
        )
    }

    closed spec fn steps(self) -> nat {
        (total_bytes(chunk_views(self.chunks@)) - self.offset + self.chunks@.len() + if self.decoder
            is Some {
            1int
        } else {
            0
        }) as nat
    }

    /// Goes on by one piece. Tells whether there was anything to do.
    fn step(&mut self, exporter: &mut StreamingTextExporter) -> (worked: bool)
        requires
            old(self).wf(),
            old(exporter).wf(),
            old(self).agrees(*old(exporter)),
        ensures
            final(self).wf(),
            final(exporter).wf(),
            final(self).agrees(*final(exporter)),
            final(exporter).same_style(*old(exporter)),
            final(exporter).taken == old(exporter).taken,
            final(self).all == old(self).all,
            final(self).encoding == old(self).encoding,
            worked == (old(self).decoder is Some),
            worked ==> final(self).steps() < old(self).steps(),
            !worked ==> *final(self) == *old(self) && *final(exporter) == *old(exporter),
            old(self).read_on_to(*final(self)),
            final(self).decoder is None ==> old(self).chunks@.len() == 0,
    {
        if self.decoder.is_none() {
            return false;
        }
        proof {
            first_chunk_counts(chunk_views(self.chunks@));
        }
        if self.chunks.len() == 0 {
            self.close(exporter);
        } else if self.chunks[0].bytes.len() == 0 {
            proof {
                split_chunks_skip_empty(self.encoding, self.done@, self.chunks@[0]@);
            }
            self.drop_chunk();
        } else {
            self.advance(exporter);
        }
        true
    }

    /// The first chunk is used up.
    fn drop_chunk(&mut self)
        requires
            old(self).chunks@.len() > 0,
            old(self).done@ + chunk_views(old(self).chunks@) == old(self).all@,
        ensures
            final(self).encoding == old(self).encoding,
            final(self).decoder == old(self).decoder,
            final(self).offset == 0,
            final(self).end == old(self).end,
            final(self).all == old(self).all,
            final(self).chunks@ == old(self).chunks@.skip(1),
            final(self).done@ == old(self).done@.push(old(self).chunks@[0]@),
            final(self).done@ + chunk_views(final(self).chunks@) == final(self).all@,
            chunk_views(final(self).chunks@) == chunk_views(old(self).chunks@).skip(1),
    {
        let ghost before = self.chunks@;
        let _ = self.chunks.pop_front();
        self.offset = 0;
        proof {
            assert(self.chunks@ == before.skip(1));
            assert(chunk_views(before.skip(1)) == chunk_views(before).skip(1));
            assert(self.done@.push(before[0]@) + chunk_views(before.skip(1)) == self.done@
                + chunk_views(before));
            self.done@ = self.done@.push(before[0]@);
        }
    }

    /// Decodes the next piece of the first chunk.
    fn advance(&mut self, exporter: &mut StreamingTextExporter)
        requires
            old(self).wf(),
            old(exporter).wf(),
            old(self).agrees(*old(exporter)),
            old(self).decoder is Some,
            old(self).chunks@.len() > 0,
            old(self).chunks@[0]@.bytes.len() > 0,
        ensures
            final(self).wf(),
            final(exporter).wf(),
            final(self).agrees(*final(exporter)),
            final(exporter).same_style(*old(exporter)),
            final(exporter).taken == old(exporter).taken,
            final(self).all == old(self).all,
            final(self).encoding == old(self).encoding,
            final(self).steps() < old(self).steps(),
            old(self).read_on_to(*final(self)),
            final(self).decoder is Some,
    {
        let ghost chunk = self.chunks@[0]@;
        let ghost done = self.done@;
        let ghost encoding = self.encoding;
        let ghost before = joined_bytes(done);
        let start: usize = self.offset;
        let first = &self.chunks[0];
        let bytes: &[u8] = &*first.bytes;
        let len: usize = bytes.len();
        let end: usize = if len - start <= EXPORT_DECODE_INPUT_BYTES {
            len
        } else {
            start + EXPORT_DECODE_INPUT_BYTES
        };
        let at = first.received_at;
        let sequence: u64 = first.sequence;
        let ghost (x, y) = (
            chunk.bytes.take(start as int),
            chunk.bytes.subrange(start as int, end as int),
        );
        proof {
            if start == 0 {
                assert(x == Seq::<u8>::empty());
                assert(before + x == before);
                assert(added_text(encoding, before, x) == Seq::<char>::empty());
            } else {
                assert(self.consumed().drop_last() == done);
                assert(joined_bytes(self.consumed()) == before + x);
            }
            first_chunk_counts(chunk_views(self.chunks@));
        }
        if start == 0 {
            exporter.note_input(at);
        }
        let text = match &mut self.decoder {
            Some(decoder) => decoder.push(vstd::slice::slice_subrange(bytes, start, end)),
            None => String::new(),
        };
        proof {
            split_chunks_extend(encoding, done, chunk, start as int, end as int);
            let taken = done.push(chunk_start(chunk, end as int));
            assert(taken.drop_last() == done);
            assert(x + y == chunk.bytes.take(end as int));
            assert(before + x + y == before + chunk.bytes.take(end as int));
            assert(joined_bytes(taken) == before + x + y);
            assert(added_text(encoding, before, chunk.bytes.take(end as int)) == added_text(
                encoding,
                before,
                x,
            ) + text@);
            assert(text_so_far(encoding, joined_bytes(taken)) == text_so_far(encoding, before)
                + added_text(encoding, before, chunk.bytes.take(end as int)));
            assert(self.decoder is Some);
            assert(self.decoder->0.input() == joined_bytes(taken));
        }
        exporter.push_text(text.as_str(), at, sequence);
        if end == len {
            assert(chunk_start(chunk, end as int) == chunk) by {
                assert(chunk.bytes.take(len as int) == chunk.bytes);
            }
            self.drop_chunk();
        } else {
            self.offset = end;
            assert(self.consumed() == done.push(chunk_start(chunk, end as int)));
        }
    }

    /// Ends the stream.
    fn close(&mut self, exporter: &mut StreamingTextExporter)
        requires
            old(self).wf(),
            old(exporter).wf(),
            old(self).agrees(*old(exporter)),
            old(self).decoder is Some,
            old(self).chunks@.len() == 0,
        ensures
            final(self).wf(),
            final(exporter).wf(),
            final(self).agrees(*final(exporter)),
            final(exporter).same_style(*old(exporter)),
            final(exporter).taken == old(exporter).taken,
            final(self).all == old(self).all,
            final(self).encoding == old(self).encoding,
            final(self).steps() < old(self).steps(),
            final(self).chunks == old(self).chunks,
            final(self).offset == old(self).offset,
    {
        assert(self.consumed() == self.all@);
        proof {
            split_chunks_keeps_wf(self.encoding, self.all@);
        }
        if let Some(decoder) = self.decoder.take() {
            let text = decoder.finish();
            if let Some((at, sequence)) = self.end {
                exporter.push_text(text.as_str(), at, sequence);
            }
            exporter.finish();
        }
    }
}

proof fn first_chunk_counts(chunks: Seq<ChunkView>)
    ensures
        chunks.len() > 0 ==> total_bytes(chunks) == chunks[0].bytes.len() + total_bytes(
            chunks.skip(1),
        ),
    decreases chunks.len(),
{
    if chunks.len() == 1 {
        assert(chunks.drop_last() == Seq::<ChunkView>::empty());
        assert(chunks.skip(1) == Seq::<ChunkView>::empty());
        reveal_with_fuel(total_bytes, 2);
    } else if chunks.len() > 1 {
        first_chunk_counts(chunks.drop_last());
        assert(chunks.drop_last().skip(1) == chunks.skip(1).drop_last());
    }
}

/// A HEX export in the making: chunks are read piece by piece.
struct HexSource {
    formatter: IncrementalHexFormatter,
    /// The last row was not written yet.
    open: bool,
    chunks: VecDeque<RxChunk>,
    /// How much of the first chunk is used up.
    offset: usize,
    skipped: Ghost<nat>,
    all: Ghost<Seq<ChunkView>>,
    done: Ghost<Seq<ChunkView>>,
}

/// More bytes of a chunk continue the rows of the bytes before them.
proof fn push_hex_chunks_extend(
    state: HexState,
    done: Seq<ChunkView>,
    chunk: ChunkView,
    start: int,
    end: int,
)
    requires
        0 <= start <= end <= chunk.bytes.len(),
    ensures
        ({
            let (before, rows) = if start == 0 {
                push_hex_chunks(state, done)
            } else {
                push_hex_chunks(state, done.push(chunk_start(chunk, start)))
            };
            let (after, more) = push_bytes(
                before,
                chunk.bytes.subrange(start, end),
                chunk.received_at,
                chunk.sequence,
            );
            let all = push_hex_chunks(state, done.push(chunk_start(chunk, end)));
            all.0 == after && plain_rows(all.1) == plain_rows(rows) + more
        }),
{
    let (at, sequence) = (chunk.received_at, chunk.sequence);
    let (x, y) = (chunk.bytes.take(start), chunk.bytes.subrange(start, end));
    let (before, rows) = push_hex_chunks(state, done);
    assert(x + y == chunk.bytes.take(end));
    assert(done.push(chunk_start(chunk, end)).drop_last() == done);
    assert(done.push(chunk_start(chunk, start)).drop_last() == done);
    push_bytes_concat(before, x, y, at, sequence);
    let (middle, first) = push_bytes(before, x, at, sequence);
    let second = push_bytes(middle, y, at, sequence).1;
    assert(plain_rows(rows + ended_in(first + second, sequence)) == plain_rows(rows) + (first
        + second));
    assert(plain_rows(rows + ended_in(first, sequence)) == plain_rows(rows) + first);
    assert(plain_rows(rows) + (first + second) == plain_rows(rows) + first + second);
    if start == 0 {
        assert(x == Seq::<u8>::empty());
        assert(plain_rows(rows) + first == plain_rows(rows));
    }
}

impl HexSource {
    /// The bytes that were used up, in chunks.
    closed spec fn consumed(self) -> Seq<ChunkView> {
        if self.offset == 0 {
            self.done@
        } else {
            self.done@.push(chunk_start(self.chunks@[0]@, self.offset as int))
        }
    }

    closed spec fn wf(self) -> bool {
        &&& self.formatter.wf()
        &&& self.done@ + chunk_views(self.chunks@) == self.all@
        &&& self.offset > 0 ==> self.chunks@.len() > 0 && self.offset < self.chunks@[0]@.bytes.len()
        &&& !self.open ==> self.chunks@.len() == 0
    }

    /// The exporter has what the used up bytes amount to.
    closed spec fn agrees(self, exporter: StreamingTextExporter) -> bool {
        let (state, rows) = push_hex_chunks(fresh_hex(self.skipped@), self.consumed());
        &&& exporter.line@ == fresh_line()
        &&& if self.open {
            self.formatter.state() == state && exporter.rows@ == plain_rows(rows)
        } else {
            exporter.rows@ == hex_rows(self.skipped@, self.all@)
        }
    }

    closed spec fn read_on_to(self, after: Self) -> bool {
        read_on(
            chunk_views(self.chunks@),
            self.offset as int,
            chunk_views(after.chunks@),
            after.offset as int,
        )
    }

    closed spec fn steps(self) -> nat {
        (total_bytes(chunk_views(self.chunks@)) - self.offset + self.chunks@.len() + if self.open {
            1int
        } else {
            0
        }) as nat
    }

    /// Goes on by one piece. Tells whether there was anything to do.
    fn step(&mut self, exporter: &mut StreamingTextExporter) -> (worked: bool)
        requires
            old(self).wf(),
            old(exporter).wf(),
            old(self).agrees(*old(exporter)),
        ensures
            final(self).wf(),
            final(exporter).wf(),
            final(self).agrees(*final(exporter)),
            final(exporter).same_style(*old(exporter)),
            final(exporter).taken == old(exporter).taken,
            final(self).all == old(self).all,
            final(self).skipped == old(self).skipped,
            worked == old(self).open,
            worked ==> final(self).steps() < old(self).steps(),
            !worked ==> *final(self) == *old(self) && *final(exporter) == *old(exporter),
            old(self).read_on_to(*final(self)),
            !final(self).open ==> old(self).chunks@.len() == 0,
    {
        if !self.open {
            return false;
        }
        if self.chunks.len() == 0 {
            self.close(exporter);
        } else {
            self.advance(exporter);
        }
        true
    }

    /// Reads the next piece of the first chunk.
    fn advance(&mut self, exporter: &mut StreamingTextExporter)
        requires
            old(self).wf(),
            old(exporter).wf(),
            old(self).agrees(*old(exporter)),
            old(self).open,
            old(self).chunks@.len() > 0,
        ensures
            final(self).wf(),
            final(exporter).wf(),
            final(self).agrees(*final(exporter)),
            final(exporter).same_style(*old(exporter)),
            final(exporter).taken == old(exporter).taken,
            final(self).all == old(self).all,
            final(self).skipped == old(self).skipped,
            final(self).open,
            final(self).steps() < old(self).steps(),
            old(self).read_on_to(*final(self)),
    {
        let ghost chunk = self.chunks@[0]@;
        let ghost done = self.done@;
        let ghost before = self.chunks@;
        let ghost fresh = fresh_hex(self.skipped@);
        let start: usize = self.offset;
        let first = &self.chunks[0];
        let bytes: &[u8] = &*first.bytes;
        let len: usize = bytes.len();
        let end: usize = if len - start <= EXPORT_DECODE_INPUT_BYTES {
            len
        } else {
            start + EXPORT_DECODE_INPUT_BYTES
        };
        let piece = RxChunk {
            sequence: first.sequence,
            received_at: first.received_at,
            bytes: shared_bytes(
                vstd::slice::slice_to_vec(vstd::slice::slice_subrange(bytes, start, end)),
            ),
        };
        let mut rows: Vec<FormattedRow> = Vec::new();
        let mut ends: VecDeque<u64> = VecDeque::new();
        proof {
            assert(row_views(rows@) == Seq::<RowView>::empty());
            assert(piece@.bytes == chunk.bytes.subrange(start as int, end as int));
            push_hex_chunks_extend(fresh, done, chunk, start as int, end as int);
            first_chunk_counts(chunk_views(before));
        }
        self.formatter.push_chunk(&piece, &mut rows, &mut ends);
        exporter.push_rows(&rows);
        if end == len {
            let _ = self.chunks.pop_front();
            self.offset = 0;
            proof {
                assert(chunk.bytes.take(len as int) == chunk.bytes);
                assert(chunk_start(chunk, end as int) == chunk);
                assert(chunk_views(self.chunks@) == chunk_views(before).skip(1));
                assert(done.push(chunk) + chunk_views(self.chunks@) == done + chunk_views(before));
                self.done@ = done.push(chunk);
            }
        } else {
            self.offset = end;
            assert(self.consumed() == done.push(chunk_start(chunk, end as int)));
        }
    }

    /// Writes the last row.
    fn close(&mut self, exporter: &mut StreamingTextExporter)
        requires
            old(self).wf(),
            old(exporter).wf(),
            old(self).agrees(*old(exporter)),
            old(self).open,
            old(self).chunks@.len() == 0,
        ensures
            final(self).wf(),
            final(exporter).wf(),
            final(self).agrees(*final(exporter)),
            final(exporter).same_style(*old(exporter)),
            final(exporter).taken == old(exporter).taken,
            final(self).all == old(self).all,
            final(self).skipped == old(self).skipped,
            final(self).steps() < old(self).steps(),
            final(self).chunks == old(self).chunks,
            final(self).offset == old(self).offset,
    {
        let mut rows: Vec<FormattedRow> = Vec::new();
        let mut ends: VecDeque<u64> = VecDeque::new();
        assert(row_views(rows@) == Seq::<RowView>::empty());
        self.formatter.push_partial_row(&mut rows, &mut ends);
        self.open = false;
        proof {
            let (state, written) = push_hex_chunks(fresh_hex(self.skipped@), self.all@);
            assert(self.consumed() == self.all@);
            assert(plain_rows(written + partial_hex_row(state)) == plain_rows(written)
                + plain_rows(partial_hex_row(state)));
            assert(row_views(rows@) == plain_rows(partial_hex_row(state)));
        }
        exporter.push_rows(&rows);
    }
}

enum ExportSource {
    Text(TextSource),
    Hex(HexSource),
    Rows(VecDeque<FormattedRow>),
}

/// An export in the making.
pub struct ExportStream {
    started: bool,
    exporter: StreamingTextExporter,
    source: ExportSource,
    target: Ghost<Seq<RowView>>,
}

impl ExportStream {
    /// The rows of the export.
    pub closed spec fn rows(self) -> Seq<RowView> {
        self.target@
    }

    /// The text that was produced so far.
    pub closed spec fn produced(self) -> Seq<char> {
        self.exporter.taken@
    }

    /// The text that the export amounts to.
    pub open spec fn whole(self) -> Seq<char> {
        file_text(self.rows(), self.timestamps(), self.format())
    }

    pub closed spec fn timestamps(self) -> bool {
        self.exporter.timestamps
    }

    pub closed spec fn format(self) -> Seq<char> {
        self.exporter.timestamp_format@
    }

    /// The text that has come together and was not handed out yet.
    pub closed spec fn at_hand(self) -> Seq<char> {
        self.exporter.out@
    }

    /// What is being read.
    pub closed spec fn phase(self) -> ExportPhase {
        match self.source {
            ExportSource::Text(source) => if source.decoder is Some {
                ExportPhase::Text(source.encoding)
            } else {
                ExportPhase::Ended
            },
            ExportSource::Hex(source) => if source.open {
                ExportPhase::Hex(source.skipped@)
            } else {
                ExportPhase::Ended
            },
            ExportSource::Rows(_) => ExportPhase::Rows,
        }
    }

    /// All chunks of the snapshot, if they are read one by one.
    pub closed spec fn all(self) -> Seq<ChunkView> {
        match self.source {
            ExportSource::Text(source) => source.all@,
            ExportSource::Hex(source) => source.all@,
            ExportSource::Rows(_) => Seq::empty(),
        }
    }

    /// The chunks that are still held.
    pub closed spec fn kept(self) -> Seq<ChunkView> {
        match self.source {
            ExportSource::Text(source) => chunk_views(source.chunks@),
            ExportSource::Hex(source) => chunk_views(source.chunks@),
            ExportSource::Rows(_) => Seq::empty(),
        }
    }

    /// How much of the first chunk that is still held was read.
    pub closed spec fn used(self) -> int {
        match self.source {
            ExportSource::Text(source) => source.offset as int,
            ExportSource::Hex(source) => source.offset as int,
            ExportSource::Rows(_) => 0,
        }
    }

    /// The bytes that were read, in chunks.
    pub closed spec fn consumed(self) -> Seq<ChunkView> {
        match self.source {
            ExportSource::Text(source) => source.consumed(),
            ExportSource::Hex(source) => source.consumed(),
            ExportSource::Rows(_) => Seq::empty(),
        }
    }

    pub closed spec fn wf(self) -> bool {
        &&& self.exporter.wf()
        &&& match self.source {
            ExportSource::Text(source) => source.wf() && source.agrees(self.exporter)
                && self.target@ == text_lines(source.encoding, source.all@),
            ExportSource::Hex(source) => source.wf() && source.agrees(self.exporter)
                && self.target@ == hex_rows(source.skipped@, source.all@),
            ExportSource::Rows(rows) => self.exporter.line@ == fresh_line()
                && self.exporter.rows@ + row_views(rows@) == self.target@,
        }
    }

    /// The number of pieces that have come together.
    pub closed spec fn waiting(self) -> nat {
        self.exporter.out.count()
    }

    /// How much is left to be read.
    pub closed spec fn steps(self) -> nat {
        (if self.started {
            0nat
        } else {
            1
        }) + match self.source {
            ExportSource::Text(source) => source.steps(),
            ExportSource::Hex(source) => source.steps(),
            ExportSource::Rows(rows) => rows@.len(),
        }
    }

    /// Begins the export of a snapshot.
    pub fn new(
        snapshot: ReceiveSnapshot,
        mode: ReceiveMode,
        encoding: TextEncoding,
        timestamps: bool,
        timestamp_format: &str,
    ) -> (stream: Self)
        ensures
            stream.wf(),
            stream.produced() == Seq::<char>::empty(),
            stream.timestamps() == timestamps,
            stream.format() == timestamp_format@,
            exported_rows(stream.rows(), snapshot, mode, encoding),
            stream.phase() == match mode {
                ReceiveMode::Text => ExportPhase::Text(encoding),
                ReceiveMode::Hex => ExportPhase::Hex(missing_bytes(snapshot)),
                ReceiveMode::Terminal => ExportPhase::Rows,
            },
            stream.kept() == match mode {
                ReceiveMode::Terminal => Seq::empty(),
                _ => chunk_views(snapshot.chunks@),
            },
            stream.all() == stream.kept(),
            stream.used() == 0,
    {
        let exporter = StreamingTextExporter::new(timestamps, timestamp_format);
        let ghost views = chunk_views(snapshot.chunks@);
        match mode {
            ReceiveMode::Text => {
                let count: usize = snapshot.chunks.len();
                let end = if count == 0 {
                    None
                } else {
                    let last = &snapshot.chunks[count - 1];
                    Some((last.received_at, last.sequence))
                };
                let source = TextSource {
                    encoding,
                    decoder: Some(StreamDecoder::new(encoding)),
                    chunks: into_queue(snapshot.chunks),
                    offset: 0,
                    end,
                    all: Ghost(views),
                    done: Ghost(Seq::empty()),
                };
                assert(source.done@ + chunk_views(source.chunks@) =~= views);
                ExportStream {
                    started: false,
                    exporter,
                    source: ExportSource::Text(source),
                    target: Ghost(text_lines(encoding, views)),
                }
            },
            ReceiveMode::Hex => {
                let skipped: usize = hex_skipped_bytes_modulo(&snapshot);
                let ghost missing = missing_bytes(snapshot);
                assert(fresh_hex(skipped as nat) == fresh_hex(missing));
                let source = HexSource {
                    formatter: IncrementalHexFormatter::new(skipped),
                    open: true,
                    chunks: into_queue(snapshot.chunks),
                    offset: 0,
                    skipped: Ghost(missing),
                    all: Ghost(views),
                    done: Ghost(Seq::empty()),
                };
                assert(source.done@ + chunk_views(source.chunks@) =~= views);
                assert(plain_rows(Seq::empty()) =~= Seq::<RowView>::empty());
                ExportStream {
                    started: false,
                    exporter,
                    source: ExportSource::Hex(source),
                    target: Ghost(hex_rows(missing, views)),
                }
            },
            ReceiveMode::Terminal => {
                let (formatter, rows) = DisplayFormatter::rebuild(&snapshot, mode, encoding);
                let ghost shown = row_views(rows@);
                assert(rebuilt(formatter, shown, snapshot, mode, encoding, default_limits()));
                let queue = into_queue(rows);
                assert(exporter.rows@ + row_views(queue@) =~= shown);
                ExportStream {
                    started: false,
                    exporter,
                    source: ExportSource::Rows(queue),
                    target: Ghost(shown),
                }
            },
        }
    }

    /// The next piece of the text, or `None` once all of it was produced. A piece is small, and
    /// for each of them at most one piece of a chunk is read; a chunk that is used up is let go.
    pub fn next_piece(&mut self) -> (piece: Option<String>)
        requires
            old(self).wf(),
        ensures
            final(self).wf(),
            final(self).rows() == old(self).rows(),
            final(self).timestamps() == old(self).timestamps(),
            final(self).format() == old(self).format(),
            final(self).all() == old(self).all(),
            match piece {
                Some(piece) => {
                    &&& final(self).produced() == old(self).produced() + piece@
                    &&& text_bytes(piece@) <= MAX_PIECE_BYTES
                    &&& final(self).steps() < old(self).steps() || (final(self).steps()
                        == old(self).steps() && final(self).waiting() < old(self).waiting())
                },
                None => {
                    &&& final(self).produced() == old(self).produced()
                    &&& final(self).steps() == old(self).steps()
                    &&& final(self).waiting() == old(self).waiting()
                    &&& old(self).produced() == old(self).whole()
                    &&& final(self).kept().len() == 0
                },
            },
            read_on(
                old(self).kept(),
                old(self).used(),
                final(self).kept(),
                final(self).used(),
            ),
            final(self).phase() == old(self).phase() || (final(self).phase() is Ended && old(
                self,
            ).kept().len() == 0),
    {
        if !self.started {
            self.started = true;
            return Some(self.exporter.take());
        }
        if self.exporter.out.is_full() {
            return Some(self.exporter.take());
        }
        let worked = match &mut self.source {
            ExportSource::Text(source) => source.step(&mut self.exporter),
            ExportSource::Hex(source) => source.step(&mut self.exporter),
            ExportSource::Rows(rows) => {
                let ghost before = rows@;
                if let Some(row) = rows.pop_front() {
                    self.exporter.push_row(&row);
                    proof {
                        assert(row_views(before) =~= seq![row@] + row_views(rows@));
                        assert(self.exporter.rows@ + row_views(rows@) =~= old(self).target@);
                    }
                    true
                } else {
                    assert(row_views(before) =~= Seq::<RowView>::empty());
                    assert(self.exporter.rows@ + row_views(before) =~= self.exporter.rows@);
                    false
                }
            },
        };
        if worked || !self.exporter.out.is_empty() {
            Some(self.exporter.take())
        } else {
            proof {
                let (timestamps, format) = (
                    self.exporter.timestamps,
                    self.exporter.timestamp_format@,
                );
                assert(self.exporter.taken@ + self.exporter.out@ =~= self.exporter.taken@);
                assert(file_text(self.target@, timestamps, format) + open_text(
                    self.exporter.line@,
                    timestamps,
                    format,
                ) =~= file_text(self.target@, timestamps, format));
            }
            None
        }
    }
}

/// What an export reads.
pub enum ExportPhase {
    Text(TextEncoding),
    /// The number of bytes that are missing at the start.
    Hex(nat),
    /// Rows that were made beforehand.
    Rows,
    Ended,
}

/// Text is handed out as the bytes behind it are read: what was produced so far, and what is at
/// hand, is the text of the bytes that were read, and the chunks that are still held are those
/// with bytes to come.
pub proof fn pieces_follow_the_bytes(stream: ExportStream)
    requires
        stream.wf(),
    ensures
        match stream.phase() {
            ExportPhase::Text(encoding) => {
                let (line, rows) = split_chunks(encoding, stream.consumed());
                stream.produced() + stream.at_hand() == file_text(
                    rows,
                    stream.timestamps(),
                    stream.format(),
                ) + open_text(line, stream.timestamps(), stream.format())
            },
            ExportPhase::Hex(skipped) => {
                let rows = plain_rows(push_hex_chunks(fresh_hex(skipped), stream.consumed()).1);
                stream.produced() + stream.at_hand() == file_text(
                    rows,
                    stream.timestamps(),
                    stream.format(),
                )
            },
            _ => stream.kept().len() == 0,
        },
        stream.used() == 0 || (stream.kept().len() > 0 && 0 < stream.used()
            < stream.kept()[0].bytes.len()),
        ({
            let let_go = stream.all().len() - stream.kept().len();
            &&& let_go >= 0
            &&& stream.kept() == stream.all().skip(let_go)
            &&& stream.consumed() == if stream.used() == 0 {
                stream.all().take(let_go)
            } else {
                stream.all().take(let_go).push(chunk_start(stream.kept()[0], stream.used()))
            }
        }),
{
    let (all, kept) = (stream.all(), stream.kept());
    let text = file_text(stream.exporter.rows@, stream.timestamps(), stream.format());
    assert(text + Seq::<char>::empty() == text);
    let done = match stream.source {
        ExportSource::Text(source) => source.done@,
        ExportSource::Hex(source) => source.done@,
        ExportSource::Rows(_) => Seq::empty(),
    };
    assert(done + kept == all);
    assert(all.take(all.len() - kept.len()) == done);
    assert(all.skip(all.len() - kept.len()) == kept);
}

/// The rows that an export of a snapshot consists of.
pub open spec fn exported_rows(
    rows: Seq<RowView>,
    snapshot: ReceiveSnapshot,
    mode: ReceiveMode,
    encoding: TextEncoding,
) -> bool {
    let chunks = chunk_views(snapshot.chunks@);
    match mode {
        ReceiveMode::Text => rows == text_lines(encoding, chunks),
        ReceiveMode::Hex => rows == hex_rows(missing_bytes(snapshot), chunks),
        ReceiveMode::Terminal => exists|formatter: DisplayFormatter| #[trigger]
            rebuilt(formatter, rows, snapshot, mode, encoding, default_limits()),
    }
}

/// The items in a queue, first one first.
fn into_queue<T>(items: Vec<T>) -> (queue: VecDeque<T>)
    ensures
        queue@ == items@,
{
    let mut items = items;
    let ghost all = items@;
    let mut queue: VecDeque<T> = VecDeque::new();
    while items.len() > 0
        invariant
            items@ + queue@ == all,
        decreases items.len(),
    {
        let ghost before = items@ + queue@;
        let item = items.pop().unwrap();
        queue.push_front(item);
        assert(items@ + queue@ == before);
    }
    queue
}

proof fn encode_utf8_concat(a: Seq<char>, b: Seq<char>)
    ensures
        encode_utf8(a + b) == encode_utf8(a) + encode_utf8(b),
    decreases a.len(),
{
    if a.len() == 0 {
        assert(a + b == b);
        assert(encode_utf8(a) + encode_utf8(b) == encode_utf8(b));
    } else {
        assert((a + b).drop_first() == a.drop_first() + b);
        encode_utf8_concat(a.drop_first(), b);
        let first = encode_scalar(a[0] as u32);
        assert(first + (encode_utf8(a.drop_first()) + encode_utf8(b)) == first + encode_utf8(
            a.drop_first(),
        ) + encode_utf8(b));
    }
}

/// Appends the export of a snapshot to `output`.
pub fn write_export(
    output: &mut Vec<u8>,
    snapshot: ReceiveSnapshot,
    mode: ReceiveMode,
    encoding: TextEncoding,
    timestamps: bool,
    timestamp_format: &str,
)
    ensures
        exists|rows: Seq<RowView>| #[trigger]
            exported_rows(rows, snapshot, mode, encoding) && final(output)@ == old(output)@
                + encode_utf8(file_text(rows, timestamps, timestamp_format@)),
{
    let mut stream = ExportStream::new(snapshot, mode, encoding, timestamps, timestamp_format);
    let ghost rows = stream.rows();
    let ghost whole = stream.whole();
    let mut more = true;
    assert(output@ == old(output)@ + encode_utf8(stream.produced())) by {
        assert(encode_utf8(Seq::<char>::empty()) == Seq::<u8>::empty());
    }
    while more
        invariant
            stream.wf(),
            stream.whole() == whole,
            output@ == old(output)@ + encode_utf8(stream.produced()),
            !more ==> stream.produced() == whole,
        decreases
            stream.steps(),
            stream.waiting(),
            if more {
                1int
            } else {
                0
            },
    {
        let ghost before = stream.produced();
        match stream.next_piece() {
            Some(piece) => {
                proof {
                    encode_utf8_concat(before, piece@);
                    assert(old(output)@ + (encode_utf8(before) + encode_utf8(piece@)) == old(
                        output,
                    )@ + encode_utf8(before) + encode_utf8(piece@));
                }
                output.extend_from_slice(piece.as_str().as_bytes());
            },
            None => {
                more = false;
            },
        }
    }
    assert(exported_rows(rows, snapshot, mode, encoding));
}

} // verus!
