//! Draws received chunks on a terminal screen and tells what has changed on it.

use vstd::prelude::*;
use vstd::utf8::encode_utf8;

use crate::encoding::{added_text, StreamDecoder};
use crate::formatting::rows::{row_views, FormattedRow, RowView};
use crate::model::TextEncoding;
use crate::store::{chunk_views, ChunkView, RxChunk};
use crate::terminal::actions::{advance, all_performed, new_parser, parsed_actions, parser_input};
use crate::terminal::machine::TerminalScreen;
use crate::terminal::screen::{max, min, ScreenView};
use crate::timestamp::Timestamp;

verus! {

/// Bytes are decoded and drawn in pieces of at most this size.
pub const TERMINAL_DECODE_INPUT_BYTES: usize = 65_536;

/// How large a screen may be.
pub struct ScreenLimits {
    pub max_rows: usize,
    pub max_text_bytes: usize,
    pub max_line_bytes: usize,
}

/// Limits below a useful minimum are raised to it.
pub open spec fn useful_limits(limits: ScreenLimits) -> ScreenLimits {
    ScreenLimits {
        max_rows: max(limits.max_rows as int, 1) as usize,
        max_text_bytes: max(limits.max_text_bytes as int, 1) as usize,
        max_line_bytes: max(limits.max_line_bytes as int, 16) as usize,
    }
}

/// The state of a terminal formatter.
#[verifier::ext_equal]
pub struct TerminalState {
    /// The bytes so far.
    pub input: Seq<u8>,
    /// The pieces of decoded text that the parser has seen.
    pub parsed: Seq<Seq<u8>>,
    pub screen: ScreenView,
    /// Something had to be left out.
    pub limited: bool,
}

impl TerminalState {
    /// The screen is brought down to its limits.
    pub open spec fn within(self, limits: ScreenLimits) -> TerminalState {
        let (rows, text, line) = (
            limits.max_rows,
            limits.max_text_bytes,
            limits.max_line_bytes,
        );
        TerminalState {
            screen: self.screen.limited(rows, text, line),
            limited: self.limited || self.screen.over_limits(rows, text, line),
            ..self
        }
    }

    /// A piece of the stream is decoded, parsed and drawn.
    #[verifier::opaque]
    pub open spec fn piece_drawn(
        self,
        encoding: TextEncoding,
        limits: ScreenLimits,
        piece: Seq<u8>,
    ) -> TerminalState {
        let text = encode_utf8(added_text(encoding, self.input, piece));
        TerminalState {
            input: self.input + piece,
            parsed: self.parsed.push(text),
            screen: all_performed(self.screen, parsed_actions(self.parsed, text)),
            ..self
        }.within(limits)
    }

    /// Bytes are drawn piece by piece.
    pub open spec fn bytes_drawn(
        self,
        encoding: TextEncoding,
        limits: ScreenLimits,
        bytes: Seq<u8>,
    ) -> TerminalState
        decreases bytes.len(),
    {
        if bytes.len() == 0 {
            self
        } else {
            let len = min(bytes.len() as int, TERMINAL_DECODE_INPUT_BYTES as int);
            self.piece_drawn(encoding, limits, bytes.take(len)).bytes_drawn(
                encoding,
                limits,
                bytes.skip(len),
            )
        }
    }

    pub open spec fn chunk_drawn(
        self,
        encoding: TextEncoding,
        limits: ScreenLimits,
        chunk: ChunkView,
    ) -> TerminalState {
        if chunk.bytes.len() == 0 {
            self
        } else {
            TerminalState { screen: self.screen.at(chunk.received_at), ..self }.bytes_drawn(
                encoding,
                limits,
                chunk.bytes,
            )
        }
    }

    pub open spec fn chunks_drawn(
        self,
        encoding: TextEncoding,
        limits: ScreenLimits,
        chunks: Seq<ChunkView>,
    ) -> TerminalState
        decreases chunks.len(),
    {
        if chunks.len() == 0 {
            self
        } else {
            self.chunks_drawn(encoding, limits, chunks.drop_last()).chunk_drawn(
                encoding,
                limits,
                chunks.last(),
            )
        }
    }

    /// One update: the marks of the last one are dropped, the chunks are drawn, and the limits
    /// are enforced.
    pub open spec fn updated(
        self,
        encoding: TextEncoding,
        limits: ScreenLimits,
        chunks: Seq<ChunkView>,
    ) -> TerminalState {
        let limits = useful_limits(limits);
        TerminalState { screen: self.screen.begun(), ..self }.chunks_drawn(
            encoding,
            limits,
            chunks,
        ).within(limits)
    }
}

/// How rows that are on display become the rows of a screen.
#[verifier::ext_equal]
pub struct UpdateView {
    /// The number of rows to remove at the start.
    pub remove_prefix: int,
    /// The number of rows to remove at the end.
    pub replace_tail: int,
    /// The rows to add at the end.
    pub rows: Seq<RowView>,
}

/// The rows on display after an update. Nothing more is removed than there is.
pub open spec fn update_applied(shown: Seq<RowView>, update: UpdateView) -> Seq<RowView> {
    let rest = shown.skip(min(update.remove_prefix, shown.len() as int));
    rest.take(max(rest.len() - update.replace_tail, 0)) + update.rows
}

/// What has to change on a display of `displayed` rows to show the screen.
pub open spec fn screen_update(s: ScreenView, displayed: int) -> UpdateView {
    if s.full_replace {
        UpdateView { remove_prefix: 0, replace_tail: displayed, rows: s.rows_from(0) }
    } else {
        let remove_prefix = min(s.removed_front as int, displayed);
        let retained = displayed - remove_prefix;
        let start = min(
            match s.dirty_from {
                Some(row) => row,
                None => retained,
            },
            s.rendered_len(),
        );
        UpdateView {
            remove_prefix,
            replace_tail: max(retained - start, 0),
            rows: s.rows_from(start),
        }
    }
}

/// What has changed on the terminal screen.
#[derive(Debug)]
pub struct TerminalUpdate {
    pub remove_prefix: usize,
    pub replace_tail: usize,
    pub rows: Vec<FormattedRow>,
}

impl View for TerminalUpdate {
    type V = UpdateView;

    open spec fn view(&self) -> UpdateView {
        UpdateView {
            remove_prefix: self.remove_prefix as int,
            replace_tail: self.replace_tail as int,
            rows: row_views(self.rows@),
        }
    }
}

pub struct IncrementalTerminalFormatter {
    decoder: StreamDecoder,
    parser: vte::Parser,
    screen: TerminalScreen,
    displayed_len: usize,
    limited: bool,
}

/// The state before the first chunk.
pub open spec fn fresh_terminal(at: Timestamp) -> TerminalState {
    TerminalState {
        input: Seq::empty(),
        parsed: Seq::empty(),
        screen: ScreenView {
            lines: Seq::empty(),
            cursor_row: 0,
            cursor_col: 0,
            saved_cursor: None,
            received_at: at,
            dirty_from: None,
            byte_dirty_from: None,
            removed_front: 0,
            full_replace: false,
        },
        limited: false,
    }
}

impl IncrementalTerminalFormatter {
    pub closed spec fn state(self) -> TerminalState {
        TerminalState {
            input: self.decoder.input(),
            parsed: parser_input(self.parser),
            screen: self.screen.inner(),
            limited: self.limited,
        }
    }

    pub closed spec fn encoding(self) -> TextEncoding {
        self.decoder.encoding()
    }

    /// The number of rows that were on the screen after the last update.
    pub closed spec fn displayed(self) -> int {
        self.displayed_len as int
    }

    pub closed spec fn wf(self) -> bool {
        self.screen.wf()
    }

    pub fn new(encoding: TextEncoding) -> (formatter: Self)
        ensures
            formatter.wf(),
            formatter.encoding() == encoding,
            formatter.displayed() == 0,
            formatter.state() == fresh_terminal(formatter.state().screen.received_at),
            formatter.state().screen.received_at.is_epoch(),
    {
        IncrementalTerminalFormatter {
            decoder: StreamDecoder::new(encoding),
            parser: new_parser(),
            screen: TerminalScreen::new(Timestamp::epoch()),
            displayed_len: 0,
            limited: false,
        }
    }

    /// Draws the chunks and tells what has changed.
    pub fn apply_chunks(
        &mut self,
        chunks: &Vec<RxChunk>,
        max_rows: usize,
        max_text_bytes: usize,
        max_line_bytes: usize,
    ) -> (update: TerminalUpdate)
        requires
            old(self).wf(),
        ensures
            final(self).wf(),
            final(self).encoding() == old(self).encoding(),
            final(self).state() == old(self).state().updated(
                old(self).encoding(),
                ScreenLimits { max_rows, max_text_bytes, max_line_bytes },
                chunk_views(chunks@),
            ),
            final(self).displayed() == final(self).state().screen.rendered_len(),
            update@ == screen_update(final(self).state().screen, old(self).displayed()),
    {
        let max_rows: usize = if max_rows < 1 {
            1
        } else {
            max_rows
        };
        let max_text_bytes: usize = if max_text_bytes < 1 {
            1
        } else {
            max_text_bytes
        };
        let max_line_bytes: usize = if max_line_bytes < 16 {
            16
        } else {
            max_line_bytes
        };
        let ghost limits = ScreenLimits { max_rows, max_text_bytes, max_line_bytes };
        let ghost views = chunk_views(chunks@);
        self.screen.begin_update();
        let ghost begun = self.state();
        let mut i: usize = 0;
        while i < chunks.len()
            invariant
                i <= chunks.len(),
                max_line_bytes >= 16,
                limits == (ScreenLimits { max_rows, max_text_bytes, max_line_bytes }),
                views == chunk_views(chunks@),
                self.wf(),
                self.encoding() == old(self).encoding(),
                self.displayed() == old(self).displayed(),
                self.state() == begun.chunks_drawn(
                    old(self).encoding(),
                    limits,
                    views.take(i as int),
                ),
            decreases chunks.len() - i,
        {
            assert(views.take(i + 1).drop_last() == views.take(i as int));
            self.push_chunk(&chunks[i], max_rows, max_text_bytes, max_line_bytes);
            i += 1;
        }
        assert(views.take(i as int) == views);
        let limited = self.screen.enforce_limits(max_rows, max_text_bytes, max_line_bytes);
        self.limited = self.limited || limited;

        let new_len: usize = self.screen.rendered_len();
        let displayed: usize = self.displayed_len;
        let remove_prefix: usize;
        let replace_tail: usize;
        let start: usize;
        if self.screen.is_full_replace() {
            remove_prefix = 0;
            replace_tail = displayed;
            start = 0;
        } else {
            let removed: usize = self.screen.removed_front();
            remove_prefix =
            if removed <= displayed {
                removed
            } else {
                displayed
            };
            let retained: usize = displayed - remove_prefix;
            let changed: usize = match self.screen.dirty_from() {
                Some(row) => row,
                None => retained,
            };
            start =
            if changed <= new_len {
                changed
            } else {
                new_len
            };
            replace_tail = retained.saturating_sub(start);
        }
        let rows = self.screen.rows_from(start);
        self.displayed_len = new_len;
        TerminalUpdate { remove_prefix, replace_tail, rows }
    }

    /// The cursor, if it is on a row that is shown.
    pub fn cursor(&self) -> (cursor: Option<(usize, usize)>)
        ensures
            match cursor {
                Some(cursor) => cursor.0 == self.state().screen.cursor_row && cursor.1
                    == self.state().screen.cursor_col && self.state().screen.cursor_row
                    < self.state().screen.rendered_len(),
                None => self.state().screen.cursor_row >= self.state().screen.rendered_len(),
            },
    {
        self.screen.cursor()
    }

    pub fn is_limited(&self) -> (limited: bool)
        ensures
            limited == self.state().limited,
    {
        self.limited
    }

    fn push_chunk(
        &mut self,
        chunk: &RxChunk,
        max_rows: usize,
        max_text_bytes: usize,
        max_line_bytes: usize,
    )
        requires
            old(self).wf(),
            max_line_bytes > 0,
        ensures
            final(self).wf(),
            final(self).encoding() == old(self).encoding(),
            final(self).displayed() == old(self).displayed(),
            final(self).state() == old(self).state().chunk_drawn(
                old(self).encoding(),
                ScreenLimits { max_rows, max_text_bytes, max_line_bytes },
                chunk@,
            ),
    {
        let bytes: &[u8] = &*chunk.bytes;
        if bytes.len() == 0 {
            return ;
        }
        self.screen.set_received_at(chunk.received_at);
        let ghost limits = ScreenLimits { max_rows, max_text_bytes, max_line_bytes };
        let ghost encoding = self.encoding();
        let ghost target = self.state().bytes_drawn(encoding, limits, bytes@);
        let mut i: usize = 0;
        assert(bytes@.skip(0) == bytes@);
        while i < bytes.len()
            invariant
                i <= bytes.len(),
                max_line_bytes > 0,
                limits == (ScreenLimits { max_rows, max_text_bytes, max_line_bytes }),
                self.wf(),
                self.encoding() == encoding,
                self.displayed() == old(self).displayed(),
                target == self.state().bytes_drawn(encoding, limits, bytes@.skip(i as int)),
            decreases bytes.len() - i,
        {
            let end: usize = if bytes.len() - i <= TERMINAL_DECODE_INPUT_BYTES {
                bytes.len()
            } else {
                i + TERMINAL_DECODE_INPUT_BYTES
            };
            let ghost rest = bytes@.skip(i as int);
            assert(rest.take(end - i) == bytes@.subrange(i as int, end as int));
            assert(rest.skip(end - i) == bytes@.skip(end as int));
            let piece = vstd::slice::slice_subrange(bytes, i, end);
            self.push_piece(piece, max_rows, max_text_bytes, max_line_bytes);
            i = end;
        }
    }

    fn push_piece(
        &mut self,
        piece: &[u8],
        max_rows: usize,
        max_text_bytes: usize,
        max_line_bytes: usize,
    )
        requires
            old(self).wf(),
            max_line_bytes > 0,
        ensures
            final(self).wf(),
            final(self).encoding() == old(self).encoding(),
            final(self).displayed() == old(self).displayed(),
            final(self).state() == old(self).state().piece_drawn(
                old(self).encoding(),
                ScreenLimits { max_rows, max_text_bytes, max_line_bytes },
                piece@,
            ),
    {
        reveal(TerminalState::piece_drawn);
        let text = self.decoder.push(piece);
        let actions = advance(&mut self.parser, text.as_str().as_bytes());
        self.screen.perform_all(&actions);
        let limited = self.screen.enforce_limits(max_rows, max_text_bytes, max_line_bytes);
        self.limited = self.limited || limited;
    }
}

} // verus!
