//! Text that is put together character by character and handed out in pieces.

use std::collections::VecDeque;

use vstd::prelude::*;

use crate::chars::{char_bytes, char_len, text_bytes};

verus! {

/// The largest number of bytes in a piece.
pub const MAX_PIECE_BYTES: usize = 65_536;

/// Pieces one after the other.
spec fn joined(pieces: Seq<String>) -> Seq<char>
    decreases pieces.len(),
{
    if pieces.len() == 0 {
        Seq::empty()
    } else {
        pieces[0]@ + joined(pieces.skip(1))
    }
}

proof fn joined_push(pieces: Seq<String>, piece: String)
    ensures
        joined(pieces.push(piece)) == joined(pieces) + piece@,
    decreases pieces.len(),
{
    let all = pieces.push(piece);
    if pieces.len() == 0 {
        assert(all.skip(1) == Seq::<String>::empty());
        assert(joined(all.skip(1)) == Seq::<char>::empty());
        assert(joined(all) == joined(pieces) + piece@);
    } else {
        assert(all.skip(1) == pieces.skip(1).push(piece));
        joined_push(pieces.skip(1), piece);
        assert(joined(all) == joined(pieces) + piece@);
    }
}

/// Text that was not handed out yet.
pub(crate) struct PieceQueue {
    full: VecDeque<String>,
    last: String,
    last_bytes: usize,
}

impl View for PieceQueue {
    type V = Seq<char>;

    closed spec fn view(&self) -> Seq<char> {
        joined(self.full@) + self.last@
    }
}

impl PieceQueue {
    pub(crate) closed spec fn wf(self) -> bool {
        &&& self.last_bytes == text_bytes(self.last@)
        &&& self.last_bytes <= MAX_PIECE_BYTES
        &&& forall|i: int|
            0 <= i < self.full@.len() ==> text_bytes((#[trigger] self.full@[i])@) <= MAX_PIECE_BYTES
    }

    /// The number of pieces to hand out.
    pub(crate) closed spec fn count(self) -> nat {
        self.full@.len() + if self.last@.len() > 0 {
            1nat
        } else {
            0
        }
    }

    /// There is a piece to which no more can be added.
    pub(crate) closed spec fn has_full(self) -> bool {
        self.full@.len() > 0
    }

    pub(crate) fn new() -> (queue: Self)
        ensures
            queue.wf(),
            queue@ == Seq::<char>::empty(),
            queue.count() == 0,
    {
        PieceQueue { full: VecDeque::new(), last: String::new(), last_bytes: 0 }
    }

    pub(crate) fn push(&mut self, c: char)
        requires
            old(self).wf(),
        ensures
            final(self).wf(),
            final(self)@ == old(self)@.push(c),
    {
        let len: usize = char_len(c);
        let ghost before = self@;
        if self.last_bytes + len > MAX_PIECE_BYTES {
            let mut piece = String::new();
            std::mem::swap(&mut piece, &mut self.last);
            let ghost full = self.full@;
            proof {
                joined_push(full, piece);
            }
            self.full.push_back(piece);
            self.last_bytes = 0;
            assert(forall|i: int|
                0 <= i < full.len() ==> (#[trigger] self.full@[i]) == full[i]);
            assert(text_bytes(self.last@) == 0);
            assert(self@ == before);
        }
        let ghost start = self.last@;
        self.last.push(c);
        self.last_bytes = self.last_bytes + len;
        assert(self.last@.drop_last() == start);
        assert(text_bytes(self.last@) == text_bytes(start) + char_bytes(c));
        assert(self@ == before.push(c));
    }

    pub(crate) fn append(&mut self, text: &str)
        requires
            old(self).wf(),
        ensures
            final(self).wf(),
            final(self)@ == old(self)@ + text@,
    {
        for c in it: text.chars()
            invariant
                it.seq() == text@,
                self.wf(),
                self@ == old(self)@ + text@.take(it.index()),
        {
            assert((old(self)@ + text@.take(it.index())).push(c) == old(self)@ + text@.take(
                it.index() + 1,
            ));
            self.push(c);
        }
        assert(text@.take(text@.len() as int) == text@);
    }

    pub(crate) fn is_full(&self) -> (full: bool)
        ensures
            full == self.has_full(),
            full ==> self.count() > 0,
    {
        self.full.len() > 0
    }

    pub(crate) fn is_empty(&self) -> (empty: bool)
        ensures
            empty == (self.count() == 0),
            empty ==> self@ == Seq::<char>::empty(),
    {
        self.full.len() == 0 && self.last.as_str().is_empty()
    }

    /// Hands out the first piece; an empty one if there is none.
    pub(crate) fn take(&mut self) -> (piece: String)
        requires
            old(self).wf(),
        ensures
            final(self).wf(),
            old(self)@ == piece@ + final(self)@,
            text_bytes(piece@) <= MAX_PIECE_BYTES,
            old(self).count() > 0 ==> final(self).count() == old(self).count() - 1,
    {
        let ghost before = self.full@;
        match self.full.pop_front() {
            Some(piece) => {
                proof {
                    assert(piece == before[0]);
                    assert(self.full@ == before.skip(1));
                    assert(piece@ + joined(self.full@) + self.last@ == piece@ + (joined(self.full@)
                        + self.last@));
                }
                piece
            },
            None => {
                let mut piece = String::new();
                std::mem::swap(&mut piece, &mut self.last);
                self.last_bytes = 0;
                assert(joined(self.full@) == Seq::<char>::empty());
                assert(old(self)@ == piece@ + self@);
                piece
            },
        }
    }
}

} // verus!
