//! Formatted rows and what is shown of them.

use vstd::prelude::*;

use crate::timestamp::{timestamp_prefix, timestamp_prefix_text, Timestamp};

verus! {

/// One row of the display: when its first byte arrived, and its text.
#[derive(Debug, PartialEq, Eq)]
pub struct FormattedRow {
    pub received_at: Timestamp,
    pub text: String,
}

/// What a row holds.
#[verifier::ext_equal]
pub struct RowView {
    pub received_at: Timestamp,
    pub text: Seq<char>,
}

impl View for FormattedRow {
    type V = RowView;

    open spec fn view(&self) -> RowView {
        RowView { received_at: self.received_at, text: self.text@ }
    }
}

impl Clone for FormattedRow {
    fn clone(&self) -> (row: Self)
        ensures
            row@ == self@,
    {
        FormattedRow { received_at: self.received_at, text: self.text.clone() }
    }
}

/// What each row of a list holds.
pub open spec fn row_views(rows: Seq<FormattedRow>) -> Seq<RowView> {
    Seq::new(rows.len(), |i: int| rows[i]@)
}

/// A row together with the number of the chunk that its end came from.
#[verifier::ext_equal]
pub struct EndedRow {
    pub row: RowView,
    pub end_sequence: u64,
}

/// The rows without the numbers of their chunks.
pub open spec fn plain_rows(rows: Seq<EndedRow>) -> Seq<RowView> {
    Seq::new(rows.len(), |i: int| rows[i].row)
}

/// Rows that all end in the same chunk.
pub open spec fn ended_in(rows: Seq<RowView>, end_sequence: u64) -> Seq<EndedRow> {
    Seq::new(rows.len(), |i: int| EndedRow { row: rows[i], end_sequence })
}

/// The text of a row as it is shown, with or without the time.
pub open spec fn shown_text(row: RowView, timestamps: bool, format: Seq<char>) -> Seq<char> {
    if timestamps {
        timestamp_prefix_text(row.received_at, format) + row.text
    } else {
        row.text
    }
}

pub fn display_text(row: &FormattedRow, timestamps: bool, timestamp_format: &str) -> (text: String)
    ensures
        text@ == shown_text(row@, timestamps, timestamp_format@),
{
    if timestamps {
        let mut text = timestamp_prefix(row.received_at, timestamp_format);
        text.append(row.text.as_str());
        text
    } else {
        row.text.clone()
    }
}

} // verus!
