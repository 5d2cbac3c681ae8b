//! The text of a settings file.

use vstd::prelude::*;

use crate::chars::{chars_of, string_of};

verus! {

/// A text without the mark that some editors put at its start.
pub open spec fn without_mark(source: Seq<char>) -> Seq<char> {
    if source.len() > 0 && source[0] == '\u{feff}' {
        source.skip(1)
    } else {
        source
    }
}

pub fn without_byte_order_mark(source: &str) -> (text: String)
    ensures
        text@ == without_mark(source@),
{
    let mut chars = chars_of(source);
    if chars.len() > 0 && chars[0] == '\u{feff}' {
        let rest = chars.split_off(1);
        assert(rest@ =~= source@.skip(1));
        string_of(rest.as_slice())
    } else {
        string_of(chars.as_slice())
    }
}

/// The number of characters before the first line feed, or all of them.
pub open spec fn line_len(text: Seq<char>) -> int
    decreases text.len(),
{
    if text.len() == 0 || text[0] == '\n' {
        0
    } else {
        1 + line_len(text.skip(1))
    }
}

pub proof fn line_len_bounds(text: Seq<char>)
    ensures
        0 <= line_len(text) <= text.len(),
    decreases text.len(),
{
    if text.len() > 0 && text[0] != '\n' {
        line_len_bounds(text.skip(1));
    }
}

/// A line that a line feed has ended, without the carriage return before it.
pub open spec fn ended_line(line: Seq<char>) -> Seq<char> {
    if line.len() > 0 && line.last() == '\r' {
        line.drop_last()
    } else {
        line
    }
}

/// The lines of a text.
pub open spec fn lines_of(text: Seq<char>) -> Seq<Seq<char>>
    decreases text.len(),
{
    let len = line_len(text);
    if text.len() == 0 {
        Seq::empty()
    } else if len == text.len() {
        seq![text]
    } else {
        proof {
            line_len_bounds(text);
        }
        seq![ended_line(text.take(len))] + lines_of(text.skip(len + 1))
    }
}

/// What is said above a part of the settings.
pub open spec fn comment_for(line: Seq<char>) -> Seq<char> {
    if line == "[interface]"@ {
        "# theme: system、light 或 dark\n"@
    } else if line == "[fonts]"@ {
        "# family 留空表示自动选择；weight 范围 1-1000\n"@
    } else if line == "[receive]"@ {
        "# mode: text、hex 或 terminal；encoding: utf8 或 gbk\n# buffer_limit_mib: 5、20、100 或 500\n"@
    } else if line == "[send]"@ {
        "# mode: text 或 hex；line_ending: none、cr、lf 或 crlf\n"@
    } else if line == "[background]"@ {
        "# source: none、local 或 online；opacity 范围 0.0-1.0\n"@
    } else {
        Seq::empty()
    }
}

/// Lines with comments above the parts.
pub open spec fn annotated(lines: Seq<Seq<char>>) -> Seq<char>
    decreases lines.len(),
{
    if lines.len() == 0 {
        Seq::empty()
    } else {
        annotated(lines.drop_last()) + comment_for(lines.last()) + lines.last() + seq!['\n']
    }
}

fn section_comment(line: &str) -> (comment: &'static str)
    ensures
        comment@ == comment_for(line@),
{
    let line = line.to_owned();
    if line == "[interface]".to_owned() {
        "# theme: system、light 或 dark\n"
    } else if line == "[fonts]".to_owned() {
        "# family 留空表示自动选择；weight 范围 1-1000\n"
    } else if line == "[receive]".to_owned() {
        "# mode: text、hex 或 terminal；encoding: utf8 或 gbk\n# buffer_limit_mib: 5、20、100 或 500\n"
    } else if line == "[send]".to_owned() {
        "# mode: text 或 hex；line_ending: none、cr、lf 或 crlf\n"
    } else if line == "[background]".to_owned() {
        "# source: none、local 或 online；opacity 范围 0.0-1.0\n"
    } else {
        proof {
            reveal_strlit("");
        }
        assert(""@ =~= Seq::<char>::empty());
        ""
    }
}

proof fn line_len_at(text: Seq<char>, end: int)
    requires
        0 <= end <= text.len(),
        forall|i: int| 0 <= i < end ==> #[trigger] text[i] != '\n',
        end == text.len() || text[end] == '\n',
    ensures
        line_len(text) == end,
    decreases text.len(),
{
    if end > 0 {
        assert forall|i: int| 0 <= i < end - 1 implies #[trigger] text.skip(1)[i] != '\n' by {
            assert(text.skip(1)[i] == text[i + 1]);
        }
        line_len_at(text.skip(1), end - 1);
    }
}

/// The text of a settings file: what the settings are written as, with comments.
pub fn annotate_document(source: &str) -> (text: String)
    ensures
        text@ == "# ESCOM 用户配置\n# 修改后请重启应用；缺失字段会使用默认值。\n\n"@ + annotated(
            lines_of(source@),
        ),
{
    let mut text =
        "# ESCOM 用户配置\n# 修改后请重启应用；缺失字段会使用默认值。\n\n".to_owned();
    let ghost head = text@;
    let chars = chars_of(source);
    let ghost mut done: Seq<Seq<char>> = Seq::empty();
    let mut start: usize = 0;
    assert(source@.skip(0) == source@);
    assert(done + lines_of(source@) =~= lines_of(source@));
    while start < chars.len()
        invariant
            start <= chars.len(),
            chars@ == source@,
            head == "# ESCOM 用户配置\n# 修改后请重启应用；缺失字段会使用默认值。\n\n"@,
            lines_of(source@) == done + lines_of(source@.skip(start as int)),
            text@ == head + annotated(done),
        decreases chars.len() - start,
    {
        let ghost rest = source@.skip(start as int);
        let mut end: usize = start;
        while end < chars.len() && chars[end] != '\n'
            invariant
                start <= end <= chars.len(),
                forall|i: int| start <= i < end ==> #[trigger] chars@[i] != '\n',
            decreases chars.len() - end,
        {
            end += 1;
        }
        proof {
            line_len_at(rest, end - start);
        }
        let ended = end < chars.len();
        let stop: usize = if ended && end > start && chars[end - 1] == '\r' {
            end - 1
        } else {
            end
        };
        let line = string_of(vstd::slice::slice_subrange(chars.as_slice(), start, stop));
        proof {
            if ended {
                assert(rest.take(end - start) =~= chars@.subrange(start as int, end as int));
                assert(line@ =~= ended_line(rest.take(end - start)));
                assert(rest.skip(end - start + 1) =~= source@.skip(end + 1));
            } else {
                assert(line@ =~= rest);
                assert(lines_of(source@.skip(end as int)) =~= Seq::<Seq<char>>::empty());
                assert(rest.len() > 0);
                assert(lines_of(rest) =~= seq![line@]);
            }
        }
        text.append(section_comment(line.as_str()));
        text.append(line.as_str());
        text.append("\n");
        proof {
            reveal_strlit("\n");
            assert("\n"@ =~= seq!['\n']);
            let before = done;
            done = before.push(line@);
            assert(done.drop_last() == before);
            assert(text@ =~= head + annotated(done));
            let next = if ended {
                source@.skip(end + 1)
            } else {
                source@.skip(end as int)
            };
            assert(done + lines_of(next) =~= before + (seq![line@] + lines_of(next)));
        }
        start = if ended {
            end + 1
        } else {
            end
        };
    }
    assert(source@.skip(start as int) =~= Seq::<char>::empty());
    assert(done + Seq::<Seq<char>>::empty() =~= done);
    text
}

/// Lines in a row, with a line feed behind each of them.
pub open spec fn lines_together(lines: Seq<Seq<char>>) -> Seq<char> {
    lines.fold_left(Seq::empty(), |text: Seq<char>, line: Seq<char>| text + line.push('\n'))
}

proof fn one_more_line_first(first: Seq<char>, lines: Seq<Seq<char>>)
    ensures
        lines_together(seq![first] + lines) == first.push('\n') + lines_together(lines),
    decreases lines.len(),
{
    let all = seq![first] + lines;
    if lines.len() == 0 {
        assert(all == seq![first]);
        assert(all.drop_last() == Seq::<Seq<char>>::empty());
        reveal_with_fuel(Seq::fold_left, 2);
        assert(lines_together(all) == Seq::<char>::empty() + first.push('\n'));
        assert(lines_together(all) == first.push('\n') + lines_together(lines));
    } else {
        assert(all.drop_last() == seq![first] + lines.drop_last());
        one_more_line_first(first, lines.drop_last());
        let before = lines_together(lines.drop_last());
        let last = lines.last().push('\n');
        assert(lines_together(all) == first.push('\n') + before + last);
        assert(lines_together(lines) == before + last);
        assert(first.push('\n') + before + last == first.push('\n') + (before + last));
    }
}

/// The lines of a document put together are the document, with a line feed at its end if there
/// was none.
pub proof fn no_line_of_a_document_is_lost(text: Seq<char>)
    requires
        !text.contains('\r'),
    ensures
        lines_together(lines_of(text)) == if text.len() == 0 || text.last() == '\n' {
            text
        } else {
            text.push('\n')
        },
    decreases text.len(),
{
    line_len_bounds(text);
    line_len_ends(text);
    let len = line_len(text);
    if text.len() == 0 {
        assert(lines_together(lines_of(text)) == text);
    } else if len == text.len() {
        one_more_line_first(text, Seq::empty());
        assert(seq![text] + Seq::<Seq<char>>::empty() == seq![text]);
        assert(lines_together(Seq::empty()) == Seq::<char>::empty());
        assert(text.push('\n') + Seq::<char>::empty() == text.push('\n'));
    } else {
        let line = text.take(len);
        let rest = text.skip(len + 1);
        assert(!rest.contains('\r')) by {
            if rest.contains('\r') {
                let i = choose|i: int| 0 <= i < rest.len() && rest[i] == '\r';
                assert(text[i + len + 1] == '\r');
            }
        }
        assert(ended_line(line) == line) by {
            if line.len() > 0 && line.last() == '\r' {
                assert(text[len - 1] == '\r');
            }
        }
        no_line_of_a_document_is_lost(rest);
        one_more_line_first(line, lines_of(rest));
        assert(line.push('\n') + rest == text);
        if rest.len() > 0 {
            assert(rest.last() == text.last());
            assert(line.push('\n') + rest.push('\n') == text.push('\n'));
        } else {
            assert(text.last() == '\n');
        }
    }
}

proof fn line_len_ends(text: Seq<char>)
    ensures
        line_len(text) < text.len() ==> text[line_len(text)] == '\n',
        forall|i: int| 0 <= i < line_len(text) ==> #[trigger] text[i] != '\n',
    decreases text.len(),
{
    line_len_bounds(text);
    if text.len() > 0 && text[0] != '\n' {
        line_len_ends(text.skip(1));
        line_len_bounds(text.skip(1));
        if line_len(text) < text.len() {
            assert(text.skip(1)[line_len(text) - 1] == text[line_len(text)]);
        }
        assert forall|i: int| 0 <= i < line_len(text) implies #[trigger] text[i] != '\n' by {
            if i > 0 {
                assert(text.skip(1)[i - 1] == text[i]);
            }
        }
    }
}

/// A document is annotated by comments before the headings of its sections alone; all its lines
/// are there, in order.
pub proof fn only_headings_are_annotated(lines: Seq<Seq<char>>, line: Seq<char>)
    ensures
        annotated(lines) == lines.fold_left(
            Seq::empty(),
            |text: Seq<char>, line: Seq<char>| text + comment_for(line) + line + seq!['\n'],
        ),
        comment_for(line).len() > 0 ==> line == "[interface]"@ || line == "[fonts]"@ || line
            == "[receive]"@ || line == "[send]"@ || line == "[background]"@,
    decreases lines.len(),
{
    if lines.len() > 0 {
        only_headings_are_annotated(lines.drop_last(), line);
    }
}

/// A byte order mark at the start is left out, and nothing else.
pub proof fn only_the_mark_is_left_out(source: Seq<char>)
    ensures
        source.len() > 0 && source[0] == '\u{feff}' ==> without_mark(source) == source.skip(1),
        source.len() == 0 || source[0] != '\u{feff}' ==> without_mark(source) == source,
{
}

/// A carriage return before the line feed belongs to the end of the line, and no other does.
pub proof fn line_ends_may_have_a_carriage_return(line: Seq<char>, c: char)
    ensures
        ended_line(line.push('\r')) == line,
        c != '\r' ==> ended_line(line.push(c)) == line.push(c),
        ended_line(Seq::empty()).len() == 0,
{
    assert(line.push('\r').drop_last() == line);
}

} // verus!
