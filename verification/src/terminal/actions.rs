//! Control sequences: how the parser reports them and what they do to the screen.

use vstd::prelude::*;

use crate::terminal::machine::TerminalScreen;
use crate::terminal::screen::ScreenView;

verus! {

/// What the parser of control sequences reports.
pub enum TerminalAction {
    /// A character to show.
    Print(char),
    /// A control character.
    Execute(u8),
    /// A control sequence with numeric parameters, each of which may have sub-parameters.
    Csi { params: Vec<Vec<u16>>, ignore: bool, action: char },
    /// An escape sequence.
    Esc { intermediates: Vec<u8>, ignore: bool, byte: u8 },
}

/// What an action holds.
pub enum ActionView {
    Print(char),
    Execute(u8),
    Csi { params: Seq<Seq<u16>>, ignore: bool, action: char },
    Esc { intermediates: Seq<u8>, ignore: bool, byte: u8 },
}

pub open spec fn params_view(params: Seq<Vec<u16>>) -> Seq<Seq<u16>> {
    Seq::new(params.len(), |i: int| params[i]@)
}

impl View for TerminalAction {
    type V = ActionView;

    open spec fn view(&self) -> ActionView {
        match self {
            TerminalAction::Print(c) => ActionView::Print(*c),
            TerminalAction::Execute(byte) => ActionView::Execute(*byte),
            TerminalAction::Csi { params, ignore, action } => ActionView::Csi {
                params: params_view(params@),
                ignore: *ignore,
                action: *action,
            },
            TerminalAction::Esc { intermediates, ignore, byte } => ActionView::Esc {
                intermediates: intermediates@,
                ignore: *ignore,
                byte: *byte,
            },
        }
    }
}

pub open spec fn action_views(actions: Seq<TerminalAction>) -> Seq<ActionView> {
    Seq::new(actions.len(), |i: int| actions[i]@)
}

/// The parser of control sequences of `vte`.
#[verifier::external_type_specification]
#[verifier::external_body]
pub struct ExParser<const OSC_RAW_BUF_SIZE: usize>(vte::Parser<OSC_RAW_BUF_SIZE>);

/// The parameters of a control sequence as `vte` hands them over.
#[verifier::external_type_specification]
#[verifier::external_body]
pub struct ExParams(vte::Params);

/// The pieces that a parser has been fed since it was made, in order.
pub uninterp spec fn parser_input(parser: vte::Parser) -> Seq<Seq<u8>>;

/// What a parser that was fed the pieces in `before` reports for the piece `bytes`.
pub uninterp spec fn reported_actions(before: Seq<Seq<u8>>, bytes: Seq<u8>) -> Seq<ActionView>;

/// A piece of ASCII text without an escape character.
pub open spec fn is_plain(bytes: Seq<u8>) -> bool {
    forall|i: int| 0 <= i < bytes.len() ==> #[trigger] bytes[i] < 0x80 && bytes[i] != 0x1b
}

/// What the parser reports for a byte of plain text.
pub open spec fn plain_action(byte: u8) -> ActionView {
    if byte < 0x20 {
        ActionView::Execute(byte)
    } else {
        ActionView::Print(byte as char)
    }
}

/// All pieces are plain text.
pub open spec fn all_plain(pieces: Seq<Seq<u8>>) -> bool {
    forall|i: int| 0 <= i < pieces.len() ==> is_plain(#[trigger] pieces[i])
}

/// What each byte of a piece of plain text amounts to.
pub open spec fn plain_actions(bytes: Seq<u8>) -> Seq<ActionView> {
    Seq::new(bytes.len(), |i: int| plain_action(bytes[i]))
}

/// What the piece `bytes` of a stream amounts to after the pieces in `before`. As long as there
/// was nothing but plain text, each byte stands for itself.
pub open spec fn parsed_actions(before: Seq<Seq<u8>>, bytes: Seq<u8>) -> Seq<ActionView> {
    if all_plain(before.push(bytes)) {
        plain_actions(bytes)
    } else {
        reported_actions(before, bytes)
    }
}

/// The parameters that a list of them holds, each with its sub-parameters.
pub uninterp spec fn params_content(params: vte::Params) -> Seq<Seq<u16>>;

/// `vte::Params::iter` yields the sub-parameters of each parameter in order.
#[verifier::external_body]
fn params_to_vec(params: &vte::Params) -> (all: Vec<Vec<u16>>)
    ensures
        params_view(all@) == params_content(*params),
{
    params.iter().map(|parameter| parameter.to_vec()).collect()
}

/// Keeps what the parser reports.
pub struct ActionRecorder {
    actions: Vec<TerminalAction>,
}

impl ActionRecorder {
    pub closed spec fn recorded(self) -> Seq<ActionView> {
        action_views(self.actions@)
    }
}

impl vte::Perform for ActionRecorder {
    fn print(&mut self, c: char)
        ensures
            final(self).recorded() == old(self).recorded().push(ActionView::Print(c)),
    {
        self.actions.push(TerminalAction::Print(c));
    }

    fn execute(&mut self, byte: u8)
        ensures
            final(self).recorded() == old(self).recorded().push(ActionView::Execute(byte)),
    {
        self.actions.push(TerminalAction::Execute(byte));
    }

    fn csi_dispatch(
        &mut self,
        params: &vte::Params,
        _intermediates: &[u8],
        ignore: bool,
        action: char,
    )
        ensures
            final(self).recorded() == old(self).recorded().push(
                ActionView::Csi { params: params_content(*params), ignore, action },
            ),
    {
        self.actions.push(TerminalAction::Csi { params: params_to_vec(params), ignore, action });
    }

    fn esc_dispatch(&mut self, intermediates: &[u8], ignore: bool, byte: u8)
        ensures
            final(self).recorded() == old(self).recorded().push(
                ActionView::Esc { intermediates: intermediates@, ignore, byte },
            ),
    {
        self.actions.push(
            TerminalAction::Esc {
                intermediates: vstd::slice::slice_to_vec(intermediates),
                ignore,
                byte,
            },
        );
    }
}

/// `vte::Parser::new` makes a parser that has seen nothing.
#[verifier::external_body]
pub(crate) fn new_parser() -> (parser: vte::Parser)
    ensures
        parser_input(parser) == Seq::<Seq<u8>>::empty(),
{
    vte::Parser::new()
}

/// `vte::Parser::advance` reports, in order, what a piece of the stream amounts to; that depends
/// on this piece and the ones before it alone. A parser that was never fed anything but plain
/// text reports each byte of it.
#[verifier::external_body]
pub(crate) fn advance(parser: &mut vte::Parser, bytes: &[u8]) -> (actions: Vec<TerminalAction>)
    ensures
        parser_input(*final(parser)) == parser_input(*old(parser)).push(bytes@),
        all_plain(parser_input(*old(parser)).push(bytes@)) ==> action_views(actions@)
            == plain_actions(bytes@),
        !all_plain(parser_input(*old(parser)).push(bytes@)) ==> action_views(actions@)
            == reported_actions(parser_input(*old(parser)), bytes@),
{
    let mut recorder = ActionRecorder { actions: Vec::new() };
    parser.advance(&mut recorder, bytes);
    recorder.actions
}

/// The first number of the parameter at `index`; zero and a missing parameter stand for
/// `default`.
pub open spec fn parameter_value(params: Seq<Seq<u16>>, index: int, default: int) -> int {
    if index < params.len() && params[index].len() > 0 && params[index][0] != 0 {
        params[index][0] as int
    } else {
        default
    }
}

/// The first number of the first parameter; a missing parameter stands for zero.
pub open spec fn mode_value(params: Seq<Seq<u16>>) -> int {
    parameter_value(params, 0, 0)
}

fn parameter(params: &Vec<Vec<u16>>, index: usize, default: usize) -> (value: usize)
    requires
        default <= 0xffff,
    ensures
        value == parameter_value(params_view(params@), index as int, default as int),
        value <= 0xffff,
{
    if index < params.len() && params[index].len() > 0 && params[index][0] != 0 {
        params[index][0] as usize
    } else {
        default
    }
}

/// A control character on the screen.
pub open spec fn executed(s: ScreenView, byte: u8) -> ScreenView {
    if byte == 0x08 {
        s.backed()
    } else if byte == 0x09 {
        s.tabbed()
    } else if 0x0a <= byte <= 0x0c {
        s.fed()
    } else if byte == 0x0d {
        s.returned()
    } else {
        s
    }
}

/// A control sequence on the screen. Colours, modes, status reports, scroll regions and cursor
/// styles do not alter text.
pub open spec fn csi_dispatched(s: ScreenView, params: Seq<Seq<u16>>, action: char) -> ScreenView {
    let n = parameter_value(params, 0, 1);
    match action {
        'A' => s.up(n),
        'B' | 'e' => s.down(n),
        'C' | 'a' => s.forward(n),
        'D' => s.back(n),
        'E' => s.down(n).returned(),
        'F' => s.up(n).returned(),
        'G' | '`' => s.moved_to(s.cursor_row, n - 1),
        'H' | 'f' => s.placed(n - 1, parameter_value(params, 1, 1) - 1),
        'd' => s.placed(n - 1, s.cursor_col),
        'J' => s.display_erased(mode_value(params)),
        'K' => s.line_erased(mode_value(params)),
        '@' => s.chars_inserted(n),
        'P' => s.chars_deleted(n),
        'X' => s.chars_erased(n),
        'L' => s.lines_inserted(n),
        'M' => s.lines_deleted(n),
        'S' => s.scrolled_up(n),
        'T' => s.scrolled_down(n),
        's' => s.saved(),
        'u' => s.restored(),
        _ => s,
    }
}

/// An escape sequence on the screen.
pub open spec fn esc_dispatched(s: ScreenView, byte: u8) -> ScreenView {
    if byte == 0x37 {
        s.saved()
    } else if byte == 0x38 {
        s.restored()
    } else if byte == 0x44 {
        s.fed()
    } else if byte == 0x45 {
        s.returned().fed()
    } else if byte == 0x4d {
        s.index_reversed()
    } else if byte == 0x63 {
        s.cleared()
    } else {
        s
    }
}

/// The screen after an action.
pub open spec fn performed(s: ScreenView, action: ActionView) -> ScreenView {
    match action {
        ActionView::Print(c) => s.printed(c),
        ActionView::Execute(byte) => executed(s, byte),
        ActionView::Csi { params, ignore, action } => if ignore {
            s
        } else {
            csi_dispatched(s, params, action)
        },
        ActionView::Esc { intermediates, ignore, byte } => if ignore || intermediates.len() > 0 {
            s
        } else {
            esc_dispatched(s, byte)
        },
    }
}

/// The screen after a row of actions.
pub open spec fn all_performed(s: ScreenView, actions: Seq<ActionView>) -> ScreenView
    decreases actions.len(),
{
    if actions.len() == 0 {
        s
    } else {
        performed(all_performed(s, actions.drop_last()), actions.last())
    }
}

impl TerminalScreen {
    fn execute(&mut self, byte: u8)
        requires
            old(self).wf(),
        ensures
            final(self).wf(),
            final(self).inner() == executed(old(self).inner(), byte),
    {
        if byte == 0x08 {
            self.backspace();
        } else if byte == 0x09 {
            self.horizontal_tab();
        } else if 0x0a <= byte && byte <= 0x0c {
            self.line_feed();
        } else if byte == 0x0d {
            self.carriage_return();
        }
    }

    fn csi_dispatch(&mut self, params: &Vec<Vec<u16>>, action: char)
        requires
            old(self).wf(),
        ensures
            final(self).wf(),
            final(self).inner() == csi_dispatched(old(self).inner(), params_view(params@), action),
    {
        let n: usize = parameter(params, 0, 1);
        assert(n >= 1);
        match action {
            'A' => self.move_up(n),
            'B' | 'e' => self.move_down(n),
            'C' | 'a' => self.move_forward(n),
            'D' => self.move_back(n),
            'E' => {
                self.move_down(n);
                self.carriage_return();
            },
            'F' => {
                self.move_up(n);
                self.carriage_return();
            },
            'G' | '`' => self.set_column(n - 1),
            'H' | 'f' => {
                let col: usize = parameter(params, 1, 1);
                self.set_position(n - 1, col - 1);
            },
            'd' => self.set_row(n - 1),
            'J' => self.erase_display(parameter(params, 0, 0)),
            'K' => self.erase_line(parameter(params, 0, 0)),
            '@' => self.insert_blank_characters(n),
            'P' => self.delete_characters(n),
            'X' => self.erase_characters(n),
            'L' => self.insert_lines(n),
            'M' => self.delete_lines(n),
            'S' => self.scroll_up(n),
            'T' => self.scroll_down(n),
            's' => self.save_cursor(),
            'u' => self.restore_cursor(),
            _ => {},
        }
    }

    fn esc_dispatch(&mut self, byte: u8)
        requires
            old(self).wf(),
        ensures
            final(self).wf(),
            final(self).inner() == esc_dispatched(old(self).inner(), byte),
    {
        if byte == 0x37 {
            self.save_cursor();
        } else if byte == 0x38 {
            self.restore_cursor();
        } else if byte == 0x44 {
            self.line_feed();
        } else if byte == 0x45 {
            self.next_line();
        } else if byte == 0x4d {
            self.reverse_index();
        } else if byte == 0x63 {
            self.clear();
        }
    }

    pub fn perform(&mut self, action: &TerminalAction)
        requires
            old(self).wf(),
        ensures
            final(self).wf(),
            final(self).inner() == performed(old(self).inner(), action@),
    {
        match action {
            TerminalAction::Print(c) => self.print(*c),
            TerminalAction::Execute(byte) => self.execute(*byte),
            TerminalAction::Csi { params, ignore, action } => {
                if !*ignore {
                    self.csi_dispatch(params, *action);
                }
            },
            TerminalAction::Esc { intermediates, ignore, byte } => {
                if !*ignore && intermediates.is_empty() {
                    self.esc_dispatch(*byte);
                }
            },
        }
    }

    pub fn perform_all(&mut self, actions: &Vec<TerminalAction>)
        requires
            old(self).wf(),
        ensures
            final(self).wf(),
            final(self).inner() == all_performed(old(self).inner(), action_views(actions@)),
    {
        let ghost views = action_views(actions@);
        let mut i: usize = 0;
        while i < actions.len()
            invariant
                i <= actions.len(),
                views == action_views(actions@),
                self.wf(),
                self.inner() == all_performed(old(self).inner(), views.take(i as int)),
            decreases actions.len() - i,
        {
            assert(views.take(i + 1).drop_last() == views.take(i as int));
            self.perform(&actions[i]);
            i += 1;
        }
        assert(views.take(i as int) == views);
    }
}

} // verus!
