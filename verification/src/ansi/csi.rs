//! Control sequences: `ESC [`, then parameter bytes, then intermediate bytes,
//! then one final byte that names the function.

use vstd::prelude::*;
use crate::ansi::ansi_codes::{
    CLEAR_EOS, CLEAR_LINE, CURSOR_BACKWARD, CURSOR_DOWN, CURSOR_FORWARD,
    CURSOR_HORIZONTAL_POSITION, CURSOR_POSITION, CURSOR_UP, DELETE_CHARACTER, HIDE_CURSOR, HVP,
    SGR, SHOW_CURSOR,
};
use crate::ansi::params::{params_of, parse_params};
use crate::ansi::sgr::{clear_mode_of, push_sgr, sgr_outputs};
use crate::ansi::{lemma_view_all_push, view_all, AnsiOutput, ClearMode, Output};

verus! {

/// Whether `b` ends a control sequence.
#[verifier::allow_in_spec]
pub fn is_csi_terminator(b: u8) -> bool
    returns
        (0x40 <= b && b <= 0x7e),
{
    0x40 <= b && b <= 0x7e
}

/// Whether `b` is a parameter byte.
#[verifier::allow_in_spec]
pub fn is_csi_param(b: u8) -> bool
    returns
        (0x30 <= b && b <= 0x3f),
{
    0x30 <= b && b <= 0x3f
}

/// Whether `b` is an intermediate byte.
#[verifier::allow_in_spec]
pub fn is_csi_intermediate(b: u8) -> bool
    returns
        (0x20 <= b && b <= 0x2f),
{
    0x20 <= b && b <= 0x2f
}

/// Which part of a control sequence the parser is in.
#[derive(Debug, Clone, Copy, PartialEq, Eq, Structural)]
pub enum CSIParserState {
    Parameters,
    Intermediates,
}

/// Why a control sequence was given up.
#[derive(Debug, Clone, Copy, PartialEq, Eq, Structural)]
pub enum CSIParserError {
    /// A parameter byte came after an intermediate byte.
    InvalidCSI,
}

/// A finished control sequence.
#[derive(Debug, Clone, PartialEq, Eq)]
pub struct CSIParseResult {
    pub params: Vec<u8>,
    pub intermediates: Vec<u8>,
    pub func: u8,
}

/// The parser of one control sequence.
#[derive(Debug)]
pub struct CSIParser {
    result: CSIParseResult,
    state: CSIParserState,
}

/// The mathematical value of a [`CSIParser`]: what it has taken in so far.
pub struct CsiView {
    pub params: Seq<u8>,
    pub intermediates: Seq<u8>,
    pub func: u8,
    pub state: CSIParserState,
}

impl CsiView {
    /// A parser that has seen nothing yet.
    pub open spec fn start() -> CsiView {
        CsiView {
            params: Seq::<u8>::empty(),
            intermediates: Seq::<u8>::empty(),
            func: 0,
            state: CSIParserState::Parameters,
        }
    }

    /// Whether `b` breaks the syntax here: a parameter byte once an
    /// intermediate byte was seen.
    pub open spec fn rejects(self, b: u8) -> bool {
        is_csi_param(b) && self.state != CSIParserState::Parameters
    }

    /// The parser after it was handed `b`. A parameter byte is kept where it
    /// is allowed; an intermediate byte is kept and ends the parameters; the
    /// final byte is noted; any other byte changes nothing.
    pub open spec fn feed(self, b: u8) -> CsiView {
        if is_csi_param(b) {
            if self.state == CSIParserState::Parameters {
                CsiView { params: self.params.push(b), ..self }
            } else {
                self
            }
        } else if is_csi_intermediate(b) {
            CsiView {
                intermediates: self.intermediates.push(b),
                state: CSIParserState::Intermediates,
                ..self
            }
        } else if is_csi_terminator(b) {
            CsiView { func: b, ..self }
        } else {
            self
        }
    }
}

impl View for CSIParser {
    type V = CsiView;

    closed spec fn view(&self) -> CsiView {
        CsiView {
            params: self.result.params@,
            intermediates: self.result.intermediates@,
            func: self.result.func,
            state: self.state,
        }
    }
}

impl CSIParser {
    /// A parser that has seen nothing yet.
    pub fn new() -> (parser: CSIParser)
        ensures
            parser@ == CsiView::start(),
    {
        CSIParser {
            state: CSIParserState::Parameters,
            result: CSIParseResult { params: Vec::new(), intermediates: Vec::new(), func: 0 },
        }
    }

    /// Hands the parser the next byte of the sequence. The answer is
    /// `Some(Err(..))` exactly when the byte breaks the syntax,
    /// `Some(Ok(..))` with the finished sequence exactly when the byte is the
    /// final byte, and `None` while the sequence goes on.
    pub fn push(&mut self, b: u8) -> (r: Option<Result<CSIParseResult, CSIParserError>>)
        ensures
            final(self)@ == old(self)@.feed(b),
            old(self)@.rejects(b) <==> r matches Some(Err(_)),
            !old(self)@.rejects(b) && is_csi_terminator(b) <==> r matches Some(Ok(_)),
            r matches Some(Ok(d)) ==> d.params@ == old(self)@.params && d.intermediates@ == old(
                self,
            )@.intermediates && d.func == b,
    {
        if is_csi_param(b) {
            if self.state != CSIParserState::Parameters {
                return Some(Err(CSIParserError::InvalidCSI));
            }
            self.result.params.push(b);
        } else if is_csi_intermediate(b) {
            self.state = CSIParserState::Intermediates;
            self.result.intermediates.push(b);
        } else if is_csi_terminator(b) {
            self.result.func = b;
            let done = CSIParseResult {
                params: self.result.params.clone(),
                intermediates: self.result.intermediates.clone(),
                func: b,
            };
            return Some(Ok(done));
        }
        None
    }
}

/// Parameter `index` of the list, or `default` where the list is too short.
pub open spec fn param_or(params: Seq<usize>, index: int, default: usize) -> usize {
    if 0 <= index < params.len() {
        params[index]
    } else {
        default
    }
}

/// A position counted from 1 as one counted from 0; 0 stays 0.
pub open spec fn from_one_based(value: usize) -> usize {
    if value == 0 {
        0
    } else {
        (value - 1) as usize
    }
}

/// What a finished control sequence asks of the terminal, by its final byte.
/// A final byte that is not listed asks for nothing.
pub open spec fn csi_outputs(param_bytes: Seq<u8>, func: u8) -> Seq<Output> {
    let params = params_of(param_bytes);
    if func == SGR {
        sgr_outputs(params)
    } else if func == CLEAR_LINE {
        seq![Output::ClearToEndOfLine(clear_mode_of(param_or(params, 0, 0)))]
    } else if func == CLEAR_EOS {
        seq![Output::ClearToEOS]
    } else if func == CURSOR_POSITION || func == HVP {
        seq![
            Output::MoveCursor(
                from_one_based(param_or(params, 1, 1)),
                from_one_based(param_or(params, 0, 1)),
            ),
        ]
    } else if func == CURSOR_HORIZONTAL_POSITION {
        seq![Output::MoveCursorHorizontal(param_or(params, 0, 1))]
    } else if func == CURSOR_UP {
        seq![Output::CursorUp(param_or(params, 0, 1))]
    } else if func == CURSOR_DOWN {
        seq![Output::CursorDown(param_or(params, 0, 1))]
    } else if func == CURSOR_FORWARD {
        seq![Output::CursorForward(param_or(params, 0, 1))]
    } else if func == CURSOR_BACKWARD {
        seq![Output::CursorBackward(param_or(params, 0, 1))]
    } else if func == HIDE_CURSOR {
        seq![Output::HideCursor]
    } else if func == SHOW_CURSOR {
        seq![Output::ShowCursor]
    } else if func == DELETE_CHARACTER {
        seq![Output::DeleteCharacters(param_or(params, 0, 1))]
    } else {
        Seq::<Output>::empty()
    }
}

fn param_at(params: &Vec<usize>, index: usize, default: usize) -> (value: usize)
    ensures
        value == param_or(params@, index as int, default),
{
    if index < params.len() {
        params[index]
    } else {
        default
    }
}

fn push_output(output: AnsiOutput, res: &mut Vec<AnsiOutput>)
    ensures
        view_all(final(res)@) == view_all(old(res)@) + seq![output@],
{
    proof {
        lemma_view_all_push(res@, output);
        assert(view_all(res@).push(output@) =~= view_all(res@) + seq![output@]);
    }
    res.push(output);
}

/// Appends to `res` what the finished control sequence `d` asks for.
pub fn dispatch_csi(d: &CSIParseResult, res: &mut Vec<AnsiOutput>)
    ensures
        view_all(final(res)@) == view_all(old(res)@) + csi_outputs(d.params@, d.func),
{
    let func: u8 = d.func;
    let params: Vec<usize> = parse_params(d.params.as_slice());
    if func == SGR {
        push_sgr(&params, res);
    } else if func == CLEAR_LINE {
        let mode: ClearMode = ClearMode::from(param_at(&params, 0, 0));
        push_output(AnsiOutput::ClearToEndOfLine(mode), res);
    } else if func == CLEAR_EOS {
        push_output(AnsiOutput::ClearToEOS, res);
    } else if func == CURSOR_POSITION || func == HVP {
        let x: usize = param_at(&params, 1, 1);
        let y: usize = param_at(&params, 0, 1);
        push_output(AnsiOutput::MoveCursor(x.saturating_sub(1), y.saturating_sub(1)), res);
    } else if func == CURSOR_HORIZONTAL_POSITION {
        push_output(AnsiOutput::MoveCursorHorizontal(param_at(&params, 0, 1)), res);
    } else if func == CURSOR_UP {
        push_output(AnsiOutput::CursorUp(param_at(&params, 0, 1)), res);
    } else if func == CURSOR_DOWN {
        push_output(AnsiOutput::CursorDown(param_at(&params, 0, 1)), res);
    } else if func == CURSOR_FORWARD {
        push_output(AnsiOutput::CursorForward(param_at(&params, 0, 1)), res);
    } else if func == CURSOR_BACKWARD {
        push_output(AnsiOutput::CursorBackward(param_at(&params, 0, 1)), res);
    } else if func == HIDE_CURSOR {
        push_output(AnsiOutput::HideCursor, res);
    } else if func == SHOW_CURSOR {
        push_output(AnsiOutput::ShowCursor, res);
    } else if func == DELETE_CHARACTER {
        push_output(AnsiOutput::DeleteCharacters(param_at(&params, 0, 1)), res);
    } else {
        assert(view_all(res@) =~= view_all(old(res)@) + csi_outputs(d.params@, d.func));
    }
}

} // verus!
