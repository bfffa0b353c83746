//! Byte formatting for console control.
//!
//! A console is reached through the ordinary `write` operation; moving
//! the cursor, clearing the screen and selecting colours are nothing but
//! writes of well-formed escape sequences.  The formatting here — byte
//! sequences, decimal renderings, parameter lists — is specified to the
//! byte, so the specification of each function names the exact bytes
//! that reach the host.

use vstd::prelude::*;
use vstd::string::StringSliceAdditionalSpecFns;

use crate::api::Api;
use crate::api::HostCall;
use crate::error::Error;
use crate::ffi::FfiResult;
use crate::file::File;

verus! {

/// A position on the screen, 0-indexed: (0, 0) is the top-left corner.
/// Translation to the 1-based convention of the escape sequences happens
/// when a sequence is formatted.
#[derive(Debug, Copy, Clone, PartialEq, Eq, Structural)]
pub struct Position {
    /// The row, counted from 0 at the top.
    pub row: u8,
    /// The column, counted from 0 at the left.
    pub col: u8,
}

impl Position {
    /// The top-left corner of the screen.
    pub fn origin() -> (p: Position)
        ensures
            p.row == 0,
            p.col == 0,
    {
        Position { row: 0, col: 0 }
    }
}

/// A Select Graphic Rendition parameter, one of the values a console
/// understands in a rendition-selection sequence.
#[derive(Debug, Copy, Clone, PartialEq, Eq, Structural)]
pub enum SgrParam {
    /// Return to the default rendition.
    Reset,
    /// Bold text.
    Bold,
    /// Swapped foreground and background.
    Reverse,
    /// Bold off.
    NotBold,
    /// Swapped colours off.
    NotReverse,
    /// Black foreground.
    FgBlack,
    /// Red foreground.
    FgRed,
    /// Green foreground.
    FgGreen,
    /// Yellow foreground.
    FgYellow,
    /// Blue foreground.
    FgBlue,
    /// Magenta foreground.
    FgMagenta,
    /// Cyan foreground.
    FgCyan,
    /// White foreground.
    FgWhite,
    /// Black background.
    BgBlack,
    /// Red background.
    BgRed,
    /// Green background.
    BgGreen,
    /// Yellow background.
    BgYellow,
    /// Blue background.
    BgBlue,
    /// Magenta background.
    BgMagenta,
    /// Cyan background.
    BgCyan,
    /// White background.
    BgWhite,
}

impl SgrParam {
    /// The numeric code this parameter is written as.
    pub open spec fn spec_code(self) -> u8 {
        match self {
            SgrParam::Reset => 0,
            SgrParam::Bold => 1,
            SgrParam::Reverse => 7,
            SgrParam::NotBold => 22,
            SgrParam::NotReverse => 27,
            SgrParam::FgBlack => 30,
            SgrParam::FgRed => 31,
            SgrParam::FgGreen => 32,
            SgrParam::FgYellow => 33,
            SgrParam::FgBlue => 34,
            SgrParam::FgMagenta => 35,
            SgrParam::FgCyan => 36,
            SgrParam::FgWhite => 37,
            SgrParam::BgBlack => 40,
            SgrParam::BgRed => 41,
            SgrParam::BgGreen => 42,
            SgrParam::BgYellow => 43,
            SgrParam::BgBlue => 44,
            SgrParam::BgMagenta => 45,
            SgrParam::BgCyan => 46,
            SgrParam::BgWhite => 47,
        }
    }

    /// The numeric code this parameter is written as.
    pub fn code(&self) -> (r: u8)
        ensures
            r == self.spec_code(),
    {
        match self {
            SgrParam::Reset => 0,
            SgrParam::Bold => 1,
            SgrParam::Reverse => 7,
            SgrParam::NotBold => 22,
            SgrParam::NotReverse => 27,
            SgrParam::FgBlack => 30,
            SgrParam::FgRed => 31,
            SgrParam::FgGreen => 32,
            SgrParam::FgYellow => 33,
            SgrParam::FgBlue => 34,
            SgrParam::FgMagenta => 35,
            SgrParam::FgCyan => 36,
            SgrParam::FgWhite => 37,
            SgrParam::BgBlack => 40,
            SgrParam::BgRed => 41,
            SgrParam::BgGreen => 42,
            SgrParam::BgYellow => 43,
            SgrParam::BgBlue => 44,
            SgrParam::BgMagenta => 45,
            SgrParam::BgCyan => 46,
            SgrParam::BgWhite => 47,
        }
    }
}

/// The shortest decimal rendering of `n`, as ASCII digit bytes.
pub open spec fn decimal_seq(n: nat) -> Seq<u8>
    decreases n,
{
    if n < 10 {
        seq![(48 + n) as u8]
    } else {
        decimal_seq(n / 10) + seq![(48 + n % 10) as u8]
    }
}

/// Append the decimal rendering of `n` to `v`.
pub fn push_decimal(v: &mut Vec<u8>, n: u16)
    ensures
        final(v)@ == old(v)@ + decimal_seq(n as nat),
    decreases n,
{
    if n < 10 {
        v.push(48 + n as u8);
        proof {
            assert(v@ =~= old(v)@ + decimal_seq(n as nat));
        }
    } else {
        push_decimal(v, n / 10);
        v.push(48 + (n % 10) as u8);
        proof {
            assert(v@ =~= old(v)@ + decimal_seq(n as nat));
        }
    }
}

/// The bytes of the erase-screen sequence.
pub open spec fn clear_screen_seq() -> Seq<u8> {
    "\u{001b}[2J".spec_bytes()
}

/// The bytes of the cursor-on sequence.
pub open spec fn cursor_on_seq() -> Seq<u8> {
    "\u{001b}[?25h".spec_bytes()
}

/// The bytes of the cursor-off sequence.
pub open spec fn cursor_off_seq() -> Seq<u8> {
    "\u{001b}[?25l".spec_bytes()
}

/// The bytes that move the cursor to `pos`: the 1-based row and column
/// in decimal, separated by `;`, bracketed by the control introducer
/// and `H`.
pub open spec fn move_cursor_seq(pos: Position) -> Seq<u8> {
    "\u{001b}[".spec_bytes() + decimal_seq(1 + pos.row as nat) + seq![59u8] + decimal_seq(
        1 + pos.col as nat,
    ) + seq![72u8]
}

/// The rendition codes of `params` in decimal, separated by `;`.
pub open spec fn sgr_params_seq(params: Seq<SgrParam>) -> Seq<u8>
    decreases params.len(),
{
    if params.len() == 0 {
        Seq::empty()
    } else if params.len() == 1 {
        decimal_seq(params[0].spec_code() as nat)
    } else {
        decimal_seq(params[0].spec_code() as nat) + seq![59u8] + sgr_params_seq(params.skip(1))
    }
}

/// The bytes that select the renditions `params`: the joined codes,
/// bracketed by the control introducer and `m`.
pub open spec fn sgr_seq(params: Seq<SgrParam>) -> Seq<u8> {
    "\u{001b}[".spec_bytes() + sgr_params_seq(params) + seq![109u8]
}

/// Appending one parameter to a list extends its joined rendering with a
/// separator (when the list was not empty) and the parameter's decimal
/// code.
proof fn lemma_sgr_params_push(params: Seq<SgrParam>, p: SgrParam)
    ensures
        params.len() == 0 ==> sgr_params_seq(params.push(p)) == decimal_seq(p.spec_code() as nat),
        params.len() > 0 ==> sgr_params_seq(params.push(p)) == sgr_params_seq(params) + seq![59u8]
            + decimal_seq(p.spec_code() as nat),
    decreases params.len(),
{
    if params.len() == 0 {
        assert(params.push(p) =~= seq![p]);
        assert(sgr_params_seq(seq![p]) == decimal_seq(p.spec_code() as nat));
    } else {
        lemma_sgr_params_push(params.skip(1), p);
        assert(params.push(p).skip(1) =~= params.skip(1).push(p));
        if params.len() == 1 {
            assert(sgr_params_seq(params.push(p)) == decimal_seq(params[0].spec_code() as nat)
                + seq![59u8] + decimal_seq(p.spec_code() as nat));
            assert(sgr_params_seq(params) == decimal_seq(params[0].spec_code() as nat));
        } else {
            assert(sgr_params_seq(params) + seq![59u8] + decimal_seq(p.spec_code() as nat)
                =~= decimal_seq(params[0].spec_code() as nat) + seq![59u8] + (sgr_params_seq(
                params.skip(1),
            ) + seq![59u8] + decimal_seq(p.spec_code() as nat)));
        }
    }
}

/// Erase the screen.  One write of the erase sequence; the write's
/// outcome is deliberately ignored, as console control is best-effort.
pub fn clear_screen<H: Api>(host: &mut H, f: &File)
    ensures
        exists|wr: FfiResult<(), Error>|
            final(host).log() == old(host).log().push(
                HostCall::Write(f.handle.spec_value(), clear_screen_seq(), wr),
            ),
{
    let outcome = f.write_str(host, "\u{001b}[2J");
    proof {
        let wr = FfiResult::<(), Error>::encoded(outcome);
        assert(host.log() == old(host).log().push(
            HostCall::Write(f.handle.spec_value(), clear_screen_seq(), wr),
        ));
    }
}

/// Turn the cursor on.  One write of the cursor-on sequence.
pub fn cursor_on<H: Api>(host: &mut H, f: &File)
    ensures
        exists|wr: FfiResult<(), Error>|
            final(host).log() == old(host).log().push(
                HostCall::Write(f.handle.spec_value(), cursor_on_seq(), wr),
            ),
{
    let outcome = f.write_str(host, "\u{001b}[?25h");
    proof {
        let wr = FfiResult::<(), Error>::encoded(outcome);
        assert(host.log() == old(host).log().push(
            HostCall::Write(f.handle.spec_value(), cursor_on_seq(), wr),
        ));
    }
}

/// Turn the cursor off.  One write of the cursor-off sequence.
pub fn cursor_off<H: Api>(host: &mut H, f: &File)
    ensures
        exists|wr: FfiResult<(), Error>|
            final(host).log() == old(host).log().push(
                HostCall::Write(f.handle.spec_value(), cursor_off_seq(), wr),
            ),
{
    let outcome = f.write_str(host, "\u{001b}[?25l");
    proof {
        let wr = FfiResult::<(), Error>::encoded(outcome);
        assert(host.log() == old(host).log().push(
            HostCall::Write(f.handle.spec_value(), cursor_off_seq(), wr),
        ));
    }
}

/// Move the cursor to the given position.  One write of the bytes of
/// [`move_cursor_seq`].
pub fn move_cursor<H: Api>(host: &mut H, f: &File, pos: Position)
    ensures
        exists|wr: FfiResult<(), Error>|
            final(host).log() == old(host).log().push(
                HostCall::Write(f.handle.spec_value(), move_cursor_seq(pos), wr),
            ),
{
    let mut v = vstd::slice::slice_to_vec("\u{001b}[".as_bytes());
    push_decimal(&mut v, 1 + pos.row as u16);
    v.push(59u8);
    push_decimal(&mut v, 1 + pos.col as u16);
    v.push(72u8);
    proof {
        assert(v@ =~= move_cursor_seq(pos));
    }
    let outcome = f.write(host, v.as_slice());
    proof {
        let wr = FfiResult::<(), Error>::encoded(outcome);
        assert(host.log() == old(host).log().push(
            HostCall::Write(f.handle.spec_value(), move_cursor_seq(pos), wr),
        ));
    }
}

/// Select graphic renditions.  One write of the bytes of [`sgr_seq`]
/// for the given parameter list.
pub fn set_sgr<H: Api>(host: &mut H, f: &File, params: &[SgrParam])
    ensures
        exists|wr: FfiResult<(), Error>|
            final(host).log() == old(host).log().push(
                HostCall::Write(f.handle.spec_value(), sgr_seq(params@), wr),
            ),
{
    let mut v = vstd::slice::slice_to_vec("\u{001b}[".as_bytes());
    let ghost intro = "\u{001b}[".spec_bytes();
    let mut i: usize = 0;
    while i < params.len()
        invariant
            i <= params@.len(),
            v@ == intro + sgr_params_seq(params@.take(i as int)),
        decreases params@.len() - i,
    {
        if i > 0 {
            v.push(59u8);
        }
        push_decimal(&mut v, params[i].code() as u16);
        proof {
            assert(params@.take(i + 1 as int) =~= params@.take(i as int).push(params@[i as int]));
            lemma_sgr_params_push(params@.take(i as int), params@[i as int]);
            assert(v@ =~= intro + sgr_params_seq(params@.take(i + 1 as int)));
        }
        i = i + 1;
    }
    v.push(109u8);
    proof {
        assert(params@.take(params@.len() as int) =~= params@);
        assert(v@ =~= sgr_seq(params@));
    }
    let outcome = f.write(host, v.as_slice());
    proof {
        let wr = FfiResult::<(), Error>::encoded(outcome);
        assert(host.log() == old(host).log().push(
            HostCall::Write(f.handle.spec_value(), sgr_seq(params@), wr),
        ));
    }
}

/// What a raw-mode terminal needs in place of `data`: every line feed
/// preceded by a carriage return.
pub open spec fn crlf_seq(data: Seq<u8>) -> Seq<u8>
    decreases data.len(),
{
    if data.len() == 0 {
        Seq::empty()
    } else {
        (if data[0] == 10 {
            seq![13u8, 10u8]
        } else {
            seq![data[0]]
        }) + crlf_seq(data.skip(1))
    }
}

/// Extending the input by one byte extends the translation by that byte,
/// with a carriage return first when the byte is a line feed.
proof fn lemma_crlf_push(data: Seq<u8>, b: u8)
    ensures
        crlf_seq(data.push(b)) == crlf_seq(data) + (if b == 10 {
            seq![13u8, 10u8]
        } else {
            seq![b]
        }),
    decreases data.len(),
{
    if data.len() == 0 {
        let tail = if b == 10 {
            seq![13u8, 10u8]
        } else {
            seq![b]
        };
        assert(data.push(b) =~= seq![b]);
        assert(seq![b].skip(1) =~= Seq::<u8>::empty());
        assert(crlf_seq(Seq::<u8>::empty()) == Seq::<u8>::empty());
        assert(crlf_seq(seq![b]) == tail + crlf_seq(seq![b].skip(1)));
        assert(tail + Seq::<u8>::empty() =~= tail);
        assert(crlf_seq(data) == Seq::<u8>::empty());
        assert(Seq::<u8>::empty() + tail =~= tail);
    } else {
        lemma_crlf_push(data.skip(1), b);
        assert(data.push(b).skip(1) =~= data.skip(1).push(b));
        assert(data.push(b)[0] == data[0]);
        let head = if data[0] == 10 {
            seq![13u8, 10u8]
        } else {
            seq![data[0]]
        };
        let tail = if b == 10 {
            seq![13u8, 10u8]
        } else {
            seq![b]
        };
        assert(crlf_seq(data.push(b)) == head + crlf_seq(data.skip(1).push(b)));
        assert(crlf_seq(data.skip(1).push(b)) == crlf_seq(data.skip(1)) + tail);
        assert(head + (crlf_seq(data.skip(1)) + tail) =~= (head + crlf_seq(data.skip(1))) + tail);
        assert(crlf_seq(data) == head + crlf_seq(data.skip(1)));
    }
}

/// Translate `data` for a raw-mode terminal: insert a carriage return
/// before every line feed, leaving every other byte as it is.  A host
/// that writes standard output to such a terminal applies this before
/// handing the bytes on.
pub fn add_carriage_returns(data: &[u8]) -> (r: Vec<u8>)
    ensures
        r@ == crlf_seq(data@),
{
    let mut v: Vec<u8> = Vec::new();
    let mut i: usize = 0;
    while i < data.len()
        invariant
            i <= data@.len(),
            v@ == crlf_seq(data@.take(i as int)),
        decreases data@.len() - i,
    {
        let b = data[i];
        if b == 10 {
            v.push(13u8);
            v.push(10u8);
        } else {
            v.push(b);
        }
        proof {
            assert(data@.take(i + 1 as int) =~= data@.take(i as int).push(data@[i as int]));
            lemma_crlf_push(data@.take(i as int), data@[i as int]);
            assert(v@ =~= crlf_seq(data@.take(i + 1 as int)));
        }
        i = i + 1;
    }
    proof {
        assert(data@.take(data@.len() as int) =~= data@);
    }
    v
}

} // verus!
