//! Terminal escape construction shared by navigation and tmux context hooks.

use vstd::prelude::*;
use vstd::string::*;
use vstd::utf8::*;

use crate::text::{halved, lemma_halved_doubled, replace_char, replaced};

verus! {

/// Framing required to cross an immediate tmux layer.
#[derive(Clone, Copy, Debug, PartialEq, Eq, Structural)]
pub enum TmuxMode {
    /// Write the terminal escape directly.
    Raw,
    /// Wrap the escape in one tmux passthrough frame.
    Passthrough,
}

/// The digit of the standard base64 alphabet for six bits.
pub open spec fn base64_digit(n: int) -> char {
    if n < 26 {
        (65 + n) as char
    } else if n < 52 {
        (71 + n) as char
    } else if n < 62 {
        (n - 4) as char
    } else if n == 62 {
        '+'
    } else {
        '/'
    }
}

/// The six bits that a base64 digit stands for.
pub open spec fn base64_value(c: char) -> int {
    if 'A' <= c <= 'Z' {
        c as int - 65
    } else if 'a' <= c <= 'z' {
        c as int - 71
    } else if '0' <= c <= '9' {
        c as int + 4
    } else if c == '+' {
        62
    } else {
        63
    }
}

/// Bytes in base64 with padding: three bytes make four digits.
pub open spec fn base64_text(bytes: Seq<u8>) -> Seq<char>
    decreases bytes.len(),
{
    if bytes.len() == 0 {
        Seq::empty()
    } else if bytes.len() == 1 {
        seq![base64_digit((bytes[0] / 4) as int), base64_digit(bytes[0] % 4 * 16), '=', '=']
    } else if bytes.len() == 2 {
        seq![
            base64_digit((bytes[0] / 4) as int),
            base64_digit(bytes[0] % 4 * 16 + bytes[1] / 16),
            base64_digit(bytes[1] % 16 * 4),
            '=',
        ]
    } else {
        seq![
            base64_digit((bytes[0] / 4) as int),
            base64_digit(bytes[0] % 4 * 16 + bytes[1] / 16),
            base64_digit(bytes[1] % 16 * 4 + bytes[2] / 64),
            base64_digit((bytes[2] % 64) as int),
        ] + base64_text(bytes.skip(3))
    }
}

/// The bytes that padded base64 stands for.
pub open spec fn base64_bytes(text: Seq<char>) -> Seq<u8>
    decreases text.len(),
{
    if text.len() < 4 {
        Seq::empty()
    } else {
        let a = base64_value(text[0]);
        let b = base64_value(text[1]);
        let c = base64_value(text[2]);
        let d = base64_value(text[3]);
        let first = (a * 4 + b / 16) as u8;
        let second = (b % 16 * 16 + c / 4) as u8;
        let third = (c % 4 * 64 + d) as u8;
        if text[2] == '=' {
            seq![first]
        } else if text[3] == '=' {
            seq![first, second]
        } else {
            seq![first, second, third] + base64_bytes(text.skip(4))
        }
    }
}

proof fn lemma_base64_digit(n: int)
    requires
        0 <= n < 64,
    ensures
        base64_value(base64_digit(n)) == n,
        base64_digit(n) != '=',
{
}

/// Decoding the text gives back exactly the bytes.
pub proof fn lemma_base64_round_trip(bytes: Seq<u8>)
    ensures
        base64_bytes(base64_text(bytes)) == bytes,
        base64_text(bytes).len() == (bytes.len() + 2) / 3 * 4,
    decreases bytes.len(),
{
    if bytes.len() > 0 {
        let text = base64_text(bytes);
        lemma_base64_digit((bytes[0] / 4) as int);
        lemma_base64_digit(bytes[0] % 4 * 16);
        if bytes.len() == 1 {
            assert(base64_bytes(text) =~= bytes);
        } else {
            lemma_base64_digit(bytes[0] % 4 * 16 + bytes[1] / 16);
            lemma_base64_digit(bytes[1] % 16 * 4);
            if bytes.len() == 2 {
                assert(base64_bytes(text) =~= bytes);
            } else {
                lemma_base64_digit(bytes[1] % 16 * 4 + bytes[2] / 64);
                lemma_base64_digit((bytes[2] % 64) as int);
                lemma_base64_round_trip(bytes.skip(3));
                assert(text.skip(4) =~= base64_text(bytes.skip(3)));
                assert(base64_bytes(text) =~= bytes);
            }
        }
    }
}

fn digit_of(n: u8) -> (digit: char)
    requires
        n < 64,
    ensures
        digit == base64_digit(n as int),
{
    if n < 26 {
        (65 + n) as char
    } else if n < 52 {
        (71 + n) as char
    } else if n < 62 {
        (n - 4) as char
    } else if n == 62 {
        '+'
    } else {
        '/'
    }
}

/// Encode bytes in base64 with padding.
pub fn base64(input: &[u8]) -> (output: String)
    ensures
        output@ == base64_text(input@),
{
    let mut output = String::new();
    let mut i: usize = 0;
    assert(input@.skip(0) =~= input@);
    assert(output@ + base64_text(input@) =~= base64_text(input@));
    while i < input.len()
        invariant
            i <= input.len(),
            output@ + base64_text(input@.skip(i as int)) == base64_text(input@),
        decreases input.len() - i,
    {
        let ghost rest = input@.skip(i as int);
        let ghost before = output@;
        let left: usize = input.len() - i;
        let first: u8 = input[i];
        let second: u8 = if left > 1 {
            input[i + 1]
        } else {
            0
        };
        let third: u8 = if left > 2 {
            input[i + 2]
        } else {
            0
        };
        output.push(digit_of(first / 4));
        output.push(digit_of(first % 4 * 16 + second / 16));
        output.push(
            if left > 1 {
                digit_of(second % 16 * 4 + third / 64)
            } else {
                '='
            },
        );
        output.push(
            if left > 2 {
                digit_of(third % 64)
            } else {
                '='
            },
        );
        if left <= 3 {
            proof {
                if left == 3 {
                    assert(rest.skip(3) =~= Seq::empty());
                    assert(base64_text(rest.skip(3)) =~= Seq::empty());
                }
                assert(output@ =~= before + base64_text(rest));
            }
            return output;
        }
        assert(rest.skip(3) =~= input@.skip(i + 3));
        assert(output@ + base64_text(rest.skip(3)) =~= before + base64_text(rest));
        i = i + 3;
    }
    output
}

/// The WezTerm escape that sets a user variable.
pub open spec fn user_var_escape(name: Seq<char>, value: Seq<char>) -> Seq<char> {
    "\u{1b}]1337;SetUserVar="@ + name + "="@ + base64_text(encode_utf8(value)) + "\u{7}"@
}

/// A terminal escape in one tmux passthrough frame: inner escape characters
/// are doubled.
pub open spec fn passthrough(escape: Seq<char>) -> Seq<char> {
    "\u{1b}Ptmux;"@ + replaced(escape, '\u{1b}', "\u{1b}\u{1b}"@) + "\u{1b}\\"@
}

/// The escape that sets a user variable, framed as the mode asks.
pub open spec fn framed(name: Seq<char>, value: Seq<char>, mode: TmuxMode) -> Seq<char> {
    match mode {
        TmuxMode::Raw => user_var_escape(name, value),
        TmuxMode::Passthrough => passthrough(user_var_escape(name, value)),
    }
}

/// Build one WezTerm `SetUserVar` escape with explicit tmux framing.
#[must_use]
pub fn user_var(name: &str, value: &str, mode: TmuxMode) -> (bytes: Vec<u8>)
    ensures
        bytes@ == encode_utf8(framed(name@, value@, mode)),
{
    let mut raw = String::from_str("\u{1b}]1337;SetUserVar=");
    raw.append(name);
    raw.append("=");
    raw.append(base64(value.as_bytes()).as_str());
    raw.append("\u{7}");
    match mode {
        TmuxMode::Raw => raw.as_str().as_bytes_vec(),
        TmuxMode::Passthrough => {
            // tmux passthrough escapes embedded ESC bytes by doubling them,
            // then wraps the complete sequence in DCS `tmux; ... ST`.
            let mut frame = String::from_str("\u{1b}Ptmux;");
            frame.append(replace_char(raw.as_str(), '\u{1b}', "\u{1b}\u{1b}").as_str());
            frame.append("\u{1b}\\");
            frame.as_str().as_bytes_vec()
        },
    }
}

/// What tmux hands on of a passthrough frame: its body with doubled escape
/// characters reduced to single ones.
pub open spec fn unframed(frame: Seq<char>) -> Seq<char> {
    halved(
        frame.subrange("\u{1b}Ptmux;"@.len() as int, frame.len() - "\u{1b}\\"@.len()),
        '\u{1b}',
    )
}

/// tmux hands on exactly the escape that was framed.
pub proof fn lemma_passthrough_round_trip(escape: Seq<char>)
    ensures
        unframed(passthrough(escape)) == escape,
{
    reveal_strlit("\u{1b}\u{1b}");
    let doubled = replaced(escape, '\u{1b}', "\u{1b}\u{1b}"@);
    assert("\u{1b}\u{1b}"@ =~= seq!['\u{1b}', '\u{1b}']);
    lemma_halved_doubled(escape, '\u{1b}');
    let frame = passthrough(escape);
    assert(frame.subrange("\u{1b}Ptmux;"@.len() as int, frame.len() - "\u{1b}\\"@.len())
        =~= doubled);
}

} // verus!
