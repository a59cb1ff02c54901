//! The serial console's control sequences. The functions here say what
//! is to be sent; sending it is the caller's part.

use vstd::prelude::*;

verus! {

/// The sequence that blanks the screen and takes the cursor home.
pub const CLEAR_SEQUENCE: &'static str = "\x1B[2J\x1B[H";

/// The character that writes the digit `d`.
pub open spec fn digit_char(d: nat) -> char {
    if d == 0 {
        '0'
    } else if d == 1 {
        '1'
    } else if d == 2 {
        '2'
    } else if d == 3 {
        '3'
    } else if d == 4 {
        '4'
    } else if d == 5 {
        '5'
    } else if d == 6 {
        '6'
    } else if d == 7 {
        '7'
    } else if d == 8 {
        '8'
    } else {
        '9'
    }
}

/// A number in decimal, without leading zeros.
pub open spec fn decimal(n: nat) -> Seq<char>
    decreases n,
{
    if n < 10 {
        seq![digit_char(n)]
    } else {
        decimal(n / 10).push(digit_char(n % 10))
    }
}

fn digit(d: u32) -> (c: char)
    requires
        d < 10,
    ensures
        c == digit_char(d as nat),
{
    if d == 0 {
        '0'
    } else if d == 1 {
        '1'
    } else if d == 2 {
        '2'
    } else if d == 3 {
        '3'
    } else if d == 4 {
        '4'
    } else if d == 5 {
        '5'
    } else if d == 6 {
        '6'
    } else if d == 7 {
        '7'
    } else if d == 8 {
        '8'
    } else {
        '9'
    }
}

/// Appends `n` in decimal to `out`.
pub fn push_decimal(out: &mut String, n: u32)
    ensures
        final(out)@ == old(out)@ + decimal(n as nat),
    decreases n,
{
    if n >= 10 {
        push_decimal(out, n / 10);
    }
    out.push(digit(n % 10));
    proof {
        if n >= 10 {
            assert(final(out)@ =~= old(out)@ + decimal(n as nat));
        } else {
            assert(final(out)@ =~= old(out)@ + seq![digit_char(n as nat)]);
        }
    }
}

/// The sequence that takes the cursor to column `x` of row `y`, both
/// counted from 1.
pub open spec fn cursor_sequence(x: nat, y: nat) -> Seq<char> {
    seq!['\u{1b}', '['] + decimal(y) + seq![';'] + decimal(x) + seq!['H']
}

/// What to send to take the cursor to column `x` of row `y`.
pub fn move_cursor(x: u16, y: u16) -> (r: String)
    ensures
        r@ == cursor_sequence(x as nat, y as nat),
{
    cursor_to(x as u32, y as u32)
}

/// What to send to take the cursor to column `x` of row `y`, for
/// positions beyond 16 bits too.
pub fn cursor_to(x: u32, y: u32) -> (r: String)
    ensures
        r@ == cursor_sequence(x as nat, y as nat),
{
    let mut out = String::new();
    out.push('\u{1b}');
    out.push('[');
    push_decimal(&mut out, y);
    out.push(';');
    push_decimal(&mut out, x);
    out.push('H');
    proof {
        assert(out@ =~= cursor_sequence(x as nat, y as nat));
    }
    out
}

/// What to send to blank the screen and take the cursor home.
pub fn clear_screen() -> (r: &'static str)
    ensures
        r@ == CLEAR_SEQUENCE@,
{
    CLEAR_SEQUENCE
}


/// `piece` written `n` times.
pub open spec fn repeated(piece: Seq<char>, n: nat) -> Seq<char>
    decreases n,
{
    if n == 0 {
        Seq::empty()
    } else {
        repeated(piece, (n - 1) as nat) + piece
    }
}

/// Appends `piece` to `out`, `n` times.
pub fn push_repeated(out: &mut String, piece: &str, n: u32)
    ensures
        final(out)@ == old(out)@ + repeated(piece@, n as nat),
{
    let mut i: u32 = 0;
    proof {
        assert(out@ =~= old(out)@ + repeated(piece@, 0));
    }
    while i < n
        invariant
            i <= n,
            out@ == old(out)@ + repeated(piece@, i as nat),
        decreases n - i,
    {
        out.append(piece);
        proof {
            assert(out@ =~= old(out)@ + repeated(piece@, (i + 1) as nat));
        }
        i += 1;
    }
}

} // verus!
