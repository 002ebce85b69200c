use vstd::prelude::*;
use vstd::string::StringExecFns;

verus! {

/// The colours the game draws and writes with: either one of the named
/// colours of the display library's palette, or a colour given by its
/// red, green and blue parts.
#[derive(Clone, Copy, Debug, PartialEq, Eq, Structural)]
pub enum Color {
    Rgb(u8, u8, u8),
    Black,
    White,
    Red,
    DarkRed,
    DarkerRed,
    LightRed,
    Orange,
    Yellow,
    LightYellow,
    Green,
    LightGreen,
    DesaturatedGreen,
    DarkerGreen,
    LightCyan,
    LightBlue,
    Violet,
    LightViolet,
    Grey,
    LightGrey,
}

/// The message log: each line of text with the colour it is written in,
/// oldest first.
pub type Messages = Vec<(String, Color)>;

/// The log as text: each message's characters with its colour.
pub open spec fn log_texts(log: Seq<(String, Color)>) -> Seq<(Seq<char>, Color)> {
    log.map_values(|m: (String, Color)| (m.0@, m.1))
}

/// Appends one message to the end of the log.
pub fn add_message(log: &mut Messages, message: String, color: Color)
    ensures
        log_texts(final(log)@) == log_texts(old(log)@).push((message@, color)),
{
    let ghost m = message@;
    log.push((message, color));
    assert(log_texts(log@) =~= log_texts(old(log)@).push((m, color)));
}

/// Appends the characters of a literal to the end of the log.
pub fn add_str(log: &mut Messages, message: &str, color: Color)
    ensures
        log_texts(final(log)@) == log_texts(old(log)@).push((message@, color)),
{
    add_message(log, String::from_str(message), color);
}

/// The character of a decimal digit.
pub open spec fn digit_char(d: nat) -> char {
    if d == 0 {
        '0'
    } else if d == 1 {
        '1'
    } else if d == 2 {
        '2'
    } else if d == 3 {
        '3'
    } else if d == 4 {
        '4'
    } else if d == 5 {
        '5'
    } else if d == 6 {
        '6'
    } else if d == 7 {
        '7'
    } else if d == 8 {
        '8'
    } else {
        '9'
    }
}

/// The decimal notation of a natural number, most significant digit first,
/// without leading zeros.
pub open spec fn decimal(n: nat) -> Seq<char>
    decreases n,
{
    if n < 10 {
        seq![digit_char(n)]
    } else {
        decimal(n / 10).push(digit_char(n % 10))
    }
}

/// The one-character text of a decimal digit.
fn digit_str(d: u32) -> (s: &'static str)
    requires
        d < 10,
    ensures
        s@ == seq![digit_char(d as nat)],
{
    if d == 0 {
        proof { reveal_strlit("0"); }
        "0"
    } else if d == 1 {
        proof { reveal_strlit("1"); }
        "1"
    } else if d == 2 {
        proof { reveal_strlit("2"); }
        "2"
    } else if d == 3 {
        proof { reveal_strlit("3"); }
        "3"
    } else if d == 4 {
        proof { reveal_strlit("4"); }
        "4"
    } else if d == 5 {
        proof { reveal_strlit("5"); }
        "5"
    } else if d == 6 {
        proof { reveal_strlit("6"); }
        "6"
    } else if d == 7 {
        proof { reveal_strlit("7"); }
        "7"
    } else if d == 8 {
        proof { reveal_strlit("8"); }
        "8"
    } else {
        proof { reveal_strlit("9"); }
        "9"
    }
}

/// The decimal notation of `n`, as the message texts write numbers.
pub fn decimal_string(n: u32) -> (s: String)
    ensures
        s@ == decimal(n as nat),
    decreases n,
{
    if n < 10 {
        String::from_str(digit_str(n))
    } else {
        let mut s = decimal_string(n / 10);
        s.append(digit_str(n % 10));
        s
    }
}

} // verus!
