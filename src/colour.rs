use vstd::prelude::*;

use crate::text::contains_seq;

verus! {

/// A terminal foreground colour: the sixteen named ones, or a 24-bit one.
#[derive(Clone, Copy, Debug, PartialEq, Eq, Structural)]
pub enum Color {
    Black,
    Red,
    Green,
    Yellow,
    Blue,
    Magenta,
    Cyan,
    White,
    BrightBlack,
    BrightRed,
    BrightGreen,
    BrightYellow,
    BrightBlue,
    BrightMagenta,
    BrightCyan,
    BrightWhite,
    TrueColor { r: u8, g: u8, b: u8 },
}

/// The decimal digits of `n`.
pub open spec fn decimal(n: nat) -> Seq<char>
    decreases n,
{
    let digits = seq!['0', '1', '2', '3', '4', '5', '6', '7', '8', '9'];
    if n < 10 {
        seq![digits[n as int]]
    } else {
        decimal(n / 10).push(digits[(n % 10) as int])
    }
}

/// The number that selects a colour as foreground colour; for a 24-bit colour
/// its 24-bit form.
pub open spec fn fg_code(c: Color) -> Seq<char> {
    match c {
        Color::Black => seq!['3', '0'],
        Color::Red => seq!['3', '1'],
        Color::Green => seq!['3', '2'],
        Color::Yellow => seq!['3', '3'],
        Color::Blue => seq!['3', '4'],
        Color::Magenta => seq!['3', '5'],
        Color::Cyan => seq!['3', '6'],
        Color::White => seq!['3', '7'],
        Color::BrightBlack => seq!['9', '0'],
        Color::BrightRed => seq!['9', '1'],
        Color::BrightGreen => seq!['9', '2'],
        Color::BrightYellow => seq!['9', '3'],
        Color::BrightBlue => seq!['9', '4'],
        Color::BrightMagenta => seq!['9', '5'],
        Color::BrightCyan => seq!['9', '6'],
        Color::BrightWhite => seq!['9', '7'],
        Color::TrueColor { r, g, b } => seq!['3', '8', ';', '2', ';'] + decimal(r as nat) + seq![';']
            + decimal(g as nat) + seq![';'] + decimal(b as nat),
    }
}

/// The code of the named colour that colored's colour parsing gives for a
/// lower-case name; empty for any other text.
pub open spec fn named_fg_code(name: Seq<char>) -> Seq<char> {
    if name == seq!['b', 'l', 'a', 'c', 'k'] {
        fg_code(Color::Black)
    } else if name == seq!['r', 'e', 'd'] {
        fg_code(Color::Red)
    } else if name == seq!['g', 'r', 'e', 'e', 'n'] {
        fg_code(Color::Green)
    } else if name == seq!['y', 'e', 'l', 'l', 'o', 'w'] {
        fg_code(Color::Yellow)
    } else if name == seq!['b', 'l', 'u', 'e'] {
        fg_code(Color::Blue)
    } else if name == seq!['m', 'a', 'g', 'e', 'n', 't', 'a'] {
        fg_code(Color::Magenta)
    } else if name == seq!['c', 'y', 'a', 'n'] {
        fg_code(Color::Cyan)
    } else if name == seq!['w', 'h', 'i', 't', 'e'] {
        fg_code(Color::White)
    } else if name == seq!['b', 'r', 'i', 'g', 'h', 't', ' '] + seq!['b', 'l', 'a', 'c', 'k'] {
        fg_code(Color::BrightBlack)
    } else if name == seq!['b', 'r', 'i', 'g', 'h', 't', ' '] + seq!['r', 'e', 'd'] {
        fg_code(Color::BrightRed)
    } else if name == seq!['b', 'r', 'i', 'g', 'h', 't', ' '] + seq!['g', 'r', 'e', 'e', 'n'] {
        fg_code(Color::BrightGreen)
    } else if name == seq!['b', 'r', 'i', 'g', 'h', 't', ' '] + seq!['y', 'e', 'l', 'l', 'o', 'w'] {
        fg_code(Color::BrightYellow)
    } else if name == seq!['b', 'r', 'i', 'g', 'h', 't', ' '] + seq!['b', 'l', 'u', 'e'] {
        fg_code(Color::BrightBlue)
    } else if name == seq!['b', 'r', 'i', 'g', 'h', 't', ' '] + seq!['m', 'a', 'g', 'e', 'n', 't', 'a'] {
        fg_code(Color::BrightMagenta)
    } else if name == seq!['b', 'r', 'i', 'g', 'h', 't', ' '] + seq!['c', 'y', 'a', 'n'] {
        fg_code(Color::BrightCyan)
    } else if name == seq!['b', 'r', 'i', 'g', 'h', 't', ' '] + seq!['w', 'h', 'i', 't', 'e'] {
        fg_code(Color::BrightWhite)
    } else {
        seq![]
    }
}

/// The sequence that ends a styled run of text.
pub open spec fn reset_marker() -> Seq<char> {
    seq!['\u{1b}', '[', '0', 'm']
}

/// `s` styled bold in the foreground colour whose code is `code`.
pub open spec fn bold_markup(code: Seq<char>, s: Seq<char>) -> Seq<char> {
    seq!['\u{1b}', '[', '1', ';'] + code + seq!['m'] + s + reset_marker()
}

/// `e` is `s` in bold markup of colour `c`. A 24-bit colour may also come out
/// as one of the named colours, where the terminal does not announce 24-bit
/// support.
pub open spec fn is_markup(c: Color, s: Seq<char>, e: Seq<char>) -> bool {
    ||| e == bold_markup(fg_code(c), s)
    ||| (c is TrueColor && exists|n: Color| !(n is TrueColor) && e == bold_markup(#[trigger] fg_code(n), s))
}

/// Relies on colored's `Colorize::color` (which parses the colour name with
/// `Color::from_str`), `Colorize::bold` and the display of `ColoredString`
/// (`compute_style`, `Color::to_fg_str`). When the process's colour settings
/// turn colour off the text comes back as it is; otherwise it comes wrapped in
/// the bold style with the colour's code and the reset sequence, unchanged
/// inside as long as it holds no reset sequence.
#[verifier::external_body]
fn emphasize_named(s: &str, name: &str) -> (r: String)
    requires
        named_fg_code(name@).len() > 0,
    ensures
        !contains_seq(s@, reset_marker()) ==> (r@ == s@ || r@ == bold_markup(named_fg_code(name@), s@)),
{
    colored::Colorize::bold(colored::Colorize::color(s, name)).to_string()
}

/// Relies on colored's `Colorize::truecolor`, `Colorize::bold` and the display
/// of `ColoredString`. As for a named colour, except that the code is the
/// 24-bit one where the `COLORTERM` setting announces 24-bit support, and the
/// code of one of the named colours otherwise.
#[verifier::external_body]
fn emphasize_rgb(s: &str, r: u8, g: u8, b: u8) -> (res: String)
    ensures
        !contains_seq(s@, reset_marker()) ==> (res@ == s@ || is_markup(Color::TrueColor { r, g, b }, s@, res@)),
{
    colored::Colorize::bold(colored::Colorize::truecolor(s, r, g, b)).to_string()
}

impl Color {
    /// The lower-case name of a named colour, as colored parses it.
    pub fn name(&self) -> (r: &'static str)
        requires
            !(*self is TrueColor),
        ensures
            named_fg_code(r@) == fg_code(*self),
    {
        match self {
            Color::Black => {
                proof {
                    reveal_strlit("black");
                    assert("black"@ =~= seq!['b', 'l', 'a', 'c', 'k']);
                }
                let r = "black";
                assert(named_fg_code(r@) == fg_code(*self));
                r
            },
            Color::Red => {
                proof {
                    reveal_strlit("red");
                    assert("red"@ =~= seq!['r', 'e', 'd']);
                }
                let r = "red";
                assert(named_fg_code(r@) == fg_code(*self));
                r
            },
            Color::Green => {
                proof {
                    reveal_strlit("green");
                    assert("green"@ =~= seq!['g', 'r', 'e', 'e', 'n']);
                }
                let r = "green";
                assert(named_fg_code(r@) == fg_code(*self));
                r
            },
            Color::Yellow => {
                proof {
                    reveal_strlit("yellow");
                    assert("yellow"@ =~= seq!['y', 'e', 'l', 'l', 'o', 'w']);
                }
                let r = "yellow";
                assert(named_fg_code(r@) == fg_code(*self));
                r
            },
            Color::Blue => {
                proof {
                    reveal_strlit("blue");
                    assert("blue"@ =~= seq!['b', 'l', 'u', 'e']);
                }
                let r = "blue";
                assert(named_fg_code(r@) == fg_code(*self));
                r
            },
            Color::Magenta => {
                proof {
                    reveal_strlit("magenta");
                    assert("magenta"@ =~= seq!['m', 'a', 'g', 'e', 'n', 't', 'a']);
                }
                let r = "magenta";
                assert(named_fg_code(r@) == fg_code(*self));
                r
            },
            Color::Cyan => {
                proof {
                    reveal_strlit("cyan");
                    assert("cyan"@ =~= seq!['c', 'y', 'a', 'n']);
                }
                let r = "cyan";
                assert(named_fg_code(r@) == fg_code(*self));
                r
            },
            Color::White => {
                proof {
                    reveal_strlit("white");
                    assert("white"@ =~= seq!['w', 'h', 'i', 't', 'e']);
                }
                let r = "white";
                assert(named_fg_code(r@) == fg_code(*self));
                r
            },
            Color::BrightBlack => {
                proof {
                    reveal_strlit("bright black");
                    assert("bright black"@ =~= seq!['b', 'r', 'i', 'g', 'h', 't', ' '] + seq!['b', 'l', 'a', 'c', 'k']);
                }
                let r = "bright black";
                assert(named_fg_code(r@) == fg_code(*self));
                r
            },
            Color::BrightRed => {
                proof {
                    reveal_strlit("bright red");
                    assert("bright red"@ =~= seq!['b', 'r', 'i', 'g', 'h', 't', ' '] + seq!['r', 'e', 'd']);
                }
                let r = "bright red";
                assert(named_fg_code(r@) == fg_code(*self));
                r
            },
            Color::BrightGreen => {
                proof {
                    reveal_strlit("bright green");
                    assert("bright green"@ =~= seq!['b', 'r', 'i', 'g', 'h', 't', ' '] + seq!['g', 'r', 'e', 'e', 'n']);
                }
                let r = "bright green";
                assert(r@[7] == 'g');
                assert((seq!['b', 'r', 'i', 'g', 'h', 't', ' '] + seq!['b', 'l', 'a', 'c', 'k'])[7] == 'b');
                assert(named_fg_code(r@) == fg_code(*self));
                r
            },
            Color::BrightYellow => {
                proof {
                    reveal_strlit("bright yellow");
                    assert("bright yellow"@ =~= seq!['b', 'r', 'i', 'g', 'h', 't', ' '] + seq!['y', 'e', 'l', 'l', 'o', 'w']);
                }
                let r = "bright yellow";
                assert(named_fg_code(r@) == fg_code(*self));
                r
            },
            Color::BrightBlue => {
                proof {
                    reveal_strlit("bright blue");
                    assert("bright blue"@ =~= seq!['b', 'r', 'i', 'g', 'h', 't', ' '] + seq!['b', 'l', 'u', 'e']);
                }
                let r = "bright blue";
                assert(named_fg_code(r@) == fg_code(*self));
                r
            },
            Color::BrightMagenta => {
                proof {
                    reveal_strlit("bright magenta");
                    assert("bright magenta"@ =~= seq!['b', 'r', 'i', 'g', 'h', 't', ' '] + seq!['m', 'a', 'g', 'e', 'n', 't', 'a']);
                }
                let r = "bright magenta";
                assert(named_fg_code(r@) == fg_code(*self));
                r
            },
            Color::BrightCyan => {
                proof {
                    reveal_strlit("bright cyan");
                    assert("bright cyan"@ =~= seq!['b', 'r', 'i', 'g', 'h', 't', ' '] + seq!['c', 'y', 'a', 'n']);
                }
                let r = "bright cyan";
                assert(r@[7] == 'c');
                assert((seq!['b', 'r', 'i', 'g', 'h', 't', ' '] + seq!['b', 'l', 'u', 'e'])[7] == 'b');
                assert(named_fg_code(r@) == fg_code(*self));
                r
            },
            Color::BrightWhite => {
                proof {
                    reveal_strlit("bright white");
                    assert("bright white"@ =~= seq!['b', 'r', 'i', 'g', 'h', 't', ' '] + seq!['w', 'h', 'i', 't', 'e']);
                }
                let r = "bright white";
                assert(r@[7] == 'w');
                assert((seq!['b', 'r', 'i', 'g', 'h', 't', ' '] + seq!['b', 'l', 'a', 'c', 'k'])[7] == 'b');
                assert((seq!['b', 'r', 'i', 'g', 'h', 't', ' '] + seq!['g', 'r', 'e', 'e', 'n'])[7] == 'g');
                assert(named_fg_code(r@) == fg_code(*self));
                r
            },
            Color::TrueColor { .. } => "",
        }
    }
}

/// Writes `s` bold in colour `c`, as far as the process's colour settings
/// allow: the text unchanged, or the text in bold markup of the colour.
pub fn emphasize(s: &str, c: Color) -> (r: String)
    ensures
        !contains_seq(s@, reset_marker()) ==> (r@ == s@ || is_markup(c, s@, r@)),
{
    match c {
        Color::TrueColor { r, g, b } => emphasize_rgb(s, r, g, b),
        _ => emphasize_named(s, c.name()),
    }
}

} // verus!
