//! How the keys of a log line are styled.

use anstyle::{AnsiColor, Color, Effects, Style};
use vstd::prelude::*;
use vstd::string::*;

verus! {

/// The styles of the keys of a log line.
#[derive(Clone, Copy, Debug, PartialEq, Eq, Structural)]
pub enum Label {
    /// Bold magenta.
    Trace,
    /// Bold cyan.
    Debug,
    /// Bold green.
    Info,
    /// Bold yellow.
    Warning,
    /// Bold red.
    Error,
    /// Bold.
    Bold,
}

/// The colours of the keys of a log line.
#[derive(Clone, Copy, Debug, PartialEq, Eq, Structural)]
pub enum Colour {
    Magenta,
    Cyan,
    Green,
    Yellow,
    Red,
}

impl Label {
    /// The colour of the label; none for the one that is only bold.
    pub open spec fn colour_of(self) -> Option<Colour> {
        match self {
            Label::Trace => Some(Colour::Magenta),
            Label::Debug => Some(Colour::Cyan),
            Label::Info => Some(Colour::Green),
            Label::Warning => Some(Colour::Yellow),
            Label::Error => Some(Colour::Red),
            Label::Bold => None,
        }
    }

    /// The colour of the label; none for the one that is only bold.
    pub fn colour(self) -> (colour: Option<Colour>)
        ensures
            colour == self.colour_of(),
    {
        match self {
            Label::Trace => Some(Colour::Magenta),
            Label::Debug => Some(Colour::Cyan),
            Label::Info => Some(Colour::Green),
            Label::Warning => Some(Colour::Yellow),
            Label::Error => Some(Colour::Red),
            Label::Bold => None,
        }
    }
}

/// The escape sequence that sets the colour of the text.
pub open spec fn colour_code(colour: Colour) -> Seq<char> {
    match colour {
        Colour::Magenta => "\x1b[35m"@,
        Colour::Cyan => "\x1b[36m"@,
        Colour::Green => "\x1b[32m"@,
        Colour::Yellow => "\x1b[33m"@,
        Colour::Red => "\x1b[31m"@,
    }
}

/// The escape sequence that turns on the bold style of the colour: the one
/// for bold, and then the one for the colour where there is a colour.
pub open spec fn style_start(colour: Option<Colour>) -> Seq<char> {
    "\x1b[1m"@ + (match colour {
        Some(colour) => colour_code(colour),
        None => Seq::empty(),
    })
}

/// The escape sequence that turns off the bold style of the colour: the one
/// that resets every style.
pub open spec fn style_end(colour: Option<Colour>) -> Seq<char> {
    "\x1b[0m"@
}

/// Makes the bold `anstyle::Style` of the colour and formats it with `{}`,
/// which writes what `Style::render` gives: the escape sequence of each
/// effect, here of bold alone, and then that of the foreground colour.
#[verifier::external_body]
fn render(colour: Option<Colour>) -> (code: String)
    ensures
        code@ == style_start(colour),
{
    let ansi = |colour: Colour| match colour {
        Colour::Magenta => AnsiColor::Magenta,
        Colour::Cyan => AnsiColor::Cyan,
        Colour::Green => AnsiColor::Green,
        Colour::Yellow => AnsiColor::Yellow,
        Colour::Red => AnsiColor::Red,
    };
    let foreground = colour.map(|colour| Color::Ansi(ansi(colour)));
    format!("{}", Style::new().fg_color(foreground).effects(Effects::BOLD))
}

/// Makes the bold `anstyle::Style` of the colour and formats it with
/// `{:#}`, which writes what `Style::render_reset` gives: the escape
/// sequence that resets every style, as the style is not the plain one.
#[verifier::external_body]
fn render_reset(colour: Option<Colour>) -> (code: String)
    ensures
        code@ == style_end(colour),
{
    let ansi = |colour: Colour| match colour {
        Colour::Magenta => AnsiColor::Magenta,
        Colour::Cyan => AnsiColor::Cyan,
        Colour::Green => AnsiColor::Green,
        Colour::Yellow => AnsiColor::Yellow,
        Colour::Red => AnsiColor::Red,
    };
    let foreground = colour.map(|colour| Color::Ansi(ansi(colour)));
    format!("{:#}", Style::new().fg_color(foreground).effects(Effects::BOLD))
}

/// The text in the style.
pub open spec fn styled(text: Seq<char>, label: Label) -> Seq<char> {
    style_start(label.colour_of()) + text + style_end(label.colour_of())
}

/// Writes the text in the style.
pub fn write_styled(out: &mut String, text: &str, label: Label)
    ensures
        final(out)@ == old(out)@ + styled(text@, label),
{
    let ghost before = out@;
    out.append(render(label.colour()).as_str());
    out.append(text);
    out.append(render_reset(label.colour()).as_str());
    proof {
        assert(out@ =~= before + styled(text@, label));
    }
}

/// `count` spaces.
pub open spec fn spaces(count: int) -> Seq<char> {
    Seq::new(
        if count > 0 {
            count as nat
        } else {
            0nat
        },
        |i: int| ' ',
    )
}

/// The width of the key of a log line.
pub const KEY_WIDTH: usize = 14;

/// What stands before the lines of a value but the first: spaces as wide as
/// a key with its colon and space.
pub const INDENT: &'static str = "                ";

/// The text with spaces before it, so that it is as wide as a key.
pub open spec fn padded(text: Seq<char>) -> Seq<char> {
    spaces(KEY_WIDTH - text.len()) + text
}

/// The key of a log line: the name in the style, as wide as a key at
/// least, then a bold colon and a space.
pub open spec fn property_key(name: Seq<char>, label: Label) -> Seq<char> {
    styled(padded(name), label) + styled(":"@, Label::Bold) + " "@
}

/// Writes the key of a log line.
pub fn format_property_key(out: &mut String, name: &str, label: Label)
    ensures
        final(out)@ == old(out)@ + property_key(name@, label),
{
    let ghost before = out@;
    let mut key = String::new();
    let len = name.unicode_len();
    let mut i: usize = len;
    proof {
        assert(key@ =~= spaces(len as int - len));
    }
    while i < KEY_WIDTH
        invariant
            len <= i,
            i <= KEY_WIDTH || i == len,
            key@ == spaces(i - len),
        decreases KEY_WIDTH - i,
    {
        key.append(" ");
        proof {
            reveal_strlit(" ");
            assert(key@ =~= spaces(i + 1 - len));
        }
        i += 1;
    }
    key.append(name);
    proof {
        assert(key@ =~= padded(name@));
    }
    write_styled(out, key.as_str(), label);
    write_styled(out, ":", Label::Bold);
    out.append(" ");
    proof {
        assert(out@ =~= before + property_key(name@, label));
    }
}

/// The first `upto` lines of a value of a log line: each line but the
/// first after the indentation, and each with a line feed after it.
pub open spec fn value_lines(lines: Seq<Seq<char>>, upto: int) -> Seq<char>
    decreases upto,
{
    if upto <= 0 {
        Seq::empty()
    } else {
        value_lines(lines, upto - 1) + (if upto == 1 {
            Seq::<char>::empty()
        } else {
            INDENT@
        }) + lines[upto - 1] + "\n"@
    }
}

/// A value as it stands in a log line, after the key.
pub open spec fn field_value(message: Seq<char>) -> Seq<char> {
    value_lines(crate::text::char_lines(message), crate::text::char_lines(message).len() as int)
}

/// Writes a value as it stands in a log line.
pub fn format_field_value(out: &mut String, message: &str)
    ensures
        final(out)@ == old(out)@ + field_value(message@),
{
    let ghost before = out@;
    let lines = crate::text::lines_of_str(message);
    let ghost texts = crate::text::char_lines(message@);
    let mut i: usize = 0;
    proof {
        assert(out@ =~= before + value_lines(texts, 0));
    }
    while i < lines.len()
        invariant
            i <= lines.len(),
            crate::text::are_char_lines(lines@, message@),
            texts == crate::text::char_lines(message@),
            out@ == before + value_lines(texts, i as int),
        decreases lines.len() - i,
    {
        if i != 0 {
            out.append(INDENT);
        }
        out.append(lines[i]);
        out.append("\n");
        proof {
            assert(out@ =~= before + (value_lines(texts, i as int) + (if i == 0 {
                Seq::<char>::empty()
            } else {
                INDENT@
            }) + texts[i as int] + "\n"@));
        }
        i += 1;
    }
}

/// A field as it stands in a log line: its name as a bold key and its
/// value.
pub open spec fn field(name: Seq<char>, value: Seq<char>) -> Seq<char> {
    property_key(name, Label::Bold) + field_value(value)
}

/// Writes a field as it stands in a log line.
pub fn format_field(out: &mut String, name: &str, value: &str)
    ensures
        final(out)@ == old(out)@ + field(name@, value@),
{
    let ghost before = out@;
    format_property_key(out, name, Label::Bold);
    format_field_value(out, value);
    proof {
        assert(out@ =~= before + field(name@, value@));
    }
}

/// The digits of a number.
pub open spec fn decimal(number: nat) -> Seq<char>
    decreases number,
{
    if number < 10 {
        seq![digit(number)]
    } else {
        decimal(number / 10).push(digit(number % 10))
    }
}

/// The digit of a number below ten.
pub open spec fn digit(number: nat) -> char {
    if number == 0 {
        '0'
    } else if number == 1 {
        '1'
    } else if number == 2 {
        '2'
    } else if number == 3 {
        '3'
    } else if number == 4 {
        '4'
    } else if number == 5 {
        '5'
    } else if number == 6 {
        '6'
    } else if number == 7 {
        '7'
    } else if number == 8 {
        '8'
    } else {
        '9'
    }
}

fn digit_str(number: usize) -> (text: &'static str)
    requires
        number < 10,
    ensures
        text@ == seq![digit(number as nat)],
{
    proof {
        reveal_strlit("0");
        reveal_strlit("1");
        reveal_strlit("2");
        reveal_strlit("3");
        reveal_strlit("4");
        reveal_strlit("5");
        reveal_strlit("6");
        reveal_strlit("7");
        reveal_strlit("8");
        reveal_strlit("9");
    }
    let text = if number == 0 {
        "0"
    } else if number == 1 {
        "1"
    } else if number == 2 {
        "2"
    } else if number == 3 {
        "3"
    } else if number == 4 {
        "4"
    } else if number == 5 {
        "5"
    } else if number == 6 {
        "6"
    } else if number == 7 {
        "7"
    } else if number == 8 {
        "8"
    } else {
        "9"
    };
    assert(text@ =~= seq![digit(number as nat)]);
    text
}

/// The number in digits.
pub fn to_decimal(number: usize) -> (text: String)
    ensures
        text@ == decimal(number as nat),
    decreases number,
{
    if number < 10 {
        digit_str(number).to_owned()
    } else {
        let mut text = to_decimal(number / 10);
        text.append(digit_str(number % 10));
        text
    }
}

/// What is said of the warnings and errors that were counted: nothing if
/// there are none, and else a line that counts the errors and the warnings,
/// between two line feeds.
pub open spec fn tally_text(warnings: nat, errors: nat) -> Seq<char> {
    if errors == 0 && warnings == 0 {
        Seq::empty()
    } else {
        "\n"@ + (if errors != 0 {
            styled(decimal(errors) + " "@, Label::Bold) + styled(
                "error"@ + (if errors == 1 {
                    ""@
                } else {
                    "s"@
                }),
                Label::Error,
            )
        } else {
            Seq::<char>::empty()
        }) + (if warnings != 0 {
            (if errors != 0 {
                styled(", "@, Label::Bold)
            } else {
                Seq::<char>::empty()
            }) + styled(decimal(warnings) + " "@, Label::Bold) + styled(
                "warning"@ + (if warnings == 1 {
                    ""@
                } else {
                    "s"@
                }),
                Label::Warning,
            )
        } else {
            Seq::<char>::empty()
        }) + "\n"@
    }
}

/// Writes what is said of the warnings and errors that were counted.
pub fn format_tally(warnings: usize, errors: usize) -> (out: String)
    ensures
        out@ == tally_text(warnings as nat, errors as nat),
{
    let mut out = String::new();
    if errors != 0 || warnings != 0 {
        out.append("\n");
    }
    if errors != 0 {
        let s = if errors == 1 {
            ""
        } else {
            "s"
        };
        let mut count = to_decimal(errors);
        count.append(" ");
        write_styled(&mut out, count.as_str(), Label::Bold);
        let mut word = "error".to_owned();
        word.append(s);
        write_styled(&mut out, word.as_str(), Label::Error);
    }
    let ghost middle = out@;
    if warnings != 0 {
        if errors != 0 {
            write_styled(&mut out, ", ", Label::Bold);
        }
        let s = if warnings == 1 {
            ""
        } else {
            "s"
        };
        let mut count = to_decimal(warnings);
        count.append(" ");
        write_styled(&mut out, count.as_str(), Label::Bold);
        let mut word = "warning".to_owned();
        word.append(s);
        write_styled(&mut out, word.as_str(), Label::Warning);
    }
    if errors != 0 || warnings != 0 {
        out.append("\n");
    }
    proof {
        assert(out@ =~= tally_text(warnings as nat, errors as nat));
    }
    out
}

} // verus!
