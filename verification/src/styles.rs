//! Terminal styling: ANSI colors that can be switched off, and right
//! alignment that ignores escape sequences when measuring width.

use vstd::prelude::*;
use vstd::string::*;
use owo_colors::OwoColorize;

verus! {

/// The ANSI "select graphic rendition" sequence for `code`.
pub open spec fn sgr(code: Seq<char>) -> Seq<char> {
    "\x1b["@ + code + "m"@
}

/// `text` rendered with the graphic rendition `code`, then reset.
pub open spec fn painted(code: Seq<char>, text: Seq<char>) -> Seq<char> {
    sgr(code) + text + sgr("0"@)
}

/// `OwoColorize::dimmed`, displayed: `text` between the dim sequence and the
/// reset sequence.
#[verifier::external_body]
pub(crate) fn dimmed(text: &str) -> (r: String)
    ensures
        r@ == painted("2"@, text@),
{
    text.dimmed().to_string()
}

/// `OwoColorize::style` with `Style::new().green().bold()`, displayed.
#[verifier::external_body]
fn green_bold(text: &str) -> (r: String)
    ensures
        r@ == painted("32;1"@, text@),
{
    text.style(owo_colors::Style::new().green().bold()).to_string()
}

/// `OwoColorize::style` with `Style::new().cyan().bold()`, displayed.
#[verifier::external_body]
fn cyan_bold(text: &str) -> (r: String)
    ensures
        r@ == painted("36;1"@, text@),
{
    text.style(owo_colors::Style::new().cyan().bold()).to_string()
}

/// `OwoColorize::style` with `Style::new().blue().bold()`, displayed.
#[verifier::external_body]
fn blue_bold(text: &str) -> (r: String)
    ensures
        r@ == painted("34;1"@, text@),
{
    text.style(owo_colors::Style::new().blue().bold()).to_string()
}

/// `OwoColorize::style` with `Style::new().yellow().bold()`, displayed.
#[verifier::external_body]
fn yellow_bold(text: &str) -> (r: String)
    ensures
        r@ == painted("33;1"@, text@),
{
    text.style(owo_colors::Style::new().yellow().bold()).to_string()
}

/// `OwoColorize::style` with `Style::new().bold()`, displayed.
#[verifier::external_body]
fn bold(text: &str) -> (r: String)
    ensures
        r@ == painted("1"@, text@),
{
    text.style(owo_colors::Style::new().bold()).to_string()
}

/// The styles the tool prints with.
#[derive(Clone, Copy, Debug, PartialEq, Eq, Structural)]
pub enum TextStyle {
    GreenBold,
    CyanBold,
    BlueBold,
    YellowBold,
    Bold,
}

/// The graphic rendition of a style.
pub open spec fn style_code(style: TextStyle) -> Seq<char> {
    match style {
        TextStyle::GreenBold => "32;1"@,
        TextStyle::CyanBold => "36;1"@,
        TextStyle::BlueBold => "34;1"@,
        TextStyle::YellowBold => "33;1"@,
        TextStyle::Bold => "1"@,
    }
}

/// `text` in `style` when colors are on, plain otherwise.
pub open spec fn styled(text: Seq<char>, style: TextStyle, color: bool) -> Seq<char> {
    if color {
        painted(style_code(style), text)
    } else {
        text
    }
}

/// Application styles. `color` is whether colored output is wanted, that
/// is, whether the `NO_COLOR` environment variable is unset.
pub trait AppStyles {
    /// Something that changed.
    fn updated(&self, color: bool) -> String;

    /// Something already current.
    fn up_to_date(&self, color: bool) -> String;

    /// Something in progress.
    fn waiting(&self, color: bool) -> String;

    /// Something that would change.
    fn would_update(&self, color: bool) -> String;

    /// The label of a field.
    fn field_label(&self, color: bool) -> String;

    /// Applies `style` unless colors are off.
    fn style_if_supported(&self, style: TextStyle, color: bool) -> String;
}

impl AppStyles for str {
    fn updated(&self, color: bool) -> (r: String)
        ensures
            r@ == styled(self@, TextStyle::GreenBold, color),
    {
        self.style_if_supported(TextStyle::GreenBold, color)
    }

    fn up_to_date(&self, color: bool) -> (r: String)
        ensures
            r@ == styled(self@, TextStyle::CyanBold, color),
    {
        self.style_if_supported(TextStyle::CyanBold, color)
    }

    fn waiting(&self, color: bool) -> (r: String)
        ensures
            r@ == styled(self@, TextStyle::BlueBold, color),
    {
        self.style_if_supported(TextStyle::BlueBold, color)
    }

    fn would_update(&self, color: bool) -> (r: String)
        ensures
            r@ == styled(self@, TextStyle::YellowBold, color),
    {
        self.style_if_supported(TextStyle::YellowBold, color)
    }

    fn field_label(&self, color: bool) -> (r: String)
        ensures
            r@ == styled(self@, TextStyle::Bold, color),
    {
        self.style_if_supported(TextStyle::Bold, color)
    }

    fn style_if_supported(&self, style: TextStyle, color: bool) -> (r: String)
        ensures
            r@ == styled(self@, style, color),
    {
        if !color {
            return String::from_str(self);
        }
        match style {
            TextStyle::GreenBold => green_bold(self),
            TextStyle::CyanBold => cyan_bold(self),
            TextStyle::BlueBold => blue_bold(self),
            TextStyle::YellowBold => yellow_bold(self),
            TextStyle::Bold => bold(self),
        }
    }
}

/// Whether every character of `s` is printable ASCII (space to `~`).
pub open spec fn printable_ascii(s: Seq<char>) -> bool {
    forall|i: int| 0 <= i < s.len() ==> 0x20 <= #[trigger] (s[i] as u32) <= 0x7e
}

/// The terminal width of `s` as `console::measure_text_width` measures it;
/// only used where `s` is not printable ASCII.
pub uninterp spec fn display_width(s: Seq<char>) -> nat;

/// Whether `c` is an ASCII decimal digit.
pub open spec fn is_ascii_digit(c: char) -> bool {
    0x30 <= (c as u32) <= 0x39
}

/// A graphic-rendition code that `console` recognises as part of its escape
/// sequence: digits and `;`, with no run of more than four digits.
pub open spec fn is_sgr_code(code: Seq<char>) -> bool {
    &&& forall|i: int| 0 <= i < code.len() ==> is_ascii_digit(#[trigger] code[i]) || code[i] == ';'
    &&& forall|i: int| 0 <= i && i + 5 <= code.len() ==> !#[trigger] five_digits_at(code, i)
}

/// Whether `code` holds five digits in a row from position `i`.
pub open spec fn five_digits_at(code: Seq<char>, i: int) -> bool {
    is_ascii_digit(code[i]) && is_ascii_digit(code[i + 1]) && is_ascii_digit(code[i + 2])
        && is_ascii_digit(code[i + 3]) && is_ascii_digit(code[i + 4])
}

/// `n` spaces.
pub open spec fn spaces(n: nat) -> Seq<char> {
    Seq::new(n, |_i: int| ' ')
}

/// `s`, of terminal width `w`, padded on the left with spaces to `width`.
pub open spec fn padded_left(s: Seq<char>, w: nat, width: nat) -> Seq<char> {
    if w >= width {
        s
    } else {
        spaces((width - w) as nat) + s
    }
}

/// The terminal width of `s`: its length when it is printable ASCII.
pub open spec fn text_width(s: Seq<char>) -> nat {
    if printable_ascii(s) {
        s.len()
    } else {
        display_width(s)
    }
}

/// `s` right-aligned to `width` terminal columns.
pub open spec fn aligned_right(s: Seq<char>, width: nat) -> Seq<char> {
    padded_left(s, text_width(s), width)
}

/// `console::pad_str(s, width, Alignment::Right, None)`: `s` with spaces in
/// front up to `width` columns, unchanged when it is already that wide. A
/// printable ASCII string is as wide as it is long; printable ASCII text
/// wrapped in a graphic-rendition sequence and a reset is as wide as the text,
/// the escape sequences not counted (`measure_text_width` with the default
/// `ansi-parsing` feature); the width of any other string is named by
/// `display_width`.
#[verifier::external_body]
fn pad_str_right(s: &str, width: usize) -> (r: String)
    ensures
        r@ == padded_left(
            s@,
            if printable_ascii(s@) {
                s@.len()
            } else {
                display_width(s@)
            },
            width as nat,
        ),
        forall|code: Seq<char>, t: Seq<char>|
            #![trigger painted(code, t)]
            s@ == painted(code, t) && is_sgr_code(code) && printable_ascii(t) ==> r@
                == padded_left(s@, t.len(), width as nat),
{
    console::pad_str(s, width, console::Alignment::Right, None).into_owned()
}

/// Right alignment that ignores ANSI escape sequences.
pub trait AnsiPadding {
    /// The text right-aligned to `width` terminal columns.
    fn align_right(&self, width: usize) -> String;
}

impl AnsiPadding for str {
    fn align_right(&self, width: usize) -> (r: String)
        ensures
            r@ == aligned_right(self@, width as nat),
            forall|code: Seq<char>, t: Seq<char>|
                #![trigger painted(code, t)]
                self@ == painted(code, t) && is_sgr_code(code) && printable_ascii(t) ==> r@
                    == padded_left(self@, t.len(), width as nat),
    {
        pad_str_right(self, width)
    }
}

/// Every style the tool prints with is a code that `console` skips when it
/// measures width.
pub proof fn lemma_style_codes_are_sgr(style: TextStyle)
    ensures
        is_sgr_code(style_code(style)),
{
    reveal_strlit("32;1");
    reveal_strlit("36;1");
    reveal_strlit("34;1");
    reveal_strlit("33;1");
    reveal_strlit("1");
}

/// `text` in `style` (or plain without colors), right-aligned to `width`
/// columns by its visible length.
pub open spec fn styled_aligned(text: Seq<char>, style: TextStyle, color: bool, width: nat) -> Seq<char> {
    padded_left(styled(text, style, color), text.len(), width)
}

/// Styles printable ASCII text and right-aligns it by its visible length.
pub fn style_and_align(text: &str, style: TextStyle, color: bool, width: usize) -> (r: String)
    requires
        printable_ascii(text@),
    ensures
        r@ == styled_aligned(text@, style, color, width as nat),
{
    let s = text.style_if_supported(style, color);
    let r = s.as_str().align_right(width);
    proof {
        if color {
            lemma_style_codes_are_sgr(style);
            assert(s@ == painted(style_code(style), text@));
        }
    }
    r
}

} // verus!
