//! The lines the tool prints about what it does.

use vstd::prelude::*;
use vstd::string::*;
use crate::config::{SecretMapping, SecretView};
use crate::styles::{
    dimmed, painted, printable_ascii, spaces, style_and_align, styled, styled_aligned, AppStyles,
    TextStyle,
};
use crate::text::{decimal, push_decimal};

verus! {

/// The width of the label column.
pub open spec fn label_width() -> nat {
    12
}

/// How a secret is shown: its name, then its path in parentheses, dimmed
/// when colors are on.
pub open spec fn secret_text(s: SecretView, color: bool) -> Seq<char> {
    let path = "("@ + s.path + ")"@;
    s.name + " "@ + if color {
        painted("2"@, path)
    } else {
        path
    }
}

/// `text` in `style`, right-aligned in the label column by its visible
/// length.
pub open spec fn label(text: Seq<char>, style: TextStyle, color: bool) -> Seq<char> {
    styled_aligned(text, style, color, label_width())
}

/// A line about one secret: the label, then the secret.
pub open spec fn secret_line(text: Seq<char>, style: TextStyle, color: bool, s: SecretView) -> Seq<char> {
    " "@ + label(text, style, color) + " "@ + secret_text(s, color)
}

/// A line about a version: the label, then the version.
pub open spec fn version_line(text: Seq<char>, color: bool, version: Seq<char>) -> Seq<char> {
    " "@ + label(text, TextStyle::Bold, color) + " "@ + version
}

/// Builds the lines the tool prints. `color` says whether colors are on.
pub struct Reporter;

impl Reporter {
    /// How a secret is shown in a line.
    pub fn format_secret(secret: &SecretMapping, color: bool) -> (r: String)
        ensures
            r@ == secret_text(secret@, color),
    {
        let mut path = String::from_str("(");
        path.append(secret.path.as_str());
        path.append(")");
        let mut r = secret.name.clone();
        r.append(" ");
        if color {
            let d = dimmed(path.as_str());
            r.append(d.as_str());
        } else {
            r.append(path.as_str());
        }
        r
    }

    /// `text` in `style`, right-aligned in the label column.
    fn label(text: &str, style: TextStyle, color: bool) -> (r: String)
        requires
            printable_ascii(text@),
        ensures
            r@ == label(text@, style, color),
    {
        style_and_align(text, style, color, 12)
    }

    /// " " + the label + " " + the secret.
    fn labelled_secret(text: &str, style: TextStyle, secret: &SecretMapping, color: bool) -> (r: String)
        requires
            printable_ascii(text@),
        ensures
            r@ == secret_line(text@, style, color, secret@),
    {
        let mut r = String::from_str(" ");
        let l = Self::label(text, style, color);
        r.append(l.as_str());
        r.append(" ");
        let s = Self::format_secret(secret, color);
        r.append(s.as_str());
        r
    }

    /// The line for a secret whose file a dry run would update.
    pub fn would_update(secret: &SecretMapping, color: bool) -> (r: String)
        ensures
            r@ == secret_line("Would update"@, TextStyle::YellowBold, color, secret@),
    {
        proof {
            reveal_strlit("Would update");
        }
        Self::labelled_secret("Would update", TextStyle::YellowBold, secret, color)
    }

    /// The line for a secret whose file was updated.
    pub fn updated(secret: &SecretMapping, color: bool) -> (r: String)
        ensures
            r@ == secret_line("Updated"@, TextStyle::GreenBold, color, secret@),
    {
        proof {
            reveal_strlit("Updated");
        }
        Self::labelled_secret("Updated", TextStyle::GreenBold, secret, color)
    }

    /// The line for a secret whose file is up to date.
    pub fn up_to_date(secret: &SecretMapping, color: bool) -> (r: String)
        ensures
            r@ == secret_line("Up to date"@, TextStyle::CyanBold, color, secret@),
    {
        proof {
            reveal_strlit("Up to date");
        }
        Self::labelled_secret("Up to date", TextStyle::CyanBold, secret, color)
    }

    /// The line for a secret that was pushed.
    pub fn pushed(secret: &SecretMapping, color: bool) -> (r: String)
        ensures
            r@ == secret_line("Pushed"@, TextStyle::GreenBold, color, secret@),
    {
        proof {
            reveal_strlit("Pushed");
        }
        Self::labelled_secret("Pushed", TextStyle::GreenBold, secret, color)
    }

    /// The line for a `bws` call that hit the rate limit and is retried.
    pub fn retrying(secret: &SecretMapping, attempt: u32, max_attempts: u32, color: bool) -> (r: String)
        ensures
            r@ == secret_line("Retrying"@, TextStyle::BlueBold, color, secret@) + " (429, attempt "@
                + decimal(attempt as nat) + "/"@ + decimal(max_attempts as nat) + ")"@,
    {
        proof {
            reveal_strlit("Retrying");
        }
        let mut r = Self::labelled_secret("Retrying", TextStyle::BlueBold, secret, color);
        r.append(" (429, attempt ");
        push_decimal(&mut r, attempt);
        r.append("/");
        push_decimal(&mut r, max_attempts);
        r.append(")");
        r
    }

    /// " " + the label + " " + `rest`.
    fn labelled_text(text: &str, style: TextStyle, rest: &str, color: bool) -> (r: String)
        requires
            printable_ascii(text@),
        ensures
            r@ == " "@ + label(text@, style, color) + " "@ + rest@,
    {
        let mut r = String::from_str(" ");
        let l = Self::label(text, style, color);
        r.append(l.as_str());
        r.append(" ");
        r.append(rest);
        r
    }

    /// The line naming the running version.
    pub fn current_version(version: &str, color: bool) -> (r: String)
        ensures
            r@ == version_line("Current"@, color, version@),
    {
        proof {
            reveal_strlit("Current");
        }
        Self::labelled_text("Current", TextStyle::Bold, version, color)
    }

    /// The line naming the latest released version.
    pub fn latest_version(version: &str, color: bool) -> (r: String)
        ensures
            r@ == version_line("Latest"@, color, version@),
    {
        proof {
            reveal_strlit("Latest");
        }
        Self::labelled_text("Latest", TextStyle::Bold, version, color)
    }

    /// The line saying that no update is needed.
    pub fn already_up_to_date(color: bool) -> (r: String)
        ensures
            r@ == " "@ + styled("Already up to date."@, TextStyle::CyanBold, color),
    {
        let mut r = String::from_str(" ");
        let s = "Already up to date.".up_to_date(color);
        r.append(s.as_str());
        r
    }

    /// The line naming the archive being downloaded.
    pub fn downloading(url: &str, color: bool) -> (r: String)
        ensures
            r@ == " "@ + label("Downloading"@, TextStyle::BlueBold, color) + " "@ + url@,
    {
        proof {
            reveal_strlit("Downloading");
        }
        Self::labelled_text("Downloading", TextStyle::BlueBold, url, color)
    }

    /// The line saying that the binary was replaced by `version`.
    pub fn self_updated(version: &str, color: bool) -> (r: String)
        ensures
            r@ == " "@ + label("Updated"@, TextStyle::GreenBold, color) + " to "@ + version@,
    {
        proof {
            reveal_strlit("Updated");
        }
        let mut r = String::from_str(" ");
        let l = Self::label("Updated", TextStyle::GreenBold, color);
        r.append(l.as_str());
        r.append(" to ");
        r.append(version);
        r
    }
}

/// A label of at most 12 printable ASCII characters fills the label column:
/// it is its styled text after as many spaces as it is short of 12, so its
/// visible width is 12 with colors on or off.
pub proof fn lemma_label_fills_column(text: Seq<char>, style: TextStyle, color: bool)
    requires
        printable_ascii(text),
        text.len() <= label_width(),
    ensures
        label(text, style, color) == spaces((label_width() - text.len()) as nat) + styled(
            text,
            style,
            color,
        ),
{
    if text.len() == label_width() {
        assert(spaces(0) + styled(text, style, color) =~= styled(text, style, color));
    }
}

/// The secrets of every line line up: each label the tool prints takes the
/// 12 columns of the label column, with colors on or off.
pub proof fn lemma_labels_line_up(style: TextStyle, color: bool)
    ensures
        label("Would update"@, style, color) == spaces(0) + styled("Would update"@, style, color),
        label("Updated"@, style, color) == spaces(5) + styled("Updated"@, style, color),
        label("Up to date"@, style, color) == spaces(2) + styled("Up to date"@, style, color),
        label("Pushed"@, style, color) == spaces(6) + styled("Pushed"@, style, color),
        label("Retrying"@, style, color) == spaces(4) + styled("Retrying"@, style, color),
        label("Current"@, style, color) == spaces(5) + styled("Current"@, style, color),
        label("Latest"@, style, color) == spaces(6) + styled("Latest"@, style, color),
        label("Downloading"@, style, color) == spaces(1) + styled("Downloading"@, style, color),
{
    reveal_strlit("Would update");
    reveal_strlit("Updated");
    reveal_strlit("Up to date");
    reveal_strlit("Pushed");
    reveal_strlit("Retrying");
    reveal_strlit("Current");
    reveal_strlit("Latest");
    reveal_strlit("Downloading");
    lemma_label_fills_column("Would update"@, style, color);
    lemma_label_fills_column("Updated"@, style, color);
    lemma_label_fills_column("Up to date"@, style, color);
    lemma_label_fills_column("Pushed"@, style, color);
    lemma_label_fills_column("Retrying"@, style, color);
    lemma_label_fills_column("Current"@, style, color);
    lemma_label_fills_column("Latest"@, style, color);
    lemma_label_fills_column("Downloading"@, style, color);
}

} // verus!
