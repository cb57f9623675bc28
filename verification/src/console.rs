//! The lines that tell the user on the terminal what is going on.
use crate::text::{append_signed, signed_decimal};
use colored::Colorize;
use vstd::prelude::*;
use vstd::string::*;

verus! {

/// The escape sequence that switches to green.
pub open spec fn green_on() -> Seq<char> {
    "\x1b[32m"@
}

/// The escape sequence that switches to bright black.
pub open spec fn bright_black_on() -> Seq<char> {
    "\x1b[90m"@
}

/// The escape sequence that ends a colour.
pub open spec fn reset() -> Seq<char> {
    "\x1b[0m"@
}

/// The text with the colour switched on again behind each sequence in it that ends a colour.
pub open spec fn recoloured(text: Seq<char>, colour: Seq<char>) -> Seq<char>
    decreases text.len(),
{
    if text.len() == 0 {
        text
    } else {
        let head = recoloured(text.drop_last(), colour).push(text.last());
        if reset().is_suffix_of(text) {
            head + colour
        } else {
            head
        }
    }
}

/// The text between the sequence `before` and the one that ends a colour, with `again` behind each
/// such sequence inside.
pub open spec fn framed(text: Seq<char>, before: Seq<char>, again: Seq<char>) -> Seq<char> {
    before + recoloured(text, again) + reset()
}

/// `shown` is the text as a terminal gets it: as it is where colours are off, and in the colour
/// where they are on. Where another thread switches colours while the text is being written, the
/// sequence of the colour can be missing in front, inside or in both places.
pub open spec fn painted(shown: Seq<char>, text: Seq<char>, colour: Seq<char>) -> bool {
    ||| shown == text
    ||| shown == framed(text, colour, colour)
    ||| shown == framed(text, colour, Seq::empty())
    ||| shown == framed(text, Seq::empty(), colour)
    ||| shown == framed(text, Seq::empty(), Seq::empty())
}

/// Nothing is inserted into a text without escape characters.
pub proof fn law_text_without_escapes_is_unchanged(text: Seq<char>, colour: Seq<char>)
    requires
        !text.contains('\x1b'),
    ensures
        recoloured(text, colour) == text,
    decreases text.len(),
{
    if text.len() > 0 {
        let rest = text.drop_last();
        assert(!rest.contains('\x1b')) by {
            if rest.contains('\x1b') {
                let k = choose|k: int| 0 <= k < rest.len() && rest[k] == '\x1b';
                assert(text[k] == '\x1b');
            }
        }
        law_text_without_escapes_is_unchanged(rest, colour);
        assert(!reset().is_suffix_of(text)) by {
            reveal_strlit("\x1b[0m");
            if reset().is_suffix_of(text) {
                assert(reset()[0] == '\x1b');
                assert(text[text.len() - reset().len()] == '\x1b');
            }
        }
        assert(rest.push(text.last()) =~= text);
    }
}

/// The line is the words followed by the text in the colour.
pub open spec fn ends_painted(
    line: Seq<char>,
    words: Seq<char>,
    text: Seq<char>,
    colour: Seq<char>,
) -> bool {
    exists|shown: Seq<char>| #[trigger] painted(shown, text, colour) && line == words + shown
}

/// Calls `colored::Colorize::green` on a string slice and formats what it returns: the text in
/// green, with green switched on again behind each sequence in it that ends a colour, or the text
/// as it is where colours are off. Whether they are on, the environment decides, or the process by
/// `colored::control`; the call reads it anew for each sequence that it writes.
#[verifier::external_body]
fn green(text: &str) -> (shown: String)
    ensures
        painted(shown@, text@, green_on()),
{
    text.green().to_string()
}

/// Calls `colored::Colorize::bright_black` on a string slice and formats what it returns: the text
/// in bright black, with bright black switched on again behind each sequence in it that ends a
/// colour, or the text as it is where colours are off. Whether they are on, the environment
/// decides, or the process by `colored::control`; the call reads it anew for each sequence that it
/// writes.
#[verifier::external_body]
fn bright_black(text: &str) -> (shown: String)
    ensures
        painted(shown@, text@, bright_black_on()),
{
    text.bright_black().to_string()
}

/// Announces a process that is about to start.
pub fn starting_line(name: &str) -> (line: String)
    ensures
        ends_painted(line@, "> starting process "@, name@, green_on()),
{
    let shown = green(name);
    "> starting process ".to_string().concat(shown.as_str())
}

/// The mark behind the announcement of a step that went well.
pub fn done_mark() -> (mark: String)
    ensures
        painted(mark@, "\t\u{2713}"@, green_on()),
{
    green("\t\u{2713}")
}

/// The command that brought a process up.
pub fn command_line(up: &str) -> (line: String)
    ensures
        ends_painted(line@, "\t"@, "- "@ + up@, bright_black_on()),
{
    let item = "- ".to_string().concat(up);
    let shown = bright_black(item.as_str());
    "\t".to_string().concat(shown.as_str())
}

/// Tells where the daemon listens for signals.
pub fn listening_line() -> (line: String)
    ensures
        ends_painted(
            line@,
            "> waiting for start/stop signals on "@,
            "http://localhost:3030"@,
            green_on(),
        ),
{
    let shown = green("http://localhost:3030");
    "> waiting for start/stop signals on ".to_string().concat(shown.as_str())
}

/// Tells which run the metrics that are collected belong to.
pub fn collecting_line(run_id: i32) -> (line: String)
    ensures
        line@ == "> collecting data for run "@ + signed_decimal(run_id as int),
{
    let mut line = "> collecting data for run ".to_string();
    append_signed(&mut line, run_id);
    line
}

/// A line that ends with a painted text without escape characters shows the words first and then
/// the text whole, with nothing in between but, where it is there, the sequence of the colour, and
/// nothing behind but, where it is there, the sequence that ends a colour.
pub proof fn law_line_shows_words_and_text(
    line: Seq<char>,
    words: Seq<char>,
    text: Seq<char>,
    colour: Seq<char>,
)
    requires
        ends_painted(line, words, text, colour),
        !text.contains('\x1b'),
    ensures
        line == words + text || line == words + colour + text + "\x1b[0m"@ || line == words + text
            + "\x1b[0m"@,
{
    let shown = choose|shown: Seq<char>| #[trigger]
        painted(shown, text, colour) && line == words + shown;
    law_painted_shows_text(shown, text, colour);
    assert(words + (colour + text + "\x1b[0m"@) =~= words + colour + text + "\x1b[0m"@);
    assert(words + (text + "\x1b[0m"@) =~= words + text + "\x1b[0m"@);
}

/// A painted text without escape characters is shown whole, by itself or before the sequence that
/// ends a colour, with or without the sequence of the colour in front.
pub proof fn law_painted_shows_text(shown: Seq<char>, text: Seq<char>, colour: Seq<char>)
    requires
        painted(shown, text, colour),
        !text.contains('\x1b'),
    ensures
        shown == text || shown == colour + text + "\x1b[0m"@ || shown == text + "\x1b[0m"@,
{
    law_text_without_escapes_is_unchanged(text, colour);
    law_text_without_escapes_is_unchanged(text, Seq::empty());
    assert(Seq::<char>::empty() + text =~= text);
}

} // verus!
