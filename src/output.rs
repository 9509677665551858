//! Laying out the chosen proverb for standard output.

use crossterm::tty::IsTty;
use vstd::prelude::*;

verus! {

/// The text reflowed by greedy (first-fit) word wrapping to lines of at most
/// `width` columns; a word longer than `width` is not broken and stands on a
/// line of its own.
pub uninterp spec fn filled(text: Seq<char>, width: usize) -> Seq<char>;

/// Relies on `textwrap::fill` with `Options::new(width)`, words not broken
/// (`break_words(false)`) and the first-fit algorithm
/// (`WrapAlgorithm::FirstFit`): the text reflowed greedily to lines of at
/// most `width` columns, joined by newlines, a longer word left whole on its
/// own line. It depends on the text and the width alone.
#[verifier::external_body]
fn fill_text(text: &str, width: usize) -> (r: String)
    ensures
        r@ == filled(text@, width),
{
    let options = textwrap::Options::new(width)
        .break_words(false)
        .wrap_algorithm(textwrap::WrapAlgorithm::FirstFit);
    textwrap::fill(text, options)
}

/// Relies on crossterm's `IsTty` for `std::io::stdout()`: whether standard
/// output is a terminal. That depends on how the process was started, so
/// nothing is stated of it.
#[verifier::external_body]
fn stdout_is_tty() -> (r: bool) {
    std::io::stdout().is_tty()
}

/// Relies on `crossterm::terminal::size`: the terminal's width in columns,
/// or `None` where the query fails. Nothing is stated of the value.
#[verifier::external_body]
fn terminal_columns() -> (r: Option<u16>) {
    match crossterm::terminal::size() {
        Ok((columns, _)) => Some(columns),
        Err(_) => None,
    }
}

/// The text as it is printed: reflowed to the terminal's width where output
/// goes to a terminal whose width is known, else unchanged.
pub open spec fn laid_out(text: Seq<char>, interactive: bool, width: Option<u16>) -> Seq<char> {
    match width {
        Some(w) if interactive => filled(text, w as usize),
        _ => text,
    }
}

/// The text as it is printed, for output that is (`interactive`) or is not
/// a terminal, and a terminal width that is known or not.
pub fn format_for_output(text: &str, interactive: bool, width: Option<u16>) -> (r: String)
    ensures
        r@ == laid_out(text@, interactive, width),
        !interactive ==> r@ == text@,
        width is None ==> r@ == text@,
{
    if !interactive {
        return text.to_owned();
    }
    match width {
        Some(w) => fill_text(text, w as usize),
        None => text.to_owned(),
    }
}

/// The text as it is printed to standard output: reflowed to the terminal's
/// width where standard output is a terminal whose width can be queried,
/// else unchanged.
pub fn wrap_if_needed(text: &str) -> (r: String)
    ensures
        exists|interactive: bool, width: Option<u16>| r@ == laid_out(text@, interactive, width),
{
    if !stdout_is_tty() {
        let r = format_for_output(text, false, None);
        assert(r@ == laid_out(text@, false, None));
        return r;
    }
    let width = terminal_columns();
    let r = format_for_output(text, true, width);
    assert(r@ == laid_out(text@, true, width));
    r
}

} // verus!
