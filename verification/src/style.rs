//! Terminal emphasis. The library computes plain text; emphasis is laid over
//! a finished piece of it, at the very end.

use colored::Colorize;
use vstd::prelude::*;
use crate::text::contains_text;

verus! {

/// The escape sequence that switches a foreground colour on.
pub open spec fn style_on(color: Seq<char>) -> Seq<char> {
    seq!['\x1B', '['] + color + seq!['m']
}

/// The escape sequence that switches all emphasis off.
pub open spec fn style_off() -> Seq<char> {
    seq!['\x1B', '[', '0', 'm']
}

/// The colour code of directory names.
pub open spec fn green_code() -> Seq<char> {
    seq!['3', '2']
}

/// The colour code of file paths in search output.
pub open spec fn blue_code() -> Seq<char> {
    seq!['3', '4']
}

/// `out` is `plain` with the emphasis `color` or without it. Whether a
/// terminal gets colour is decided outside this library, so both are allowed.
/// A text that already holds the switch-off sequence is rewritten when it is
/// coloured, and nothing is said of it here.
pub open spec fn emphasized(plain: Seq<char>, color: Seq<char>, out: Seq<char>) -> bool {
    ||| out == plain
    ||| out == style_on(color) + plain + style_off()
    ||| contains_text(plain, style_off())
}

/// Calls `colored::Colorize::green` and renders the result.
/// Trusted: `colored` writes the text unchanged when colouring is off, and
/// between the escape sequences `ESC[32m` and `ESC[0m` when it is on; only a
/// text that holds `ESC[0m` itself is altered in between.
#[verifier::external_body]
pub(crate) fn green(text: &str) -> (out: String)
    ensures
        emphasized(text@, green_code(), out@),
{
    text.green().to_string()
}

/// Calls `colored::Colorize::blue` and renders the result.
/// Trusted: `colored` writes the text unchanged when colouring is off, and
/// between the escape sequences `ESC[34m` and `ESC[0m` when it is on; only a
/// text that holds `ESC[0m` itself is altered in between.
#[verifier::external_body]
pub(crate) fn blue(text: &str) -> (out: String)
    ensures
        emphasized(text@, blue_code(), out@),
{
    text.blue().to_string()
}

} // verus!
