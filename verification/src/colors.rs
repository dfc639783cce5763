//! Status coloring for terminal messages.
//!
//! Each helper wraps the text in a fixed ANSI foreground escape sequence:
//! the output is the escape code, the text unchanged, then the
//! default-foreground code. The coloring depends on nothing but the text.

use owo_colors::OwoColorize;
use vstd::prelude::*;

verus! {

/// `s` wrapped in the green foreground escape codes.
pub open spec fn spec_green(s: Seq<char>) -> Seq<char> {
    "\u{1b}[32m"@ + s + "\u{1b}[39m"@
}

/// `s` wrapped in the red foreground escape codes.
pub open spec fn spec_red(s: Seq<char>) -> Seq<char> {
    "\u{1b}[31m"@ + s + "\u{1b}[39m"@
}

/// `s` wrapped in the blue foreground escape codes.
pub open spec fn spec_blue(s: Seq<char>) -> Seq<char> {
    "\u{1b}[34m"@ + s + "\u{1b}[39m"@
}

/// `s` wrapped in the yellow foreground escape codes.
pub open spec fn spec_yellow(s: Seq<char>) -> Seq<char> {
    "\u{1b}[33m"@ + s + "\u{1b}[39m"@
}

/// Relies on owo-colors' `OwoColorize::green`: its display form writes
/// `ESC[32m`, the text unchanged, then `ESC[39m`.
#[verifier::external_body]
fn green_text(s: &str) -> (r: String)
    ensures
        r@ == spec_green(s@),
{
    s.green().to_string()
}

/// Relies on owo-colors' `OwoColorize::red`: its display form writes
/// `ESC[31m`, the text unchanged, then `ESC[39m`.
#[verifier::external_body]
fn red_text(s: &str) -> (r: String)
    ensures
        r@ == spec_red(s@),
{
    s.red().to_string()
}

/// Relies on owo-colors' `OwoColorize::blue`: its display form writes
/// `ESC[34m`, the text unchanged, then `ESC[39m`.
#[verifier::external_body]
fn blue_text(s: &str) -> (r: String)
    ensures
        r@ == spec_blue(s@),
{
    s.blue().to_string()
}

/// Relies on owo-colors' `OwoColorize::yellow`: its display form writes
/// `ESC[33m`, the text unchanged, then `ESC[39m`.
#[verifier::external_body]
fn yellow_text(s: &str) -> (r: String)
    ensures
        r@ == spec_yellow(s@),
{
    s.yellow().to_string()
}

/// Status colors for terminal text: success is green, error red, info
/// blue, warning yellow.
pub trait ColorizeExt: View<V = Seq<char>> {
    /// The text in the success color.
    fn success(&self) -> (r: String)
        ensures
            r@ == spec_green(self@),
    ;

    /// The text in the error color.
    fn error(&self) -> (r: String)
        ensures
            r@ == spec_red(self@),
    ;

    /// The text in the informational color.
    fn info(&self) -> (r: String)
        ensures
            r@ == spec_blue(self@),
    ;

    /// The text in the warning color.
    fn warning(&self) -> (r: String)
        ensures
            r@ == spec_yellow(self@),
    ;
}

impl ColorizeExt for str {
    fn success(&self) -> (r: String) {
        green_text(self)
    }

    fn error(&self) -> (r: String) {
        red_text(self)
    }

    fn info(&self) -> (r: String) {
        blue_text(self)
    }

    fn warning(&self) -> (r: String) {
        yellow_text(self)
    }
}

} // verus!
