//! Text in the colors of a terminal.
use owo_colors::OwoColorize;
use vstd::prelude::*;

verus! {

pub open spec fn yellow_text(s: Seq<char>) -> Seq<char> {
    "\x1b[33m"@ + s + "\x1b[39m"@
}

pub open spec fn cyan_text(s: Seq<char>) -> Seq<char> {
    "\x1b[36m"@ + s + "\x1b[39m"@
}

pub open spec fn grey_text(s: Seq<char>) -> Seq<char> {
    "\x1b[90m"@ + s + "\x1b[39m"@
}

pub open spec fn red_text(s: Seq<char>) -> Seq<char> {
    "\x1b[31m"@ + s + "\x1b[39m"@
}

pub open spec fn green_text(s: Seq<char>) -> Seq<char> {
    "\x1b[32m"@ + s + "\x1b[39m"@
}

pub open spec fn blue_text(s: Seq<char>) -> Seq<char> {
    "\x1b[34m"@ + s + "\x1b[39m"@
}

pub open spec fn magenta_text(s: Seq<char>) -> Seq<char> {
    "\x1b[35m"@ + s + "\x1b[39m"@
}

pub open spec fn bright_blue_text(s: Seq<char>) -> Seq<char> {
    "\x1b[94m"@ + s + "\x1b[39m"@
}

pub open spec fn bold_text(s: Seq<char>) -> Seq<char> {
    "\x1b[1m"@ + s + "\x1b[0m"@
}

/// `OwoColorize::yellow`: the text between the codes for yellow and for the
/// default color.
#[verifier::external_body]
pub(crate) fn yellow(s: &str) -> (r: String)
    ensures
        r@ == yellow_text(s@),
{
    s.yellow().to_string()
}

/// `OwoColorize::cyan`: the text between the codes for cyan and for the default
/// color.
#[verifier::external_body]
pub(crate) fn cyan(s: &str) -> (r: String)
    ensures
        r@ == cyan_text(s@),
{
    s.cyan().to_string()
}

/// `OwoColorize::bright_black`: the text between the codes for bright black and
/// for the default color.
#[verifier::external_body]
pub(crate) fn grey(s: &str) -> (r: String)
    ensures
        r@ == grey_text(s@),
{
    s.bright_black().to_string()
}

/// `OwoColorize::red`: the text between the codes for red and for the default
/// color.
#[verifier::external_body]
pub(crate) fn red(s: &str) -> (r: String)
    ensures
        r@ == red_text(s@),
{
    s.red().to_string()
}

/// `OwoColorize::green`: the text between the codes for green and for the
/// default color.
#[verifier::external_body]
pub(crate) fn green(s: &str) -> (r: String)
    ensures
        r@ == green_text(s@),
{
    s.green().to_string()
}

/// `OwoColorize::blue`: the text between the codes for blue and for the default
/// color.
#[verifier::external_body]
pub(crate) fn blue(s: &str) -> (r: String)
    ensures
        r@ == blue_text(s@),
{
    s.blue().to_string()
}

/// `OwoColorize::magenta`: the text between the codes for magenta and for the
/// default color.
#[verifier::external_body]
pub(crate) fn magenta(s: &str) -> (r: String)
    ensures
        r@ == magenta_text(s@),
{
    s.magenta().to_string()
}

/// `OwoColorize::bright_blue`: the text between the codes for bright blue and
/// for the default color.
#[verifier::external_body]
pub(crate) fn bright_blue(s: &str) -> (r: String)
    ensures
        r@ == bright_blue_text(s@),
{
    s.bright_blue().to_string()
}

/// `OwoColorize::bold`: the text between the codes that turn bold on and every
/// style off.
#[verifier::external_body]
pub(crate) fn bold(s: &str) -> (r: String)
    ensures
        r@ == bold_text(s@),
{
    s.bold().to_string()
}

} // verus!
