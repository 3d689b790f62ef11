//! ANSI color helpers: each function wraps its text in one color code and
//! the reset code.

use vstd::prelude::*;

verus! {

fn wrap(prefix: &str, text: &str) -> (r: String)
    ensures
        r@ == prefix@ + text@ + "\u{001b}[0m"@,
{
    let mut s = String::new();
    s.append(prefix);
    s.append(text);
    s.append("\u{001b}[0m");
    proof {
        assert(s@ =~= prefix@ + text@ + "\u{001b}[0m"@);
    }
    s
}

pub fn red(text: &str) -> (r: String)
    ensures
        r@ == "\u{001b}[31m"@ + text@ + "\u{001b}[0m"@,
{
    wrap("\u{001b}[31m", text)
}

pub fn green(text: &str) -> (r: String)
    ensures
        r@ == "\u{001b}[32m"@ + text@ + "\u{001b}[0m"@,
{
    wrap("\u{001b}[32m", text)
}

pub fn yellow(text: &str) -> (r: String)
    ensures
        r@ == "\u{001b}[33m"@ + text@ + "\u{001b}[0m"@,
{
    wrap("\u{001b}[33m", text)
}

pub fn magenta(text: &str) -> (r: String)
    ensures
        r@ == "\u{001b}[35m"@ + text@ + "\u{001b}[0m"@,
{
    wrap("\u{001b}[35m", text)
}

pub fn cyan(text: &str) -> (r: String)
    ensures
        r@ == "\u{001b}[36m"@ + text@ + "\u{001b}[0m"@,
{
    wrap("\u{001b}[36m", text)
}

pub fn gray(text: &str) -> (r: String)
    ensures
        r@ == "\u{001b}[90m"@ + text@ + "\u{001b}[0m"@,
{
    wrap("\u{001b}[90m", text)
}

pub fn bold(text: &str) -> (r: String)
    ensures
        r@ == "\u{001b}[1m"@ + text@ + "\u{001b}[0m"@,
{
    wrap("\u{001b}[1m", text)
}

} // verus!
