//! Terminal colouring: wrapping text in ANSI colour escapes when colour
//! output is enabled, and passing it through untouched when it is not.
use vstd::prelude::*;

verus! {

/// `text` wrapped in an ANSI escape: ESC `[` code `m` text ESC `[0m`.
pub open spec fn ansi_wrapped(code: Seq<char>, text: Seq<char>) -> Seq<char> {
    "\u{1b}["@ + code + "m"@ + text + "\u{1b}[0m"@
}

/// What `colorize` returns: the wrapped text when enabled, the text itself
/// otherwise.
pub open spec fn colorize_spec(text: Seq<char>, code: Seq<char>, enabled: bool) -> Seq<char> {
    if enabled {
        ansi_wrapped(code, text)
    } else {
        text
    }
}

pub fn colorize(text: &str, code: &str, enabled: bool) -> (r: String)
    ensures
        r@ == colorize_spec(text@, code@, enabled),
{
    if enabled {
        let mut out = String::from_str("\u{1b}[");
        out.append(code);
        out.append("m");
        out.append(text);
        out.append("\u{1b}[0m");
        out
    } else {
        String::from_str(text)
    }
}

pub fn green(text: &str, enabled: bool) -> (r: String)
    ensures
        r@ == colorize_spec(text@, "32"@, enabled),
{
    colorize(text, "32", enabled)
}

pub fn muted(text: &str, enabled: bool) -> (r: String)
    ensures
        r@ == colorize_spec(text@, "90"@, enabled),
{
    colorize(text, "90", enabled)
}

/// The line echoed for a choice answered in replay mode: the prompt, the
/// chosen option (coloured green when enabled), and a non-interactive note.
pub fn replay_echo(prompt: &str, answer: &str, enabled: bool) -> (r: String)
    ensures
        r@ == prompt@ + ": "@ + colorize_spec(answer@, "32"@, enabled) + " (non-interactive)"@,
{
    let mut out = String::from_str(prompt);
    out.append(": ");
    let g = green(answer, enabled);
    out.append(g.as_str());
    out.append(" (non-interactive)");
    out
}

} // verus!
