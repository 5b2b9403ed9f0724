//! The prompt line: the rendered prefix between a `$` and a `>`, each part in
//! its colour. Every colour code stands between two marker characters that
//! tell a line editor to count it as zero columns wide.

use vstd::prelude::*;

verus! {

/// The escape sequence that switches to yellow.
pub const YELLOW: &'static str = "\x1b[33m";

/// The escape sequence that switches to cyan.
pub const CYAN: &'static str = "\x1b[36m";

/// The escape sequence that switches to white.
pub const WHITE: &'static str = "\x1b[37m";

/// The escape sequence that switches back to the terminal's own colours.
pub const RESET: &'static str = "\x1b[0m";

/// The character that opens a run of zero width.
pub const MARKER_START: char = '\x01';

/// The character that closes a run of zero width.
pub const MARKER_END: char = '\x02';

/// An escape sequence between the two markers.
pub open spec fn marked(code: Seq<char>) -> Seq<char> {
    seq![MARKER_START] + code + seq![MARKER_END]
}

/// `text` in the colour that `color` switches to: the marked colour code, the
/// text as it stands, and the marked reset code.
pub open spec fn painted(text: Seq<char>, color: Seq<char>) -> Seq<char> {
    marked(color) + text + marked(RESET@)
}

/// The prompt for a rendered prefix: a yellow `$`, a space, the prefix in
/// cyan, a white `>` and a space.
pub open spec fn prompt_line(prefix: Seq<char>) -> Seq<char> {
    painted(seq!['$'], YELLOW@) + seq![' '] + painted(prefix, CYAN@) + painted(seq!['>'], WHITE@)
        + seq![' ']
}

/// `text` in the colour that the escape sequence `color` switches to.
fn paint(text: &str, color: &str) -> (out: String)
    ensures
        out@ == painted(text@, color@),
{
    let mut out = String::new();
    out.push(MARKER_START);
    out.append(color);
    out.push(MARKER_END);
    out.append(text);
    out.push(MARKER_START);
    out.append(RESET);
    out.push(MARKER_END);
    assert(out@ =~= painted(text@, color@));
    out
}

/// The prompt to show for the rendered prefix `prefix_display`.
pub fn format_prompt(prefix_display: &str) -> (prompt: String)
    ensures
        prompt@ == prompt_line(prefix_display@),
{
    let mut prompt = paint("$", YELLOW);
    prompt.push(' ');
    prompt.append(paint(prefix_display, CYAN).as_str());
    prompt.append(paint(">", WHITE).as_str());
    prompt.push(' ');
    proof {
        reveal_strlit("$");
        reveal_strlit(">");
        assert("$"@ =~= seq!['$']);
        assert(">"@ =~= seq!['>']);
        assert(prompt@ =~= prompt_line(prefix_display@));
    }
    prompt
}

} // verus!
