//! The banner the command-line front end prints above its help text.

use owo_colors::OwoColorize;
use vstd::prelude::*;

verus! {

/// The banner art itself, without any styling.
pub open spec fn spec_logo_art() -> Seq<char> {
    "\n ███████╗ ██████╗ █████╗ ██████╗ ███████╗██████╗ ███████╗███╗   ██╗ ██████╗██╗  ██╗\n ██╔════╝██╔════╝██╔══██╗██╔══██╗██╔════╝██╔══██╗██╔════╝████╗  ██║██╔════╝██║  ██║\n ███████╗██║     ███████║██████╔╝█████╗  ██████╔╝█████╗  ██╔██╗ ██║██║     ███████║\n ╚════██║██║     ██╔══██║██╔══██╗██╔══╝  ██╔══██╗██╔══╝  ██║╚██╗██║██║     ██╔══██║\n ███████║╚██████╗██║  ██║██║  ██║██║     ██████╔╝███████╗██║ ╚████║╚██████╗██║  ██║\n ╚══════╝ ╚═════╝╚═╝  ╚═╝╚═╝  ╚═╝╚═╝     ╚═════╝ ╚══════╝╚═╝  ╚═══╝ ╚═════╝╚═╝  ╚═╝"@
}

/// Relies on owo_colors' `bold` and `red`: their `Display` wraps the text
/// in the fixed ANSI codes for bold and the red foreground,
/// unconditionally.
#[verifier::external_body]
fn paint_bold_red(s: &str) -> (r: String)
    ensures
        r@ == "\u{1b}[31m\u{1b}[1m"@ + s@ + "\u{1b}[0m\u{1b}[39m"@,
{
    format!("{}", s.bold().red())
}

/// The banner: the art in bold red, wrapped in one more pair of bold-red
/// ANSI codes.
pub fn logo() -> (r: String)
    ensures
        r@ == "\u{1b}[1m\u{1b}[31m"@ + ("\u{1b}[31m\u{1b}[1m"@ + spec_logo_art()
            + "\u{1b}[0m\u{1b}[39m"@) + "\u{1b}[0m"@,
{
    let painted = paint_bold_red(
        "\n ███████╗ ██████╗ █████╗ ██████╗ ███████╗██████╗ ███████╗███╗   ██╗ ██████╗██╗  ██╗\n ██╔════╝██╔════╝██╔══██╗██╔══██╗██╔════╝██╔══██╗██╔════╝████╗  ██║██╔════╝██║  ██║\n ███████╗██║     ███████║██████╔╝█████╗  ██████╔╝█████╗  ██╔██╗ ██║██║     ███████║\n ╚════██║██║     ██╔══██║██╔══██╗██╔══╝  ██╔══██╗██╔══╝  ██║╚██╗██║██║     ██╔══██║\n ███████║╚██████╗██║  ██║██║  ██║██║     ██████╔╝███████╗██║ ╚████║╚██████╗██║  ██║\n ╚══════╝ ╚═════╝╚═╝  ╚═╝╚═╝  ╚═╝╚═╝     ╚═════╝ ╚══════╝╚═╝  ╚═══╝ ╚═════╝╚═╝  ╚═╝",
    );
    let mut r = "\u{1b}[1m\u{1b}[31m".to_owned();
    r.append(painted.as_str());
    r.append("\u{1b}[0m");
    proof {
        assert(r@ =~= "\u{1b}[1m\u{1b}[31m"@ + ("\u{1b}[31m\u{1b}[1m"@ + spec_logo_art()
            + "\u{1b}[0m\u{1b}[39m"@) + "\u{1b}[0m"@);
    }
    r
}

} // verus!
