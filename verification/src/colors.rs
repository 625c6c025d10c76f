//! Console colouring. The escape sequences come from an outside styling
//! crate whose output depends on the process environment: colours can be
//! switched off, and a console may take no ANSI codes at all. Every
//! contract here therefore states the full set of possible outputs, and
//! the text itself always sits verbatim between the decorations.

use vstd::prelude::*;
use vstd::string::StrSliceExecFns;
use vstd::string::StringExecFns;

use crossterm::style::Stylize;

use crate::strutil::concat_all;
use crate::strutil::lemma_concat_all_push;
use crate::strutil::split_char;
use crate::strutil::split_on;

verus! {

/// A control sequence: `ESC [`, the body, and the final `m`.
pub open spec fn csi(body: Seq<char>) -> Seq<char> {
    seq!['\u{1b}', '['] + body + seq!['m']
}

pub open spec fn fg_code_red() -> Seq<char> {
    seq!['3', '8', ';', '5', ';', '9']
}

pub open spec fn fg_code_green() -> Seq<char> {
    seq!['3', '8', ';', '5', ';', '1', '0']
}

pub open spec fn fg_code_yellow() -> Seq<char> {
    seq!['3', '8', ';', '5', ';', '1', '1']
}

pub open spec fn fg_code_blue() -> Seq<char> {
    seq!['3', '8', ';', '5', ';', '1', '2']
}

pub open spec fn fg_code_cyan() -> Seq<char> {
    seq!['3', '8', ';', '5', ';', '1', '4']
}

pub open spec fn fg_code_dark_blue() -> Seq<char> {
    seq!['3', '8', ';', '5', ';', '4']
}

/// The possible outputs of colouring `text` with a foreground colour:
/// plain where the console takes no ANSI codes, wrapped in empty escape
/// pairs where colours are disabled in the environment, or wrapped in the
/// colour code and a foreground reset.
pub open spec fn fg_styled_outcome(code: Seq<char>, text: Seq<char>, out: Seq<char>) -> bool {
    ||| out == text
    ||| out == csi(Seq::<char>::empty()) + text + csi(Seq::<char>::empty())
    ||| out == csi(code) + text + csi(seq!['3', '9'])
}

/// The possible outputs of emboldening `text`: plain where the console
/// takes no ANSI codes, or wrapped in the bold code and a full reset.
pub open spec fn bold_styled_outcome(text: Seq<char>, out: Seq<char>) -> bool {
    ||| out == text
    ||| out == csi(seq!['1']) + text + csi(seq!['0'])
}

/// Relies on crossterm's `Stylize::bold` and the `Display` of
/// `StyledContent`: the bold attribute and a reset around the text, or
/// the text alone on a console without ANSI codes.
#[verifier::external_body]
fn paint_bold(text: &str) -> (r: String)
    ensures
        bold_styled_outcome(text@, r@),
{
    format!("{}", text.bold())
}

/// Relies on crossterm's `Stylize::red` and the `Display` of
/// `StyledContent`: the red foreground sequence and a reset around the
/// text, empty escape pairs when colours are disabled, or the text alone.
#[verifier::external_body]
fn paint_red(text: &str) -> (r: String)
    ensures
        fg_styled_outcome(fg_code_red(), text@, r@),
{
    format!("{}", text.red())
}

/// Relies on crossterm's `Stylize::green`, as `paint_red` does for red.
#[verifier::external_body]
fn paint_green(text: &str) -> (r: String)
    ensures
        fg_styled_outcome(fg_code_green(), text@, r@),
{
    format!("{}", text.green())
}

/// Relies on crossterm's `Stylize::yellow`, as `paint_red` does for red.
#[verifier::external_body]
fn paint_yellow(text: &str) -> (r: String)
    ensures
        fg_styled_outcome(fg_code_yellow(), text@, r@),
{
    format!("{}", text.yellow())
}

/// Relies on crossterm's `Stylize::blue`, as `paint_red` does for red.
#[verifier::external_body]
fn paint_blue(text: &str) -> (r: String)
    ensures
        fg_styled_outcome(fg_code_blue(), text@, r@),
{
    format!("{}", text.blue())
}

/// Relies on crossterm's `Stylize::cyan`, as `paint_red` does for red.
#[verifier::external_body]
fn paint_cyan(text: &str) -> (r: String)
    ensures
        fg_styled_outcome(fg_code_cyan(), text@, r@),
{
    format!("{}", text.cyan())
}

/// Relies on crossterm's `Stylize::dark_blue`, as `paint_red` does for
/// red.
#[verifier::external_body]
fn paint_dark_blue(text: &str) -> (r: String)
    ensures
        fg_styled_outcome(fg_code_dark_blue(), text@, r@),
{
    format!("{}", text.dark_blue())
}

/// A heading: the text in bold.
pub fn fmt_head(text: &str) -> (r: String)
    ensures
        bold_styled_outcome(text@, r@),
{
    paint_bold(text)
}

/// A success message: the text in green.
pub fn fmt_success(text: &str) -> (r: String)
    ensures
        fg_styled_outcome(fg_code_green(), text@, r@),
{
    paint_green(text)
}

/// A warning: the text in yellow.
pub fn fmt_warn(text: &str) -> (r: String)
    ensures
        fg_styled_outcome(fg_code_yellow(), text@, r@),
{
    paint_yellow(text)
}

/// An informational message: the text in blue.
pub fn fmt_info(text: &str) -> (r: String)
    ensures
        fg_styled_outcome(fg_code_blue(), text@, r@),
{
    paint_blue(text)
}

/// An error message: the text in red.
pub fn fmt_error(text: &str) -> (r: String)
    ensures
        fg_styled_outcome(fg_code_red(), text@, r@),
{
    paint_red(text)
}

/// A file path: the text in cyan.
pub fn fmt_file(path: &str) -> (r: String)
    ensures
        fg_styled_outcome(fg_code_cyan(), path@, r@),
{
    paint_cyan(path)
}

/// A directory path: the text in dark blue.
pub fn fmt_dir(path: &str) -> (r: String)
    ensures
        fg_styled_outcome(fg_code_dark_blue(), path@, r@),
{
    paint_dark_blue(path)
}

/// A path coloured by its kind: dark blue when it ends in `/`, cyan
/// otherwise.
pub fn fmt_path(path: &str) -> (r: String)
    ensures
        path@.len() > 0 && path@[path@.len() - 1] == '/' ==> fg_styled_outcome(
            fg_code_dark_blue(),
            path@,
            r@,
        ),
        !(path@.len() > 0 && path@[path@.len() - 1] == '/') ==> fg_styled_outcome(
            fg_code_cyan(),
            path@,
            r@,
        ),
{
    let n = path.unicode_len();
    if n > 0 && path.get_char(n - 1) == '/' {
        fmt_dir(path)
    } else {
        fmt_file(path)
    }
}

/// A value with a placeholder: the placeholder in red when the value is
/// empty, else the value in green.
pub fn fmt_val(value: &str, empty_placeholder: &str) -> (r: String)
    ensures
        value@.len() == 0 ==> fg_styled_outcome(fg_code_red(), empty_placeholder@, r@),
        value@.len() > 0 ==> fg_styled_outcome(fg_code_green(), value@, r@),
{
    if value.unicode_len() == 0 {
        paint_red(empty_placeholder)
    } else {
        paint_green(value)
    }
}

/// One coloured fragment of a `/`-separated path: a dark-blue separator
/// before every part but the first, then the part itself — green when it
/// is the highlighted last one, cyan otherwise, nothing when empty.
pub open spec fn path_frag_ok(
    parts: Seq<Seq<char>>,
    i: int,
    highlight_last: bool,
    f: Seq<char>,
) -> bool {
    exists|sep: Seq<char>, body: Seq<char>|
        {
            &&& f == sep + body
            &&& (i == 0 ==> sep == Seq::<char>::empty())
            &&& (i > 0 ==> fg_styled_outcome(fg_code_dark_blue(), seq!['/'], sep))
            &&& (parts[i].len() == 0 ==> body == Seq::<char>::empty())
            &&& (parts[i].len() > 0 ==> fg_styled_outcome(
                if highlight_last && i == parts.len() - 1 {
                    fg_code_green()
                } else {
                    fg_code_cyan()
                },
                parts[i],
                body,
            ))
        }
}

/// The whole coloured rendering of a `/`-separated path: one fragment per
/// part, concatenated in order.
pub open spec fn styled_path_outcome(path: Seq<char>, highlight_last: bool, out: Seq<char>) -> bool {
    exists|frags: Seq<Seq<char>>|
        {
            &&& frags.len() == split_on(path, '/').len()
            &&& out == concat_all(frags)
            &&& forall|i: int|
                0 <= i < frags.len() ==> path_frag_ok(split_on(path, '/'), i, highlight_last, frags[i])
        }
}

fn styled_path(path: &str, highlight_last: bool) -> (r: String)
    ensures
        styled_path_outcome(path@, highlight_last, r@),
{
    let parts = split_char(path, '/');
    let ghost pv = split_on(path@, '/');
    let n = parts.len();
    let mut result = String::new();
    let ghost mut frags: Seq<Seq<char>> = Seq::empty();
    let mut i: usize = 0;
    while i < n
        invariant
            i <= n,
            n == parts@.len(),
            parts@.map_values(|p: String| p@) == pv,
            pv == split_on(path@, '/'),
            frags.len() == i,
            result@ == concat_all(frags),
            forall|j: int| 0 <= j < i ==> path_frag_ok(pv, j, highlight_last, frags[j]),
        decreases n - i,
    {
        let mut frag = String::new();
        let ghost mut sep_v: Seq<char> = Seq::empty();
        let ghost mut body_v: Seq<char> = Seq::empty();
        if i > 0 {
            let sep = paint_dark_blue("/");
            proof {
                reveal_strlit("/");
                assert("/"@ =~= seq!['/']);
                sep_v = sep@;
            }
            frag.append(sep.as_str());
        }
        let part_len = parts[i].as_str().unicode_len();
        proof {
            assert(parts@[i as int]@ == pv[i as int]);
        }
        if part_len > 0 {
            let body = if highlight_last && i + 1 == n {
                paint_green(parts[i].as_str())
            } else {
                paint_cyan(parts[i].as_str())
            };
            proof {
                body_v = body@;
            }
            frag.append(body.as_str());
        }
        proof {
            assert(frag@ =~= sep_v + body_v);
            assert(path_frag_ok(pv, i as int, highlight_last, frag@));
        }
        result.append(frag.as_str());
        proof {
            lemma_concat_all_push(frags, frag@);
            frags = frags.push(frag@);
        }
        i += 1;
    }
    proof {
        assert(styled_path_outcome(path@, highlight_last, result@));
    }
    result
}

/// A nested path with its last segment highlighted: separators in dark
/// blue, intermediate segments in cyan, the leaf in green.
pub fn fmt_nested_path(path: &str) -> (r: String)
    ensures
        styled_path_outcome(path@, true, r@),
{
    styled_path(path, true)
}

/// A directory path: separators in dark blue, every segment in cyan.
pub fn fmt_dir_path(path: &str) -> (r: String)
    ensures
        styled_path_outcome(path@, false, r@),
{
    styled_path(path, false)
}

} // verus!
