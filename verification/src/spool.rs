//! Formatting of notices for tool output that was spooled to a file.
//!
//! The spool path arrives as its display text (`Path::display`), which the
//! caller renders.

use vstd::prelude::*;
use crate::text::{char_from_ascii_code, chars_of, dec, extend_str, line_count, lines, push_dec, string_from};

verus! {

/// What `str::to_uppercase` returns for a string.
pub uninterp spec fn unicode_uppercase(s: Seq<char>) -> Seq<char>;

pub open spec fn ascii_upper_char(c: char) -> char {
    if 'a' <= c <= 'z' {
        ((c as u32) - 32) as char
    } else {
        c
    }
}

/// `str::to_uppercase`: the Unicode uppercase mapping of every character.
/// Stated: the result is a function of the text alone, and on ASCII text it
/// is the ASCII uppercase mapping. The mapping of other characters (which
/// may change the length) is left unstated.
#[verifier::external_body]
fn to_uppercase(s: &str) -> (r: String)
    ensures
        r@ == unicode_uppercase(s@),
        vstd::utf8::is_ascii_chars(s@) ==> r@ == s@.map_values(|c: char| ascii_upper_char(c)),
{
    s.to_uppercase()
}

/// The uppercase of a text: the ASCII uppercase of ASCII text, otherwise
/// its Unicode uppercase mapping.
pub open spec fn uppercase_text(t: Seq<char>) -> Seq<char> {
    if vstd::utf8::is_ascii_chars(t) {
        t.map_values(|c: char| ascii_upper_char(c))
    } else {
        unicode_uppercase(t)
    }
}

pub open spec fn spool_hint_text(log_path: Seq<char>) -> Seq<char> {
    "Large output was spooled to \""@ + log_path
        + "\". Use exec_command with shell tools such as cat, sed, or rg to inspect details."@
}

/// Format a spool notification string for use in follow-up hints.
pub fn format_spool_hint(log_path: &str) -> (r: String)
    ensures
        r@ == spool_hint_text(log_path@),
{
    let mut out = chars_of("Large output was spooled to \"");
    extend_str(&mut out, log_path);
    extend_str(&mut out, "\". Use exec_command with shell tools such as cat, sed, or rg to inspect details.");
    string_from(&out)
}

pub open spec fn spool_notification_text(
    bytes: nat,
    content: Seq<char>,
    log_path: Seq<char>,
    title: Option<Seq<char>>,
) -> Seq<char> {
    let line_total = lines(content).len();
    match title {
        Some(t) if t.len() > 0 => "["@ + uppercase_text(t) + "] "@ + dec(bytes) + " bytes, "@ + dec(line_total)
            + " lines \u{2014} spooled to: "@ + log_path,
        _ => "Command output too large ("@ + dec(bytes) + " bytes, "@ + dec(line_total)
            + " lines), spooled to: "@ + log_path,
    }
}

pub open spec fn opt_str_view(o: Option<&str>) -> Option<Seq<char>> {
    match o {
        Some(s) => Some(s@),
        None => None,
    }
}

/// Format a spool notification message for display: byte and line counts of
/// the spooled content, and the file it went to, under an uppercased title
/// when one is given.
pub fn format_spool_notification(content: &str, log_path: &str, title: Option<&str>) -> (r: String)
    ensures
        r@ == spool_notification_text(content.len() as nat, content@, log_path@, opt_str_view(title)),
{
    let bytes = content.len();
    let content_chars = chars_of(content);
    let line_total = line_count(&content_chars);
    let mut out: Vec<char> = Vec::new();
    match title {
        Some(t) if !t.is_empty() => {
            let upper = to_uppercase(t);
            out = chars_of("[");
            extend_str(&mut out, upper.as_str());
            extend_str(&mut out, "] ");
            push_dec(&mut out, bytes);
            extend_str(&mut out, " bytes, ");
            push_dec(&mut out, line_total);
            extend_str(&mut out, " lines \u{2014} spooled to: ");
            extend_str(&mut out, log_path);
            assert(out@ == "["@ + uppercase_text(t@) + "] "@ + dec(bytes as nat) + " bytes, "@
                + dec(line_total as nat) + " lines \u{2014} spooled to: "@ + log_path@);
        },
        _ => {
            out = chars_of("Command output too large (");
            push_dec(&mut out, bytes);
            extend_str(&mut out, " bytes, ");
            push_dec(&mut out, line_total);
            extend_str(&mut out, " lines), spooled to: ");
            extend_str(&mut out, log_path);
            assert(out@ == "Command output too large ("@ + dec(bytes as nat) + " bytes, "@
                + dec(line_total as nat) + " lines), spooled to: "@ + log_path@);
        },
    }
    string_from(&out)
}

/// Output longer than this many bytes is not previewed at all once spooled.
pub const EXTREME_OUTPUT_THRESHOLD_MB: usize = 2_000_000;

pub open spec fn ascii_uppercase(s: Seq<char>) -> Seq<char> {
    s.map_values(|c: char| ascii_upper_char(c))
}

/// `str::to_ascii_uppercase`.
pub fn to_ascii_uppercase(s: &str) -> (r: String)
    ensures
        r@ == ascii_uppercase(s@),
{
    let v = chars_of(s);
    let mut out: Vec<char> = Vec::new();
    let mut i: usize = 0;
    while i < v.len()
        invariant
            i <= v@.len(),
            v@ == s@,
            out@ == ascii_uppercase(v@.take(i as int)),
        decreases v.len() - i,
    {
        let c = v[i];
        let u = if 'a' <= c && c <= 'z' {
            let code: u32 = (c as u32) - 32;
            char_from_ascii_code(code)
        } else {
            c
        };
        out.push(u);
        assert(ascii_uppercase(v@.take(i + 1)) =~= ascii_uppercase(v@.take(i as int)).push(ascii_upper_char(c)));
        i += 1;
    }
    assert(v@.take(i as int) =~= v@);
    string_from(&out)
}

/// The rows that announce a spooled stream section: when the output is too
/// large to preview, that it was spooled and that the preview is skipped;
/// else the section's title (uppercased, `OUTPUT` when empty), its size and
/// line count and where it went.
pub open spec fn spooled_section_rows(title: Seq<char>, bytes: nat, total_lines: nat, log_path: Seq<char>) -> Seq<
    Seq<char>,
> {
    if bytes > EXTREME_OUTPUT_THRESHOLD_MB {
        seq![
            "Output too large ("@ + dec(bytes) + " bytes), spooled to: "@ + log_path,
            "(Preview skipped due to size)"@,
        ]
    } else {
        seq![
            "["@ + (if title.len() == 0 {
                "OUTPUT"@
            } else {
                ascii_uppercase(title)
            }) + "] "@ + dec(bytes) + " bytes, "@ + dec(total_lines) + " lines \u{2014} spooled to: "@ + log_path,
        ]
    }
}

/// The announcement rows of a stream section that was spooled to `log_path`.
pub fn spooled_section_header(title: &str, byte_len: usize, total_lines: usize, log_path: &str) -> (r: Vec<String>)
    ensures
        r@.len() == spooled_section_rows(title@, byte_len as nat, total_lines as nat, log_path@).len(),
        forall|i: int| 0 <= i < r@.len() ==> #[trigger] r@[i]@ == spooled_section_rows(
            title@,
            byte_len as nat,
            total_lines as nat,
            log_path@,
        )[i],
{
    let mut rows: Vec<String> = Vec::new();
    if byte_len > EXTREME_OUTPUT_THRESHOLD_MB {
        let mut out = chars_of("Output too large (");
        push_dec(&mut out, byte_len);
        extend_str(&mut out, " bytes), spooled to: ");
        extend_str(&mut out, log_path);
        rows.push(string_from(&out));
        rows.push("(Preview skipped due to size)".to_owned());
        return rows;
    }
    let mut out = chars_of("[");
    if title.unicode_len() == 0 {
        extend_str(&mut out, "OUTPUT");
    } else {
        let upper = to_ascii_uppercase(title);
        extend_str(&mut out, upper.as_str());
    }
    extend_str(&mut out, "] ");
    push_dec(&mut out, byte_len);
    extend_str(&mut out, " bytes, ");
    push_dec(&mut out, total_lines);
    extend_str(&mut out, " lines \u{2014} spooled to: ");
    extend_str(&mut out, log_path);
    rows.push(string_from(&out));
    rows
}

} // verus!
