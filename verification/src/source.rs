use vstd::prelude::*;

use crate::font_names::{check_font_names, font_names_decode};
use crate::rust_text::{push_str, push_string_literal, string_literal};

verus! {

/// A parsed font of the `fontdue` crate.
#[verifier::external_type_specification]
#[verifier::external_body]
pub struct ExFont(fontdue::Font);

/// The error message, if any, with which `fontdue` refuses the font file `bytes`.
pub uninterp spec fn font_parse_error(bytes: Seq<u8>) -> Option<Seq<char>>;

/// `fontdue::Font::from_bytes` with the default settings. It decodes the font's first
/// full name in UTF-16 and would panic on a malformed one, so the call is made only where
/// that name is well-formed (`font_names_decode`). Its contract claims only that
/// whether it fails, and with which message, depends on the bytes alone; nothing is
/// claimed of the parsed font.
#[verifier::external_body]
fn font_from_bytes(bytes: Vec<u8>) -> (res: Result<fontdue::Font, &'static str>)
    requires
        font_names_decode(bytes@),
    ensures
        match res {
            Ok(_) => font_parse_error(bytes@) is None,
            Err(e) => font_parse_error(bytes@) == Some(e@),
        },
{
    fontdue::Font::from_bytes(bytes, fontdue::FontSettings::default())
}

/// What parsing a font file gives: a refusal where the full name in UTF-16 that `fontdue`
/// decodes is malformed; otherwise the font, or the message `failed to parse font: `
/// followed by `fontdue`'s reason.
pub open spec fn parse_outcome(bytes: Seq<u8>, is_ok: bool, message: Seq<char>) -> bool {
    if !font_names_decode(bytes) {
        !is_ok && message == "failed to parse font: the font name is not well-formed UTF-16"@
    } else {
        match font_parse_error(bytes) {
            None => is_ok,
            Some(e) => !is_ok && message == "failed to parse font: "@ + e,
        }
    }
}

/// Parses a font file, refusing one whose full name that `fontdue` decodes is not
/// well-formed UTF-16 (see `font_names_decode`).
pub fn parse_font(bytes: Vec<u8>) -> (res: Result<fontdue::Font, String>)
    ensures
        match res {
            Ok(_) => parse_outcome(bytes@, true, Seq::empty()),
            Err(m) => parse_outcome(bytes@, false, m@),
        },
{
    let ghost b = bytes@;
    if !check_font_names(&bytes) {
        let mut message = String::new();
        push_str(&mut message, "failed to parse font: the font name is not well-formed UTF-16");
        return Err(message);
    }
    match font_from_bytes(bytes) {
        Ok(font) => Ok(font),
        Err(e) => {
            let mut message = String::new();
            push_str(&mut message, "failed to parse font: ");
            push_str(&mut message, e);
            assert(message@ =~= "failed to parse font: "@ + e@);
            Err(message)
        },
    }
}

/// Where a font file is read from.
#[derive(Debug, Clone, Copy, PartialEq, Eq, Structural)]
pub enum FontPathChoice {
    /// The path as written.
    AsWritten,
    /// The candidate place of this number (from 0).
    Candidate(usize),
}

/// Chooses where to read a font file: the path as written where it is absolute and exists
/// (`written_usable`), else the first candidate place that exists; `None` where none does.
pub fn choose_font_path(written_usable: bool, candidate_exists: &Vec<bool>) -> (r: Option<FontPathChoice>)
    ensures
        written_usable ==> r == Some(FontPathChoice::AsWritten),
        !written_usable ==> match r {
            Some(FontPathChoice::AsWritten) => false,
            Some(FontPathChoice::Candidate(i)) => {
                &&& i < candidate_exists@.len()
                &&& candidate_exists@[i as int]
                &&& forall|j: int| 0 <= j < i ==> !candidate_exists@[j]
            },
            None => forall|j: int| 0 <= j < candidate_exists@.len() ==> !candidate_exists@[j],
        },
{
    if written_usable {
        return Some(FontPathChoice::AsWritten);
    }
    for i in 0..candidate_exists.len()
        invariant
            !written_usable,
            forall|j: int| 0 <= j < i ==> !candidate_exists@[j],
    {
        if candidate_exists[i] {
            return Some(FontPathChoice::Candidate(i));
        }
    }
    None
}

/// The message for a font path that no place holds.
pub open spec fn unresolved_font_path(path: Seq<char>) -> Seq<char> {
    "failed to resolve font path "@ + string_literal(path)
        + ": tried current directory, caller CARGO_MANIFEST_DIR, macro crate, and workspace root"@
}

/// The message for the font path `path` that no place holds.
pub fn unresolved_font_path_message(path: &str) -> (m: String)
    ensures
        m@ == unresolved_font_path(path@),
{
    let mut m = String::new();
    push_str(&mut m, "failed to resolve font path ");
    push_string_literal(&mut m, path);
    push_str(&mut m, ": tried current directory, caller CARGO_MANIFEST_DIR, macro crate, and workspace root");
    m
}

} // verus!
