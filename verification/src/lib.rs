//! Extracts readable text from a file, choosing a strategy by the file's
//! extension: markup documents (`xml`, `xhtml`, `html`) yield the
//! concatenation of their character-data regions; plain text (`txt`) passes
//! through unchanged.

use vstd::prelude::*;

pub mod dispatch;
pub mod error;
pub mod markup;
pub mod plain;

use crate::dispatch::{classify, spec_extension, spec_kind_for_extension, FileKind};
use crate::error::ExtractError;
use crate::markup::{concat_character_data, extract_markup, has_character_data, markup_events};
use crate::plain::{decode_text, extract_plain};
use vstd::utf8::{decode_utf8, valid_utf8};

verus! {

/// Runs the whole pipeline on one file: selects a strategy from the path's
/// extension and applies it to the content. On success the result carries
/// the extracted text, absent exactly when a markup document held no
/// character data; every failure is the error the path or content earns.
pub fn extract(path: &[u8], content: &[u8]) -> (r: Result<Option<String>, ExtractError>)
    ensures
        match spec_extension(path@) {
            None => r == Err::<Option<String>, ExtractError>(ExtractError::MissingExtension),
            Some(e) => match spec_kind_for_extension(e) {
                None => (r matches Err(err) && err matches ExtractError::UnsupportedExtension(v)
                    && v@ == e),
                Some(FileKind::PlainText) => if valid_utf8(content@) {
                    r matches Ok(c) && c matches Some(s) && s@ == decode_utf8(content@)
                } else {
                    r == Err::<Option<String>, ExtractError>(ExtractError::InvalidEncoding)
                },
                Some(FileKind::Markup) => r matches Ok(c) && (c is Some <==> has_character_data(
                    markup_events(content@),
                )) && (c matches Some(s) ==> s@ == concat_character_data(markup_events(content@))),
            },
        },
{
    match classify(path) {
        Err(e) => Err(e),
        Ok(FileKind::PlainText) => {
            let passed = extract_plain(content);
            match decode_text(passed.as_slice()) {
                Some(s) => Ok(Some(s)),
                None => Err(ExtractError::InvalidEncoding),
            }
        },
        Ok(FileKind::Markup) => Ok(extract_markup(content)),
    }
}

} // verus!
