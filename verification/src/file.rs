//! The file helper's decisions: JSON validation of texts and raw bytes,
//! and the rules that govern a write — binary-mode resolution and the
//! encodings the writer supports. Opening, reading and writing files is
//! I/O and lives outside the crate.

use crate::json::{json_of, parse_json, JsonValue};
use crate::text::{find_char, spec_find_char};
use vstd::prelude::*;
use vstd::utf8::{decode_utf8, valid_utf8};

verus! {

/// What the file helpers can fail with.
#[derive(Debug)]
pub enum FileError {
    IoError(String),
    JsonError(String),
    UnsupportedType(String),
    InvalidBinaryMode(String),
    EncodingError(String),
    ValidationError(String),
    EmptyContent,
}

/// The file helper. Its verified work is validation and write planning;
/// the embedding program owns the file handles.
#[derive(Debug)]
pub struct CodeMaoFile {}

/// Relies on `String::from_utf8`: succeeds exactly on valid UTF-8, and
/// decodes the bytes to their scalar sequence.
#[verifier::external_body]
fn utf8_to_string(bytes: &[u8]) -> (r: Option<String>)
    ensures
        r is Some <==> valid_utf8(bytes@),
        r matches Some(s) ==> s@ == decode_utf8(bytes@),
{
    String::from_utf8(bytes.to_vec()).ok()
}

/// A string content whose characters are not all ASCII: such a value is
/// written in binary mode.
pub open spec fn spec_is_binary(content: JsonValue) -> bool {
    match content {
        JsonValue::Str(s) => !vstd::utf8::is_ascii_chars(s@),
        _ => false,
    }
}

impl CodeMaoFile {
    /// Parses a JSON text into the crate's model; an error exactly when
    /// the text is not JSON.
    pub fn validate_json(json_string: &str) -> (r: Result<JsonValue, FileError>)
        ensures
            r is Ok <==> json_of(json_string@) is Some,
            r matches Ok(v) ==> json_of(json_string@) == Some(v),
            r is Err ==> (r matches Err(FileError::JsonError(m)) && m@ == "Invalid JSON"@),
    {
        match parse_json(json_string) {
            Some(v) => Ok(v),
            None => Err(FileError::JsonError("Invalid JSON".to_owned())),
        }
    }

    /// Validates raw bytes: empty input is its own error, bytes that are
    /// not UTF-8 are an encoding error, and the decoded text must parse
    /// as JSON.
    pub fn validate_content(&self, content: &[u8]) -> (r: Result<JsonValue, FileError>)
        ensures
            content@.len() == 0 ==> r matches Err(FileError::EmptyContent),
            content@.len() > 0 && !valid_utf8(content@) ==> (r matches Err(
                FileError::EncodingError(m),
            ) && m@ == "Invalid UTF-8"@),
            content@.len() > 0 && valid_utf8(content@) ==> (match json_of(decode_utf8(content@)) {
                Some(v) => r == Ok::<JsonValue, FileError>(v),
                None => r matches Err(FileError::JsonError(m)) && m@ == "Invalid JSON"@,
            }),
    {
        if content.len() == 0 {
            return Err(FileError::EmptyContent);
        }
        match utf8_to_string(content) {
            None => Err(FileError::EncodingError("Invalid UTF-8".to_owned())),
            Some(s) => Self::validate_json(s.as_str()),
        }
    }

    /// The mode a write must use for its content: binary content forces
    /// the binary flag into the mode, and a binary-flagged mode refuses
    /// text content.
    pub fn resolve_write_mode(content: &JsonValue, method: &str) -> (r: Result<String, FileError>)
        ensures
            ({
                let has_b = spec_find_char(method@, 'b') is Some;
                if spec_is_binary(*content) {
                    if has_b {
                        r matches Ok(m) && m@ == method@
                    } else {
                        r matches Ok(m) && m@ == method@ + "b"@
                    }
                } else {
                    if has_b {
                        r matches Err(FileError::InvalidBinaryMode(m)) && m@
                            == "Text content cannot use a binary mode"@
                    } else {
                        r matches Ok(m) && m@ == method@
                    }
                }
            }),
    {
        let is_binary = match content {
            JsonValue::Str(s) => !s.as_str().is_ascii(),
            _ => false,
        };
        let has_b = match find_char(method, 'b') {
            Some(_) => true,
            None => false,
        };
        if is_binary {
            if has_b {
                Ok(method.to_owned())
            } else {
                let mut m = method.to_owned();
                m.append("b");
                Ok(m)
            }
        } else {
            if has_b {
                Err(FileError::InvalidBinaryMode("Text content cannot use a binary mode".to_owned()))
            } else {
                Ok(method.to_owned())
            }
        }
    }

    /// Whether the writer supports a named encoding: only UTF-8, under
    /// either of its names; an absent encoding means the default and is
    /// accepted.
    pub fn check_encoding(encoding: Option<&str>) -> (r: Result<(), FileError>)
        ensures
            r is Ok <==> match encoding {
                None => true,
                Some(e) => e@ == "utf-8"@ || e@ == "utf8"@,
            },
            r is Err ==> (r matches Err(FileError::EncodingError(m)) && m@
                == "Unsupported encoding"@),
    {
        match encoding {
            None => Ok(()),
            Some(e) => {
                if crate::text::str_eq(e, "utf-8") || crate::text::str_eq(e, "utf8") {
                    Ok(())
                } else {
                    Err(FileError::EncodingError("Unsupported encoding".to_owned()))
                }
            },
        }
    }
}

/// How one write is performed: whether it appends, and whether the
/// writer must treat the content as raw bytes.
#[derive(Debug)]
pub struct FileWriteOptions<'a> {
    pub append: bool,
    pub is_binary: bool,
    pub encoding: Option<&'a str>,
}

impl<'a> Default for FileWriteOptions<'a> {
    fn default() -> (r: Self)
        ensures
            r.append == false,
            r.is_binary == false,
            r.encoding matches Some(e) && e@ == "utf-8"@,
    {
        FileWriteOptions { append: false, is_binary: false, encoding: Some("utf-8") }
    }
}

} // verus!
