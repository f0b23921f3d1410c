//! The editor's startup configuration: the project root directory that
//! every collection is loaded from and saved to, read once from a small
//! configuration document.

use vstd::prelude::*;

use crate::document::{doc_get, doc_view, spec_get, DocV, DocValue};
use crate::parse::{parse_document_chars, parse_document_text};
use crate::{ErrorKind, FeError};

verus! {

/// The editor's configuration: where the project's files live.
#[derive(Debug)]
pub struct EditorConfig {
    pub save_path: String,
}

/// The project path a configuration document names: the string bound to
/// `project`, or the current directory when the key is absent or not a
/// string.
pub open spec fn config_path_of(d: DocV) -> Seq<char> {
    match d {
        DocV::Table(ps) => match spec_get(ps, "project"@) {
            Option::Some(DocV::Str(s)) => s,
            _ => "."@,
        },
        _ => "."@,
    }
}

impl EditorConfig {
    /// Reads the configuration out of a parsed document.
    pub fn from_document(doc: &DocValue) -> (r: EditorConfig)
        ensures
            r.save_path@ == config_path_of(doc@),
    {
        let ps = match doc {
            DocValue::Table(ps) => ps,
            _ => {
                proof {
                    let dv = *doc;
                    assert(!(doc_view(dv) is Table)) by {
                        if dv is Int {
                        } else if dv is Str {
                        } else if dv is Arr {
                        }
                    }
                }
                return EditorConfig { save_path: ".".to_owned() };
            },
        };
        let pkey = "project".to_owned();
        match doc_get(ps, &pkey) {
            Option::Some(DocValue::Str(s)) => EditorConfig { save_path: s.clone() },
            Option::Some(other) => {
                proof {
                    assert(!(doc_view(*other) is Str)) by {
                        if *other is Int {
                        } else if *other is Arr {
                        } else if *other is Table {
                        }
                    }
                }
                EditorConfig { save_path: ".".to_owned() }
            },
            Option::None => EditorConfig { save_path: ".".to_owned() },
        }
    }

    /// Reads the configuration out of configuration text. Returns a parse
    /// error exactly when the text is not grammatical; an absent or
    /// mistyped `project` key falls back to the current directory.
    pub fn open(text: &str) -> (r: Result<EditorConfig, FeError>)
        ensures
            match r {
                Result::Ok(c) => parse_document_chars(text@) is Some && c.save_path@
                    == config_path_of(parse_document_chars(text@)->Some_0),
                Result::Err(e) => parse_document_chars(text@) is None && e.kind
                    == ErrorKind::Parse,
            },
    {
        match parse_document_text(text) {
            Result::Ok(doc) => Result::Ok(EditorConfig::from_document(&doc)),
            Result::Err(e) => Result::Err(e),
        }
    }
}

} // verus!
