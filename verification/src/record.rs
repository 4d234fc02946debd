use vstd::prelude::*;

use crate::metadata::Metadata;
use crate::version::version_chars;

verus! {

/// The persisted row of one completed record, as the store keeps it: the
/// version is rendered as text, and a batch-wide company label and a store
/// identifier are attached.
#[derive(Debug)]
pub struct PDF {
    pub id: i32,
    pub company: String,
    pub filename: String,
    pub producer: Option<String>,
    pub creator: Option<String>,
    pub author: Option<String>,
    pub creator_tool: Option<String>,
    pub pdf_version: String,
    pub title: Option<String>,
    pub xmp_toolkit: Option<String>,
    pub create_date: Option<String>,
    pub modify_date: Option<String>,
}

/// A copy of an optional text field.
fn clone_opt(o: &Option<String>) -> (r: Option<String>)
    ensures
        r == *o,
{
    match o {
        Some(s) => Some(s.clone()),
        None => None,
    }
}

impl PDF {
    /// The row of one completed record: every textual field carried over
    /// unchanged, the version rendered exactly as "primary.secondary".
    pub fn from_metadata(meta: &Metadata, company: &str, id: i32) -> (r: PDF)
        ensures
            r.id == id,
            r.company@ == company@,
            r.filename == meta.filename,
            r.producer == meta.producer,
            r.creator == meta.creator,
            r.author == meta.author,
            r.creator_tool == meta.creator_tool,
            r.pdf_version@ == version_chars(meta.pdf_version),
            r.title == meta.title,
            r.xmp_toolkit == meta.xmp_toolkit,
            r.create_date == meta.create_date,
            r.modify_date == meta.modify_date,
    {
        PDF {
            id,
            company: company.to_owned(),
            filename: meta.filename.clone(),
            producer: clone_opt(&meta.producer),
            creator: clone_opt(&meta.creator),
            author: clone_opt(&meta.author),
            creator_tool: clone_opt(&meta.creator_tool),
            pdf_version: meta.pdf_version.as_str(),
            title: clone_opt(&meta.title),
            xmp_toolkit: clone_opt(&meta.xmp_toolkit),
            create_date: clone_opt(&meta.create_date),
            modify_date: clone_opt(&meta.modify_date),
        }
    }
}

} // verus!
