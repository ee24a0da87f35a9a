use vstd::prelude::*;

use crate::paths::{file_name_of, path_file_name};

verus! {

/// What `serde_json::from_str::<Vec<String>>` makes of a text: the list of
/// strings when the text is a JSON array of strings, nothing otherwise.
pub uninterp spec fn json_string_list(text: Seq<char>) -> Option<Seq<Seq<char>>>;

/// Calls `serde_json::from_str::<Vec<String>>` on `text`. Claimed: the
/// strings it yields, or `None` where it returns an error, are
/// `json_string_list(text@)`.
#[verifier::external_body]
fn parse_string_list(text: &str) -> (list: Option<Vec<String>>)
    ensures
        list.deep_view() == json_string_list(text@),
{
    match serde_json::from_str::<Vec<String>>(text) {
        Ok(list) => Some(list),
        Err(_) => None,
    }
}

/// The recognised Markdown extensions, read from the JSON listing that the
/// frontend's extension check shares, so that the list has one source of
/// truth. The listing must be a JSON array of strings.
pub fn markdown_extensions(listing: &str) -> (extensions: Vec<String>)
    requires
        json_string_list(listing@) is Some,
    ensures
        extensions.deep_view() == json_string_list(listing@).unwrap(),
{
    match parse_string_list(listing) {
        Some(list) => list,
        None => Vec::new(),
    }
}

/// The recognised Markdown extensions when the listing is a JSON array of
/// strings, `None` when it is not.
pub fn try_markdown_extensions(listing: &str) -> (extensions: Option<Vec<String>>)
    ensures
        extensions.deep_view() == json_string_list(listing@),
{
    match parse_string_list(listing) {
        Some(_) => Some(markdown_extensions(listing)),
        None => None,
    }
}

/// A Markdown file as handed to the frontend.
#[derive(Debug, Clone)]
pub struct OpenedFile {
    pub path: String,
    pub name: String,
    pub content: String,
}

/// The name shown for a file: its file name, or nothing when the path has
/// none.
pub open spec fn display_name(path: Seq<char>) -> Seq<char> {
    match path_file_name(path) {
        Some(name) => name,
        None => Seq::empty(),
    }
}

/// The file at `path`, whose text is `content`.
pub fn opened_file(path: String, content: String) -> (file: OpenedFile)
    ensures
        file.path@ == path@,
        file.name@ == display_name(path@),
        file.content@ == content@,
{
    let name = match file_name_of(path.as_str()) {
        Some(name) => name,
        None => String::new(),
    };
    OpenedFile { path, name, content }
}

/// A file is shown under its file name whenever its path has one, whatever
/// characters it holds, and under an empty name only when it has none.
pub proof fn law_display_name(path: Seq<char>)
    ensures
        path_file_name(path) is Some ==> display_name(path) == path_file_name(path).unwrap(),
        path_file_name(path) is None ==> display_name(path) == Seq::<char>::empty(),
{
}

} // verus!
