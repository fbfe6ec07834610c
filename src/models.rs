//! What is handed to an external editor: the workspace root and the source locations.
use vstd::prelude::*;
use crate::diagnostic::{Diagnostic, Location};
use crate::paths::{path_starts_with, path_stripped, strip_path_prefix};

verus! {

/// One source location for an editor to open.
#[derive(Clone, Debug)]
pub struct SourceFile {
    pub relative_path: String,
    pub line: usize,
    pub column: usize,
    pub message: String,
}

pub struct SourceFileView {
    pub relative_path: Seq<char>,
    pub line: usize,
    pub column: usize,
    pub message: Seq<char>,
}

impl View for SourceFile {
    type V = SourceFileView;

    open spec fn view(&self) -> SourceFileView {
        SourceFileView {
            relative_path: self.relative_path@,
            line: self.line,
            column: self.column,
            message: self.message@,
        }
    }
}

pub open spec fn source_file_views(s: Seq<SourceFile>) -> Seq<SourceFileView> {
    s.map_values(|f: SourceFile| f@)
}

/// `path` relative to `root` when it lies inside it, else unchanged.
pub open spec fn relative_to(path: Seq<char>, root: Seq<char>) -> Seq<char> {
    if path_starts_with(path, root) {
        path_stripped(path, root)
    } else {
        path
    }
}

/// The entry for a diagnostic at a resolved location, its path made relative
/// to the workspace root where possible.
pub open spec fn entry_of(span: crate::diagnostic::LocationView, message: Seq<char>, root: Seq<char>) -> SourceFileView {
    SourceFileView {
        relative_path: relative_to(span.file_name, root),
        line: span.line_start,
        column: span.column_start,
        message,
    }
}

impl SourceFile {
    /// The location of `span`, its path made relative to `workspace_root` where
    /// it lies inside it, with the summary text of `diagnostic`.
    pub fn from_diagnostic_data(span: Location, diagnostic: &Diagnostic, workspace_root: &String) -> (r: Self)
        ensures
            r@ == entry_of(span@, diagnostic.message@, workspace_root@),
    {
        let relative_path = match strip_path_prefix(&span.file_name, workspace_root) {
            Some(rest) => rest,
            None => span.file_name,
        };
        SourceFile {
            relative_path,
            line: span.line_start,
            column: span.column_start,
            message: diagnostic.message.clone(),
        }
    }
}

/// The workspace root and the locations, in the order they are to be opened.
#[derive(Clone, Debug)]
pub struct EditorData {
    pub workspace_root: String,
    pub files: Vec<SourceFile>,
}

impl EditorData {
    pub fn new(workspace_root: &str, source_files_in_consistent_order: Vec<SourceFile>) -> (r: Self)
        ensures
            r.workspace_root@ == workspace_root@,
            r.files@ == source_files_in_consistent_order@,
    {
        EditorData { workspace_root: workspace_root.to_owned(), files: source_files_in_consistent_order }
    }
}

} // verus!
