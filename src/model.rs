//! Requests and results of the note operations, and the stored settings.

use vstd::prelude::*;

use std::collections::HashMap;

use crate::frontmatter::Metadata;

verus! {

/// Where the vault and its special folders are.
pub struct Config {
    pub vault_path: String,
    pub daily_notes_path: Option<String>,
    pub weekly_notes_path: Option<String>,
    pub monthly_notes_path: Option<String>,
    pub templates_path: Option<String>,
}

/// Listing a directory of the vault, a page at a time.
pub struct ListNotesDirectoryRequest {
    pub path: Option<String>,
    pub limit: Option<u32>,
    pub offset: Option<u32>,
    pub recursive: Option<bool>,
}

/// A file or directory of the vault.
pub struct DirectoryItem {
    pub path: String,
    pub name: String,
    pub is_file: bool,
    pub size: Option<u64>,
}

pub struct ReadNotesFileRequest {
    pub path: String,
}

/// A note's body and its metadata, read apart.
pub struct FileContent {
    pub content: String,
    pub frontmatter: Option<Metadata>,
}

pub struct DeleteNotesItemRequest {
    pub path: String,
}

/// Writing a note: `mode` is `overwrite` (the default), `append` or
/// `prepend`.
pub struct CreateOrUpdateNoteRequest {
    pub path: String,
    pub content: String,
    pub frontmatter: Option<Metadata>,
    pub mode: Option<String>,
}

/// `date` is `today` (the default), `yesterday`, `tomorrow` or
/// `YYYY-MM-DD`.
pub struct GetDailyNoteRequest {
    pub date: Option<String>,
}

/// A literal search; `scope` names `content`, `filename` and `tags`.
pub struct SearchVaultRequest {
    pub query: String,
    pub scope: Option<Vec<String>>,
    pub path_filter: Option<String>,
}

pub struct SearchResult {
    pub path: String,
    pub match_preview: Option<String>,
}

/// Notes related by `tags` and `links`.
pub struct FindRelatedNotesRequest {
    pub path: String,
    pub on: Option<Vec<String>>,
}

pub struct ReplaceTextInNoteRequest {
    pub path: String,
    pub find: String,
    pub replace: String,
    pub replace_all: Option<bool>,
}

pub struct AppendToSectionRequest {
    pub path: String,
    pub section_header: String,
    pub text_to_append: String,
}

pub struct UpdateNotePropertiesRequest {
    pub path: String,
    pub properties: Option<HashMap<String, serde_json::Value>>,
    pub remove: Option<Vec<String>>,
}

pub struct CreateNoteFromTemplateRequest {
    pub path: String,
    pub template_path: String,
    pub variables: Option<HashMap<String, String>>,
}

/// How an operation went, and on which path.
pub struct OperationResult {
    pub success: bool,
    pub path: Option<String>,
    pub error: Option<String>,
    pub deleted_path: Option<String>,
}

} // verus!
