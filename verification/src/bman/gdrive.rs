//! Google Drive file listings.
use vstd::prelude::*;
use crate::text::str_eq;

verus! {

broadcast use vstd::string::group_string_axioms;

/// Google Drive MIME type for folders.
pub const FOLDER_MIME: &'static str = "application/vnd.google-apps.folder";

/// A single item (file or folder) from Google Drive.
#[derive(Debug, Clone)]
pub struct DriveItem {
    pub id: String,
    pub name: String,
    pub mime_type: String,
    pub size: Option<String>,
}

/// Response from the Google Drive Files.list API.
#[derive(Debug)]
pub struct DriveListResponse {
    pub files: Vec<DriveItem>,
    pub next_page_token: Option<String>,
}

/// Error response body from the Google Drive API.
#[derive(Debug)]
pub struct DriveErrorResponse {
    pub error: DriveErrorBody,
}

#[derive(Debug)]
pub struct DriveErrorBody {
    pub errors: Vec<DriveErrorDetail>,
    pub code: u16,
    pub message: String,
}

#[derive(Debug)]
pub struct DriveErrorDetail {
    pub domain: String,
    pub reason: String,
    pub message: String,
}

impl DriveItem {
    pub fn is_folder(&self) -> (r: bool)
        ensures
            r == (self.mime_type@ == FOLDER_MIME@),
    {
        str_eq(self.mime_type.as_str(), FOLDER_MIME)
    }

    pub fn is_flac(&self) -> (r: bool)
        ensures
            r == (self.mime_type@ == "audio/flac"@ || self.mime_type@ == "audio/x-flac"@),
    {
        str_eq(self.mime_type.as_str(), "audio/flac") || str_eq(self.mime_type.as_str(), "audio/x-flac")
    }

    pub fn is_text(&self) -> (r: bool)
        ensures
            r == (self.mime_type@ == "text/plain"@),
    {
        str_eq(self.mime_type.as_str(), "text/plain")
    }
}

} // verus!
