//! Listing the items of a Google Drive folder, page after page.
use crate::common::text::concat3;
use vstd::prelude::*;

verus! {

/// An item of a Drive folder, as the Drive API lists it.
pub struct DriveFile {
    pub id: String,
    pub name: String,
    pub mime_type: String,
    pub parents: Option<Vec<String>>,
    pub size: Option<String>,
    pub created_time: Option<String>,
    pub modified_time: Option<String>,
}

/// The query of a folder's items, without the page token.
pub open spec fn folder_query(folder_id: Seq<char>) -> Seq<char> {
    "https://www.googleapis.com/drive/v3/files?q='"@ + folder_id
        + "' in parents and trashed=false&fields=files(id,name,mimeType,parents,size,createdTime,modifiedTime),nextPageToken&supportsAllDrives=true&includeItemsFromAllDrives=true&spaces=drive"@
}

/// `url` with the page token that asks for the next page, if there is one.
pub open spec fn with_page_token(url: Seq<char>, page_token: Option<Seq<char>>) -> Seq<char> {
    match page_token {
        None => url,
        Some(t) => url + "&pageToken="@ + t,
    }
}

/// The views of an optional string.
pub open spec fn opt_view(s: Option<String>) -> Option<Seq<char>> {
    match s {
        None => None,
        Some(t) => Some(t@),
    }
}

fn add_page_token(url: String, page_token: &Option<String>) -> (r: String)
    ensures
        r@ == with_page_token(url@, opt_view(*page_token)),
{
    match page_token {
        None => url,
        Some(t) => concat3(url.as_str(), "&pageToken=", t.as_str()),
    }
}

/// The Drive API request for one page of the items of a folder.
pub fn search_folder_url(folder_id: &str, page_token: &Option<String>) -> (r: String)
    ensures
        r@ == with_page_token(folder_query(folder_id@), opt_view(*page_token)),
{
    let url = concat3(
        "https://www.googleapis.com/drive/v3/files?q='",
        folder_id,
        "' in parents and trashed=false&fields=files(id,name,mimeType,parents,size,createdTime,modifiedTime),nextPageToken&supportsAllDrives=true&includeItemsFromAllDrives=true&spaces=drive",
    );
    add_page_token(url, page_token)
}

/// The Drive API request for one page of all the files of an account.
pub fn all_files_url(page_token: &Option<String>) -> (r: String)
    ensures
        r@ == with_page_token(
            "https://www.googleapis.com/drive/v3/files?spaces=drive&corpora=user&includeItemsFromAllDrives=true&supportsAllDrives=true&q=trashed=false&fields=files(id,name,mimeType,parents),nextPageToken"@,
            opt_view(*page_token),
        ),
{
    let url = "https://www.googleapis.com/drive/v3/files?spaces=drive&corpora=user&includeItemsFromAllDrives=true&supportsAllDrives=true&q=trashed=false&fields=files(id,name,mimeType,parents),nextPageToken".to_owned();
    add_page_token(url, page_token)
}

/// The items gathered from the pages read so far, and the token of the next
/// page to read.
pub struct Pager<T> {
    pub items: Vec<T>,
    pub page_token: Option<String>,
    pub finished: bool,
}

impl<T> Pager<T> {
    /// Nothing read yet: the first page is asked for without a token.
    pub fn new() -> (p: Self)
        ensures
            p.items@ == Seq::<T>::empty(),
            p.page_token is None,
            !p.finished,
    {
        Pager { items: Vec::new(), page_token: None, finished: false }
    }

    /// Takes in a page: its items join those read before, in order, and the
    /// listing is finished when the page names no next one.
    pub fn on_page(&mut self, page: Vec<T>, next_page_token: Option<String>)
        ensures
            final(self).items@ == old(self).items@ + page@,
            final(self).page_token == next_page_token,
            final(self).finished == (next_page_token is None),
    {
        let mut page = page;
        self.items.append(&mut page);
        self.finished = next_page_token.is_none();
        self.page_token = next_page_token;
    }
}

} // verus!
