use vstd::prelude::*;
use vstd::string::StringExecFns;

verus! {

/// A folder as the remote store describes it in its own listing.
#[derive(Debug, Clone)]
pub struct Subfolder {
    pub id: String,
    pub user_id: String,
    pub parent_id: String,
    pub range_id: String,
    pub range_type: String,
    pub folder_type: String,
    pub name: String,
    pub description: String,
    pub mkdate: i32,
    pub chdate: i32,
    pub is_visible: bool,
    pub is_readable: bool,
    pub is_writable: bool,
}

/// A file reference inside a folder listing.
#[derive(Debug, Clone)]
pub struct FileRef {
    pub id: String,
    pub file_id: String,
    pub folder_id: String,
    pub downloads: u32,
    pub description: String,
    pub content_terms_of_use_id: String,
    pub user_id: String,
    pub name: String,
    pub mkdate: i32,
    pub chdate: i32,
    pub size: u32,
    pub mime_type: String,
    pub storage: String,
    pub is_readable: bool,
    pub is_downloadable: bool,
    pub is_editable: bool,
    pub is_writable: bool,
}

/// A folder listing: the folder's own metadata, then its subfolders and
/// files in the order the remote store returned them.
#[derive(Debug, Clone)]
pub struct Folder {
    pub subfolders: Vec<Subfolder>,
    pub file_refs: Vec<FileRef>,
    pub folder: Subfolder,
}

/// Where the remote store lives and how to authorize against it.
#[derive(Debug, Clone)]
pub struct StudIPClient {
    pub api_url: String,
    pub auth: String,
}

/// An authorized GET request, ready to be sent by the transport.
#[derive(Debug, Clone)]
pub struct HttpGet {
    pub url: String,
    pub authorization: String,
}

pub open spec fn file_url(base: Seq<char>, id: Seq<char>) -> Seq<char> {
    base + "/file/"@ + id + "/download"@
}

pub open spec fn folder_url(base: Seq<char>, id: Seq<char>) -> Seq<char> {
    base + "/folder/"@ + id
}

impl StudIPClient {
    fn get(&self, url: String) -> (r: HttpGet)
        ensures
            r.url@ == url@,
            r.authorization@ == self.auth@,
    {
        HttpGet { url, authorization: self.auth.clone() }
    }

    /// The request that downloads the content of the file `id`.
    pub fn read_file(&self, id: &String) -> (r: HttpGet)
        ensures
            r.url@ == file_url(self.api_url@, id@),
            r.authorization@ == self.auth@,
    {
        let mut url = self.api_url.clone();
        url.append("/file/");
        url.append(id.as_str());
        url.append("/download");
        self.get(url)
    }

    /// The request that fetches the listing of the folder `id`.
    pub fn get_folder(&self, id: &String) -> (r: HttpGet)
        ensures
            r.url@ == folder_url(self.api_url@, id@),
            r.authorization@ == self.auth@,
    {
        let mut url = self.api_url.clone();
        url.append("/folder/");
        url.append(id.as_str());
        self.get(url)
    }
}

} // verus!
