use vstd::prelude::*;
use crate::fields::{EntryField, PageField};

verus! {

/// The program that wrote an archive.
#[derive(Debug, Clone)]
pub struct AppInfo {
    pub name: String,
    pub version: String,
    pub comment: Option<String>,
}

/// Security state of a request (a Mozilla extension).
#[derive(Debug, Clone, Copy, PartialEq, Eq, Structural)]
pub enum SecurityState {
    Insecure,
    Broken,
    Secure,
}

/// Kind of a resource (a Chrome extension).
#[derive(Debug, Clone, Copy, PartialEq, Eq, Structural)]
pub enum ResourceType {
    Document,
    StyleSheet,
    Image,
    Media,
    Font,
    Script,
    XHR,
    Fetch,
    WebSocket,
    Manifest,
    Ping,
    Other,
}

/// Where a cached response came from (a Chrome extension).
#[derive(Debug, Clone, Copy, PartialEq, Eq, Structural)]
pub enum CacheSource {
    Disk,
    Memory,
}

/// Priority of a request (a Chrome extension).
#[derive(Debug, Clone, Copy, PartialEq, Eq, Structural)]
pub enum Priority {
    VeryHigh,
    High,
    Medium,
    Low,
    VeryLow,
}

/// The body of a response.
#[derive(Debug, Clone)]
pub struct Content {
    pub size: u64,
    pub compression: Option<u64>,
    pub mime_type: Option<String>,
    pub text: Option<String>,
    pub encoding: Option<String>,
    pub comment: Option<String>,
}

/// A parameter of a posted form.
#[derive(Debug, Clone)]
pub struct PostParam {
    pub name: String,
    pub value: Option<String>,
    pub file_name: Option<String>,
    pub content_type: Option<String>,
    pub comment: Option<String>,
}

/// The body of a request.
#[derive(Debug, Clone)]
pub struct PostData {
    pub mime_type: Option<String>,
    pub params: Vec<PostParam>,
    pub text: Option<String>,
    pub comment: Option<String>,
}

/// A parameter of a query string, or a header.
#[derive(Debug, Clone)]
pub struct QueryParam {
    pub name: String,
    pub value: String,
    pub comment: Option<String>,
}

/// Which view of the viewer is shown: the tabs, or one entry or page.
#[derive(Debug, Clone, Copy, PartialEq, Eq, Structural)]
pub enum ActiveView {
    Tabs,
    Entry(usize),
    Page(usize),
}

/// The columns the viewer shows for requests and for pages.
#[derive(Debug)]
pub struct AppConfig<'a> {
    pub request_columns: &'a [EntryField],
    pub page_columns: &'a [PageField],
}

} // verus!
