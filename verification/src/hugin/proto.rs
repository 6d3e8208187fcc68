//! What the daemon and its clients say to each other.

use vstd::prelude::*;
use crate::text::{copy_strings, opt_copy, opt_view, views};

verus! {

/// What is known of an entry of the history.
pub struct EntryMeta {
    pub id: i64,
    pub ts_unix_ns: i64,
    /// `regular` or `primary`.
    pub selection: String,
    pub mimes: Vec<String>,
    pub size_bytes: i64,
    /// An excerpt of its text, if it has any: the beginning, or, behind a search,
    /// the searched text with markers round what was matched.
    pub snippet: Option<String>,
    /// Part of it was over the limit on its size.
    pub oversized: bool,
}

/// What an [`EntryMeta`] holds.
#[verifier::ext_equal]
pub ghost struct EntryView {
    pub id: i64,
    pub ts_unix_ns: i64,
    pub selection: Seq<char>,
    pub mimes: Seq<Seq<char>>,
    pub size_bytes: i64,
    pub snippet: Option<Seq<char>>,
    pub oversized: bool,
}

impl View for EntryMeta {
    type V = EntryView;

    open spec fn view(&self) -> EntryView {
        EntryView {
            id: self.id,
            ts_unix_ns: self.ts_unix_ns,
            selection: self.selection@,
            mimes: views(self.mimes@),
            size_bytes: self.size_bytes,
            snippet: opt_view(self.snippet),
            oversized: self.oversized,
        }
    }
}

/// The views of the entries of `v`.
pub open spec fn entry_views(v: Seq<EntryMeta>) -> Seq<EntryView> {
    Seq::new(v.len(), |i: int| v[i]@)
}

impl EntryMeta {
    /// A copy.
    pub fn duplicate(&self) -> (r: EntryMeta)
        ensures
            r@ == self@,
    {
        EntryMeta {
            id: self.id,
            ts_unix_ns: self.ts_unix_ns,
            selection: self.selection.clone(),
            mimes: copy_strings(&self.mimes),
            size_bytes: self.size_bytes,
            snippet: opt_copy(&self.snippet),
            oversized: self.oversized,
        }
    }
}

/// How the finds of a search are ordered.
#[derive(Clone, Copy, Debug, PartialEq, Eq, Structural)]
pub enum SearchSort {
    Relevance,
    Recent,
}

impl Default for SearchSort {
    fn default() -> (s: SearchSort)
        ensures
            s == SearchSort::Relevance,
    {
        SearchSort::Relevance
    }
}

/// What a client asks for.
pub enum Request {
    /// Whether anyone is there.
    Ping,
    /// The latest entries, newest first.
    List { limit: Option<usize>, selection: Option<String> },
    /// What is known of an entry.
    Get { id: i64 },
    /// The bytes of an entry in one form; without one the daemon picks.
    ReadBlob { id: i64, mime: Option<String> },
    /// Make an entry the current selection again, in one form or in all.
    Copy { id: i64, selection: Option<String>, mime: Option<String> },
    /// Forget an entry.
    Delete { id: i64 },
    /// Search the history.
    Search { query: String, sort: SearchSort, limit: Option<usize>, selection: Option<String> },
}

/// What a [`Request`] holds.
pub ghost enum RequestView {
    Ping,
    List { limit: Option<usize>, selection: Option<Seq<char>> },
    Get { id: i64 },
    ReadBlob { id: i64, mime: Option<Seq<char>> },
    Copy { id: i64, selection: Option<Seq<char>>, mime: Option<Seq<char>> },
    Delete { id: i64 },
    Search {
        query: Seq<char>,
        sort: SearchSort,
        limit: Option<usize>,
        selection: Option<Seq<char>>,
    },
}

impl View for Request {
    type V = RequestView;

    open spec fn view(&self) -> RequestView {
        match self {
            Request::Ping => RequestView::Ping,
            Request::List { limit, selection } => RequestView::List {
                limit: *limit,
                selection: opt_view(*selection),
            },
            Request::Get { id } => RequestView::Get { id: *id },
            Request::ReadBlob { id, mime } => RequestView::ReadBlob {
                id: *id,
                mime: opt_view(*mime),
            },
            Request::Copy { id, selection, mime } => RequestView::Copy {
                id: *id,
                selection: opt_view(*selection),
                mime: opt_view(*mime),
            },
            Request::Delete { id } => RequestView::Delete { id: *id },
            Request::Search { query, sort, limit, selection } => RequestView::Search {
                query: query@,
                sort: *sort,
                limit: *limit,
                selection: opt_view(*selection),
            },
        }
    }
}

/// What the daemon answers.
pub enum Response {
    Done,
    Error { message: String },
    Entries { entries: Vec<EntryMeta> },
    Entry { entry: EntryMeta },
    /// As many bytes as it says follow.
    BlobHeader { mime: String, len: usize },
}

/// What a [`Response`] holds.
pub ghost enum ResponseView {
    Done,
    Error { message: Seq<char> },
    Entries { entries: Seq<EntryView> },
    Entry { entry: EntryView },
    BlobHeader { mime: Seq<char>, len: nat },
}

impl View for Response {
    type V = ResponseView;

    open spec fn view(&self) -> ResponseView {
        match self {
            Response::Done => ResponseView::Done,
            Response::Error { message } => ResponseView::Error { message: message@ },
            Response::Entries { entries } => ResponseView::Entries {
                entries: entry_views(entries@),
            },
            Response::Entry { entry } => ResponseView::Entry { entry: entry@ },
            Response::BlobHeader { mime, len } => ResponseView::BlobHeader {
                mime: mime@,
                len: *len as nat,
            },
        }
    }
}

} // verus!
