//! What the daemon does for a request, and what it answers. The program reads
//! the database and the socket; what it found comes here.

use vstd::prelude::*;
use crate::hugin::capture::{selection_name, Selection};
use crate::hugin::proto::{
    entry_views, EntryMeta, Request, RequestView, Response, ResponseView, SearchSort,
};
use crate::hugin::search::wanted;
use crate::number::{signed_decimal, signed_decimal_of};
use crate::text::{opt_view, trimmed};
use crate::utf8::copy_bytes;

verus! {

/// How many entries a request returns that asks for no number.
pub const DEFAULT_LIMIT: usize = 50;

/// What the daemon has to do for a request.
pub enum Job {
    /// Nothing but answer that all is well.
    Nothing,
    /// List the latest entries.
    List { limit: usize, selection: Option<String> },
    /// Look up an entry.
    Get { id: i64 },
    /// Read the bytes of an entry.
    ReadBlob { id: i64, mime: Option<String> },
    /// Serve an entry as the current selection.
    Serve { id: i64, to: Selection, mime: Option<String> },
    /// Forget an entry.
    Delete { id: i64 },
    /// Search the entries; the query is trimmed and not empty.
    Search { query: String, sort: SearchSort, limit: usize, selection: Option<String> },
}

/// What a [`Job`] holds.
pub ghost enum JobView {
    Nothing,
    List { limit: usize, selection: Option<Seq<char>> },
    Get { id: i64 },
    ReadBlob { id: i64, mime: Option<Seq<char>> },
    Serve { id: i64, to: Selection, mime: Option<Seq<char>> },
    Delete { id: i64 },
    Search { query: Seq<char>, sort: SearchSort, limit: usize, selection: Option<Seq<char>> },
}

impl View for Job {
    type V = JobView;

    open spec fn view(&self) -> JobView {
        match self {
            Job::Nothing => JobView::Nothing,
            Job::List { limit, selection } => JobView::List {
                limit: *limit,
                selection: opt_view(*selection),
            },
            Job::Get { id } => JobView::Get { id: *id },
            Job::ReadBlob { id, mime } => JobView::ReadBlob { id: *id, mime: opt_view(*mime) },
            Job::Serve { id, to, mime } => JobView::Serve {
                id: *id,
                to: *to,
                mime: opt_view(*mime),
            },
            Job::Delete { id } => JobView::Delete { id: *id },
            Job::Search { query, sort, limit, selection } => JobView::Search {
                query: query@,
                sort: *sort,
                limit: *limit,
                selection: opt_view(*selection),
            },
        }
    }
}

/// The limit that was asked for, or the one that applies without.
pub open spec fn limit_or_default(limit: Option<usize>) -> usize {
    match limit {
        Some(n) => n,
        None => DEFAULT_LIMIT,
    }
}

/// The selection that an entry is copied to: the primary one where it is asked
/// for by its name, else the regular one.
pub open spec fn target_selection(selection: Option<Seq<char>>) -> Selection {
    if selection == Some(selection_name(Selection::Primary)) {
        Selection::Primary
    } else {
        Selection::Regular
    }
}

/// What the daemon has to do for the request `r`. A search for nothing lists the
/// latest entries.
pub open spec fn job_of(r: RequestView) -> JobView {
    match r {
        RequestView::Ping => JobView::Nothing,
        RequestView::List { limit, selection } => JobView::List {
            limit: limit_or_default(limit),
            selection,
        },
        RequestView::Get { id } => JobView::Get { id },
        RequestView::ReadBlob { id, mime } => JobView::ReadBlob { id, mime },
        RequestView::Copy { id, selection, mime } => JobView::Serve {
            id,
            to: target_selection(selection),
            mime,
        },
        RequestView::Delete { id } => JobView::Delete { id },
        RequestView::Search { query, sort, limit, selection } => if trimmed(query).len() == 0 {
            JobView::List { limit: limit_or_default(limit), selection }
        } else {
            JobView::Search {
                query: trimmed(query),
                sort,
                limit: limit_or_default(limit),
                selection,
            }
        },
    }
}

/// The limit that was asked for, or the one that applies without.
fn limit_of(limit: Option<usize>) -> (n: usize)
    ensures
        n == limit_or_default(limit),
{
    match limit {
        Some(n) => n,
        None => DEFAULT_LIMIT,
    }
}

/// The selection that an entry is copied to.
fn selection_of(selection: &Option<String>) -> (s: Selection)
    ensures
        s == target_selection(opt_view(*selection)),
{
    match selection {
        Some(name) => if name.as_str().eq("primary") {
            Selection::Primary
        } else {
            Selection::Regular
        },
        None => Selection::Regular,
    }
}

/// What the daemon has to do for a request.
pub fn dispatch(req: Request) -> (job: Job)
    ensures
        job@ == job_of(req@),
{
    match req {
        Request::Ping => Job::Nothing,
        Request::List { limit, selection } => Job::List { limit: limit_of(limit), selection },
        Request::Get { id } => Job::Get { id },
        Request::ReadBlob { id, mime } => Job::ReadBlob { id, mime },
        Request::Copy { id, selection, mime } => Job::Serve {
            id,
            to: selection_of(&selection),
            mime,
        },
        Request::Delete { id } => Job::Delete { id },
        Request::Search { query, sort, limit, selection } => {
            let limit = limit_of(limit);
            match wanted(query.as_str()) {
                Some(query) => Job::Search { query, sort, limit, selection },
                None => Job::List { limit, selection },
            }
        },
    }
}

/// A search for nothing is a list: whatever the order that is asked for, it gives the
/// entries that the list gives.
pub proof fn blank_searches_list(
    query: Seq<char>,
    sort: SearchSort,
    limit: Option<usize>,
    selection: Option<Seq<char>>,
)
    requires
        trimmed(query).len() == 0,
    ensures
        job_of(RequestView::Search { query, sort, limit, selection }) == job_of(
            RequestView::List { limit, selection },
        ),
{
}

// ---- answers ---------------------------------------------------------------------------

/// The answer to what could not be done.
pub open spec fn refusal(message: Seq<char>) -> ResponseView {
    ResponseView::Error { message }
}

/// What is said of an entry that there is not.
pub open spec fn no_entry(id: i64) -> Seq<char> {
    "no entry with id "@ + signed_decimal(id as int)
}

/// What is said of bytes that there are not.
pub open spec fn no_blob(id: i64) -> Seq<char> {
    "no blob for id "@ + signed_decimal(id as int)
}

/// What is said of an entry of which nothing was kept that could be served.
pub open spec fn nothing_to_serve(id: i64) -> Seq<char> {
    "nothing to copy for id "@ + signed_decimal(id as int)
}

/// `text` and the number `id`.
fn numbered(text: &str, id: i64) -> (s: String)
    ensures
        s@ == text@ + signed_decimal(id as int),
{
    let mut s = text.to_owned();
    let d = signed_decimal_of(id);
    s.append(d.as_str());
    s
}

/// The answer to a line that is no request.
pub fn bad_request(error: &str) -> (r: Response)
    ensures
        r@ == refusal("bad request: "@ + error@),
{
    let mut message = "bad request: ".to_owned();
    message.append(error);
    Response::Error { message }
}

/// The answer to a request for a list or a search, of which `result` came.
pub fn entries_response(result: Result<Vec<EntryMeta>, String>) -> (r: Response)
    ensures
        r@ == match result {
            Ok(entries) => ResponseView::Entries { entries: entry_views(entries@) },
            Err(e) => refusal(e@),
        },
{
    match result {
        Ok(entries) => Response::Entries { entries },
        Err(message) => Response::Error { message },
    }
}

/// The answer to a request for the entry `id`, of which `result` came.
pub fn entry_response(id: i64, result: Result<Option<EntryMeta>, String>) -> (r: Response)
    ensures
        r@ == match result {
            Ok(Some(e)) => ResponseView::Entry { entry: e@ },
            Ok(None) => refusal(no_entry(id)),
            Err(e) => refusal(e@),
        },
{
    match result {
        Ok(Some(entry)) => Response::Entry { entry },
        Ok(None) => Response::Error { message: numbered("no entry with id ", id) },
        Err(message) => Response::Error { message },
    }
}

/// The answer to a request for the bytes of the entry `id`, of which `result`
/// came, and the bytes that follow it. As many follow as the answer says.
pub fn blob_response(id: i64, result: Result<Option<(String, Vec<u8>)>, String>) -> (r: (
    Response,
    Vec<u8>,
))
    ensures
        match result {
            Ok(Some(part)) => (r.0)@ == (ResponseView::BlobHeader {
                mime: part.0@,
                len: part.1@.len(),
            }) && r.1@ == part.1@,
            Ok(None) => (r.0)@ == refusal(no_blob(id)) && r.1@.len() == 0,
            Err(e) => (r.0)@ == refusal(e@) && r.1@.len() == 0,
        },
{
    match result {
        Ok(Some(part)) => {
            let (mime, blob) = part;
            let len = blob.len();
            (Response::BlobHeader { mime, len }, blob)
        },
        Ok(None) => (Response::Error { message: numbered("no blob for id ", id) }, Vec::new()),
        Err(message) => (Response::Error { message }, Vec::new()),
    }
}

/// The answer to a request to forget the entry `id`; `result` says whether there
/// was one.
pub fn delete_response(id: i64, result: Result<bool, String>) -> (r: Response)
    ensures
        r@ == match result {
            Ok(true) => ResponseView::Done,
            Ok(false) => refusal(no_entry(id)),
            Err(e) => refusal(e@),
        },
{
    match result {
        Ok(true) => Response::Done,
        Ok(false) => Response::Error { message: numbered("no entry with id ", id) },
        Err(message) => Response::Error { message },
    }
}

/// A form and its bytes.
pub type MimePart = (String, Vec<u8>);

/// The parts of `v` as texts and bytes.
pub open spec fn mime_part_views(v: Seq<MimePart>) -> Seq<(Seq<char>, Seq<u8>)> {
    Seq::new(v.len(), |i: int| (v[i].0@, v[i].1@))
}

/// The parts that are served: those of the form `mime`, or all of them.
pub open spec fn served(parts: Seq<(Seq<char>, Seq<u8>)>, mime: Option<Seq<char>>) -> Seq<
    (Seq<char>, Seq<u8>),
>
    decreases parts.len(),
{
    if parts.len() == 0 {
        seq![]
    } else if mime is None || mime == Some(parts.last().0) {
        served(parts.drop_last(), mime).push(parts.last())
    } else {
        served(parts.drop_last(), mime)
    }
}

/// What becomes of a request to copy an entry.
pub enum Serving {
    /// Serve these parts and answer that all is well.
    Parts(Vec<MimePart>),
    /// Answer this.
    Refuse(Response),
}

/// What becomes of a request to copy the entry `id` in the form `mime`, of which
/// `result` came: the parts whose bytes were kept, if there is such an entry.
pub fn serve_parts(
    id: i64,
    mime: &Option<String>,
    result: Result<Option<Vec<MimePart>>, String>,
) -> (r: Serving)
    ensures
        match result {
            Ok(Some(parts)) => {
                let s = served(mime_part_views(parts@), opt_view(*mime));
                match r {
                    Serving::Parts(p) => mime_part_views(p@) == s && s.len() > 0,
                    Serving::Refuse(a) => a@ == refusal(nothing_to_serve(id)) && s.len() == 0,
                }
            },
            Ok(None) => r matches Serving::Refuse(a) && a@ == refusal(no_entry(id)),
            Err(e) => r matches Serving::Refuse(a) && a@ == refusal(e@),
        },
{
    match result {
        Ok(Some(parts)) => {
            let kept = serve(&parts, mime);
            assert(mime_part_views(kept@).len() == kept@.len());
            if kept.len() == 0 {
                Serving::Refuse(
                    Response::Error { message: numbered("nothing to copy for id ", id) },
                )
            } else {
                Serving::Parts(kept)
            }
        },
        Ok(None) => Serving::Refuse(
            Response::Error { message: numbered("no entry with id ", id) },
        ),
        Err(message) => Serving::Refuse(Response::Error { message }),
    }
}

/// The parts that are served: those of the form `mime`, or all of them.
fn serve(parts: &Vec<MimePart>, mime: &Option<String>) -> (r: Vec<MimePart>)
    ensures
        mime_part_views(r@) == served(mime_part_views(parts@), opt_view(*mime)),
{
    let ghost pv = mime_part_views(parts@);
    let ghost mv = opt_view(*mime);
    let mut r: Vec<MimePart> = Vec::new();
    let mut i: usize = 0;
    assert(mime_part_views(r@) == served(pv.take(0), mv));
    while i < parts.len()
        invariant
            i <= parts@.len(),
            pv == mime_part_views(parts@),
            mv == opt_view(*mime),
            mime_part_views(r@) == served(pv.take(i as int), mv),
        decreases parts@.len() - i,
    {
        let p = &parts[i];
        assert(pv.take(i + 1).drop_last() == pv.take(i as int));
        assert(pv.take(i + 1).last() == (p.0@, p.1@));
        let fits = match mime {
            Some(m) => m.as_str().eq(p.0.as_str()),
            None => true,
        };
        if fits {
            let part = (p.0.clone(), copy_bytes(&p.1));
            let ghost part_view = (part.0@, part.1@);
            let ghost done = r@;
            r.push(part);
            assert(mime_part_views(r@) =~= mime_part_views(done).push(part_view));
        }
        i += 1;
    }
    assert(pv.take(parts@.len() as int) == pv);
    r
}

/// Where one form was asked for, nothing else is served; where none was,
/// everything is.
pub proof fn one_form_serves_alone(
    parts: Seq<(Seq<char>, Seq<u8>)>,
    mime: Option<Seq<char>>,
)
    ensures
        mime is None ==> served(parts, mime) == parts,
        forall|i: int|
            0 <= i < served(parts, mime).len() ==> mime is None || mime == Some(
                (#[trigger] served(parts, mime)[i]).0,
            ),
    decreases parts.len(),
{
    if parts.len() > 0 {
        one_form_serves_alone(parts.drop_last(), mime);
        let s = served(parts.drop_last(), mime);
        let t = served(parts, mime);
        assert forall|i: int| 0 <= i < t.len() implies mime is None || mime == Some(
            (#[trigger] t[i]).0,
        ) by {
            if i < s.len() {
                assert(t[i] == s[i]);
            }
        }
        if mime is None {
            assert(t == parts);
        }
    }
}

// ---- the socket --------------------------------------------------------------------------

/// What becomes of the place where the socket goes.
#[derive(Clone, Copy, Debug, PartialEq, Eq, Structural)]
pub enum Bind {
    /// Nothing is there.
    Free,
    /// What is there is left over and goes.
    Stale,
    /// Another daemon is there.
    Taken,
}

/// What becomes of the place where the socket goes: `answers` says whether
/// someone answers there. A daemon that runs is left alone.
pub fn bind_clean(present: bool, answers: bool) -> (b: Bind)
    ensures
        b == if !present {
            Bind::Free
        } else if answers {
            Bind::Taken
        } else {
            Bind::Stale
        },
{
    if !present {
        Bind::Free
    } else if answers {
        Bind::Taken
    } else {
        Bind::Stale
    }
}

/// What is said where another daemon is there.
pub fn taken_message(path: &str) -> (s: String)
    ensures
        s@ == "another hugind appears to be running at "@ + path@,
{
    let mut s = "another hugind appears to be running at ".to_owned();
    s.append(path);
    s
}

// ---- the client --------------------------------------------------------------------------

/// What a client makes of an answer that should be a plain confirmation.
pub enum Confirmation {
    Confirmed,
    /// The daemon refused, and says why.
    Refused(String),
    /// The daemon answered something else.
    Unexpected(Response),
}

/// What a client makes of an answer that should be a plain confirmation.
pub fn request_ok(answer: Response) -> (c: Confirmation)
    ensures
        match answer {
            Response::Done => c is Confirmed,
            Response::Error { message } => c matches Confirmation::Refused(m) && m@ == message@,
            _ => c matches Confirmation::Unexpected(a) && a == answer,
        },
{
    match answer {
        Response::Done => Confirmation::Confirmed,
        Response::Error { message } => Confirmation::Refused(message),
        other => Confirmation::Unexpected(other),
    }
}

} // verus!
