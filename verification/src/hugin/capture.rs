//! What is captured of a selection, and how much of it is kept.

use vstd::prelude::*;
use vstd::utf8::{
    is_char_boundary, is_char_boundary_iff_not_is_continuation_byte,
    is_char_boundary_start_end_of_seq, is_continuation_byte, valid_utf8, valid_utf8_split,
};
use crate::base::xdg::{below, runtime_base, runtime_file, Environment};
use crate::text::{has_prefix, starts_with, views};

verus! {

/// One of the two selections that text can be copied to.
#[derive(Clone, Copy, Debug, PartialEq, Eq, Structural)]
pub enum Selection {
    Regular,
    Primary,
}

/// The name of a selection.
pub open spec fn selection_name(s: Selection) -> Seq<char> {
    match s {
        Selection::Regular => "regular"@,
        Selection::Primary => "primary"@,
    }
}

impl Selection {
    /// The name of the selection.
    pub fn as_str(self) -> (r: &'static str)
        ensures
            r@ == selection_name(self),
    {
        match self {
            Selection::Regular => "regular",
            Selection::Primary => "primary",
        }
    }
}

/// How many bytes of one part are kept where nothing else is configured: enough
/// for a screenshot, too few for a film.
pub const DEFAULT_MAX_PART_BYTES: usize = 16_777_216;

/// How a part was stored, measured by the limit on its size.
#[derive(Clone, Copy, Debug, PartialEq, Eq, Structural)]
pub enum PartStore {
    /// In full.
    Full,
    /// Text over the limit: its beginning.
    Truncated,
    /// Anything else over the limit: only that it was there.
    Omitted,
}

/// The number that stands for `s` in the database.
pub open spec fn store_number(s: PartStore) -> i64 {
    match s {
        PartStore::Full => 0,
        PartStore::Truncated => 1,
        PartStore::Omitted => 2,
    }
}

/// What the number `n` of the database stands for.
pub open spec fn store_numbered(n: i64) -> PartStore {
    if n == 1 {
        PartStore::Truncated
    } else if n == 2 {
        PartStore::Omitted
    } else {
        PartStore::Full
    }
}

impl PartStore {
    /// The number that stands for this in the database.
    pub fn as_i64(self) -> (n: i64)
        ensures
            n == store_number(self),
    {
        match self {
            PartStore::Full => 0,
            PartStore::Truncated => 1,
            PartStore::Omitted => 2,
        }
    }

    /// What the number `n` of the database stands for.
    pub fn from_i64(n: i64) -> (s: Self)
        ensures
            s == store_numbered(n),
    {
        match n {
            1 => PartStore::Truncated,
            2 => PartStore::Omitted,
            _ => PartStore::Full,
        }
    }
}

/// What was written to the database is read back.
pub proof fn stores_are_read_back(s: PartStore)
    ensures
        store_numbered(store_number(s)) == s,
        store_number(s) == 0 <==> s == PartStore::Full,
{
}

/// One form of what was copied. `blob` holds the bytes that were kept.
pub struct CapturedPart {
    pub mime: String,
    pub blob: Vec<u8>,
    pub store: PartStore,
}

/// What a [`CapturedPart`] holds.
pub ghost struct PartView {
    pub mime: Seq<char>,
    pub blob: Seq<u8>,
    pub store: PartStore,
}

impl View for CapturedPart {
    type V = PartView;

    open spec fn view(&self) -> PartView {
        PartView { mime: self.mime@, blob: self.blob@, store: self.store }
    }
}

/// The views of the parts of `v`.
pub open spec fn part_views(v: Seq<CapturedPart>) -> Seq<PartView> {
    Seq::new(v.len(), |i: int| v[i]@)
}

impl CapturedPart {
    /// A part that is kept in full.
    pub fn full(mime: String, blob: Vec<u8>) -> (p: Self)
        ensures
            p@ == (PartView { mime: mime@, blob: blob@, store: PartStore::Full }),
    {
        CapturedPart { mime, blob, store: PartStore::Full }
    }
}

/// What was copied: one thing, in each of the forms that it was offered in.
pub struct CapturedEntry {
    pub ts_unix_ns: i64,
    pub selection: Selection,
    pub parts: Vec<CapturedPart>,
}

/// `std::time::SystemTime`, a moment by the clock of the machine.
#[verifier::external_type_specification]
#[verifier::external_body]
pub struct ExSystemTime(std::time::SystemTime);

/// `SystemTime::now`: some moment. Nothing is claimed of it.
pub assume_specification[ std::time::SystemTime::now ]() -> (t: std::time::SystemTime)
;

/// `Duration::as_nanos`: some number. Nothing is claimed of it.
pub assume_specification[ std::time::Duration::as_nanos ](d: &std::time::Duration) -> (n: u128)
;

/// `SystemTime::duration_since` the start of 1970: none for a moment before it.
/// Nothing is claimed of the result: the clock decides.
#[verifier::external_body]
fn since_epoch(t: std::time::SystemTime) -> (d: Option<std::time::Duration>) {
    t.duration_since(std::time::UNIX_EPOCH).ok()
}

/// How many nanoseconds the clock has counted since the start of 1970; none
/// where it stands before that. The clock decides.
pub fn elapsed() -> (n: Option<u128>) {
    let d = since_epoch(std::time::SystemTime::now());
    match d {
        Some(d) => Some(d.as_nanos()),
        None => None,
    }
}

/// The time stamp for what the clock shows: its nanoseconds in 64 bits, or
/// `otherwise` where there are none.
pub open spec fn stamp(elapsed: Option<u128>, otherwise: i64) -> i64 {
    match elapsed {
        Some(n) => n as i64,
        None => otherwise,
    }
}

/// The time stamp for what the clock shows.
pub fn stamp_of(elapsed: Option<u128>, otherwise: i64) -> (ts: i64)
    ensures
        ts == stamp(elapsed, otherwise),
        elapsed is Some && elapsed->0 <= i64::MAX ==> ts == elapsed->0,
{
    match elapsed {
        Some(n) => #[verifier::truncate]
        (n as i64),
        None => otherwise,
    }
}

impl CapturedEntry {
    /// An entry that was copied when the clock showed `elapsed`.
    pub fn at(elapsed: Option<u128>, selection: Selection, parts: Vec<CapturedPart>) -> (e: Self)
        ensures
            e.ts_unix_ns == stamp(elapsed, 0),
            e.selection == selection,
            e.parts == parts,
    {
        CapturedEntry { ts_unix_ns: stamp_of(elapsed, 0), selection, parts }
    }

    /// An entry that is copied now. The clock decides its time stamp.
    pub fn now(selection: Selection, parts: Vec<CapturedPart>) -> (e: Self)
        ensures
            e.selection == selection,
            e.parts == parts,
    {
        Self::at(elapsed(), selection, parts)
    }
}

/// Whether the form `mime` is text.
pub open spec fn text_mime(mime: Seq<char>) -> bool {
    has_prefix(mime, "text/"@) || mime == "UTF8_STRING"@ || mime == "STRING"@ || mime == "TEXT"@
}

/// Whether the form `mime` is text.
pub fn is_text_mime(mime: &str) -> (r: bool)
    ensures
        r == text_mime(mime@),
{
    starts_with(mime, "text/") || mime.eq("UTF8_STRING") || mime.eq("STRING") || mime.eq("TEXT")
}

/// `hugin.sock`.
pub open spec fn socket_name() -> Seq<u8> {
    seq![0x68, 0x75, 0x67, 0x69, 0x6e, 0x2e, 0x73, 0x6f, 0x63, 0x6b]
}

/// The socket between the daemon and its clients, where nothing else is asked
/// for: `$XDG_RUNTIME_DIR/hugin.sock`, or else `/tmp/hugin.sock`.
pub fn default_socket_path(env: &Environment) -> (p: Vec<u8>)
    ensures
        p@ == below(runtime_base(*env), socket_name()),
{
    let name: Vec<u8> = vec![0x68, 0x75, 0x67, 0x69, 0x6e, 0x2e, 0x73, 0x6f, 0x63, 0x6b];
    assert(name@ == socket_name());
    runtime_file(env, &name)
}

// ---- keeping to the limit ---------------------------------------------------------

/// The end of the longest beginning of `bytes` that has at most `max` of them and
/// does not end inside a character.
pub open spec fn snapped(bytes: Seq<u8>, max: int) -> int
    decreases max,
{
    if max <= 0 {
        0
    } else if max >= bytes.len() {
        bytes.len() as int
    } else if is_continuation_byte(bytes[max]) {
        snapped(bytes, max - 1)
    } else {
        max
    }
}

/// The part of the form `mime` that is kept of `bytes` where a part may have
/// `cap` of them: all of it, or the beginning of a text, or nothing of anything
/// else.
pub open spec fn kept(mime: Seq<char>, bytes: Seq<u8>, cap: int) -> PartView {
    if bytes.len() <= cap {
        PartView { mime, blob: bytes, store: PartStore::Full }
    } else if text_mime(mime) {
        PartView {
            mime,
            blob: bytes.take(snapped(bytes, cap)),
            store: PartStore::Truncated,
        }
    } else {
        PartView { mime, blob: seq![], store: PartStore::Omitted }
    }
}

/// Whether `b` is a byte inside a character.
fn continues(b: u8) -> (r: bool)
    ensures
        r == is_continuation_byte(b),
{
    0x80 <= b && b <= 0xbf
}

/// The end of the longest beginning of `bytes` that has at most `max` of them and
/// does not end inside a character.
fn snap(bytes: &Vec<u8>, max: usize) -> (k: usize)
    requires
        max < bytes@.len(),
    ensures
        k == snapped(bytes@, max as int),
        k <= max,
{
    let mut k: usize = max;
    while k > 0 && continues(bytes[k])
        invariant
            k <= max < bytes@.len(),
            snapped(bytes@, max as int) == snapped(bytes@, k as int),
        decreases k,
    {
        k -= 1;
    }
    k
}

/// The part of the form `mime` that is kept of `bytes` where a part may have
/// `cap` of them.
pub fn keep_part(mime: String, bytes: Vec<u8>, cap: usize) -> (p: CapturedPart)
    ensures
        p@ == kept(mime@, bytes@, cap as int),
{
    if bytes.len() <= cap {
        return CapturedPart::full(mime, bytes);
    }
    if is_text_mime(mime.as_str()) {
        let k = snap(&bytes, cap);
        let mut blob: Vec<u8> = bytes;
        blob.truncate(k);
        assert(blob@ == bytes@.take(k as int));
        CapturedPart { mime, blob, store: PartStore::Truncated }
    } else {
        CapturedPart { mime, blob: Vec::new(), store: PartStore::Omitted }
    }
}

/// What is kept of a part is a beginning of it and keeps to the limit, and
/// all of it where it does.
pub proof fn kept_parts_keep_to_the_limit(mime: Seq<char>, bytes: Seq<u8>, cap: int)
    requires
        cap >= 0,
    ensures
        kept(mime, bytes, cap).mime == mime,
        kept(mime, bytes, cap).blob.len() <= cap,
        kept(mime, bytes, cap).blob.is_prefix_of(bytes),
        kept(mime, bytes, cap).store == PartStore::Full <==> bytes.len() <= cap,
        bytes.len() <= cap ==> kept(mime, bytes, cap).blob == bytes,
{
    lemma_snapped(bytes, cap);
}

proof fn lemma_snapped(bytes: Seq<u8>, max: int)
    requires
        max >= 0,
    ensures
        0 <= snapped(bytes, max) <= max,
        snapped(bytes, max) <= bytes.len(),
        0 < snapped(bytes, max) < bytes.len() ==> !is_continuation_byte(
            bytes[snapped(bytes, max)],
        ),
    decreases max,
{
    if 0 < max < bytes.len() && is_continuation_byte(bytes[max]) {
        lemma_snapped(bytes, max - 1);
    }
}

/// The beginning that is kept of valid UTF-8 is valid UTF-8: no character is cut
/// in two.
pub proof fn kept_text_stays_valid(mime: Seq<char>, bytes: Seq<u8>, cap: int)
    requires
        cap >= 0,
        valid_utf8(bytes),
    ensures
        valid_utf8(kept(mime, bytes, cap).blob),
{
    lemma_snapped(bytes, cap);
    let k = snapped(bytes, cap);
    is_char_boundary_start_end_of_seq(bytes);
    if 0 < k < bytes.len() {
        is_char_boundary_iff_not_is_continuation_byte(bytes, k);
    }
    assert(is_char_boundary(bytes, k));
    valid_utf8_split(bytes, k);
    assert(bytes.take(k) == bytes.subrange(0, k));
    assert(valid_utf8(Seq::<u8>::empty()));
}

// ---- reading an offer ---------------------------------------------------------------

/// A form that was offered and what could be read of it.
pub struct ReadPart {
    pub mime: String,
    /// None where it could not be read.
    pub bytes: Option<Vec<u8>>,
}

/// What a [`ReadPart`] holds.
pub ghost struct ReadPartView {
    pub mime: Seq<char>,
    pub bytes: Option<Seq<u8>>,
}

impl View for ReadPart {
    type V = ReadPartView;

    open spec fn view(&self) -> ReadPartView {
        ReadPartView {
            mime: self.mime@,
            bytes: match self.bytes {
                Some(b) => Some(b@),
                None => None,
            },
        }
    }
}

/// The views of the parts of `v`.
pub open spec fn read_views(v: Seq<ReadPart>) -> Seq<ReadPartView> {
    Seq::new(v.len(), |i: int| v[i]@)
}

/// The parts that are kept of what was read, in the order of the offer.
pub open spec fn kept_parts(read: Seq<ReadPartView>, cap: int) -> Seq<PartView>
    decreases read.len(),
{
    if read.len() == 0 {
        seq![]
    } else {
        let before = kept_parts(read.drop_last(), cap);
        match read.last().bytes {
            Some(b) => before.push(kept(read.last().mime, b, cap)),
            None => before,
        }
    }
}

/// The parts that are kept of what was read of an offer. What could not be read
/// is left out; none where nothing could be.
pub fn keep_parts(read: Vec<ReadPart>, cap: usize) -> (parts: Option<Vec<CapturedPart>>)
    ensures
        match parts {
            Some(p) => part_views(p@) == kept_parts(read_views(read@), cap as int) && p@.len() > 0,
            None => kept_parts(read_views(read@), cap as int).len() == 0,
        },
{
    let ghost rv = read_views(read@);
    let mut parts: Vec<CapturedPart> = Vec::new();
    let mut rest = read;
    let mut n: usize = 0;
    let total = rest.len();
    let mut todo: Vec<ReadPart> = Vec::new();
    // Turn the list round, so that it can be taken apart from its end.
    while rest.len() > 0
        invariant
            rv.len() == total,
            rest@.len() + todo@.len() == total,
            read_views(rest@) == rv.take(rest@.len() as int),
            forall|i: int| 0 <= i < todo@.len() ==> (#[trigger] todo@[i])@ == rv[total - 1 - i],
        decreases rest@.len(),
    {
        let ghost before = rest@;
        if let Some(r) = rest.pop() {
            assert(read_views(before)[before.len() - 1] == r@);
            assert(read_views(rest@) =~= rv.take(rest@.len() as int)) by {
                assert(forall|i: int| 0 <= i < rest@.len() ==> read_views(before)[i] == rest@[i]@);
            }
            todo.push(r);
        }
    }
    assert(part_views(parts@) == kept_parts(rv.take(0), cap as int));
    while n < total
        invariant
            n <= total,
            rv.len() == total,
            todo@.len() == total - n,
            forall|i: int| 0 <= i < todo@.len() ==> (#[trigger] todo@[i])@ == rv[total - 1 - i],
            part_views(parts@) == kept_parts(rv.take(n as int), cap as int),
        decreases total - n,
    {
        let ghost before = todo@;
        let ghost longer = rv.take(n + 1);
        assert(longer.drop_last() == rv.take(n as int));
        if let Some(r) = todo.pop() {
            assert(before[before.len() - 1]@ == rv[n as int]);
            assert(r@ == longer.last());
            assert forall|i: int| 0 <= i < todo@.len() implies (#[trigger] todo@[i])@ == rv[total
                - 1 - i] by {
                assert(todo@[i] == before[i]);
            }
            match r.bytes {
                Some(bytes) => {
                    let p = keep_part(r.mime, bytes, cap);
                    let ghost done = parts@;
                    let ghost pv = p@;
                    parts.push(p);
                    assert(part_views(parts@) =~= part_views(done).push(pv));
                },
                None => {},
            }
        }
        n += 1;
    }
    assert(rv.take(total as int) == rv);
    assert(part_views(parts@).len() == parts@.len());
    if parts.len() == 0 {
        None
    } else {
        Some(parts)
    }
}

} // verus!
