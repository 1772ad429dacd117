//! File transfer: listing order, stat answers and transfer bookkeeping.
//! Reading and writing files, and the network round trips, are left to the
//! application.

use vstd::prelude::*;
use crate::places::Platform;
use crate::safepath::{file_name, file_name_of, on_windows};
use crate::text::{chars_of, decimal, decimal_u64, lowercase_of, push_char, to_lowercase};

verus! {

/// One entry of a directory listing.
pub struct FileEntry {
    pub name: String,
    pub is_dir: bool,
    pub size: u64,
}

/// Size and kind of a path.
pub struct StatResponse {
    pub size: u64,
    pub is_dir: bool,
}

/// Why a stat failed. A resumable upload asks for the size of a file that
/// may not exist yet, so "not there" stays distinct from "you may not look".
pub enum StatError {
    Missing,
    Denied(String),
}

/// Progress of one file transfer.
pub struct TransferProgress {
    /// `"up"` or `"down"`.
    pub direction: String,
    pub file: String,
    pub done_bytes: u64,
    pub total_bytes: u64,
    pub finished: bool,
}

/// Lexicographic order of texts by code point (the byte order of their
/// UTF-8 forms); a prefix comes first.
pub open spec fn text_le(a: Seq<char>, b: Seq<char>) -> bool
    decreases a.len(),
{
    if a.len() == 0 {
        true
    } else if b.len() == 0 {
        false
    } else if a[0] != b[0] {
        a[0] < b[0]
    } else {
        text_le(a.drop_first(), b.drop_first())
    }
}

/// Listing order: directories before files, then names compared without
/// regard to case.
pub open spec fn entry_le(a: FileEntry, b: FileEntry) -> bool {
    (a.is_dir && !b.is_dir) || (a.is_dir == b.is_dir && text_le(
        lowercase_of(a.name@),
        lowercase_of(b.name@),
    ))
}

/// Every entry comes no later in listing order than the ones after it.
pub open spec fn in_listing_order(s: Seq<FileEntry>) -> bool {
    forall|i: int, j: int| 0 <= i < j < s.len() ==> entry_le(s[i], s[j])
}

proof fn lemma_text_le_total(a: Seq<char>, b: Seq<char>)
    ensures
        text_le(a, b) || text_le(b, a),
    decreases a.len(),
{
    if a.len() > 0 && b.len() > 0 && a[0] == b[0] {
        lemma_text_le_total(a.drop_first(), b.drop_first());
    }
}

proof fn lemma_text_le_transitive(a: Seq<char>, b: Seq<char>, c: Seq<char>)
    requires
        text_le(a, b),
        text_le(b, c),
    ensures
        text_le(a, c),
    decreases a.len(),
{
    if a.len() > 0 && b.len() > 0 && c.len() > 0 && a[0] == b[0] && b[0] == c[0] {
        lemma_text_le_transitive(a.drop_first(), b.drop_first(), c.drop_first());
    }
}

proof fn lemma_entry_le_transitive(a: FileEntry, b: FileEntry, c: FileEntry)
    requires
        entry_le(a, b),
        entry_le(b, c),
    ensures
        entry_le(a, c),
{
    if a.is_dir == b.is_dir && b.is_dir == c.is_dir {
        lemma_text_le_transitive(
            lowercase_of(a.name@),
            lowercase_of(b.name@),
            lowercase_of(c.name@),
        );
    }
}

/// Whether `a` comes after `b` in text order (`a > b`).
fn text_gt(a: &Vec<char>, b: &Vec<char>) -> (res: bool)
    ensures
        res == !text_le(a@, b@),
{
    let mut i: usize = 0;
    proof {
        assert(a@.skip(0) =~= a@);
        assert(b@.skip(0) =~= b@);
    }
    while i < a.len() && i < b.len()
        invariant
            i <= a@.len(),
            i <= b@.len(),
            text_le(a@, b@) == text_le(a@.skip(i as int), b@.skip(i as int)),
        decreases a.len() - i,
    {
        proof {
            assert(a@.skip(i as int)[0] == a@[i as int]);
            assert(b@.skip(i as int)[0] == b@[i as int]);
            assert(a@.skip(i as int).drop_first() =~= a@.skip(i + 1));
            assert(b@.skip(i as int).drop_first() =~= b@.skip(i + 1));
        }
        if a[i] != b[i] {
            return a[i] > b[i];
        }
        i = i + 1;
    }
    proof {
        assert(a@.skip(i as int).len() == 0 || b@.skip(i as int).len() == 0);
    }
    i < a.len()
}

/// Inserting `e` between the entries that come no later than it and those
/// that come no earlier keeps a listing in order.
proof fn lemma_insert_keeps_order(before: Seq<FileEntry>, pos: int, e: FileEntry)
    requires
        0 <= pos <= before.len(),
        in_listing_order(before),
        forall|i: int| 0 <= i < pos ==> entry_le(#[trigger] before[i], e),
        forall|j: int| pos <= j < before.len() ==> entry_le(e, #[trigger] before[j]),
    ensures
        in_listing_order(before.insert(pos, e)),
{
    let after = before.insert(pos, e);
    assert forall|i: int, j: int| 0 <= i < j < after.len() implies entry_le(
        after[i],
        after[j],
    ) by {
        if i < pos && j < pos {
            assert(after[i] == before[i] && after[j] == before[j]);
        } else if i < pos && j == pos {
            assert(after[i] == before[i]);
        } else if i < pos {
            assert(after[i] == before[i] && after[j] == before[j - 1]);
            lemma_entry_le_transitive(before[i], e, before[j - 1]);
        } else if i == pos {
            assert(after[j] == before[j - 1]);
        } else {
            assert(after[i] == before[i - 1] && after[j] == before[j - 1]);
        }
    }
}

/// Where `e` goes in an ordered listing so that equal entries keep their
/// order: after every entry that comes no later than it.
fn insertion_point(sorted: &Vec<FileEntry>, keys: &Vec<Vec<char>>, e: &FileEntry, key: &Vec<char>) -> (pos: usize)
    requires
        keys@.len() == sorted@.len(),
        forall|i: int| 0 <= i < keys@.len() ==> (#[trigger] keys@[i])@ == lowercase_of(sorted@[i].name@),
        key@ == lowercase_of(e.name@),
        in_listing_order(sorted@),
    ensures
        pos <= sorted@.len(),
        forall|i: int| 0 <= i < pos ==> entry_le(#[trigger] sorted@[i], *e),
        forall|j: int| pos <= j < sorted@.len() ==> entry_le(*e, #[trigger] sorted@[j]),
        forall|j: int| pos <= j < sorted@.len() ==> !entry_le(#[trigger] sorted@[j], *e),
{
    let mut pos: usize = 0;
    while pos < sorted.len()
        invariant_except_break
            pos <= sorted@.len(),
            forall|i: int| 0 <= i < pos ==> entry_le(#[trigger] sorted@[i], *e),
        invariant
            keys@.len() == sorted@.len(),
            forall|i: int| 0 <= i < keys@.len() ==> (#[trigger] keys@[i])@ == lowercase_of(sorted@[i].name@),
            key@ == lowercase_of(e.name@),
        ensures
            pos <= sorted@.len(),
            forall|i: int| 0 <= i < pos ==> entry_le(#[trigger] sorted@[i], *e),
            pos < sorted@.len() ==> entry_le(*e, sorted@[pos as int]),
            pos < sorted@.len() ==> !entry_le(sorted@[pos as int], *e),
        decreases sorted.len() - pos,
    {
        proof {
            assert(keys@[pos as int]@ == lowercase_of(sorted@[pos as int].name@));
        }
        let goes_after = (!sorted[pos].is_dir && e.is_dir) || (sorted[pos].is_dir == e.is_dir
            && text_gt(&keys[pos], key));
        if goes_after {
            proof {
                lemma_text_le_total(key@, keys@[pos as int]@);
            }
            break;
        }
        pos = pos + 1;
    }
    proof {
        assert forall|j: int| pos <= j < sorted@.len() implies entry_le(*e, #[trigger] sorted@[j]) by {
            if j > pos {
                lemma_entry_le_transitive(*e, sorted@[pos as int], sorted@[j]);
            }
        }
        assert forall|j: int| pos <= j < sorted@.len() implies !entry_le(#[trigger] sorted@[j], *e) by {
            if j > pos && entry_le(sorted@[j], *e) {
                lemma_entry_le_transitive(sorted@[pos as int], sorted@[j], *e);
            }
        }
    }
    pos
}

/// `e` inserted into an ordered listing after every entry that comes no
/// later than it: the step of a stable insertion sort.
pub open spec fn insert_sorted(s: Seq<FileEntry>, e: FileEntry) -> Seq<FileEntry>
    decreases s.len(),
{
    if s.len() == 0 || entry_le(s.last(), e) {
        s.push(e)
    } else {
        insert_sorted(s.drop_last(), e).push(s.last())
    }
}

/// The listing in listing order, entries with equal keys in the order they
/// came: the stable sort of `s`.
pub open spec fn listing_sorted(s: Seq<FileEntry>) -> Seq<FileEntry>
    decreases s.len(),
{
    if s.len() == 0 {
        Seq::empty()
    } else {
        insert_sorted(listing_sorted(s.drop_last()), s.last())
    }
}

proof fn lemma_insert_sorted_at(s: Seq<FileEntry>, e: FileEntry, pos: int)
    requires
        0 <= pos <= s.len(),
        forall|i: int| 0 <= i < pos ==> entry_le(#[trigger] s[i], e),
        forall|j: int| pos <= j < s.len() ==> !entry_le(#[trigger] s[j], e),
    ensures
        insert_sorted(s, e) == s.insert(pos, e),
    decreases s.len(),
{
    if s.len() == 0 {
        assert(s.insert(pos, e) =~= s.push(e));
    } else if entry_le(s.last(), e) {
        assert(pos == s.len());
        assert(s.insert(pos, e) =~= s.push(e));
    } else {
        let t = s.drop_last();
        assert forall|i: int| 0 <= i < pos implies entry_le(#[trigger] t[i], e) by {
            assert(t[i] == s[i]);
        }
        assert forall|j: int| pos <= j < t.len() implies !entry_le(#[trigger] t[j], e) by {
            assert(t[j] == s[j]);
        }
        lemma_insert_sorted_at(t, e, pos);
        assert(t.insert(pos, e).push(s.last()) =~= s.insert(pos, e));
    }
}

/// Puts a listing in order: directories first, then by name without regard
/// to case. Equal keys keep their order.
pub fn sort_entries(entries: Vec<FileEntry>) -> (res: Vec<FileEntry>)
    ensures
        res@ == listing_sorted(entries@),
        in_listing_order(res@),
        res@.to_multiset() == entries@.to_multiset(),
{
    let mut sorted: Vec<FileEntry> = Vec::new();
    let mut keys: Vec<Vec<char>> = Vec::new();
    let mut rest = entries;
    let ghost original = rest@;
    let mut taken: usize = 0;
    let n: usize = rest.len();
    proof {
        assert(original.len() == n);
        assert(original.subrange(0, 0) =~= sorted@);
    }
    while rest.len() > 0
        invariant
            taken + rest@.len() == original.len(),
            original.len() <= usize::MAX,
            rest@ == original.subrange(taken as int, original.len() as int),
            keys@.len() == sorted@.len(),
            forall|i: int| 0 <= i < keys@.len() ==> (#[trigger] keys@[i])@ == lowercase_of(sorted@[i].name@),
            in_listing_order(sorted@),
            sorted@ == listing_sorted(original.subrange(0, taken as int)),
            sorted@.to_multiset() == original.subrange(0, taken as int).to_multiset(),
        decreases rest.len(),
    {
        let e = rest.remove(0);
        proof {
            assert(e == original[taken as int]);
        }
        let lower = to_lowercase(e.name.as_str());
        let key = chars_of(lower.as_str());
        let pos = insertion_point(&sorted, &keys, &e, &key);
        let ghost before = sorted@;
        let ghost keys_before = keys@;
        proof {
            lemma_insert_keeps_order(before, pos as int, e);
            lemma_insert_sorted_at(before, e, pos as int);
            let next = original.subrange(0, taken + 1);
            assert(next.drop_last() =~= original.subrange(0, taken as int));
            assert(next.last() == e);
        }
        sorted.insert(pos, e);
        keys.insert(pos, key);
        proof {
            assert forall|i: int| 0 <= i < keys@.len() implies (#[trigger] keys@[i])@ == lowercase_of(
                sorted@[i].name@,
            ) by {
                if i < pos {
                    assert(sorted@[i] == before[i] && keys@[i] == keys_before[i]);
                } else if i > pos {
                    assert(sorted@[i] == before[i - 1] && keys@[i] == keys_before[i - 1]);
                }
            }
            vstd::seq_lib::to_multiset_insert(before, pos as int, e);
            assert(original.subrange(0, taken + 1) =~= original.subrange(0, taken as int).push(e));
            vstd::seq_lib::to_multiset_build(original.subrange(0, taken as int), e);
            assert(rest@ =~= original.subrange(taken + 1, original.len() as int));
        }
        taken = taken + 1;
    }
    proof {
        assert(original.subrange(0, original.len() as int) =~= original);
    }
    sorted
}

/// The answer to a stat: a file's length, 0 for anything else.
pub fn stat_response(is_file: bool, is_dir: bool, len: u64) -> (res: StatResponse)
    ensures
        res.size == if is_file {
            len
        } else {
            0
        },
        res.is_dir == is_dir,
{
    StatResponse { size: if is_file { len } else { 0 }, is_dir }
}

impl TransferProgress {
    /// Progress of `file` in `direction` after `done` of `total` bytes.
    pub fn new(direction: &str, file: &str, done: u64, total: u64) -> (res: Self)
        ensures
            res.direction@ == direction@,
            res.file@ == file@,
            res.done_bytes == done,
            res.total_bytes == total,
            res.finished == (done >= total),
    {
        TransferProgress {
            direction: direction.to_owned(),
            file: file.to_owned(),
            done_bytes: done,
            total_bytes: total,
            finished: done >= total,
        }
    }
}

/// Where a download resumes: at the length of the local file, unless that is
/// longer than the remote file, which makes it a stale leftover to discard
/// and start again from 0. Returns the offset and whether to discard.
pub fn download_resume(local_len: Option<u64>, total: u64) -> (res: (u64, bool))
    ensures
        res == match local_len {
            Some(n) => if n > total {
                (0u64, true)
            } else {
                (n, false)
            },
            None => (0u64, false),
        },
{
    match local_len {
        Some(n) => if n > total {
            (0, true)
        } else {
            (n, false)
        },
        None => (0, false),
    }
}

/// The remote path of an upload: the host's incoming folder and the name.
pub fn upload_path(remote_dir: &str, name: &str) -> (res: String)
    ensures
        res@ == remote_dir@ + seq!['/'] + name@,
{
    let mut p = remote_dir.to_owned();
    push_char(&mut p, '/');
    p.append(name);
    p
}

/// The answer to a stat request: a path the roots refuse is `Denied` with
/// the reason, one that is not there `Missing`, else its size and kind.
/// `meta` is whether it is a file, whether a folder, and its length.
pub fn stat_outcome(resolved: Result<String, String>, meta: Option<(bool, bool, u64)>) -> (res: Result<StatResponse, StatError>)
    ensures
        match resolved {
            Err(m) => res matches Err(StatError::Denied(r)) && r@ == m@,
            Ok(_) => match meta {
                None => res matches Err(StatError::Missing),
                Some((is_file, is_dir, len)) => res matches Ok(s) && s.is_dir == is_dir && s.size
                    == if is_file {
                    len
                } else {
                    0
                },
            },
        },
{
    match resolved {
        Err(m) => Err(StatError::Denied(m)),
        Ok(_) => match meta {
            None => Err(StatError::Missing),
            Some((is_file, is_dir, len)) => Ok(stat_response(is_file, is_dir, len)),
        },
    }
}

/// Where a write of `len` bytes at `offset` ends.
pub fn written_end(offset: u64, len: usize) -> (res: u64)
    requires
        offset + len <= u64::MAX,
    ensures
        res == offset + len,
{
    offset + len as u64
}

/// What an upload of the local file `local_path` goes to: its file name, and
/// that name in the host's incoming folder.
pub fn upload_target(platform: Platform, remote_dir: &str, local_path: &str) -> (res: Result<(String, String), String>)
    ensures
        match file_name_of(on_windows(platform), local_path@) {
            Some(n) => res matches Ok((name, remote)) && name@ == n && remote@ == remote_dir@ + seq![
                '/',
            ] + n,
            None => res matches Err(m) && m@ == "invalid file name"@,
        },
{
    match file_name(platform, local_path) {
        Some(name) => {
            let remote = upload_path(remote_dir, name.as_str());
            Ok((name, remote))
        },
        None => Err("invalid file name".to_owned()),
    }
}

/// The local name of a downloaded file: the remote path's file name, as
/// this platform reads it.
pub fn download_name(platform: Platform, remote_path: &str) -> (res: Result<String, String>)
    ensures
        match file_name_of(on_windows(platform), remote_path@) {
            Some(n) => res matches Ok(name) && name@ == n,
            None => res matches Err(m) && m@ == "invalid remote path"@,
        },
{
    match file_name(platform, remote_path) {
        Some(name) => Ok(name),
        None => Err("invalid remote path".to_owned()),
    }
}

/// The query of an upload chunk: the remote path and the offset in decimal.
pub fn chunk_query(remote_path: &str, offset: u64) -> (res: Vec<(&'static str, String)>)
    ensures
        res@.len() == 2,
        res@[0].0@ == "path"@ && res@[0].1@ == remote_path@,
        res@[1].0@ == "offset"@ && res@[1].1@ == decimal(offset as nat),
{
    vec![("path", remote_path.to_owned()), ("offset", decimal_u64(offset))]
}

/// The error of a transfer the user cancelled.
pub fn cancelled_error() -> (res: String)
    ensures
        res@ == "Transfer cancelled"@,
{
    "Transfer cancelled".to_owned()
}

/// The error when no access code is known for the host.
pub fn missing_code_error() -> (res: String)
    ensures
        res@ == "No access code stored for this computer \u{2014} add it with its code first"@,
{
    "No access code stored for this computer \u{2014} add it with its code first".to_owned()
}

/// What a transfer loop does next.
#[derive(PartialEq, Eq, Structural, Clone, Copy, Debug)]
pub enum TransferStep {
    /// Move the next chunk.
    Continue,
    /// Everything has been moved.
    Finished,
    /// The user cancelled; stop with the cancellation error.
    Cancelled,
}

/// Decides the next step of a transfer loop: finished once nothing more is
/// owed (a download has reached the remote size), else cancelled when the
/// user asked, else on to the next chunk.
pub fn transfer_step(more: bool, cancelled: bool) -> (res: TransferStep)
    ensures
        res == if !more {
            TransferStep::Finished
        } else if cancelled {
            TransferStep::Cancelled
        } else {
            TransferStep::Continue
        },
{
    if !more {
        TransferStep::Finished
    } else if cancelled {
        TransferStep::Cancelled
    } else {
        TransferStep::Continue
    }
}

/// Where a transfer stands after a chunk of `len` bytes at `offset`: an
/// empty chunk (the end of the local file, or a remote file that has no
/// more) ends it; otherwise the offset moves past the chunk.
pub fn next_offset(offset: u64, len: usize) -> (res: Option<u64>)
    requires
        offset + len <= u64::MAX,
    ensures
        len == 0 ==> res is None,
        len > 0 ==> res == Some((offset + len) as u64),
{
    if len == 0 {
        None
    } else {
        Some(offset + len as u64)
    }
}

// ---------------------------------------------------------------------------
// Laws
// ---------------------------------------------------------------------------

/// A sorted listing puts every directory before every file.
pub proof fn directories_come_first(s: Seq<FileEntry>, i: int, j: int)
    requires
        in_listing_order(s),
        0 <= i < s.len(),
        0 <= j < s.len(),
        s[i].is_dir,
        !s[j].is_dir,
    ensures
        i < j,
{
    if j < i {
        assert(entry_le(s[j], s[i]));
    }
}

} // verus!
