//! Session files: their names, their lines, and what their entries add up to. Opening,
//! reading and writing them is left to the caller, and so is the JSON of a single line.

use vstd::arithmetic::power::pow;
use vstd::prelude::*;
use vstd::string::*;
use vstd::utf8::{decode_utf8, valid_utf8};

use crate::ident::{hex_digit_at, uuid_text};
use crate::message::{message_views, Message, MessageView};
use crate::order::{
    is_order, is_sorted, is_stable_sort, law_sorting_keeps_what_there_is, lemma_insert_sorted,
    lemma_sort_empty,
};
use crate::session::chain::{chain_to, fed, ChainBuilder, ChainEntry, ChainView, NodeView};
use crate::session::entry::{
    entry_views, opt_view, Entry, EntryView, ExitInfo, FileSnapshot, MetadataView, SessionInfo,
    TitleInfo, TitleSource, ToolMetadata, CURRENT_VERSION,
};
use crate::session::display::short_id;
use crate::session::list_view::is_cuttable;
use crate::session::path::{sanitize_cwd, sanitized_cwd, UNKNOWN_PROJECT_DIR};
use crate::text::{
    byte_len, byte_prefix, utf8_len, decimal, decimal_of, ends_with, has_prefix, has_suffix, is_alnum, is_alphanumeric,
    lemma_lex_order, lex_less, chars_of, signed_decimal, signed_decimal_of, starts_with, str_eq, str_less,
    trim, trim_of, utf8_text, views,
};

verus! {

// ── Errors ──

/// Why a session file cannot be named or read.
#[derive(Debug, PartialEq, Eq)]
pub enum StoreError {
    /// An identifier that no file can have.
    InvalidSessionId(String),
    /// A file is made from a header, and this is none.
    ExpectedHeader,
    /// A file that a newer version wrote.
    NewerVersion(u32),
    /// A first line that is no header.
    NotAHeader,
    /// A file whose first line cannot be read as an entry.
    InvalidHeader(String),
    /// A file that begins with another entry.
    Headless(String),
    /// A session that has no file.
    NotFound(String),
}

/// What a [`StoreError`] says.
pub open spec fn error_message(e: StoreError) -> Seq<char> {
    match e {
        StoreError::InvalidSessionId(id) => "invalid session ID: "@ + id@,
        StoreError::ExpectedHeader => "expected Header entry"@,
        StoreError::NewerVersion(v) => "session format version "@ + decimal(v as nat)
            + " is newer than supported ("@ + decimal(CURRENT_VERSION as nat)
            + "); please upgrade oxide-code"@,
        StoreError::NotAHeader => "first line is not a header"@,
        StoreError::InvalidHeader(path) => "first line of "@ + path@ + " is not a valid header"@,
        StoreError::Headless(path) => path@ + " does not begin with a header"@,
        StoreError::NotFound(id) => "session not found: "@ + id@,
    }
}

impl StoreError {
    /// The error in words.
    pub fn message(&self) -> (r: String)
        ensures
            r@ == error_message(*self),
    {
        match self {
            StoreError::InvalidSessionId(id) => {
                let mut out: String = "invalid session ID: ".to_owned();
                out.append(id.as_str());
                out
            },
            StoreError::ExpectedHeader => "expected Header entry".to_owned(),
            StoreError::NewerVersion(v) => {
                let mut out: String = "session format version ".to_owned();
                out.append(decimal_of(*v as u64).as_str());
                out.append(" is newer than supported (");
                out.append(decimal_of(CURRENT_VERSION as u64).as_str());
                out.append("); please upgrade oxide-code");
                out
            },
            StoreError::NotAHeader => "first line is not a header".to_owned(),
            StoreError::InvalidHeader(path) => {
                let mut out: String = "first line of ".to_owned();
                out.append(path.as_str());
                out.append(" is not a valid header");
                out
            },
            StoreError::Headless(path) => {
                let mut out: String = path.clone();
                out.append(" does not begin with a header");
                out
            },
            StoreError::NotFound(id) => {
                let mut out: String = "session not found: ".to_owned();
                out.append(id.as_str());
                out
            },
        }
    }
}

// ── Names ──

/// Whether `id` can name a session: 1 to 64 ASCII letters, digits, hyphens and underscores.
pub open spec fn is_session_id(id: Seq<char>) -> bool {
    &&& 0 < id.len() <= 64
    &&& forall|i: int| 0 <= i < id.len() ==> is_id_char(#[trigger] id[i])
}

/// An ASCII letter, digit, hyphen or underscore.
pub open spec fn is_id_char(c: char) -> bool {
    is_alnum(c) || c == '-' || c == '_'
}

/// Refuses an identifier that could not be part of a file name.
pub fn validate_session_id(session_id: &str) -> (r: Result<(), StoreError>)
    ensures
        r is Ok <==> is_session_id(session_id@),
        r matches Err(e) ==> e matches StoreError::InvalidSessionId(id) && id@ == session_id@,
{
    let cs: Vec<char> = chars_of(session_id);
    let mut ok: bool = cs.len() > 0 && cs.len() <= 64;
    let mut i: usize = 0;
    while i < cs.len()
        invariant
            i <= cs.len(),
            cs@ == session_id@,
            ok <==> 0 < cs.len() <= 64 && forall|k: int| 0 <= k < i ==> is_id_char(#[trigger] cs@[k]),
        decreases cs.len() - i,
    {
        let c: char = cs[i];
        if !(is_alphanumeric(c) || c == '-' || c == '_') {
            ok = false;
        }
        i = i + 1;
    }
    if ok {
        Ok(())
    } else {
        Err(StoreError::InvalidSessionId(session_id.to_owned()))
    }
}

/// What a session's file name ends with.
pub open spec fn file_suffix(session_id: Seq<char>) -> Seq<char> {
    "-"@ + session_id + ".jsonl"@
}

/// A session's file name: the second it began in, and its identifier.
pub open spec fn file_name(session_id: Seq<char>, created_at: i128) -> Seq<char> {
    signed_decimal(created_at as int / 1_000_000_000) + file_suffix(session_id)
}

/// What a session's file name ends with.
fn suffix_of(session_id: &str) -> (r: String)
    ensures
        r@ == file_suffix(session_id@),
{
    let mut out: String = "-".to_owned();
    out.append(session_id);
    out.append(".jsonl");
    out
}

/// The whole second that the instant `nanos` falls in.
fn whole_seconds(nanos: i128) -> (r: i64)
    requires
        i64::MIN <= nanos as int / 1_000_000_000 <= i64::MAX,
    ensures
        r == nanos as int / 1_000_000_000,
{
    let billion: i128 = 1_000_000_000;
    if nanos >= 0 {
        (nanos / billion) as i64
    } else {
        let up: i128 = -((-(nanos + 1)) / billion) - 1;
        up as i64
    }
}

/// A session's file name.
pub fn session_filename(session_id: &str, created_at: i128) -> (r: String)
    requires
        i64::MIN <= created_at as int / 1_000_000_000 <= i64::MAX,
    ensures
        r@ == file_name(session_id@, created_at),
{
    let mut out: String = signed_decimal_of(whole_seconds(created_at));
    out.append(suffix_of(session_id).as_str());
    out
}

/// The name of the file that `header` begins.
pub fn new_file_name(header: &Entry) -> (r: Result<String, StoreError>)
    requires
        header matches Entry::Header { created_at, .. } ==> i64::MIN <= created_at as int
            / 1_000_000_000 <= i64::MAX,
    ensures
        match header@ {
            EntryView::Header { session_id, created_at, .. } => if is_session_id(session_id) {
                r matches Ok(name) && name@ == file_name(session_id, created_at)
            } else {
                r matches Err(StoreError::InvalidSessionId(id)) && id@ == session_id
            },
            _ => r == Err::<String, StoreError>(StoreError::ExpectedHeader),
        },
{
    match header {
        Entry::Header { session_id, created_at, .. } => {
            match validate_session_id(session_id.as_str()) {
                Ok(()) => Ok(session_filename(session_id.as_str(), *created_at)),
                Err(e) => Err(e),
            }
        },
        _ => Err(StoreError::ExpectedHeader),
    }
}

/// Whether name `i` is the first of `names` that belongs to the session.
pub open spec fn is_first_file(names: Seq<Seq<char>>, session_id: Seq<char>, i: int) -> bool {
    &&& 0 <= i < names.len()
    &&& ends_with(names[i], file_suffix(session_id))
    &&& forall|k: int| 0 <= k < i ==> !ends_with(#[trigger] names[k], file_suffix(session_id))
}

/// Whether none of `names` belongs to the session.
pub open spec fn has_no_file(names: Seq<Seq<char>>, session_id: Seq<char>) -> bool {
    forall|k: int|
        0 <= k < names.len() ==> !ends_with(#[trigger] names[k], file_suffix(session_id))
}

/// The first of the file names of a directory that belongs to the session.
pub fn find_session_in(names: &Vec<String>, session_id: &str) -> (r: Option<usize>)
    ensures
        r matches Some(i) ==> is_first_file(views(names@), session_id@, i as int),
        r is None ==> has_no_file(views(names@), session_id@),
{
    let suffix: String = suffix_of(session_id);
    let mut i: usize = 0;
    while i < names.len()
        invariant
            i <= names.len(),
            suffix@ == file_suffix(session_id@),
            forall|k: int|
                0 <= k < i ==> !ends_with(#[trigger] views(names@)[k], file_suffix(session_id@)),
        decreases names.len() - i,
    {
        if has_suffix(names[i].as_str(), suffix.as_str()) {
            assert(views(names@)[i as int] == names@[i as int]@);
            return Some(i);
        }
        i = i + 1;
    }
    None
}

/// The file of the session: its place among the directories, and among the names of that
/// directory. `dirs` are the file names of each project directory, the current one first, so that
/// a file there is preferred.
pub fn find_session_path(dirs: &Vec<Vec<String>>, session_id: &str) -> (r: Result<
    (usize, usize),
    StoreError,
>)
    ensures
        !is_session_id(session_id@) ==> (r matches Err(StoreError::InvalidSessionId(id)) && id@
            == session_id@),
        is_session_id(session_id@) ==> match r {
            Ok((d, i)) => {
                &&& d < dirs@.len()
                &&& is_first_file(views(dirs@[d as int]@), session_id@, i as int)
                &&& forall|k: int|
                    0 <= k < d ==> has_no_file(views((#[trigger] dirs@[k])@), session_id@)
            },
            Err(e) => {
                &&& e matches StoreError::NotFound(id) && id@ == session_id@
                &&& forall|k: int|
                    0 <= k < dirs@.len() ==> has_no_file(
                        views((#[trigger] dirs@[k])@),
                        session_id@,
                    )
            },
        },
{
    match validate_session_id(session_id) {
        Err(e) => {
            return Err(e);
        },
        Ok(()) => {},
    }
    let mut d: usize = 0;
    while d < dirs.len()
        invariant
            d <= dirs.len(),
            is_session_id(session_id@),
            forall|k: int| 0 <= k < d ==> has_no_file(views((#[trigger] dirs@[k])@), session_id@),
        decreases dirs.len() - d,
    {
        match find_session_in(&dirs[d], session_id) {
            Some(i) => {
                return Ok((d, i));
            },
            None => {},
        }
        d = d + 1;
    }
    Err(StoreError::NotFound(session_id.to_owned()))
}

/// Whether a file of a project directory is a session file.
pub fn is_session_file(name: &str) -> (r: bool)
    ensures
        r == has_jsonl_extension(name@),
{
    let jsonl: &str = ".jsonl";
    proof {
        reveal_strlit(".jsonl");
    }
    has_suffix(name, jsonl) && name.unicode_len() > 6
}

/// Whether a file name has the extension `jsonl`: it ends with it, and does not begin with it.
pub open spec fn has_jsonl_extension(name: Seq<char>) -> bool {
    ends_with(name, ".jsonl"@) && name.len() > 6
}

/// The directory of the project whose working directory is `cwd`, by the bytes of its path, or
/// of all projects whose working directory cannot be told.
pub fn project_dir(cwd: Option<&[u8]>) -> (r: String)
    ensures
        r@ == (match cwd {
            Some(path) => sanitized_cwd(path@),
            None => UNKNOWN_PROJECT_DIR@,
        }),
{
    match cwd {
        Some(path) => sanitize_cwd(path),
        None => UNKNOWN_PROJECT_DIR.to_owned(),
    }
}

// ── Lines ──

/// The position of the first line feed of `b`, or its length.
pub open spec fn line_end(b: Seq<u8>) -> int
    decreases b.len(),
{
    if b.len() == 0 || b[0] == 10 {
        0
    } else {
        1 + line_end(b.drop_first())
    }
}

/// The bytes after the first line of `b`.
pub open spec fn after_line(b: Seq<u8>) -> Seq<u8> {
    if line_end(b) < b.len() {
        b.skip(line_end(b) + 1)
    } else {
        Seq::empty()
    }
}

proof fn lemma_line_end(b: Seq<u8>)
    ensures
        0 <= line_end(b) <= b.len(),
        line_end(b) < b.len() ==> b[line_end(b)] == 10,
        forall|k: int| 0 <= k < line_end(b) ==> b[k] != 10,
    decreases b.len(),
{
    if b.len() > 0 && b[0] != 10 {
        let t = b.drop_first();
        lemma_line_end(t);
        assert forall|k: int| 0 <= k < line_end(b) implies b[k] != 10 by {
            if k > 0 {
                assert(b[k] == t[k - 1]);
            }
        }
    }
}

/// Whether a line is read: one with nothing in it, or that is not UTF-8, is passed over.
pub open spec fn is_read(line: Seq<u8>) -> bool {
    line.len() > 0 && valid_utf8(line)
}

/// The text of each line of `b` that is read.
pub open spec fn file_lines(b: Seq<u8>) -> Seq<Seq<char>>
    decreases b.len(),
    via file_lines_decreases
{
    if b.len() == 0 {
        Seq::empty()
    } else {
        let line = b.take(line_end(b));
        let rest = file_lines(after_line(b));
        if is_read(line) {
            seq![decode_utf8(line)] + rest
        } else {
            rest
        }
    }
}

#[via_fn]
proof fn file_lines_decreases(b: Seq<u8>) {
    lemma_line_end(b);
}

/// The end of the line of `bytes` that begins at `start`.
fn line_end_from(bytes: &[u8], start: usize) -> (r: usize)
    requires
        start <= bytes.len(),
    ensures
        r == start + line_end(bytes@.skip(start as int)),
        start <= r <= bytes.len(),
{
    let ghost rest = bytes@.skip(start as int);
    proof {
        lemma_line_end(rest);
    }
    let mut i: usize = start;
    while i < bytes.len() && bytes[i] != 10
        invariant
            start <= i <= bytes.len(),
            rest == bytes@.skip(start as int),
            forall|k: int| 0 <= k < i - start ==> rest[k] != 10,
        decreases bytes.len() - i,
    {
        assert(rest[i - start] == bytes@[i as int]);
        i = i + 1;
    }
    assert(i < bytes.len() ==> rest[i - start] == bytes@[i as int]);
    i
}

/// The bytes of `bytes` from `start` up to `end`.
fn part(bytes: &[u8], start: usize, end: usize) -> (r: Vec<u8>)
    requires
        start <= end <= bytes.len(),
    ensures
        r@ == bytes@.subrange(start as int, end as int),
{
    let mut out: Vec<u8> = Vec::new();
    let mut i: usize = start;
    while i < end
        invariant
            start <= i <= end <= bytes.len(),
            out@ =~= bytes@.subrange(start as int, i as int),
        decreases end - i,
    {
        out.push(bytes[i]);
        i = i + 1;
    }
    out
}

/// The lines of a session file that are read, without their line feeds.
pub fn read_lines(bytes: &[u8]) -> (r: Vec<String>)
    ensures
        views(r@) == file_lines(bytes@),
{
    assert(bytes@.skip(0) =~= bytes@);
    read_lines_from(bytes, 0)
}

/// The lines that are read of what `bytes` holds from `from` on.
fn read_lines_from(bytes: &[u8], from: usize) -> (r: Vec<String>)
    requires
        from <= bytes.len(),
    ensures
        views(r@) == file_lines(bytes@.skip(from as int)),
{
    let mut out: Vec<String> = Vec::new();
    let mut start: usize = from;
    let ghost all = file_lines(bytes@.skip(from as int));
    assert(views(out@) + all =~= all);
    while start < bytes.len()
        invariant
            start <= bytes.len(),
            all == views(out@) + file_lines(bytes@.skip(start as int)),
        decreases bytes.len() - start,
    {
        let ghost rest = bytes@.skip(start as int);
        let end: usize = line_end_from(bytes, start);
        let line: Vec<u8> = part(bytes, start, end);
        let ghost before = out@;
        assert(line@ =~= rest.take(line_end(rest)));
        if line.len() > 0 {
            match utf8_text(line.as_slice()) {
                Some(text) => {
                    let text: String = text.to_owned();
                    out.push(text);
                    assert(views(out@) =~= views(before).push(text@));
                },
                None => {},
            }
        }
        let next: usize = if end < bytes.len() {
            end + 1
        } else {
            end
        };
        proof {
            assert(bytes@.skip(next as int) =~= after_line(rest));
            let tail = file_lines(after_line(rest));
            if is_read(line@) {
                assert(views(before) + (seq![decode_utf8(line@)] + tail) =~= views(before).push(
                    decode_utf8(line@),
                ) + tail);
            }
        }
        start = next;
    }
    proof {
        assert(bytes@.skip(start as int) =~= Seq::empty());
        assert(views(out@) + file_lines(bytes@.skip(start as int)) =~= views(out@));
    }
    out
}

/// The first line of a session file, trimmed, or nothing where it is not UTF-8.
pub fn header_line(bytes: &[u8]) -> (r: Option<String>)
    ensures
        r is Some <==> valid_utf8(bytes@.take(line_end(bytes@))),
        r matches Some(s) ==> s@ == trim_of(decode_utf8(bytes@.take(line_end(bytes@)))),
{
    assert(bytes@.skip(0) =~= bytes@);
    let end: usize = line_end_from(bytes, 0);
    let line: Vec<u8> = part(bytes, 0, end);
    assert(line@ =~= bytes@.take(line_end(bytes@)));
    match utf8_text(line.as_slice()) {
        Some(text) => Some(trim(text).to_owned()),
        None => None,
    }
}

// ── Listing ──

/// The kinds of lines that a listing reads behind the header.
#[derive(Clone, Copy, Debug, PartialEq, Eq, Structural)]
pub enum InfoLine {
    Title,
    Summary,
}

/// What a title's line begins with.
pub const TITLE_LINE_PREFIX: &'static str = "{\"type\":\"title\"";

/// What a summary's line begins with.
pub const SUMMARY_LINE_PREFIX: &'static str = "{\"type\":\"summary\"";

/// The kind of a line, by what it begins with.
pub open spec fn line_kind(line: Seq<char>) -> Option<InfoLine> {
    if starts_with(line, TITLE_LINE_PREFIX@) {
        Some(InfoLine::Title)
    } else if starts_with(line, SUMMARY_LINE_PREFIX@) {
        Some(InfoLine::Summary)
    } else {
        None
    }
}

/// The lines of `lines` that a listing reads.
pub open spec fn info_lines(lines: Seq<Seq<char>>) -> Seq<(InfoLine, Seq<char>)>
    decreases lines.len(),
{
    if lines.len() == 0 {
        Seq::empty()
    } else {
        let before = info_lines(lines.drop_last());
        match line_kind(lines.last()) {
            Some(kind) => before.push((kind, lines.last())),
            None => before,
        }
    }
}

/// Pairs of kinds and lines, by their characters.
pub open spec fn kind_views(v: Seq<(InfoLine, String)>) -> Seq<(InfoLine, Seq<char>)> {
    v.map_values(|p: (InfoLine, String)| (p.0, p.1@))
}

/// The titles and summaries of a session file, still as JSON.
pub fn scan_lines(bytes: &[u8]) -> (r: Vec<(InfoLine, String)>)
    ensures
        kind_views(r@) == info_lines(file_lines(after_line(bytes@))),
{
    assert(bytes@.skip(0) =~= bytes@);
    let end: usize = line_end_from(bytes, 0);
    let next: usize = if end < bytes.len() {
        end + 1
    } else {
        end
    };
    assert(bytes@.skip(next as int) =~= after_line(bytes@));
    let lines: Vec<String> = read_lines_from(bytes, next);
    let ghost all = views(lines@);
    let mut out: Vec<(InfoLine, String)> = Vec::new();
    assert(kind_views(out@) =~= Seq::empty());
    for line in it: lines
        invariant
            views(it.seq()) == all,
            kind_views(out@) == info_lines(all.take(it.index())),
    {
        proof {
            assert(all[it.index()] == line@);
            assert(all.take(it.index() + 1).drop_last() =~= all.take(it.index()));
        }
        let ghost before = out@;
        if has_prefix(line.as_str(), TITLE_LINE_PREFIX) {
            out.push((InfoLine::Title, line));
            assert(kind_views(out@) =~= kind_views(before).push((InfoLine::Title, line@)));
        } else if has_prefix(line.as_str(), SUMMARY_LINE_PREFIX) {
            out.push((InfoLine::Summary, line));
            assert(kind_views(out@) =~= kind_views(before).push((InfoLine::Summary, line@)));
        }
    }
    assert(all.take(all.len() as int) =~= all);
    out
}

/// Pairs of kinds and entries, by their characters.
pub open spec fn info_views(v: Seq<(InfoLine, Entry)>) -> Seq<(InfoLine, EntryView)> {
    v.map_values(|p: (InfoLine, Entry)| (p.0, p.1@))
}

/// The newest title among the lines that look like one.
pub open spec fn listed_title(entries: Seq<(InfoLine, EntryView)>) -> Option<(Seq<char>, i128)>
    decreases entries.len(),
{
    if entries.len() == 0 {
        None
    } else {
        let before = listed_title(entries.drop_last());
        match entries.last() {
            (InfoLine::Title, EntryView::Title { title, updated_at, .. }) => newer_title(
                before,
                title,
                updated_at,
            ),
            _ => before,
        }
    }
}

/// The newest summary among the lines that look like one; of those of one instant, the first.
pub open spec fn listed_exit(entries: Seq<(InfoLine, EntryView)>) -> Option<ExitInfo>
    decreases entries.len(),
{
    if entries.len() == 0 {
        None
    } else {
        let before = listed_exit(entries.drop_last());
        match entries.last() {
            (InfoLine::Summary, EntryView::Summary { message_count, updated_at }) => match before {
                Some(exit) if updated_at <= exit.updated_at => before,
                _ => Some(ExitInfo { message_count, updated_at }),
            },
            _ => before,
        }
    }
}

/// Whether `info` is what a listing shows of the session with this header and these lines,
/// in a file that was last changed at `modified`.
pub open spec fn is_info_of(
    info: SessionInfo,
    header: EntryView,
    entries: Seq<(InfoLine, EntryView)>,
    modified: Option<i128>,
) -> bool {
    header matches EntryView::Header { session_id, cwd, model, created_at, git_branch, .. } && {
        &&& info.session_id@ == session_id
        &&& info.cwd@ == cwd
        &&& info.model@ == model
        &&& info.created_at == created_at
        &&& opt_view(info.git_branch) == git_branch
        &&& info.last_active_at == match modified {
            Some(at) => at,
            None => created_at,
        }
        &&& title_view(info.title) == listed_title(entries)
        &&& info.exit == listed_exit(entries)
    }
}

/// What a listing shows of a session: its header, its newest title and summary, and when its
/// file was last changed, or the session begun where that is not known.
pub fn read_session_info(
    header: Entry,
    entries: Vec<(InfoLine, Entry)>,
    modified: Option<i128>,
) -> (r: Result<SessionInfo, StoreError>)
    ensures
        r is Ok <==> header@ is Header,
        r matches Ok(info) ==> is_info_of(info, header@, info_views(entries@), modified),
        r matches Err(e) ==> e == StoreError::NotAHeader,
{
    let ghost first = header@;
    match header {
        Entry::Header { session_id, cwd, model, created_at, git_branch, .. } => {
            let ghost all = info_views(entries@);
            let mut title: Option<TitleInfo> = None;
            let mut exit: Option<ExitInfo> = None;
            for pair in it: entries
                invariant
                    info_views(it.seq()) == all,
                    title_view(title) == listed_title(all.take(it.index())),
                    exit == listed_exit(all.take(it.index())),
            {
                proof {
                    assert(all[it.index()] == (pair.0, pair.1@));
                    assert(all.take(it.index() + 1).drop_last() =~= all.take(it.index()));
                }
                match pair {
                    (InfoLine::Title, Entry::Title { title: text, updated_at, .. }) => {
                        let newer: bool = match &title {
                            None => true,
                            Some(current) => updated_at > current.updated_at,
                        };
                        if newer {
                            title = Some(TitleInfo { title: text, updated_at });
                        }
                    },
                    (InfoLine::Summary, Entry::Summary { message_count, updated_at }) => {
                        let newer: bool = match exit {
                            None => true,
                            Some(current) => updated_at > current.updated_at,
                        };
                        if newer {
                            exit = Some(ExitInfo { message_count, updated_at });
                        }
                    },
                    _ => {},
                }
            }
            assert(all.take(all.len() as int) =~= all);
            let last_active_at: i128 = match modified {
                Some(at) => at,
                None => created_at,
            };
            Ok(
                SessionInfo {
                    session_id,
                    cwd,
                    model,
                    created_at,
                    last_active_at,
                    title,
                    exit,
                    git_branch,
                },
            )
        },
        _ => Err(StoreError::NotAHeader),
    }
}

/// What sessions are sorted by.
pub open spec fn sort_key(s: SessionInfo) -> (i128, Seq<char>) {
    (s.last_active_at, s.session_id@)
}

/// Whether the session with key `a` is listed before that with key `b`: it was active later, or
/// at the same instant and its identifier comes later.
pub open spec fn listed_before(a: (i128, Seq<char>), b: (i128, Seq<char>)) -> bool {
    a.0 > b.0 || (a.0 == b.0 && lex_less(b.1, a.1))
}

/// The order of a listing.
pub open spec fn listing_order() -> spec_fn(SessionInfo, SessionInfo) -> bool {
    |a: SessionInfo, b: SessionInfo| listed_before(sort_key(a), sort_key(b))
}

/// Whether `a` is listed before `b`.
fn precedes(a: &SessionInfo, b: &SessionInfo) -> (r: bool)
    ensures
        r == listing_order()(*a, *b),
{
    a.last_active_at > b.last_active_at || (a.last_active_at == b.last_active_at && str_less(
        b.session_id.as_str(),
        a.session_id.as_str(),
    ))
}

proof fn lemma_listing_order()
    ensures
        is_order(listing_order()),
{
    let before = listing_order();
    assert forall|a: SessionInfo| !#[trigger] before(a, a) by {
        lemma_lex_order(a.session_id@, a.session_id@, a.session_id@);
    }
    assert forall|a: SessionInfo, b: SessionInfo, c: SessionInfo| #[trigger]
        before(a, b) && #[trigger] before(b, c) implies before(a, c) by {
        lemma_lex_order(c.session_id@, b.session_id@, a.session_id@);
    }
    assert forall|a: SessionInfo, b: SessionInfo, c: SessionInfo|
        #![trigger before(a, c), before(a, b)]
        #![trigger before(a, c), before(b, c)]
        before(a, c) implies before(a, b) || before(b, c) by {
        lemma_lex_order(b.session_id@, a.session_id@, a.session_id@);
        lemma_lex_order(c.session_id@, a.session_id@, b.session_id@);
    }
}

/// Sorts sessions, the most recently active first. Those that are tied keep their order.
pub fn sort_sessions_recent_first(sessions: &mut Vec<SessionInfo>)
    ensures
        is_stable_sort(final(sessions)@, old(sessions)@, listing_order()),
{
    let ghost all = sessions@;
    let mut taken: Vec<SessionInfo> = Vec::new();
    std::mem::swap(&mut taken, sessions);
    proof {
        assert(all.take(0) =~= sessions@);
        lemma_sort_empty(listing_order());
        lemma_listing_order();
    }
    for session in it: taken
        invariant
            it.seq() == all,
            is_order(listing_order()),
            is_stable_sort(sessions@, all.take(it.index()), listing_order()),
    {
        let ghost sorted = sessions@;
        let mut p: usize = 0;
        while p < sessions.len() && !precedes(&session, &sessions[p])
            invariant
                p <= sessions.len(),
                sessions@ == sorted,
                forall|k: int| 0 <= k < p ==> !listing_order()(session, #[trigger] sorted[k]),
            decreases sessions.len() - p,
        {
            p = p + 1;
        }
        proof {
            lemma_insert_sorted(
                sorted,
                all.take(it.index()),
                session,
                p as int,
                listing_order(),
            );
            assert(all.take(it.index() + 1) =~= all.take(it.index()).push(session));
        }
        sessions.insert(p, session);
    }
    assert(all.take(all.len() as int) =~= all);
}

// ── Loading ──

/// Tool metadata by the identifier of the call. No identifier occurs twice.
#[derive(Debug, PartialEq, Eq)]
pub struct MetadataTable {
    items: Vec<(String, ToolMetadata)>,
}

impl View for MetadataTable {
    type V = Map<Seq<char>, MetadataView>;

    closed spec fn view(&self) -> Map<Seq<char>, MetadataView> {
        table_map(self.items@)
    }
}

/// What a list of pairs maps to.
spec fn table_map(items: Seq<(String, ToolMetadata)>) -> Map<Seq<char>, MetadataView>
    decreases items.len(),
{
    if items.len() == 0 {
        Map::empty()
    } else {
        table_map(items.drop_last()).insert(items.last().0@, items.last().1@)
    }
}

/// Whether no identifier occurs twice.
spec fn distinct_keys(items: Seq<(String, ToolMetadata)>) -> bool {
    forall|i: int, j: int|
        0 <= i < j < items.len() ==> (#[trigger] items[i]).0@ != (#[trigger] items[j]).0@
}

proof fn lemma_table(items: Seq<(String, ToolMetadata)>)
    requires
        distinct_keys(items),
    ensures
        forall|i: int|
            0 <= i < items.len() ==> table_map(items).contains_key((#[trigger] items[i]).0@)
                && table_map(items)[items[i].0@] == items[i].1@,
        forall|k: Seq<char>| #[trigger]
            table_map(items).contains_key(k) ==> exists|i: int|
                0 <= i < items.len() && (#[trigger] items[i]).0@ == k,
    decreases items.len(),
{
    if items.len() > 0 {
        let t = items.drop_last();
        assert(distinct_keys(t)) by {
            assert forall|i: int, j: int| 0 <= i < j < t.len() implies (#[trigger] t[i]).0@ != (
            #[trigger] t[j]).0@ by {
                assert(items[i].0@ != items[j].0@);
            }
        }
        lemma_table(t);
        assert forall|i: int| 0 <= i < items.len() implies table_map(items).contains_key(
            (#[trigger] items[i]).0@,
        ) && table_map(items)[items[i].0@] == items[i].1@ by {
            if i < t.len() {
                assert(t[i] == items[i]);
                assert(items[i].0@ != items[items.len() - 1].0@);
            }
        }
        assert forall|k: Seq<char>| #[trigger] table_map(items).contains_key(k) implies exists|
            i: int,
        |
            0 <= i < items.len() && (#[trigger] items[i]).0@ == k by {
            if k == items.last().0@ {
                assert(items[items.len() - 1].0@ == k);
            } else {
                assert(table_map(t).contains_key(k));
                let i = choose|i: int| 0 <= i < t.len() && (#[trigger] t[i]).0@ == k;
                assert(items[i].0@ == k);
            }
        }
    }
}

impl MetadataTable {
    #[verifier::type_invariant]
    spec fn well_formed(self) -> bool {
        distinct_keys(self.items@)
    }

    /// A table with nothing in it.
    pub fn new() -> (r: MetadataTable)
        ensures
            r@ == Map::<Seq<char>, MetadataView>::empty(),
    {
        MetadataTable { items: Vec::new() }
    }

    /// The number of identifiers.
    pub fn len(&self) -> (r: usize)
        ensures
            r == self@.dom().len(),
            self@.dom().finite(),
    {
        proof {
            use_type_invariant(&*self);
            lemma_table_len(self.items@);
        }
        self.items.len()
    }

    /// What is known of the call `id`.
    pub fn get(&self, id: &str) -> (r: Option<&ToolMetadata>)
        ensures
            r is Some <==> self@.contains_key(id@),
            r matches Some(m) ==> m@ == self@[id@],
    {
        proof {
            use_type_invariant(&*self);
            lemma_table(self.items@);
        }
        let mut i: usize = 0;
        while i < self.items.len()
            invariant
                i <= self.items.len(),
                forall|k: int|
                    0 <= k < self.items@.len() ==> self@.contains_key(
                        (#[trigger] self.items@[k]).0@,
                    ) && self@[self.items@[k].0@] == self.items@[k].1@,
                forall|k: int| 0 <= k < i ==> (#[trigger] self.items@[k]).0@ != id@,
            decreases self.items.len() - i,
        {
            if str_eq(self.items[i].0.as_str(), id) {
                return Some(&self.items[i].1);
            }
            i = i + 1;
        }
        None
    }

    /// The table with `metadata` for the call `id`, in place of what was there.
    pub fn insert(self, id: String, metadata: ToolMetadata) -> (r: MetadataTable)
        ensures
            r@ == self@.insert(id@, metadata@),
    {
        proof {
            use_type_invariant(&self);
        }
        let ghost before = self.items@;
        let mut items: Vec<(String, ToolMetadata)> = self.items;
        let mut i: usize = 0;
        while i < items.len()
            invariant
                i <= items.len(),
                items@ == before,
                distinct_keys(before),
                self@ == table_map(before),
                forall|k: int| 0 <= k < i ==> (#[trigger] items@[k]).0@ != id@,
            decreases items.len() - i,
        {
            if str_eq(items[i].0.as_str(), id.as_str()) {
                items.set(i, (id, metadata));
                proof {
                    let now = items@;
                    assert forall|a: int, b: int| 0 <= a < b < now.len() implies (
                    #[trigger] now[a]).0@ != (#[trigger] now[b]).0@ by {
                        assert(before[a].0@ != before[b].0@);
                    }
                    lemma_table(before);
                    lemma_table(now);
                    lemma_same_table(
                        table_map(now),
                        table_map(before).insert(id@, metadata@),
                        now,
                        before,
                        i as int,
                    );
                }
                return MetadataTable { items };
            }
            i = i + 1;
        }
        items.push((id, metadata));
        proof {
            let now = items@;
            assert(now.drop_last() =~= before);
            assert forall|a: int, b: int| 0 <= a < b < now.len() implies (#[trigger] now[a]).0@ != (
            #[trigger] now[b]).0@ by {
                if b < before.len() {
                    assert(before[a].0@ != before[b].0@);
                } else {
                    assert(before[a].0@ != id@);
                }
            }
        }
        MetadataTable { items }
    }
}

proof fn lemma_table_len(items: Seq<(String, ToolMetadata)>)
    requires
        distinct_keys(items),
    ensures
        table_map(items).dom().finite(),
        table_map(items).dom().len() == items.len(),
    decreases items.len(),
{
    if items.len() > 0 {
        let t = items.drop_last();
        assert(distinct_keys(t)) by {
            assert forall|i: int, j: int| 0 <= i < j < t.len() implies (#[trigger] t[i]).0@ != (
            #[trigger] t[j]).0@ by {
                assert(items[i].0@ != items[j].0@);
            }
        }
        lemma_table_len(t);
        lemma_table(t);
        let k = items.last().0@;
        if table_map(t).contains_key(k) {
            let i = choose|i: int| 0 <= i < t.len() && (#[trigger] t[i]).0@ == k;
            assert(items[i].0@ != items[items.len() - 1].0@);
        }
        assert(table_map(items).dom() =~= table_map(t).dom().insert(k));
    }
}

/// Two tables that agree on every identifier are one.
proof fn lemma_same_table(
    a: Map<Seq<char>, MetadataView>,
    b: Map<Seq<char>, MetadataView>,
    now: Seq<(String, ToolMetadata)>,
    before: Seq<(String, ToolMetadata)>,
    at: int,
)
    requires
        distinct_keys(now),
        distinct_keys(before),
        0 <= at < before.len(),
        now.len() == before.len(),
        now[at].0@ == before[at].0@,
        forall|k: int| 0 <= k < now.len() && k != at ==> #[trigger] now[k] == before[k],
        a == table_map(now),
        b == table_map(before).insert(now[at].0@, now[at].1@),
    ensures
        a == b,
{
    lemma_table(now);
    lemma_table(before);
    assert forall|k: Seq<char>| a.contains_key(k) <==> b.contains_key(k) by {
        if a.contains_key(k) {
            let i = choose|i: int| 0 <= i < now.len() && (#[trigger] now[i]).0@ == k;
            assert(before[i].0@ == k);
        }
        if b.contains_key(k) {
            if k == now[at].0@ {
                assert(a.contains_key(now[at].0@));
            } else {
                assert(table_map(before).contains_key(k));
                let i = choose|i: int| 0 <= i < before.len() && (#[trigger] before[i]).0@ == k;
                assert(now[i].0@ == k);
            }
        }
    }
    assert forall|k: Seq<char>| a.contains_key(k) implies a[k] == b[k] by {
        let i = choose|i: int| 0 <= i < now.len() && (#[trigger] now[i]).0@ == k;
        if i != at {
            assert(now[i] == before[i]);
            assert(before[i].0@ != before[at].0@) by {
                if i < at {
                    assert(before[i].0@ != before[at].0@);
                } else {
                    assert(before[at].0@ != before[i].0@);
                }
            }
        }
    }
    assert(a =~= b);
}

/// What a session file holds.
#[derive(Debug)]
pub struct SessionData {
    pub messages: Vec<Message>,
    pub last_uuid: Option<u128>,
    pub title: Option<TitleInfo>,
    pub tool_result_metadata: MetadataTable,
    pub file_snapshots: Vec<FileSnapshot>,
}

/// A title and when it was given, by its characters.
pub open spec fn title_view(t: Option<TitleInfo>) -> Option<(Seq<char>, i128)> {
    match t {
        Some(t) => Some((t.title@, t.updated_at)),
        None => None,
    }
}

/// The messages among `entries`.
pub open spec fn chain_entries(entries: Seq<EntryView>) -> Seq<ChainEntry>
    decreases entries.len(),
{
    if entries.len() == 0 {
        Seq::empty()
    } else {
        let before = chain_entries(entries.drop_last());
        match entries.last() {
            EntryView::Message { uuid, parent_uuid, message, timestamp } => before.push(
                ChainEntry {
                    uuid,
                    node: NodeView { parent: parent_uuid, message, timestamp: timestamp as int },
                },
            ),
            _ => before,
        }
    }
}

/// The newest title among `entries`; of those given at one instant, the first.
pub open spec fn newest_title(entries: Seq<EntryView>) -> Option<(Seq<char>, i128)>
    decreases entries.len(),
{
    if entries.len() == 0 {
        None
    } else {
        let before = newest_title(entries.drop_last());
        match entries.last() {
            EntryView::Title { title, updated_at, .. } => newer_title(before, title, updated_at),
            _ => before,
        }
    }
}

/// `title` in place of `before` where it is newer.
pub open spec fn newer_title(
    before: Option<(Seq<char>, i128)>,
    title: Seq<char>,
    updated_at: i128,
) -> Option<(Seq<char>, i128)> {
    match before {
        Some((_, at)) if updated_at <= at => before,
        _ => Some((title, updated_at)),
    }
}

/// The tool metadata among `entries`, the last for each call.
pub open spec fn metadata_of(entries: Seq<EntryView>) -> Map<Seq<char>, MetadataView>
    decreases entries.len(),
{
    if entries.len() == 0 {
        Map::empty()
    } else {
        let before = metadata_of(entries.drop_last());
        match entries.last() {
            EntryView::ToolResultMetadata { tool_use_id, metadata, .. } => before.insert(
                tool_use_id,
                metadata,
            ),
            _ => before,
        }
    }
}

/// The file snapshots among `entries`.
pub open spec fn snapshots_of(entries: Seq<EntryView>) -> Seq<FileSnapshot>
    decreases entries.len(),
{
    if entries.len() == 0 {
        Seq::empty()
    } else {
        let before = snapshots_of(entries.drop_last());
        match entries.last() {
            EntryView::FileSnapshot { snapshot } => before.push(snapshot),
            _ => before,
        }
    }
}

/// Whether entry `i` is the header of a newer version.
pub open spec fn is_newer_header(entries: Seq<EntryView>, i: int) -> bool {
    entries[i] matches EntryView::Header { version, .. } && version > CURRENT_VERSION
}

/// Whether `data` is what `entries` add up to.
pub open spec fn is_loaded(entries: Seq<EntryView>, data: SessionData) -> bool {
    &&& fed(chain_entries(entries)).is_tip(data.last_uuid)
    &&& message_views(data.messages@) == chain_to(fed(chain_entries(entries)), data.last_uuid)
    &&& title_view(data.title) == newest_title(entries)
    &&& data.tool_result_metadata@ == metadata_of(entries)
    &&& data.file_snapshots@ == snapshots_of(entries)
}

/// Reads what the entries of a session file add up to. Fails on the first header that a newer
/// version wrote, and on nothing else.
pub fn load_session_data(entries: Vec<Entry>) -> (r: Result<SessionData, StoreError>)
    ensures
        r is Ok <==> forall|i: int|
            0 <= i < entries.len() ==> !#[trigger] is_newer_header(entry_views(entries@), i),
        r matches Ok(data) ==> is_loaded(entry_views(entries@), data),
        r matches Err(e) ==> exists|i: int|
            {
                &&& 0 <= i < entries.len()
                &&& #[trigger] is_newer_header(entry_views(entries@), i)
                &&& e == StoreError::NewerVersion(entry_views(entries@)[i]->Header_version)
                &&& forall|k: int|
                    0 <= k < i ==> !#[trigger] is_newer_header(entry_views(entries@), k)
            },
{
    let ghost all = entry_views(entries@);
    let mut chain: ChainBuilder = ChainBuilder::new();
    let mut title: Option<TitleInfo> = None;
    let mut tool_result_metadata: MetadataTable = MetadataTable::new();
    let mut file_snapshots: Vec<FileSnapshot> = Vec::new();
    for entry in it: entries
        invariant
            entry_views(it.seq()) == all,
            all == entry_views(entries@),
            forall|k: int| 0 <= k < it.index() ==> !#[trigger] is_newer_header(all, k),
            chain@ == fed(chain_entries(all.take(it.index()))),
            title_view(title) == newest_title(all.take(it.index())),
            tool_result_metadata@ == metadata_of(all.take(it.index())),
            file_snapshots@ == snapshots_of(all.take(it.index())),
    {
        let ghost i = it.index();
        proof {
            assert(all[i] == entry@);
            assert(all.take(i + 1).drop_last() =~= all.take(i));
            assert(all.take(i + 1).last() == entry@);
        }
        match entry {
            Entry::Header { version, .. } => {
                if version > CURRENT_VERSION {
                    assert(is_newer_header(all, i));
                    return Err(StoreError::NewerVersion(version));
                }
            },
            Entry::Message { uuid, parent_uuid, message, timestamp } => {
                proof {
                    let before = chain_entries(all.take(i));
                    let after = chain_entries(all.take(i + 1));
                    assert(after.drop_last() =~= before);
                }
                chain.insert(uuid, parent_uuid, message, timestamp);
            },
            Entry::Title { title: text, updated_at, .. } => {
                let newer: bool = match &title {
                    None => true,
                    Some(current) => updated_at > current.updated_at,
                };
                if newer {
                    title = Some(TitleInfo { title: text, updated_at });
                }
            },
            Entry::ToolResultMetadata { tool_use_id, metadata, .. } => {
                tool_result_metadata = tool_result_metadata.insert(tool_use_id, metadata);
            },
            Entry::FileSnapshot { snapshot } => {
                file_snapshots.push(snapshot);
            },
            _ => {},
        }
    }
    assert(all.take(all.len() as int) =~= all);
    let (messages, last_uuid) = chain.resolve();
    Ok(SessionData { messages, last_uuid, title, tool_result_metadata, file_snapshots })
}

/// The session that the first entry of the file at `path` names. `first` is nothing where the
/// first line cannot be read as an entry.
pub fn read_session_id(path: &str, first: Option<Entry>) -> (r: Result<String, StoreError>)
    ensures
        match first {
            None => r matches Err(StoreError::InvalidHeader(p)) && p@ == path@,
            Some(e) => match e@ {
                EntryView::Header { session_id, .. } => r matches Ok(id) && id@ == session_id,
                _ => r matches Err(StoreError::Headless(p)) && p@ == path@,
            },
        },
{
    match first {
        None => Err(StoreError::InvalidHeader(path.to_owned())),
        Some(Entry::Header { session_id, .. }) => Ok(session_id),
        Some(_) => Err(StoreError::Headless(path.to_owned())),
    }
}

// ── Laws ──

/// The text of a UUID names a session: what a new session is called is never refused.
pub proof fn law_new_identifiers_are_valid(id: u128)
    ensures
        is_session_id(uuid_text(id)),
{
    let t = uuid_text(id);
    assert forall|i: int| 0 <= i < t.len() implies is_id_char(#[trigger] t[i]) by {
        assert forall|k: int| is_id_char(#[trigger] hex_digit_at(id, k)) by {
            let d = (id as int / pow(16, (31 - k) as nat)) % 16;
            assert(0 <= d < 16);
        }
    }
}

proof fn lemma_ascii_prefix(s: Seq<char>, n: nat)
    requires
        forall|i: int| 0 <= i < s.len() ==> is_id_char(#[trigger] s[i]),
        n <= s.len(),
    ensures
        byte_prefix(s, n) == Some(s.take(n as int)),
    decreases n,
{
    if n == 0 {
        assert(s.take(0) =~= Seq::empty());
    } else {
        let t = s.drop_first();
        assert forall|i: int| 0 <= i < t.len() implies is_id_char(#[trigger] t[i]) by {
            assert(t[i] == s[i + 1]);
        }
        lemma_ascii_prefix(t, (n - 1) as nat);
        assert(is_id_char(s[0]));
        assert(utf8_len(s[0]) == 1);
        assert(seq![s[0]] + t.take(n - 1) =~= s.take(n as int));
    }
}

proof fn lemma_ascii_len(s: Seq<char>)
    requires
        forall|i: int| 0 <= i < s.len() ==> is_id_char(#[trigger] s[i]),
    ensures
        byte_len(s) == s.len(),
    decreases s.len(),
{
    if s.len() > 0 {
        let t = s.drop_last();
        assert forall|i: int| 0 <= i < t.len() implies is_id_char(#[trigger] t[i]) by {
            assert(t[i] == s[i]);
        }
        lemma_ascii_len(t);
        assert(is_id_char(s[s.len() - 1]));
    }
}

/// A valid identifier is shown by its first eight characters, or all of them.
pub proof fn law_valid_identifiers_are_shortened(id: Seq<char>)
    requires
        is_session_id(id),
    ensures
        is_cuttable(id),
        short_id(id) == if id.len() >= 8 {
            id.take(8)
        } else {
            id
        },
{
    lemma_ascii_len(id);
    if id.len() >= 8 {
        lemma_ascii_prefix(id, 8);
    } else {
        lemma_short_prefix(id, 8);
    }
}

proof fn lemma_short_prefix(s: Seq<char>, n: nat)
    requires
        forall|i: int| 0 <= i < s.len() ==> is_id_char(#[trigger] s[i]),
        s.len() < n,
    ensures
        byte_prefix(s, n) is None,
    decreases s.len(),
{
    if s.len() > 0 {
        let t = s.drop_first();
        assert forall|i: int| 0 <= i < t.len() implies is_id_char(#[trigger] t[i]) by {
            assert(t[i] == s[i + 1]);
        }
        assert(is_id_char(s[0]));
        lemma_short_prefix(t, (n - 1) as nat);
    }
}

/// A session's file is found by its identifier: its name ends with what is looked for.
pub proof fn law_files_are_found_by_identifier(session_id: Seq<char>, created_at: i128)
    ensures
        ends_with(file_name(session_id, created_at), file_suffix(session_id)),
{
    let name = file_name(session_id, created_at);
    let suffix = file_suffix(session_id);
    assert(name.skip(name.len() - suffix.len()) =~= suffix);
}

/// What is listed first was active last: of two sessions of a sorted list the first was active
/// no earlier.
pub proof fn law_recent_sessions_come_first(v: Seq<SessionInfo>, i: int, j: int)
    requires
        is_sorted(v, listing_order()),
        0 <= i < j < v.len(),
    ensures
        v[i].last_active_at >= v[j].last_active_at,
{
    assert(!listing_order()(v[j], v[i]));
}

/// Of two sessions of a sorted list that were active at one instant, the one with the later
/// identifier stands first.
pub proof fn law_ties_go_by_identifier(v: Seq<SessionInfo>, i: int, j: int)
    requires
        is_sorted(v, listing_order()),
        0 <= i < j < v.len(),
        v[i].last_active_at == v[j].last_active_at,
    ensures
        !lex_less(v[i].session_id@, v[j].session_id@),
{
    assert(!listing_order()(v[j], v[i]));
}

/// Sorting the sessions of a listing leaves none out.
pub proof fn law_listing_holds_every_session(
    v: Seq<SessionInfo>,
    w: Seq<SessionInfo>,
    x: SessionInfo,
)
    requires
        is_stable_sort(v, w, listing_order()),
    ensures
        v.contains(x) <==> w.contains(x),
{
    lemma_listing_order();
    law_sorting_keeps_what_there_is(v, w, listing_order(), x);
}

/// A session's file is named by the second in which it began and its identifier, and can be told
/// from other files by its extension.
pub proof fn law_file_names_tell_second_and_identifier(session_id: Seq<char>, created_at: i128)
    ensures
        created_at >= 0 ==> file_name(session_id, created_at) == decimal(
            (created_at as int / 1_000_000_000) as nat,
        ) + "-"@ + session_id + ".jsonl"@,
        has_jsonl_extension(file_name(session_id, created_at)),
{
    reveal_strlit("-");
    reveal_strlit(".jsonl");
    let name = file_name(session_id, created_at);
    if created_at >= 0 {
        assert(name =~= decimal((created_at as int / 1_000_000_000) as nat) + "-"@ + session_id
            + ".jsonl"@);
    }
    assert(name.skip(name.len() - 6) =~= ".jsonl"@);
}

/// The last tool metadata for a call is the one that is loaded, and no other is there.
pub proof fn law_last_metadata_is_loaded(entries: Seq<EntryView>, id: Seq<char>, k: int)
    ensures
        (forall|j: int|
            0 <= j < entries.len() ==> !((#[trigger] entries[j]) matches
                EntryView::ToolResultMetadata { tool_use_id, .. } && tool_use_id == id))
            ==> !metadata_of(entries).contains_key(id),
        0 <= k < entries.len() && (entries[k] matches EntryView::ToolResultMetadata {
            tool_use_id,
            ..
        } && tool_use_id == id) && (forall|j: int|
            k < j < entries.len() ==> !((#[trigger] entries[j]) matches
                EntryView::ToolResultMetadata { tool_use_id, .. } && tool_use_id == id))
            ==> metadata_of(entries).contains_key(id) && metadata_of(entries)[id]
            == entries[k]->ToolResultMetadata_metadata,
    decreases entries.len(),
{
    if entries.len() > 0 {
        let t = entries.drop_last();
        let n = t.len() as int;
        law_last_metadata_is_loaded(t, id, k);
        assert(entries[n] == entries.last());
        if forall|j: int|
            0 <= j < entries.len() ==> !((#[trigger] entries[j]) matches
                EntryView::ToolResultMetadata { tool_use_id, .. } && tool_use_id == id) {
            assert forall|j: int| 0 <= j < t.len() implies !((#[trigger] t[j]) matches
                EntryView::ToolResultMetadata { tool_use_id, .. } && tool_use_id == id) by {
                assert(t[j] == entries[j]);
            }
            assert(!(entries[n] matches EntryView::ToolResultMetadata { tool_use_id, .. }
                && tool_use_id == id));
        }
        if 0 <= k < n && (forall|j: int|
            k < j < entries.len() ==> !((#[trigger] entries[j]) matches
                EntryView::ToolResultMetadata { tool_use_id, .. } && tool_use_id == id)) {
            assert(t[k] == entries[k]);
            assert forall|j: int| k < j < t.len() implies !((#[trigger] t[j]) matches
                EntryView::ToolResultMetadata { tool_use_id, .. } && tool_use_id == id) by {
                assert(t[j] == entries[j]);
            }
            assert(!(entries[n] matches EntryView::ToolResultMetadata { tool_use_id, .. }
                && tool_use_id == id));
        }
    }
}

/// What a file holds grows with it: a message, a snapshot, a title or metadata at its end adds
/// itself to what is loaded, and entries of other kinds add nothing.
pub proof fn law_loading_adds_up(entries: Seq<EntryView>, e: EntryView)
    ensures
        chain_entries(entries.push(e)) == match e {
            EntryView::Message { uuid, parent_uuid, message, timestamp } => chain_entries(
                entries,
            ).push(
                ChainEntry {
                    uuid,
                    node: NodeView { parent: parent_uuid, message, timestamp: timestamp as int },
                },
            ),
            _ => chain_entries(entries),
        },
        snapshots_of(entries.push(e)) == match e {
            EntryView::FileSnapshot { snapshot } => snapshots_of(entries).push(snapshot),
            _ => snapshots_of(entries),
        },
        metadata_of(entries.push(e)) == match e {
            EntryView::ToolResultMetadata { tool_use_id, metadata, .. } => metadata_of(
                entries,
            ).insert(tool_use_id, metadata),
            _ => metadata_of(entries),
        },
        !(e is Title) ==> newest_title(entries.push(e)) == newest_title(entries),
        e matches EntryView::Title { title, updated_at, .. } ==> ({
            let newer = newest_title(entries) matches Some((_, at)) ==> at < updated_at;
            newest_title(entries.push(e)) == if newer {
                Some((title, updated_at))
            } else {
                newest_title(entries)
            }
        }),
        chain_entries(Seq::<EntryView>::empty()).len() == 0,
        snapshots_of(Seq::<EntryView>::empty()).len() == 0,
        newest_title(Seq::<EntryView>::empty()) is None,
{
    assert(entries.push(e).drop_last() =~= entries);
}

proof fn lemma_line_end_behind(line: Seq<u8>, rest: Seq<u8>)
    requires
        !line.contains(10u8),
    ensures
        line_end(line + seq![10u8] + rest) == line.len(),
{
    let b = line + seq![10u8] + rest;
    lemma_line_end(b);
    let n = line_end(b);
    if n < line.len() {
        assert(line[n] == 10u8);
    }
    assert(b[line.len() as int] == 10u8);
}

/// A file is read line by line: a line that holds something and is text is read, without its line
/// feed, before what stands behind it; any other is passed over. The last line needs no line feed.
pub proof fn law_files_are_read_line_by_line(line: Seq<u8>, rest: Seq<u8>)
    requires
        !line.contains(10u8),
    ensures
        file_lines(line + seq![10u8] + rest) == if line.len() > 0 && valid_utf8(line) {
            seq![decode_utf8(line)] + file_lines(rest)
        } else {
            file_lines(rest)
        },
        file_lines(line) == if line.len() > 0 && valid_utf8(line) {
            seq![decode_utf8(line)]
        } else {
            Seq::empty()
        },
{
    let b = line + seq![10u8] + rest;
    lemma_line_end_behind(line, rest);
    assert(b.take(line.len() as int) =~= line);
    assert(after_line(b) =~= rest);
    lemma_line_end(line);
    let n = line_end(line);
    if n < line.len() {
        assert(line.contains(line[n]));
    }
    assert(line.take(line.len() as int) =~= line);
    assert(file_lines(Seq::<u8>::empty()) =~= Seq::empty());
    if line.len() > 0 {
        assert(after_line(line) =~= Seq::empty());
        if valid_utf8(line) {
            assert(file_lines(line) =~= seq![decode_utf8(line)]);
        }
    }
}

/// A listing looks at the lines that begin as titles and summaries do, all of them and in order.
pub proof fn law_listing_looks_at_titles_and_summaries(lines: Seq<Seq<char>>, line: Seq<char>)
    ensures
        info_lines(Seq::<Seq<char>>::empty()).len() == 0,
        starts_with(line, "{\"type\":\"title\""@) ==> info_lines(lines.push(line)) == info_lines(
            lines,
        ).push((InfoLine::Title, line)),
        starts_with(line, "{\"type\":\"summary\""@) ==> info_lines(lines.push(line)) == info_lines(
            lines,
        ).push((InfoLine::Summary, line)),
        !starts_with(line, "{\"type\":\"title\""@) && !starts_with(
            line,
            "{\"type\":\"summary\""@,
        ) ==> info_lines(lines.push(line)) == info_lines(lines),
{
    assert(lines.push(line).drop_last() =~= lines);
    reveal_strlit("{\"type\":\"title\"");
    reveal_strlit("{\"type\":\"summary\"");
    let a = "{\"type\":\"title\""@;
    let b = "{\"type\":\"summary\""@;
    if starts_with(line, a) && starts_with(line, b) {
        assert(line.take(a.len() as int)[9] == line[9]);
        assert(line.take(b.len() as int)[9] == line[9]);
        assert(a[9] == 't' && b[9] == 's');
    }
}

/// What a listing shows as the title is the newest of the lines that begin as titles do and are
/// titles, and of those of one instant the first.
pub proof fn law_listed_title_is_the_newest(entries: Seq<(InfoLine, EntryView)>) -> (k: int)
    ensures
        listed_title(entries) is None ==> forall|j: int|
            0 <= j < entries.len() ==> !((#[trigger] entries[j]).0 is Title && entries[j].1 is Title),
        listed_title(entries) matches Some((text, at)) ==> {
            &&& 0 <= k < entries.len()
            &&& entries[k].0 is Title
            &&& entries[k].1 matches EntryView::Title { title, updated_at, .. } && title == text
                && updated_at == at
            &&& forall|j: int|
                0 <= j < entries.len() && (#[trigger] entries[j]).0 is Title ==> (entries[j].1 matches
                    EntryView::Title { updated_at, .. } ==> updated_at <= at && (j < k
                    ==> updated_at < at))
        },
    decreases entries.len(),
{
    if entries.len() == 0 {
        0
    } else {
        let t = entries.drop_last();
        let n = t.len() as int;
        let k = law_listed_title_is_the_newest(t);
        assert(forall|j: int| 0 <= j < n ==> t[j] == #[trigger] entries[j]);
        assert(entries[n] == entries.last());
        if entries.last().0 is Title && entries.last().1 is Title && listed_title(entries)
            != listed_title(t) {
            n
        } else {
            k
        }
    }
}

/// What a listing shows as the end is the newest of the lines that begin as summaries do and are
/// summaries, and of those of one instant the first.
pub proof fn law_listed_exit_is_the_newest(entries: Seq<(InfoLine, EntryView)>) -> (k: int)
    ensures
        listed_exit(entries) is None ==> forall|j: int|
            0 <= j < entries.len() ==> !((#[trigger] entries[j]).0 is Summary
                && entries[j].1 is Summary),
        listed_exit(entries) matches Some(exit) ==> {
            &&& 0 <= k < entries.len()
            &&& entries[k].0 is Summary
            &&& entries[k].1 matches EntryView::Summary { message_count, updated_at }
                && message_count == exit.message_count && updated_at == exit.updated_at
            &&& forall|j: int|
                0 <= j < entries.len() && (#[trigger] entries[j]).0 is Summary ==> (
                entries[j].1 matches EntryView::Summary { updated_at, .. } ==> updated_at
                    <= exit.updated_at && (j < k ==> updated_at < exit.updated_at))
        },
    decreases entries.len(),
{
    if entries.len() == 0 {
        0
    } else {
        let t = entries.drop_last();
        let n = t.len() as int;
        let k = law_listed_exit_is_the_newest(t);
        assert(forall|j: int| 0 <= j < n ==> t[j] == #[trigger] entries[j]);
        assert(entries[n] == entries.last());
        if entries.last().0 is Summary && entries.last().1 is Summary && listed_exit(entries)
            != listed_exit(t) {
            n
        } else {
            k
        }
    }
}

/// What a listing shows of a session is the header's, and the session was active when its file
/// was last changed, or when it began where that is not known.
pub proof fn law_listing_shows_the_header(
    info: SessionInfo,
    header: EntryView,
    entries: Seq<(InfoLine, EntryView)>,
    modified: Option<i128>,
)
    requires
        is_info_of(info, header, entries, modified),
    ensures
        header is Header,
        info.session_id@ == header->Header_session_id,
        info.cwd@ == header->Header_cwd,
        info.model@ == header->Header_model,
        info.created_at == header->Header_created_at,
        info.git_branch is Some <==> header->Header_git_branch is Some,
        info.git_branch matches Some(b) ==> b@ == header->Header_git_branch->0,
        modified matches Some(at) ==> info.last_active_at == at,
        modified is None ==> info.last_active_at == info.created_at,
        info.title is Some <==> listed_title(entries) is Some,
        info.title matches Some(t) ==> listed_title(entries) == Some((t.title@, t.updated_at)),
        info.exit == listed_exit(entries),
{
}

/// What is loaded is what the file holds: its newest title, its metadata and its snapshots, and
/// the messages of the chain that ends in its tip.
pub proof fn law_loaded_is_what_the_file_holds(entries: Seq<EntryView>, data: SessionData)
    requires
        is_loaded(entries, data),
    ensures
        data.title is Some <==> newest_title(entries) is Some,
        data.title matches Some(t) ==> newest_title(entries) == Some((t.title@, t.updated_at)),
        data.tool_result_metadata@ == metadata_of(entries),
        data.file_snapshots@ == snapshots_of(entries),
        fed(chain_entries(entries)).is_tip(data.last_uuid),
        message_views(data.messages@) == chain_to(fed(chain_entries(entries)), data.last_uuid),
{
}

/// An identifier is 1 to 64 ASCII letters, digits, hyphens and underscores: each such character can
/// be added as long as there is room, and no other.
pub proof fn law_identifiers_are_plain_and_short(id: Seq<char>, c: char)
    ensures
        ({
            let n = c as int;
            let plain = 48 <= n <= 57 || 65 <= n <= 90 || 97 <= n <= 122 || c == '-' || c == '_';
            &&& !is_session_id(Seq::empty())
            &&& is_session_id(seq![c]) <==> plain
            &&& id.len() > 0 ==> (is_session_id(id.push(c)) <==> is_session_id(id) && plain
                && id.len() < 64)
        }),
{
    assert(seq![c][0] == c);
    let more = id.push(c);
    assert(more[id.len() as int] == c);
    assert(forall|i: int| 0 <= i < id.len() ==> #[trigger] more[i] == id[i]);
    if is_session_id(more) {
        assert forall|i: int| 0 <= i < id.len() implies is_id_char(#[trigger] id[i]) by {
            assert(more[i] == id[i]);
        }
    }
}

/// The file that is found for a session is the first whose name ends in a hyphen, the identifier and
/// the extension; none is found only where no name does.
pub proof fn law_file_found_is_the_first_of_the_session(
    names: Seq<Seq<char>>,
    session_id: Seq<char>,
    head: Seq<char>,
    i: int,
)
    ensures
        file_suffix(session_id) == "-"@ + session_id + ".jsonl"@,
        is_first_file(names, session_id, i) ==> 0 <= i < names.len() && names[i] == names[i].take(
            names[i].len() - session_id.len() - 7,
        ) + "-"@ + session_id + ".jsonl"@,
        0 <= i < names.len() && names[i] == head + "-"@ + session_id + ".jsonl"@ ==> !has_no_file(
            names,
            session_id,
        ) && forall|k: int|
            #![trigger is_first_file(names, session_id, k)]
            is_first_file(names, session_id, k) ==> k <= i,
{
    reveal_strlit("-");
    reveal_strlit(".jsonl");
    let suffix = file_suffix(session_id);
    assert(suffix.len() == session_id.len() + 7);
    if is_first_file(names, session_id, i) {
        let name = names[i];
        let n = name.len() - suffix.len();
        assert(name =~= name.take(n) + name.skip(n));
        assert(name.take(n) + suffix =~= name.take(n) + "-"@ + session_id + ".jsonl"@);
    }
    if 0 <= i < names.len() && names[i] == head + "-"@ + session_id + ".jsonl"@ {
        let name = names[i];
        assert(name.skip(name.len() - suffix.len()) =~= suffix);
        assert(ends_with(names[i], suffix));
    }
}

/// A file is refused for its header exactly where the header is of a version after the first.
pub proof fn law_later_versions_are_refused(entries: Seq<EntryView>, i: int)
    requires
        0 <= i < entries.len(),
    ensures
        is_newer_header(entries, i) <==> (entries[i] is Header && entries[i]->Header_version > 1),
{
}

/// Each error tells what it is about: the identifier, the path or the version.
pub proof fn law_errors_tell_what_they_are_about(text: String, version: u32)
    ensures
        error_message(StoreError::InvalidSessionId(text)) == "invalid session ID: "@ + text@,
        error_message(StoreError::NotFound(text)) == "session not found: "@ + text@,
        error_message(StoreError::InvalidHeader(text)) == "first line of "@ + text@
            + " is not a valid header"@,
        error_message(StoreError::Headless(text)) == text@ + " does not begin with a header"@,
        error_message(StoreError::NewerVersion(version)) == "session format version "@ + decimal(
            version as nat,
        ) + " is newer than supported (1); please upgrade oxide-code"@,
{
    reveal_strlit(" is newer than supported (");
    reveal_strlit("); please upgrade oxide-code");
    reveal_strlit(" is newer than supported (1); please upgrade oxide-code");
    assert(decimal(1) =~= seq!['1']);
    let start = "session format version "@ + decimal(version as nat);
    assert(start + " is newer than supported ("@ + decimal(1) + "); please upgrade oxide-code"@
        =~= start + " is newer than supported (1); please upgrade oxide-code"@);
}

} // verus!
