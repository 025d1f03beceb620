//! What a session file gives when it is read: the lines that count, those that are passed over,
//! and what a listing and a resumed session have in common.

use vstd::prelude::*;
use vstd::utf8::decode_utf8;

use crate::message::message_views;
use crate::session::chain::{fed, law_tip_is_unique};
use crate::session::entry::{EntryView, ExitInfo, SessionInfo};
use crate::session::store::{
    after_line, chain_entries, file_lines, info_lines, is_info_of, is_loaded, is_newer_header,
    is_read, line_end, line_kind, listed_exit, listed_title, metadata_of, newest_title,
    snapshots_of, title_view, InfoLine, SessionData,
};

verus! {

/// What reads one line as an entry, or refuses it.
pub type LineParser = spec_fn(Seq<char>) -> Option<EntryView>;

/// The entry of one line, if it is one.
pub open spec fn entry_in(parse: LineParser, line: Seq<char>) -> Seq<EntryView> {
    match parse(line) {
        Some(e) => seq![e],
        None => Seq::empty(),
    }
}

/// The entries of `lines`; a line that is refused is left out.
pub open spec fn parsed(parse: LineParser, lines: Seq<Seq<char>>) -> Seq<EntryView>
    decreases lines.len(),
{
    if lines.len() == 0 {
        Seq::empty()
    } else {
        entry_in(parse, lines[0]) + parsed(parse, lines.drop_first())
    }
}

/// The entries of a file.
pub open spec fn entries_read(parse: LineParser, bytes: Seq<u8>) -> Seq<EntryView> {
    parsed(parse, file_lines(bytes))
}

/// Whether a session can be loaded from `entries`: none is the header of a newer version.
pub open spec fn can_load(entries: Seq<EntryView>) -> bool {
    forall|i: int| 0 <= i < entries.len() ==> !#[trigger] is_newer_header(entries, i)
}

/// A file of complete lines and whatever stands behind them.
pub open spec fn file_of(lines: Seq<Seq<u8>>, tail: Seq<u8>) -> Seq<u8>
    decreases lines.len(),
{
    if lines.len() == 0 {
        tail
    } else {
        lines[0] + seq![10u8] + file_of(lines.drop_first(), tail)
    }
}

/// Whether no line holds a line feed.
pub open spec fn are_lines(lines: Seq<Seq<u8>>) -> bool {
    forall|i: int| 0 <= i < lines.len() ==> !(#[trigger] lines[i]).contains(10u8)
}

/// Whether a line counts: one that is empty, not UTF-8, no entry, or an entry of an unknown kind
/// is passed over.
pub open spec fn counts(parse: LineParser, line: Seq<u8>) -> bool {
    is_read(line) && (parse(decode_utf8(line)) matches Some(e) && e !is Unknown)
}

/// The lines that count.
pub open spec fn counting(parse: LineParser, lines: Seq<Seq<u8>>) -> Seq<Seq<u8>>
    decreases lines.len(),
{
    if lines.len() == 0 {
        Seq::empty()
    } else if counts(parse, lines[0]) {
        seq![lines[0]] + counting(parse, lines.drop_first())
    } else {
        counting(parse, lines.drop_first())
    }
}

// ── Lines that are passed over ──

/// The entries of a known kind.
spec fn known(entries: Seq<EntryView>) -> Seq<EntryView>
    decreases entries.len(),
{
    if entries.len() == 0 {
        Seq::empty()
    } else if entries.last() is Unknown {
        known(entries.drop_last())
    } else {
        known(entries.drop_last()).push(entries.last())
    }
}

proof fn lemma_known_add(a: Seq<EntryView>, b: Seq<EntryView>)
    ensures
        known(a + b) == known(a) + known(b),
    decreases b.len(),
{
    if b.len() == 0 {
        assert(a + b =~= a);
        assert(known(a) + known(b) =~= known(a));
    } else {
        lemma_known_add(a, b.drop_last());
        assert((a + b).drop_last() =~= a + b.drop_last());
        assert((a + b).last() == b.last());
        assert(known(a + b) =~= known(a) + known(b));
    }
}

/// Entries of an unknown kind add nothing.
proof fn lemma_known_suffices(entries: Seq<EntryView>)
    ensures
        chain_entries(known(entries)) == chain_entries(entries),
        newest_title(known(entries)) == newest_title(entries),
        metadata_of(known(entries)) == metadata_of(entries),
        snapshots_of(known(entries)) == snapshots_of(entries),
        can_load(known(entries)) == can_load(entries),
    decreases entries.len(),
{
    if entries.len() > 0 {
        let t = entries.drop_last();
        let e = entries.last();
        lemma_known_suffices(t);
        lemma_can_load_push(t, e);
        assert(t.push(e) =~= entries);
        if !(e is Unknown) {
            lemma_can_load_push(known(t), e);
            assert(known(entries).drop_last() =~= known(t));
        }
    }
}

proof fn lemma_can_load_push(t: Seq<EntryView>, e: EntryView)
    ensures
        can_load(t.push(e)) == (can_load(t) && !is_newer_header(seq![e], 0)),
{
    let n = t.push(e);
    assert(is_newer_header(n, t.len() as int) == is_newer_header(seq![e], 0));
    assert(forall|i: int|
        0 <= i < t.len() ==> #[trigger] is_newer_header(n, i) == is_newer_header(t, i));
    if can_load(n) {
        assert forall|i: int| 0 <= i < t.len() implies !#[trigger] is_newer_header(t, i) by {
            assert(!is_newer_header(n, i));
        }
    }
}

proof fn lemma_line_end_at(line: Seq<u8>, rest: Seq<u8>)
    requires
        !line.contains(10u8),
    ensures
        line_end(line + seq![10u8] + rest) == line.len(),
    decreases line.len(),
{
    let b = line + seq![10u8] + rest;
    if line.len() > 0 {
        let t = line.drop_first();
        assert(line.contains(line[0]));
        assert(!t.contains(10u8)) by {
            if t.contains(10u8) {
                let k = choose|k: int| 0 <= k < t.len() && t[k] == 10u8;
                assert(line[k + 1] == 10u8);
            }
        }
        lemma_line_end_at(t, rest);
        assert(b.drop_first() =~= t + seq![10u8] + rest);
    }
}

/// A file that begins with a complete line gives that line, where it is read, and the rest.
proof fn lemma_first_line(line: Seq<u8>, rest: Seq<u8>)
    requires
        !line.contains(10u8),
    ensures
        file_lines(line + seq![10u8] + rest) == if is_read(line) {
            seq![decode_utf8(line)] + file_lines(rest)
        } else {
            file_lines(rest)
        },
{
    let b = line + seq![10u8] + rest;
    lemma_line_end_at(line, rest);
    assert(b.take(line.len() as int) =~= line);
    assert(after_line(b) =~= rest);
}

proof fn lemma_parsed_first(parse: LineParser, line: Seq<char>, rest: Seq<Seq<char>>)
    ensures
        parsed(parse, seq![line] + rest) == entry_in(parse, line) + parsed(parse, rest),
{
    assert((seq![line] + rest).drop_first() =~= rest);
}

/// The known entries of a file are those of the lines that count, and of what stands behind.
proof fn lemma_counting_suffices(parse: LineParser, lines: Seq<Seq<u8>>, tail: Seq<u8>)
    requires
        are_lines(lines),
    ensures
        known(entries_read(parse, file_of(counting(parse, lines), tail))) == known(
            entries_read(parse, file_of(lines, tail)),
        ),
    decreases lines.len(),
{
    if lines.len() > 0 {
        let line = lines[0];
        let t = lines.drop_first();
        let text = decode_utf8(line);
        let rest = file_of(t, tail);
        let kept = counting(parse, t);
        assert(are_lines(t)) by {
            assert forall|i: int| 0 <= i < t.len() implies !(#[trigger] t[i]).contains(10u8) by {
                assert(t[i] == lines[i + 1]);
            }
        }
        lemma_counting_suffices(parse, t, tail);
        lemma_first_line(line, rest);
        lemma_parsed_first(parse, text, file_lines(rest));
        lemma_known_add(entry_in(parse, text), entries_read(parse, rest));
        if counts(parse, line) {
            let all = seq![line] + kept;
            assert(all.drop_first() =~= kept);
            lemma_first_line(line, file_of(kept, tail));
            lemma_parsed_first(parse, text, file_lines(file_of(kept, tail)));
            lemma_known_add(entry_in(parse, text), entries_read(parse, file_of(kept, tail)));
        } else {
            reveal_with_fuel(known, 2);
            assert(entry_in(parse, text).len() > 0 ==> entry_in(parse, text).drop_last()
                =~= Seq::empty());
            if is_read(line) {
                assert(known(entry_in(parse, text)) =~= Seq::empty());
                assert(Seq::<EntryView>::empty() + known(entries_read(parse, rest)) =~= known(
                    entries_read(parse, rest),
                ));
            }
        }
    }
}

/// Whether two loads gave the same.
pub open spec fn same_data(a: SessionData, b: SessionData) -> bool {
    &&& message_views(a.messages@) == message_views(b.messages@)
    &&& a.last_uuid == b.last_uuid
    &&& title_view(a.title) == title_view(b.title)
    &&& a.tool_result_metadata@ == b.tool_result_metadata@
    &&& a.file_snapshots@ == b.file_snapshots@
}

/// Loading the same entries twice gives the same.
pub proof fn law_loading_is_determined(entries: Seq<EntryView>, a: SessionData, b: SessionData)
    requires
        is_loaded(entries, a),
        is_loaded(entries, b),
    ensures
        same_data(a, b),
{
    law_tip_is_unique(fed(chain_entries(entries)), a.last_uuid, b.last_uuid);
}

/// Lines that are empty, not UTF-8, no entry, or of an unknown kind change nothing, wherever they
/// stand: of two files with the same lines that count, in the same order, and the same bytes
/// behind the last complete line, the one can be loaded where the other can, and gives the same.
pub proof fn law_passed_over_lines_change_nothing(
    parse: LineParser,
    one: Seq<Seq<u8>>,
    other: Seq<Seq<u8>>,
    tail: Seq<u8>,
    a: SessionData,
    b: SessionData,
)
    requires
        are_lines(one),
        are_lines(other),
        counting(parse, one) == counting(parse, other),
    ensures
        can_load(entries_read(parse, file_of(one, tail))) == can_load(
            entries_read(parse, file_of(other, tail)),
        ),
        is_loaded(entries_read(parse, file_of(one, tail)), a) && is_loaded(
            entries_read(parse, file_of(other, tail)),
            b,
        ) ==> same_data(a, b),
{
    let x = entries_read(parse, file_of(one, tail));
    let y = entries_read(parse, file_of(other, tail));
    lemma_counting_suffices(parse, one, tail);
    lemma_counting_suffices(parse, other, tail);
    lemma_known_suffices(x);
    lemma_known_suffices(y);
    if is_loaded(x, a) && is_loaded(y, b) {
        law_loading_is_determined(x, a, b);
    }
}

// ── Listing and loading ──

/// The newest summary among `entries`; of those of one instant, the first.
pub open spec fn newest_summary(entries: Seq<EntryView>) -> Option<ExitInfo>
    decreases entries.len(),
{
    if entries.len() == 0 {
        None
    } else {
        let before = newest_summary(entries.drop_last());
        match entries.last() {
            EntryView::Summary { message_count, updated_at } => newer_exit(
                before,
                message_count,
                updated_at,
            ),
            _ => before,
        }
    }
}

/// The summary in place of `before` where it is newer.
pub open spec fn newer_exit(
    before: Option<ExitInfo>,
    message_count: u32,
    updated_at: i128,
) -> Option<ExitInfo> {
    match before {
        Some(exit) if updated_at <= exit.updated_at => before,
        _ => Some(ExitInfo { message_count, updated_at }),
    }
}

/// The entry of one line of a listing, if it is one.
pub open spec fn info_in(parse: LineParser, line: (InfoLine, Seq<char>)) -> Seq<
    (InfoLine, EntryView),
> {
    match parse(line.1) {
        Some(e) => seq![(line.0, e)],
        None => Seq::empty(),
    }
}

/// The entries of the lines that a listing reads; a line that is refused is left out.
pub open spec fn infos_parsed(parse: LineParser, lines: Seq<(InfoLine, Seq<char>)>) -> Seq<
    (InfoLine, EntryView),
>
    decreases lines.len(),
{
    if lines.len() == 0 {
        Seq::empty()
    } else {
        infos_parsed(parse, lines.drop_last()) + info_in(parse, lines.last())
    }
}

/// The entries that a listing reads of a file, behind its first line.
pub open spec fn infos_read(parse: LineParser, bytes: Seq<u8>) -> Seq<(InfoLine, EntryView)> {
    infos_parsed(parse, info_lines(file_lines(after_line(bytes))))
}

/// Whether titles and summaries stand on lines that begin as theirs do. A writer that puts the
/// kind of an entry first writes them so.
pub open spec fn kinds_come_first(parse: LineParser, lines: Seq<Seq<char>>) -> bool {
    forall|i: int|
        0 <= i < lines.len() ==> match parse(#[trigger] lines[i]) {
            Some(EntryView::Title { .. }) => line_kind(lines[i]) == Some(InfoLine::Title),
            Some(EntryView::Summary { .. }) => line_kind(lines[i]) == Some(InfoLine::Summary),
            _ => true,
        }
}

proof fn lemma_parsed_last(parse: LineParser, lines: Seq<Seq<char>>)
    requires
        lines.len() > 0,
    ensures
        parsed(parse, lines) == parsed(parse, lines.drop_last()) + entry_in(parse, lines.last()),
    decreases lines.len(),
{
    if lines.len() == 1 {
        assert(lines.drop_first() =~= Seq::empty());
        assert(lines.drop_last() =~= Seq::empty());
        assert(parsed(parse, lines) =~= entry_in(parse, lines.last()));
        assert(parsed(parse, lines.drop_last()) + entry_in(parse, lines.last()) =~= entry_in(
            parse,
            lines.last(),
        ));
    } else {
        let t = lines.drop_first();
        lemma_parsed_last(parse, t);
        assert(t.drop_last() =~= lines.drop_last().drop_first());
        assert(parsed(parse, lines) =~= parsed(parse, lines.drop_last()) + entry_in(
            parse,
            lines.last(),
        ));
    }
}

proof fn lemma_listing_agrees(parse: LineParser, lines: Seq<Seq<char>>)
    requires
        kinds_come_first(parse, lines),
    ensures
        listed_title(infos_parsed(parse, info_lines(lines))) == newest_title(parsed(parse, lines)),
        listed_exit(infos_parsed(parse, info_lines(lines))) == newest_summary(
            parsed(parse, lines),
        ),
    decreases lines.len(),
{
    if lines.len() > 0 {
        let t = lines.drop_last();
        let line = lines.last();
        assert(line == lines[lines.len() - 1]);
        assert(kinds_come_first(parse, t)) by {
            assert forall|i: int| 0 <= i < t.len() implies match parse(#[trigger] t[i]) {
                Some(EntryView::Title { .. }) => line_kind(t[i]) == Some(InfoLine::Title),
                Some(EntryView::Summary { .. }) => line_kind(t[i]) == Some(InfoLine::Summary),
                _ => true,
            } by {
                assert(t[i] == lines[i]);
            }
        }
        lemma_listing_agrees(parse, t);
        lemma_parsed_last(parse, lines);
        let was = parsed(parse, t);
        let infos = infos_parsed(parse, info_lines(t));
        if let Some(e) = parse(line) {
            assert(was + entry_in(parse, line) =~= was.push(e));
            assert(was.push(e).drop_last() =~= was);
        } else {
            assert(was + entry_in(parse, line) =~= was);
        }
        if let Some(kind) = line_kind(line) {
            assert(info_lines(lines).drop_last() =~= info_lines(t));
            if let Some(e) = parse(line) {
                assert(infos + info_in(parse, (kind, line)) =~= infos.push((kind, e)));
                assert(infos.push((kind, e)).drop_last() =~= infos);
            } else {
                assert(infos + info_in(parse, (kind, line)) =~= infos);
            }
        }
    }
}

/// A listing and a load tell one title. Of a file that begins with a header, a listing shows the
/// title that a load of the whole file finds, the newest wherever it stands, and the newest
/// summary of the whole file.
pub proof fn law_listing_agrees_with_loading(
    parse: LineParser,
    bytes: Seq<u8>,
    header: EntryView,
    modified: Option<i128>,
    info: SessionInfo,
    data: SessionData,
)
    requires
        is_read(bytes.take(line_end(bytes))),
        parse(decode_utf8(bytes.take(line_end(bytes)))) == Some(header),
        header is Header,
        kinds_come_first(parse, file_lines(bytes)),
    ensures
        listed_title(infos_read(parse, bytes)) == newest_title(entries_read(parse, bytes)),
        listed_exit(infos_read(parse, bytes)) == newest_summary(entries_read(parse, bytes)),
        is_info_of(info, header, infos_read(parse, bytes), modified) && is_loaded(
            entries_read(parse, bytes),
            data,
        ) ==> title_view(info.title) == title_view(data.title),
{
    let first = decode_utf8(bytes.take(line_end(bytes)));
    let rest = file_lines(after_line(bytes));
    let all = file_lines(bytes);
    assert(all == seq![first] + rest);
    lemma_parsed_first(parse, first, rest);
    assert(kinds_come_first(parse, rest)) by {
        assert forall|i: int| 0 <= i < rest.len() implies match parse(#[trigger] rest[i]) {
            Some(EntryView::Title { .. }) => line_kind(rest[i]) == Some(InfoLine::Title),
            Some(EntryView::Summary { .. }) => line_kind(rest[i]) == Some(InfoLine::Summary),
            _ => true,
        } by {
            assert(rest[i] == all[i + 1]);
        }
    }
    lemma_listing_agrees(parse, rest);
    lemma_behind_header(header, parsed(parse, rest));
}

proof fn lemma_behind_header(header: EntryView, entries: Seq<EntryView>)
    requires
        header is Header,
    ensures
        newest_title(seq![header] + entries) == newest_title(entries),
        newest_summary(seq![header] + entries) == newest_summary(entries),
    decreases entries.len(),
{
    let all = seq![header] + entries;
    if entries.len() == 0 {
        reveal_with_fuel(newest_title, 2);
        reveal_with_fuel(newest_summary, 2);
        assert(all.drop_last() =~= Seq::empty());
    } else {
        lemma_behind_header(header, entries.drop_last());
        assert(all.drop_last() =~= seq![header] + entries.drop_last());
        assert(all.last() == entries.last());
    }
}

/// Whether entry `i` is the newest title: none is newer, and none before it is as new.
pub open spec fn is_newest_title(entries: Seq<EntryView>, i: int) -> bool {
    &&& 0 <= i < entries.len()
    &&& entries[i] is Title
    &&& forall|k: int|
        0 <= k < entries.len() && (#[trigger] entries[k]) is Title ==> if k < i {
            entries[k]->Title_updated_at < entries[i]->Title_updated_at
        } else {
            entries[k]->Title_updated_at <= entries[i]->Title_updated_at
        }
}

/// The title that is found is the newest one, the first of those of one instant; none is found
/// only where there is none.
pub proof fn law_title_found_is_the_newest(entries: Seq<EntryView>) -> (at: int)
    ensures
        newest_title(entries) is None ==> forall|k: int|
            0 <= k < entries.len() ==> !((#[trigger] entries[k]) is Title),
        newest_title(entries) is Some ==> is_newest_title(entries, at) && newest_title(entries)
            == Some((entries[at]->Title_title, entries[at]->Title_updated_at)),
    decreases entries.len(),
{
    if entries.len() == 0 {
        0
    } else {
        let t = entries.drop_last();
        let n = t.len() as int;
        let before = law_title_found_is_the_newest(t);
        assert(forall|k: int| 0 <= k < n ==> #[trigger] t[k] == entries[k]);
        assert(entries[n] == entries.last());
        if newest_title(entries) == newest_title(t) && newest_title(t) is Some {
            assert(entries[before] == t[before]);
            assert forall|k: int|
                0 <= k < entries.len() && (#[trigger] entries[k]) is Title implies if k < before {
                entries[k]->Title_updated_at < entries[before]->Title_updated_at
            } else {
                entries[k]->Title_updated_at <= entries[before]->Title_updated_at
            } by {
                if k < n {
                    assert(t[k] == entries[k]);
                }
            }
            before
        } else {
            assert forall|k: int| 0 <= k < n && (#[trigger] entries[k]) is Title implies
                entries.last() is Title && entries[k]->Title_updated_at
                < entries.last()->Title_updated_at by {
                assert(t[k] == entries[k]);
                if newest_title(t) is Some {
                    assert(t[before] == entries[before]);
                }
            }
            n
        }
    }
}

/// Whether entry `i` is the newest summary: none is newer, and none before it is as new.
pub open spec fn is_newest_summary(entries: Seq<EntryView>, i: int) -> bool {
    &&& 0 <= i < entries.len()
    &&& entries[i] is Summary
    &&& forall|k: int|
        0 <= k < entries.len() && (#[trigger] entries[k]) is Summary ==> if k < i {
            entries[k]->Summary_updated_at < entries[i]->Summary_updated_at
        } else {
            entries[k]->Summary_updated_at <= entries[i]->Summary_updated_at
        }
}

/// The summary that is found is the newest one, the first of those of one instant; none is found
/// only where there is none.
pub proof fn law_summary_found_is_the_newest(entries: Seq<EntryView>) -> (at: int)
    ensures
        newest_summary(entries) is None ==> forall|k: int|
            0 <= k < entries.len() ==> !((#[trigger] entries[k]) is Summary),
        newest_summary(entries) is Some ==> is_newest_summary(entries, at) && newest_summary(
            entries,
        ) == Some(
            ExitInfo {
                message_count: entries[at]->Summary_message_count,
                updated_at: entries[at]->Summary_updated_at,
            },
        ),
    decreases entries.len(),
{
    if entries.len() == 0 {
        0
    } else {
        let t = entries.drop_last();
        let n = t.len() as int;
        let before = law_summary_found_is_the_newest(t);
        assert(forall|k: int| 0 <= k < n ==> #[trigger] t[k] == entries[k]);
        assert(entries[n] == entries.last());
        if newest_summary(entries) == newest_summary(t) && newest_summary(t) is Some {
            assert(entries[before] == t[before]);
            assert forall|k: int|
                0 <= k < entries.len() && (#[trigger] entries[k]) is Summary implies if k
                < before {
                entries[k]->Summary_updated_at < entries[before]->Summary_updated_at
            } else {
                entries[k]->Summary_updated_at <= entries[before]->Summary_updated_at
            } by {
                if k < n {
                    assert(t[k] == entries[k]);
                }
            }
            before
        } else {
            assert forall|k: int| 0 <= k < n && (#[trigger] entries[k]) is Summary implies
                entries.last() is Summary && entries[k]->Summary_updated_at
                < entries.last()->Summary_updated_at by {
                assert(t[k] == entries[k]);
                if newest_summary(t) is Some {
                    assert(t[before] == entries[before]);
                }
            }
            n
        }
    }
}

} // verus!
