//! Titles made by a model: what it is asked, and how its answer is read. Asking is left to the
//! caller, and so is the JSON of the answer.

use vstd::prelude::*;
use vstd::string::*;

use crate::model::{id_in, model_in};
use crate::session::entry::opt_view;
use crate::text::{
    chars_of, ends_with, has_prefix, has_suffix, index_of, is_blank, is_space,
    lemma_index_of, position, starts_with, trim, trim_end,
    trim_end_of, trim_of, ELLIPSIS,
};

verus! {

/// The model that makes titles, by what its identifier has behind the name of its family.
pub const TITLE_MODEL: &'static str = "haiku-4-5";

/// The identifier of the model of a family that makes titles.
pub fn title_model(family: &str) -> (r: String)
    ensures
        r@ == id_in(family@, TITLE_MODEL@),
{
    model_in(family, TITLE_MODEL)
}

/// The most tokens of an answer.
pub const MAX_TOKENS: u32 = 40;

/// The most characters of the prompt that a title is made from.
pub const MAX_PROMPT_CHARS: usize = 1_000;

/// The most characters of an answer that are quoted in an error.
pub const LOG_CAP: usize = 120;

/// What the model is asked to do.
pub const SYSTEM_PROMPT: &'static str =
    "Generate a concise, sentence-case title (3-7 words) that captures the main topic or goal of this coding session. The title should be clear enough that the user recognizes the session in a list. Use sentence case: capitalize only the first word and proper nouns.\n\nReturn JSON with a single \"title\" field.\n\nGood examples:\n{\"title\": \"Fix login button on mobile\"}\n{\"title\": \"Add OAuth authentication\"}\n{\"title\": \"Debug failing CI tests\"}\n{\"title\": \"Refactor API client error handling\"}\n\nBad (too vague): {\"title\": \"Code changes\"}\nBad (too long): {\"title\": \"Investigate and fix the issue where the login button does not respond on mobile devices\"}\nBad (wrong case): {\"title\": \"Fix Login Button On Mobile\"}\n";

/// The end of `text`, at most `max` characters of it.
pub open spec fn tail(text: Seq<char>, max: nat) -> Seq<char> {
    if text.len() <= max {
        text
    } else {
        text.skip(text.len() - max)
    }
}

/// Cuts a prompt to its last `max_chars` characters: what is asked for mostly stands there.
pub fn truncate_prompt(text: &str, max_chars: usize) -> (r: String)
    ensures
        r@ == tail(text@, max_chars as nat),
{
    let n: usize = text.unicode_len();
    if n <= max_chars {
        return text.to_owned();
    }
    let from: usize = n - max_chars;
    assert(text@.subrange(from as int, n as int) =~= text@.skip(from as int));
    text.substring_char(from, n).to_owned()
}

/// `s`, or as much of it as is quoted and an ellipsis.
pub open spec fn quoted(s: Seq<char>) -> Seq<char> {
    if s.len() <= LOG_CAP {
        s
    } else {
        s.take(LOG_CAP as int) + ELLIPSIS@
    }
}

/// Cuts `s` for an error message.
pub fn truncate_for_log(s: &str) -> (r: String)
    ensures
        r@ == quoted(s@),
{
    if s.unicode_len() <= LOG_CAP {
        return s.to_owned();
    }
    let mut out: String = s.substring_char(0, LOG_CAP).to_owned();
    assert(s@.subrange(0, LOG_CAP as int) =~= s@.take(LOG_CAP as int));
    out.append(ELLIPSIS);
    out
}

/// What stands behind the opening fence: the lines below it, or all of it where it has no line
/// end.
pub open spec fn fence_body(rest: Seq<char>) -> Seq<char> {
    if index_of(rest, '\n') < rest.len() {
        rest.skip(index_of(rest, '\n') + 1)
    } else {
        rest
    }
}

/// Whether `s` is wrapped in a code fence: one opens it, and one closes what stands behind that.
pub open spec fn is_fenced(s: Seq<char>) -> bool {
    starts_with(s, "```"@) && ends_with(trim_end_of(fence_body(s.skip(3))), "```"@)
}

/// `s` without the fence that it is wrapped in and the line of the opening one, trimmed then.
/// Text that is not wrapped in a fence stays as it is.
pub open spec fn unfenced(s: Seq<char>) -> Seq<char> {
    if is_fenced(s) {
        let end = trim_end_of(fence_body(s.skip(3)));
        trim_of(end.take(end.len() - 3))
    } else {
        s
    }
}

/// Takes a surrounding code fence off `s`.
pub fn strip_code_fence(s: &str) -> (r: &str)
    ensures
        r@ == unfenced(s@),
{
    proof {
        reveal_strlit("```");
    }
    if !has_prefix(s, "```") {
        return s;
    }
    let n: usize = s.unicode_len();
    let rest: &str = s.substring_char(3, n);
    assert(s@.subrange(3, n as int) =~= s@.skip(3));
    let cs: Vec<char> = chars_of(rest);
    let at: usize = position(&cs, '\n');
    let start: usize = if at < cs.len() {
        at + 1
    } else {
        0
    };
    let m: usize = cs.len();
    let body: &str = rest.substring_char(start, m);
    assert(rest@.subrange(start as int, m as int) =~= fence_body(rest@));
    let end: &str = trim_end(body);
    if has_suffix(end, "```") {
        let k: usize = end.unicode_len();
        assert(end@.subrange(0, k - 3) =~= end@.take(k - 3));
        trim(end.substring_char(0, k - 3))
    } else {
        s
    }
}

/// Why an answer gives no title.
#[derive(Clone, Copy, Debug, PartialEq, Eq, Structural)]
pub enum TitleFault {
    EmptyResponse,
    NoEnvelope,
    EmptyTitle,
}

/// What is said of an answer that gives no title. `body` is the answer without its fence.
pub open spec fn fault_text(fault: TitleFault, body: Seq<char>) -> Seq<char> {
    match fault {
        TitleFault::EmptyResponse => "empty response"@,
        TitleFault::NoEnvelope => "response is not a title envelope: "@ + quoted(body),
        TitleFault::EmptyTitle => "title envelope had an empty title field"@,
    }
}

/// What an answer is read as JSON from: it trimmed and without its fence. A blank one is refused.
pub fn envelope_body(response: &str) -> (r: Result<&str, String>)
    ensures
        r is Ok <==> !is_blank(response@),
        r matches Ok(body) ==> body@ == unfenced(trim_of(response@)),
        r matches Err(e) ==> e@ == fault_text(TitleFault::EmptyResponse, Seq::empty()),
{
    let trimmed: &str = trim(response);
    if trimmed.is_empty() {
        return Err("empty response".to_owned());
    }
    Ok(strip_code_fence(trimmed))
}

/// The title of an answer: that of its envelope, trimmed. `title` is the title field of `body`,
/// or nothing where `body` is no envelope.
pub fn parse_title(body: &str, title: Option<String>) -> (r: Result<String, String>)
    ensures
        match title {
            None => r matches Err(e) && e@ == fault_text(TitleFault::NoEnvelope, body@),
            Some(t) => if is_blank(t@) {
                r matches Err(e) && e@ == fault_text(TitleFault::EmptyTitle, body@)
            } else {
                r matches Ok(s) && s@ == trim_of(t@)
            },
        },
{
    match title {
        None => {
            let mut msg: String = "response is not a title envelope: ".to_owned();
            msg.append(truncate_for_log(body).as_str());
            Err(msg)
        },
        Some(t) => {
            let cleaned: &str = trim(t.as_str());
            if cleaned.is_empty() {
                Err("title envelope had an empty title field".to_owned())
            } else {
                Ok(cleaned.to_owned())
            }
        },
    }
}

/// Of a long prompt the last characters are kept, as many as are asked for; of another all.
pub proof fn law_last_characters_are_kept(head: Seq<char>, text: Seq<char>, max: nat)
    ensures
        text.len() <= max ==> tail(text, max) == text,
        text.len() == max ==> tail(head + text, max) == text,
        tail(head + text, max).len() <= max,
{
    if text.len() == max {
        assert((head + text).skip(head.len() as int) =~= text);
        if head.len() == 0 {
            assert(head + text =~= text);
        }
    }
}

/// What is quoted is the text, or its first characters with an ellipsis where it is long.
pub proof fn law_first_characters_are_quoted(s: Seq<char>)
    ensures
        s.len() <= 120 ==> quoted(s) == s,
        s.len() > 120 ==> quoted(s) == s.take(120) + "..."@,
{
}

proof fn lemma_trim_end_behind(a: Seq<char>, b: Seq<char>)
    requires
        trim_end_of(b).len() > 0,
    ensures
        trim_end_of(a + b) == a + trim_end_of(b),
    decreases b.len(),
{
    let s = a + b;
    assert(s.last() == b.last());
    if is_space(b.last()) {
        assert(s.drop_last() =~= a + b.drop_last());
        lemma_trim_end_behind(a, b.drop_last());
    }
}

proof fn lemma_space_off_the_end(a: Seq<char>, space: Seq<char>)
    requires
        a.len() > 0,
        !is_space(a.last()),
        forall|i: int| 0 <= i < space.len() ==> is_space(#[trigger] space[i]),
    ensures
        trim_end_of(a + space) == a,
    decreases space.len(),
{
    let s = a + space;
    if space.len() == 0 {
        assert(s =~= a);
    } else {
        let t = space.drop_last();
        assert(s.drop_last() =~= a + t);
        assert(s.last() == space[space.len() - 1]);
        assert forall|i: int| 0 <= i < t.len() implies is_space(#[trigger] t[i]) by {
            assert(t[i] == space[i]);
        }
        lemma_space_off_the_end(a, t);
    }
}

proof fn lemma_index_behind(s: Seq<char>, c: char, rest: Seq<char>)
    requires
        forall|i: int| 0 <= i < s.len() ==> #[trigger] s[i] != c,
    ensures
        index_of(s + seq![c] + rest, c) == s.len(),
        index_of(s, c) == s.len(),
    decreases s.len(),
{
    let whole = s + seq![c] + rest;
    if s.len() > 0 {
        let t = s.drop_first();
        assert forall|i: int| 0 <= i < t.len() implies #[trigger] t[i] != c by {
            assert(t[i] == s[i + 1]);
        }
        lemma_index_behind(t, c, rest);
        assert(whole.drop_first() =~= t + seq![c] + rest);
        assert(whole[0] == s[0]);
    } else {
        assert(whole[0] == c);
    }
}

/// A fence is taken off: the marks, the rest of the line of the first, and the white space around
/// what stands between them. On one line, all between the marks is kept.
pub proof fn law_fences_are_taken_off(info: Seq<char>, body: Seq<char>, space: Seq<char>)
    requires
        forall|i: int| 0 <= i < info.len() ==> #[trigger] info[i] != '\n',
        forall|i: int| 0 <= i < space.len() ==> is_space(#[trigger] space[i]),
    ensures
        unfenced("```"@ + info + "\n"@ + body + "```"@ + space) == trim_of(body),
        space.len() == 0 ==> unfenced("```"@ + info + "```"@) == trim_of(info),
{
    reveal_strlit("```");
    reveal_strlit("\n");
    let mark = "```"@;
    let s = mark + info + "\n"@ + body + mark + space;
    let behind = body + mark + space;
    assert(s.take(3) =~= mark);
    assert(s.skip(3) =~= info + seq!['\n'] + behind);
    lemma_index_behind(info, '\n', behind);
    assert(s.skip(3).skip(info.len() as int + 1) =~= behind);
    let end = body + mark;
    lemma_space_off_the_end(end, space);
    assert(end.skip(end.len() - 3) =~= mark);
    assert(end.take(end.len() - 3) =~= body);
    if space.len() == 0 {
        let line = mark + info + mark;
        let rest = info + mark;
        assert(line.take(3) =~= mark);
        assert(line.skip(3) =~= rest);
        assert forall|i: int| 0 <= i < rest.len() implies #[trigger] rest[i] != '\n' by {
            if i < info.len() {
                assert(rest[i] == info[i]);
            }
        }
        lemma_index_behind(rest, '\n', Seq::empty());
        lemma_space_off_the_end(rest, space);
        assert(rest + space =~= rest);
        assert(rest.skip(rest.len() - 3) =~= mark);
        assert(rest.take(rest.len() - 3) =~= info);
    }
}

/// What does not begin with a fence, or does not end with one but for white space, stays as it is.
pub proof fn law_other_text_stays(s: Seq<char>)
    ensures
        !starts_with(s, "```"@) ==> unfenced(s) == s,
        !ends_with(trim_end_of(s), "```"@) ==> unfenced(s) == s,
{
    reveal_strlit("```");
    let mark = "```"@;
    if is_fenced(s) {
        let rest = s.skip(3);
        let body = fence_body(rest);
        let n = s.len() - body.len();
        lemma_index_of(rest, '\n');
        assert(body =~= s.skip(n));
        assert(s =~= s.take(n) + body);
        lemma_trim_end_behind(s.take(n), body);
        let t = trim_end_of(s);
        let u = trim_end_of(body);
        assert(t.skip(t.len() - 3) =~= u.skip(u.len() - 3));
    }
}

/// A fault tells what was wrong with the response, and quotes one that is no envelope.
pub proof fn law_faults_are_told(body: Seq<char>)
    ensures
        fault_text(TitleFault::EmptyResponse, body) == "empty response"@,
        fault_text(TitleFault::NoEnvelope, body) == "response is not a title envelope: "@ + quoted(
            body,
        ),
        fault_text(TitleFault::EmptyTitle, body) == "title envelope had an empty title field"@,
{
}

} // verus!
