//! `/init`: asks the assistant to write down what others need to know of the project.

use vstd::prelude::*;
use vstd::string::*;

use crate::slash::context::Peer;

verus! {

/// What `/init` does, in words: it names both files that it may write.
pub open spec fn init_description(notes_file: Seq<char>) -> Seq<char> {
    "Generate or update the project's `AGENTS.md` / `"@ + notes_file + "`"@
}

/// What `/init` does, in words: it names both files that it may write.
pub fn describe_init(notes_file: &str) -> (r: String)
    ensures
        r@ == init_description(notes_file@),
{
    let mut out: String = "Generate or update the project's `AGENTS.md` / `".to_owned();
    out.append(notes_file);
    out.append("`");
    out
}

/// What the assistant is asked, up to the name of the file that a peer keeps its notes in.
pub const PROMPT_HEAD: &'static str = "Please analyze this codebase and create an `AGENTS.md` file at the project
root that future AI coding assistants will read when working on it.

If neither `AGENTS.md` nor `";

/// What follows the name of that file, up to the name of the peer.
pub const PROMPT_BODY: &'static str = "` exists, create `AGENTS.md`. If one
already exists, do not overwrite it — propose specific improvements as a
diff and explain why each change matters. If both exist, update each in
place rather than migrating between them.

Include only what an agent would get wrong without it:

1. Build / lint / test commands the agent can't infer from manifest files.
   Include any flags or sequences that differ from the language defaults
   (e.g., how to run a single test).
2. High-level architecture that requires reading multiple files to
   understand — modules, layering, ownership, and the data flow between
   them.
3. Project-specific conventions that diverge from language defaults
   (import grouping, error-handling style, naming, blank-line rules).
4. External constraints the code can't reveal — required env vars,
   platform-only behavior, services that must be running, workflow steps
   the agent can't infer.

Exclude:

- Standard language conventions the agent already knows (`cargo test`,
  `npm test`, etc.).
- File-by-file structure or component lists — these are discoverable via
  `glob` / `ls`.
- Generic development advice (`write tests`, `handle errors`).
- Information that changes frequently — reference the source file by
  relative path so the agent reads the current version.
- Sections you can't ground in files you actually read (no fabricated
  `Common Tasks`, `Tips for Development`, or `Support` headers).

Be specific. `Use 2-space indentation in TypeScript` is better than `Format
code properly`. Don't restate the same fact in multiple sections. Every
line should answer `what would a fresh agent get wrong without this?` —
if the answer is `nothing`, cut the line.

If a `README.md`, `.cursor/rules/`, `.cursorrules`, or
`.github/copilot-instructions.md` exists, extract the load-bearing parts
(commands, conventions, gotchas) and merge them into `AGENTS.md` without
duplication. Skip prose that restates language defaults.

Prefix the file with:

```
# AGENTS.md

This file provides guidance to AI coding assistants (";

/// What follows the name of the peer.
pub const PROMPT_TAIL: &'static str = ", Codex, oxide-code, and others) when working with code in this repository.
```
";

/// What the assistant is asked: to write `AGENTS.md`, or to improve it or the notes of the peer
/// where they are there.
pub open spec fn prompt_text(notes_file: Seq<char>, name: Seq<char>) -> Seq<char> {
    PROMPT_HEAD@ + notes_file + PROMPT_BODY@ + name + PROMPT_TAIL@
}

/// What the assistant is asked: to write `AGENTS.md`, or to improve it or the notes of the peer
/// where they are there.
pub fn prompt(peer: &Peer) -> (r: String)
    ensures
        r@ == prompt_text(peer.notes_file@, peer.name@),
{
    let mut out: String = PROMPT_HEAD.to_owned();
    out.append(peer.notes_file.as_str());
    out.append(PROMPT_BODY);
    out.append(peer.name.as_str());
    out.append(PROMPT_TAIL);
    out
}

/// What is asked of the assistant names the file that the peer keeps its notes in, and the peer, each
/// in its place.
pub proof fn law_prompt_names_the_peer(notes_file: Seq<char>, name: Seq<char>)
    ensures
        prompt_text(notes_file, name) == PROMPT_HEAD@ + notes_file + PROMPT_BODY@ + name
            + PROMPT_TAIL@,
        init_description(notes_file) == "Generate or update the project's `AGENTS.md` / `"@
            + notes_file + "`"@,
{
}

} // verus!
