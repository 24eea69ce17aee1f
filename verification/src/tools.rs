//! Tool schemas and the parsing of tool calls out of assistant replies.
use vstd::prelude::*;
use crate::json::{
    json_is_valid, json_array_items, json_pointer_str, json_pointer_text, json_valid, json_items,
    json_str_at, json_text_at,
};
use crate::text::{
    chars_of, contains, contains_str, find_from, is_first_occurrence, lower, lower_str,
    occurs_at, starts_with, starts_with_str, string_from_range, trim, trim_str,
};

verus! {

broadcast use vstd::string::group_string_axioms;

/// Schema describing a tool's parameters (JSON Schema subset).
#[derive(Debug)]
pub struct ToolSchema {
    /// Tool name (must match what the model emits in a tool call).
    pub name: String,
    /// Human-readable description shown to the model.
    pub description: String,
    /// JSON Schema describing the tool's accepted arguments, as JSON text.
    pub parameters: String,
}

/// The mathematical content of a [`ToolSchema`].
pub struct ToolSchemaView {
    pub name: Seq<char>,
    pub description: Seq<char>,
    pub parameters: Seq<char>,
}

impl View for ToolSchema {
    type V = ToolSchemaView;

    open spec fn view(&self) -> ToolSchemaView {
        ToolSchemaView {
            name: self.name@,
            description: self.description@,
            parameters: self.parameters@,
        }
    }
}

impl Clone for ToolSchema {
    fn clone(&self) -> (r: Self)
        ensures
            r@ == self@,
    {
        ToolSchema {
            name: self.name.clone(),
            description: self.description.clone(),
            parameters: self.parameters.clone(),
        }
    }
}

/// The views of a sequence of tool schemas.
pub open spec fn view_schemas(tools: Seq<ToolSchema>) -> Seq<ToolSchemaView> {
    tools.map_values(|t: ToolSchema| t@)
}

/// A tool call parsed out of an assistant message.
#[derive(Clone, Debug, PartialEq)]
pub struct ParsedToolCall {
    /// Tool name the model wants to invoke.
    pub name: String,
    /// Arguments object as JSON text (`{}` when the model omits it).
    pub arguments: String,
}

/// The mathematical content of a [`ParsedToolCall`].
pub struct ParsedCallView {
    pub name: Seq<char>,
    pub arguments: Seq<char>,
}

impl View for ParsedToolCall {
    type V = ParsedCallView;

    open spec fn view(&self) -> ParsedCallView {
        ParsedCallView { name: self.name@, arguments: self.arguments@ }
    }
}

/// The views of a sequence of parsed calls.
pub open spec fn view_parsed(calls: Seq<ParsedToolCall>) -> Seq<ParsedCallView> {
    calls.map_values(|c: ParsedToolCall| c@)
}

/// A fenced code block: its info-string tag (trimmed, lower-cased, may be
/// empty) and its body.
pub struct FencedBlock {
    pub tag: String,
    pub body: String,
}

/// The first position at or after `from` where `pat` occurs in `s`.
pub open spec fn first_occ(s: Seq<char>, pat: Seq<char>, from: int) -> Option<int> {
    if exists|i: int| from <= i && occurs_at(s, pat, i) {
        Some(choose|i: int| is_first_occurrence(s, pat, from, Some(i)))
    } else {
        None
    }
}

/// A fence marker.
pub open spec fn fence() -> Seq<char> {
    seq!['`', '`', '`']
}

/// The parts of the block whose opening fence is at `open`: its tag, its body
/// bounds, and where the search for the next fence resumes.
pub open spec fn block_at(t: Seq<char>, open: int) -> (Seq<char>, int, int, int) {
    let after = open + 3;
    let line_end = match first_occ(t, seq!['\n'], after) {
        Some(i) => i,
        None => t.len() as int,
    };
    let tag = lower(trim(t.subrange(after, line_end)));
    let body_start = if line_end + 1 <= t.len() { line_end + 1 } else { t.len() as int };
    let (body_end, next) = match first_occ(t, fence(), body_start) {
        Some(i) => (i, i + 3),
        None => (t.len() as int, t.len() as int),
    };
    (tag, body_start, body_end, next)
}

/// Every fenced block of `t` found from position `search` on, as (tag, body)
/// pairs: a block opens at a fence, its tag runs to the end of that line, and
/// its body runs to the next fence or to the end of the text.
pub open spec fn blocks_from(t: Seq<char>, search: int) -> Seq<(Seq<char>, Seq<char>)>
    decreases t.len() - search,
{
    if 0 <= search <= t.len() {
        match first_occ(t, fence(), search) {
            None => seq![],
            Some(open) => {
                let (tag, body_start, body_end, next) = block_at(t, open);
                if search < next <= t.len() {
                    seq![(tag, t.subrange(body_start, body_end))] + blocks_from(t, next)
                } else {
                    seq![]
                }
            },
        }
    } else {
        seq![]
    }
}

/// The fenced blocks of `t`.
pub open spec fn fenced_blocks_of(t: Seq<char>) -> Seq<(Seq<char>, Seq<char>)> {
    blocks_from(t, 0)
}

proof fn lemma_first_occ(s: Seq<char>, pat: Seq<char>, from: int, r: Option<int>)
    requires
        is_first_occurrence(s, pat, from, r),
    ensures
        first_occ(s, pat, from) == r,
{
    match r {
        Some(i) => {
            assert(from <= i && occurs_at(s, pat, i));
            let c = choose|k: int| is_first_occurrence(s, pat, from, Some(k));
            assert(is_first_occurrence(s, pat, from, Some(c)));
            if c < i {
                assert(!occurs_at(s, pat, c));
            } else if c > i {
                assert(!occurs_at(s, pat, i));
            }
        },
        None => {},
    }
}

fn find_exec(s: &Vec<char>, pat: &Vec<char>, from: usize) -> (r: Option<usize>)
    ensures
        first_occ(s@, pat@, from as int) == match r {
            Some(i) => Some(i as int),
            None => None::<int>,
        },
        r matches Some(i) ==> from <= i && i + pat@.len() <= s@.len(),
{
    let r = find_from(s, pat, from);
    proof {
        lemma_first_occ(s@, pat@, from as int, match r { Some(i) => Some(i as int), None => None });
    }
    r
}

/// Every ```` ``` ````-fenced code block in `text`, in order. Tolerant of
/// leading indentation on the fence and of a missing closing fence at the end.
pub fn fenced_blocks(text: &str) -> (r: Vec<FencedBlock>)
    ensures
        spec_blocks_of(r@) == fenced_blocks_of(text@),
{
    let t = chars_of(text);
    let n = t.len();
    let fence_chars = chars_of("```");
    let newline = chars_of("\n");
    proof {
        reveal_strlit("```");
        reveal_strlit("\n");
        assert(fence_chars@ =~= fence());
        assert(newline@ =~= seq!['\n']);
    }
    let mut blocks: Vec<FencedBlock> = Vec::new();
    let mut search: usize = 0;
    loop
        invariant
            t@ == text@,
            n == t@.len(),
            fence_chars@ == fence(),
            newline@ == seq!['\n'],
            search <= n,
            fenced_blocks_of(t@) == spec_blocks_of(blocks@) + blocks_from(t@, search as int),
        ensures
            fenced_blocks_of(t@) == spec_blocks_of(blocks@),
        decreases n - search,
    {
        let open = match find_exec(&t, &fence_chars, search) {
            Some(o) => o,
            None => {
                proof {
                    assert(blocks_from(t@, search as int) == Seq::<(Seq<char>, Seq<char>)>::empty());
                    assert(spec_blocks_of(blocks@) + Seq::<(Seq<char>, Seq<char>)>::empty() =~= spec_blocks_of(blocks@));
                }
                break;
            },
        };
        let after = open + 3;
        let line_end = match find_exec(&t, &newline, after) {
            Some(i) => i,
            None => n,
        };
        let tag_raw = string_from_range(&t, after, line_end);
        let tag_trim = trim_str(tag_raw.as_str());
        let tag = lower_str(tag_trim.as_str());
        let body_start = if line_end < n { line_end + 1 } else { n };
        let (body_end, next) = match find_exec(&t, &fence_chars, body_start) {
            Some(i) => (i, i + 3),
            None => (n, n),
        };
        let body = string_from_range(&t, body_start, body_end);
        let ghost prev = blocks@;
        let block = FencedBlock { tag, body };
        proof {
            let (stag, sbs, sbe, snext) = block_at(t@, open as int);
            assert(stag == tag@);
            assert(sbs == body_start && sbe == body_end && snext == next);
            assert(blocks_from(t@, search as int) == seq![(tag@, body@)] + blocks_from(t@, next as int));
            assert(spec_blocks_of(prev.push(block)) =~= spec_blocks_of(prev).push((tag@, body@)));
            assert(spec_blocks_of(prev) + (seq![(tag@, body@)] + blocks_from(t@, next as int)) =~= spec_blocks_of(prev).push((tag@, body@)) + blocks_from(t@, next as int));
        }
        blocks.push(block);
        search = next;
    }
    blocks
}

/// The (tag, body) pairs of a sequence of blocks.
pub open spec fn spec_blocks_of(blocks: Seq<FencedBlock>) -> Seq<(Seq<char>, Seq<char>)> {
    blocks.map_values(|b: FencedBlock| (b.tag@, b.body@))
}

/// Whether two strings hold the same text.
pub fn same_text(a: &str, b: &str) -> (r: bool)
    ensures
        r == (a@ == b@),
{
    String::from_str(a) == String::from_str(b)
}

/// The call named by an entry's `name` string and `arguments` text: the name
/// trimmed (no call when it is missing or blank), the arguments `{}` when
/// missing.
pub open spec fn call_of_parts(name: Option<Seq<char>>, arguments: Option<Seq<char>>) -> Option<ParsedCallView> {
    match name {
        None => None,
        Some(n) => if trim(n).len() == 0 {
            None
        } else {
            Some(
                ParsedCallView {
                    name: trim(n),
                    arguments: match arguments {
                        Some(a) => a,
                        None => "{}"@,
                    },
                },
            )
        },
    }
}

/// The call an entry names: its trimmed string `name` (entries without a
/// non-blank string name give none) and its `arguments` text, `{}` when absent.
pub open spec fn call_of_entry(e: Seq<char>) -> Option<ParsedCallView> {
    call_of_parts(json_str_at(e, "/name"@), json_text_at(e, "/arguments"@))
}

/// The JSON entries a snippet carries: the elements of an array, the value
/// itself otherwise, nothing when it is not JSON.
pub open spec fn entries_of(snippet: Seq<char>) -> Seq<Seq<char>> {
    let t = trim(snippet);
    if !json_valid(t) {
        seq![]
    } else {
        match json_items(t) {
            Some(items) => items,
            None => seq![t],
        }
    }
}

/// The calls named by a list of entries, in order, skipping the others.
pub open spec fn calls_of_entries(es: Seq<Seq<char>>) -> Seq<ParsedCallView>
    decreases es.len(),
{
    if es.len() == 0 {
        seq![]
    } else {
        let prev = calls_of_entries(es.drop_last());
        match call_of_entry(es.last()) {
            Some(c) => prev.push(c),
            None => prev,
        }
    }
}

/// The calls a JSON snippet carries.
pub open spec fn calls_of_snippet(snippet: Seq<char>) -> Seq<ParsedCallView> {
    calls_of_entries(entries_of(snippet))
}

/// Whether a fence tag marks a block that may hold tool calls.
pub open spec fn is_call_tag(tag: Seq<char>) -> bool {
    tag == "tool_call"@ || tag == "json"@
}

/// The calls in the `tool_call` and `json` blocks among `blocks`, in order.
pub open spec fn fenced_calls(blocks: Seq<(Seq<char>, Seq<char>)>) -> Seq<ParsedCallView>
    decreases blocks.len(),
{
    if blocks.len() == 0 {
        seq![]
    } else {
        let prev = fenced_calls(blocks.drop_last());
        if is_call_tag(blocks.last().0) {
            prev + calls_of_snippet(blocks.last().1)
        } else {
            prev
        }
    }
}

/// Whether the whole message is tried as one bare JSON call: trimmed, it
/// opens with `{` and mentions both `"name"` and `"arguments"`.
pub open spec fn is_bare_call(text: Seq<char>) -> bool {
    let t = trim(text);
    starts_with(t, "{"@) && contains(t, "\"name\""@) && contains(t, "\"arguments\""@)
}

/// The tool calls in an assistant message: those of every `tool_call` or
/// `json` fenced block; failing any, those of the whole trimmed message when
/// it is a bare JSON call; otherwise none.
pub open spec fn tool_calls_in(text: Seq<char>) -> Seq<ParsedCallView> {
    let fenced = fenced_calls(fenced_blocks_of(text));
    if fenced.len() > 0 {
        fenced
    } else if is_bare_call(text) {
        calls_of_snippet(trim(text))
    } else {
        seq![]
    }
}

/// The call one JSON entry names, if it names a tool.
pub fn call_from_entry(entry: &str) -> (r: Option<ParsedToolCall>)
    ensures
        match r {
            Some(c) => call_of_entry(entry@) == Some(c@),
            None => call_of_entry(entry@) is None,
        },
{
    let name = json_pointer_str(entry, "/name");
    let arguments = json_pointer_text(entry, "/arguments");
    call_from_parts(name, arguments)
}

/// The call named by an entry's `name` string and `arguments` text, as the
/// JSON reading found them.
pub fn call_from_parts(name: Option<String>, arguments: Option<String>) -> (r: Option<ParsedToolCall>)
    ensures
        ({
            let nv = match name {
                Some(n) => Some(n@),
                None => None,
            };
            let av = match arguments {
                Some(a) => Some(a@),
                None => None,
            };
            match r {
                Some(c) => call_of_parts(nv, av) == Some(c@),
                None => call_of_parts(nv, av) is None,
            }
        }),
{
    let name = match name {
        Some(n) => n,
        None => return None,
    };
    let name = trim_str(name.as_str());
    if name.as_str().is_empty() {
        return None;
    }
    let arguments = match arguments {
        Some(a) => a,
        None => String::from_str("{}"),
    };
    proof {
        reveal_strlit("{}");
    }
    Some(ParsedToolCall { name, arguments })
}

/// Append to `out` the calls one JSON snippet (an object or an array of
/// objects) carries, in order.
pub fn collect_calls(snippet: &str, out: &mut Vec<ParsedToolCall>)
    ensures
        view_parsed(final(out)@) == view_parsed(old(out)@) + calls_of_snippet(snippet@),
{
    let t = trim_str(snippet);
    let entries: Vec<String> = if !json_is_valid(t.as_str()) {
        Vec::new()
    } else {
        match json_array_items(t.as_str()) {
            Some(items) => items,
            None => {
                let mut one = Vec::new();
                one.push(t);
                one
            },
        }
    };
    let ghost es = entries@.map_values(|s: String| s@);
    proof {
        assert(es =~= entries_of(snippet@));
    }
    let ghost start = view_parsed(out@);
    let mut i: usize = 0;
    while i < entries.len()
        invariant
            i <= entries@.len(),
            es == entries@.map_values(|s: String| s@),
            view_parsed(out@) == start + calls_of_entries(es.take(i as int)),
        decreases entries@.len() - i,
    {
        let c = call_from_entry(entries[i].as_str());
        proof {
            assert(es.take(i + 1).drop_last() =~= es.take(i as int));
            assert(es.take(i + 1).last() == entries@[i as int]@);
        }
        match c {
            Some(call) => {
                proof {
                    assert(view_parsed(out@.push(call)) =~= view_parsed(out@).push(call@));
                }
                out.push(call);
            },
            None => {},
        }
        i += 1;
    }
    proof {
        assert(es.take(i as int) =~= es);
    }
}

/// Parse tool calls out of an assistant message.
///
/// Every ```` ```tool_call ```` and ```` ```json ```` fenced block is parsed;
/// if none yields a call, the whole trimmed message is tried as a single JSON
/// object, but only when it carries both `name` and `arguments` keys.
/// Entries without a string `name` are skipped; a missing `arguments` is `{}`.
pub fn parse_tool_calls(text: &str) -> (r: Vec<ParsedToolCall>)
    ensures
        view_parsed(r@) == tool_calls_in(text@),
{
    let blocks = fenced_blocks(text);
    let mut calls: Vec<ParsedToolCall> = Vec::new();
    let ghost bs = fenced_blocks_of(text@);
    let mut i: usize = 0;
    while i < blocks.len()
        invariant
            i <= blocks@.len(),
            spec_blocks_of(blocks@) == bs,
            view_parsed(calls@) == fenced_calls(bs.take(i as int)),
        decreases blocks@.len() - i,
    {
        let block = &blocks[i];
        proof {
            assert(bs.take(i + 1).drop_last() =~= bs.take(i as int));
            assert(bs.take(i + 1).last() == (block.tag@, block.body@));
        }
        if same_text(block.tag.as_str(), "tool_call") || same_text(block.tag.as_str(), "json") {
            collect_calls(block.body.as_str(), &mut calls);
        }
        i += 1;
    }
    proof {
        assert(bs.take(i as int) =~= bs);
    }
    if calls.len() == 0 {
        let trimmed = trim_str(text);
        let bare = starts_with_str(trimmed.as_str(), "{") && contains_str(trimmed.as_str(), "\"name\"")
            && contains_str(trimmed.as_str(), "\"arguments\"");
        if bare {
            collect_calls(trimmed.as_str(), &mut calls);
            proof {
                assert(view_parsed(Seq::<ParsedToolCall>::empty()) =~= Seq::<ParsedCallView>::empty());
                assert(Seq::<ParsedCallView>::empty() + calls_of_snippet(trim(text@)) =~= calls_of_snippet(trim(text@)));
            }
        }
    }
    calls
}


/// Prose is not a tool call: a reply with no code fence that does not open
/// (once trimmed) with `{` calls no tools.
pub proof fn law_prose_calls_no_tools(text: Seq<char>)
    requires
        !contains(text, fence()),
        !starts_with(trim(text), "{"@),
    ensures
        tool_calls_in(text) == Seq::<ParsedCallView>::empty(),
{
    assert(first_occ(text, fence(), 0) is None) by {
        if exists|i: int| 0 <= i && occurs_at(text, fence(), i) {
            let i = choose|i: int| 0 <= i && occurs_at(text, fence(), i);
            assert(contains(text, fence()));
        }
    }
    assert(fenced_blocks_of(text) =~= Seq::<(Seq<char>, Seq<char>)>::empty());
}

} // verus!
