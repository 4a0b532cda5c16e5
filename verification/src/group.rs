//! Locating the brace group of a token.
//!
//! A token holds at most one group that is honoured: its first `{` opens
//! the group and the first `}` behind that closes it. What stands before
//! the `{` is the prefix, what stands between the braces is the items text,
//! and all that follows the `}` is the suffix, further braces included. The
//! search is left to the `regex` crate; this module says what the search
//! returns and proves that it is the group that [`first_group`] computes.

use regex::Regex;
use vstd::prelude::*;

verus! {

/// The pattern of a token with a brace group: the whole token, with three
/// captures for the text before the braces, between them and after them.
pub const GROUP_PATTERN: &'static str = "(?s)^([^{]*)\\{([^}]*)\\}(.*)$";

/// The three parts of a token's brace group.
pub struct BraceGroup {
    /// The text before `{`.
    pub prefix: String,
    /// The text between the braces.
    pub items_text: String,
    /// The text after `}`.
    pub suffix: String,
}

/// The parts of a brace group as plain texts.
pub struct GroupText {
    pub prefix: Seq<char>,
    pub items_text: Seq<char>,
    pub suffix: Seq<char>,
}

impl View for BraceGroup {
    type V = GroupText;

    open spec fn view(&self) -> GroupText {
        GroupText { prefix: self.prefix@, items_text: self.items_text@, suffix: self.suffix@ }
    }
}

/// The token that has the group `g`: the prefix, `{`, the items text, `}`
/// and the suffix, one after the other.
pub open spec fn assemble(g: GroupText) -> Seq<char> {
    g.prefix + seq!['{'] + g.items_text + seq!['}'] + g.suffix
}

/// `text` parts into the group `g`: it is made of the parts of `g` with the
/// braces between them, no `{` stands before the one that opens the group,
/// and no `}` between that one and the one that closes it.
pub open spec fn parts_into(text: Seq<char>, g: GroupText) -> bool {
    &&& text == assemble(g)
    &&& !g.prefix.contains('{')
    &&& !g.items_text.contains('}')
}

/// `text` parts into no group.
pub open spec fn no_group(text: Seq<char>) -> bool {
    forall|g: GroupText| !#[trigger] parts_into(text, g)
}

/// Matches `text` against `pattern` with `regex::Regex::new` and
/// `Regex::captures`, and hands out the three captures as strings.
///
/// The contract is stated for the one pattern of this module, which is
/// anchored at both ends, so that a match is the whole text. It claims that
/// the first capture takes the characters before the first `{`, the second
/// those up to the next `}`, and the third all the rest, line breaks
/// included; and that there is no match where the text cannot be parted so.
#[verifier::external_body]
fn capture_group(pattern: &str, text: &str) -> (found: Option<BraceGroup>)
    requires
        pattern@ == GROUP_PATTERN@,
    ensures
        match found {
            Some(g) => parts_into(text@, g@),
            None => no_group(text@),
        },
{
    let searcher = Regex::new(pattern).ok()?;
    let caps = searcher.captures(text)?;
    Some(BraceGroup {
        prefix: caps.get(1)?.as_str().to_string(),
        items_text: caps.get(2)?.as_str().to_string(),
        suffix: caps.get(3)?.as_str().to_string(),
    })
}

/// The first position from `from` on at which `text` holds `c`, or the
/// length of `text` if there is none.
pub open spec fn first_index(text: Seq<char>, c: char, from: int) -> int
    decreases text.len() - from,
{
    if from < 0 || from >= text.len() {
        text.len() as int
    } else if text[from] == c {
        from
    } else {
        first_index(text, c, from + 1)
    }
}

/// The position of the `{` that opens the group of `text`: its first `{`.
pub open spec fn open_at(text: Seq<char>) -> int {
    first_index(text, '{', 0)
}

/// The position of the `}` that closes the group of `text`: the first `}`
/// behind the `{` that opens it.
pub open spec fn close_at(text: Seq<char>) -> int {
    first_index(text, '}', open_at(text) + 1)
}

/// The brace group of a token, if it has one: the parts before its first
/// `{`, between that and the next `}`, and behind that `}`. A token in
/// which no `}` follows a `{` has none.
pub open spec fn first_group(text: Seq<char>) -> Option<GroupText> {
    let open = open_at(text);
    let close = close_at(text);
    if close < text.len() {
        Some(
            GroupText {
                prefix: text.subrange(0, open),
                items_text: text.subrange(open + 1, close),
                suffix: text.subrange(close + 1, text.len() as int),
            },
        )
    } else {
        None
    }
}

/// `first_index` lies between `from` and the end, no `c` stands before it,
/// and `c` stands at it unless it is the end.
pub proof fn lemma_first_index(text: Seq<char>, c: char, from: int)
    requires
        0 <= from <= text.len(),
    ensures
        from <= first_index(text, c, from) <= text.len(),
        forall|i: int| from <= i < first_index(text, c, from) ==> text[i] != c,
        first_index(text, c, from) < text.len() ==> text[first_index(text, c, from)] == c,
    decreases text.len() - from,
{
    if from < text.len() && text[from] != c {
        lemma_first_index(text, c, from + 1);
    }
}

/// The first `c` from `from` on is at `at` if `c` stands there and nowhere
/// between the two; it is the end if `c` stands nowhere from `from` on.
pub proof fn lemma_first_index_is(text: Seq<char>, c: char, from: int, at: int)
    requires
        0 <= from <= at <= text.len(),
        forall|i: int| from <= i < at ==> text[i] != c,
        at < text.len() ==> text[at] == c,
    ensures
        first_index(text, c, from) == at,
    decreases at - from,
{
    if from < at {
        lemma_first_index_is(text, c, from + 1, at);
    }
}

/// A text parts into one group at most: the one that [`first_group`]
/// computes.
pub proof fn lemma_parts_into_first(text: Seq<char>, g: GroupText)
    requires
        parts_into(text, g),
    ensures
        first_group(text) == Some(g),
{
    let open = g.prefix.len() as int;
    let close = open + 1 + g.items_text.len();
    assert(text.len() == close + 1 + g.suffix.len());
    assert(text[open] == '{');
    assert(text[close] == '}');
    assert forall|i: int| 0 <= i < open implies text[i] != '{' by {
        assert(g.prefix[i] == text[i]);
        assert(g.prefix.contains(text[i]));
    }
    lemma_first_index_is(text, '{', 0, open);
    assert forall|i: int| open + 1 <= i < close implies text[i] != '}' by {
        assert(g.items_text[i - (open + 1)] == text[i]);
        assert(g.items_text.contains(text[i]));
    }
    lemma_first_index_is(text, '}', open + 1, close);
    let f = first_group(text)->0;
    assert(f.prefix == g.prefix);
    assert(f.items_text == g.items_text);
    assert(f.suffix == g.suffix);
}

/// A text with a first group parts into it: the parts and the braces make
/// up the whole text, nothing is lost.
pub proof fn lemma_first_parts_into(text: Seq<char>)
    requires
        first_group(text) is Some,
    ensures
        parts_into(text, first_group(text)->0),
{
    let open = open_at(text);
    let close = close_at(text);
    let g = first_group(text)->0;
    lemma_first_index(text, '{', 0);
    lemma_first_index(text, '}', open + 1);
    assert(text == assemble(g));
    if g.prefix.contains('{') {
        let i = choose|i: int| 0 <= i < g.prefix.len() && g.prefix[i] == '{';
        assert(text[i] == '{');
    }
    if g.items_text.contains('}') {
        let i = choose|i: int| 0 <= i < g.items_text.len() && g.items_text[i] == '}';
        assert(text[open + 1 + i] == '}');
    }
}

/// A text has a first group exactly if it parts into some group.
pub proof fn lemma_first_group_exists(text: Seq<char>)
    ensures
        first_group(text) is None <==> no_group(text),
{
    if first_group(text) is Some {
        lemma_first_parts_into(text);
    } else {
        assert forall|g: GroupText| !#[trigger] parts_into(text, g) by {
            if parts_into(text, g) {
                lemma_parts_into_first(text, g);
            }
        }
    }
}

/// A text with a group holds both braces: one that lacks `{` or lacks `}`
/// has no group.
pub proof fn lemma_group_needs_braces(text: Seq<char>)
    requires
        first_group(text) is Some,
    ensures
        text.contains('{'),
        text.contains('}'),
{
    lemma_first_index(text, '{', 0);
    lemma_first_index(text, '}', open_at(text) + 1);
    assert(text[open_at(text)] == '{');
    assert(text[close_at(text)] == '}');
}

/// Finds the brace group of `text`: the parts before its first `{`, between
/// that and the next `}`, and behind that `}`.
pub fn find_group(text: &str) -> (found: Option<BraceGroup>)
    ensures
        match found {
            Some(g) => first_group(text@) == Some(g@),
            None => first_group(text@) is None,
        },
{
    let found = capture_group(GROUP_PATTERN, text);
    proof {
        match &found {
            Some(g) => lemma_parts_into_first(text@, g@),
            None => lemma_first_group_exists(text@),
        }
    }
    found
}

} // verus!
