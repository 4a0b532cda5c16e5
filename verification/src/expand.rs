//! Expanding a token into the paths that it stands for.
//!
//! A token with a brace group stands for one path per item of the group; a
//! token without one stands for itself. Only the first group of a token is
//! expanded: what follows its `}` is suffix, braces and all.

use vstd::prelude::*;
use crate::group::{find_group, first_group, lemma_group_needs_braces, BraceGroup, GroupText};
use crate::text::{chars_of, has_char, is_white_space, string_of, white_space};

verus! {

/// Whether `c` parts two items: a comma or white space.
pub open spec fn is_separator(c: char) -> bool {
    c == ',' || white_space(c)
}

/// What the splitter knows after reading a part of the items text.
pub struct Split {
    /// The items completed so far.
    pub items: Seq<Seq<char>>,
    /// The item being collected.
    pub current: Seq<char>,
}

/// The completed items, with the one being collected if it is not empty.
pub open spec fn split_finish(st: Split) -> Seq<Seq<char>> {
    if st.current.len() > 0 {
        st.items.push(st.current)
    } else {
        st.items
    }
}

/// The splitter after reading one more character.
pub open spec fn split_step(st: Split, c: char) -> Split {
    if is_separator(c) {
        Split { items: split_finish(st), current: Seq::empty() }
    } else {
        Split { items: st.items, current: st.current.push(c) }
    }
}

/// The splitter after reading all of `text`, from the left.
pub open spec fn split_scan(text: Seq<char>) -> Split
    decreases text.len(),
{
    if text.len() == 0 {
        Split { items: Seq::empty(), current: Seq::empty() }
    } else {
        split_step(split_scan(text.drop_last()), text.last())
    }
}

/// The items of an items text: its pieces between commas and white space,
/// in order, without the empty ones.
pub open spec fn split_items(text: Seq<char>) -> Seq<Seq<char>> {
    split_finish(split_scan(text))
}

/// The prefix as a directory: a `/` is added to one that is not empty and
/// ends in neither `/` nor `\`.
pub open spec fn directory_prefix(prefix: Seq<char>) -> Seq<char> {
    if prefix.len() > 0 && prefix.last() != '/' && prefix.last() != '\\' {
        prefix.push('/')
    } else {
        prefix
    }
}

/// The path that one item of the group `g` stands for.
pub open spec fn path_of(g: GroupText, item: Seq<char>) -> Seq<char> {
    directory_prefix(g.prefix) + item + g.suffix
}

/// The paths of the given items of `g`, in the order of the items.
pub open spec fn paths_of(g: GroupText, items: Seq<Seq<char>>) -> Seq<Seq<char>> {
    Seq::new(items.len(), |i: int| path_of(g, items[i]))
}

/// The paths that a brace group stands for.
pub open spec fn expand_group(g: GroupText) -> Seq<Seq<char>> {
    paths_of(g, split_items(g.items_text))
}

/// The paths that a token stands for.
pub open spec fn expansion(token: Seq<char>) -> Seq<Seq<char>> {
    match first_group(token) {
        Some(g) => expand_group(g),
        None => seq![token],
    }
}

/// Reading `text` and then `c` is one step after reading `text`.
pub proof fn lemma_split_scan_push(text: Seq<char>, c: char)
    ensures
        split_scan(text.push(c)) == split_step(split_scan(text), c),
{
    assert(text.push(c).drop_last() == text);
}

/// A token that lacks `{` or lacks `}` stands for itself: a lone brace is
/// an ordinary character.
pub proof fn lemma_expansion_needs_braces(token: Seq<char>)
    requires
        !token.contains('{') || !token.contains('}'),
    ensures
        expansion(token) == seq![token],
{
    if first_group(token) is Some {
        lemma_group_needs_braces(token);
    }
}

/// A token without braces stands for itself.
pub proof fn lemma_expansion_without_braces(token: Seq<char>)
    requires
        !token.contains('{'),
        !token.contains('}'),
    ensures
        expansion(token) == seq![token],
{
    lemma_expansion_needs_braces(token);
}

/// A token with a group stands for as many paths as the group has items,
/// and the path at each place is made of the directory prefix, the item at
/// that place and the suffix.
pub proof fn lemma_expansion_paths(token: Seq<char>, i: int)
    requires
        first_group(token) is Some,
        0 <= i < split_items(first_group(token)->0.items_text).len(),
    ensures
        expansion(token).len() == split_items(first_group(token)->0.items_text).len(),
        expansion(token)[i] == directory_prefix(first_group(token)->0.prefix) + split_items(
            first_group(token)->0.items_text,
        )[i] + first_group(token)->0.suffix,
{
}

/// A prefix that is empty, or that ends in `/` or `\`, is taken as it is;
/// any other gains one `/`.
pub proof fn lemma_directory_prefix(prefix: Seq<char>)
    ensures
        prefix.len() == 0 ==> directory_prefix(prefix) == prefix,
        prefix.len() > 0 && (prefix.last() == '/' || prefix.last() == '\\') ==> directory_prefix(
            prefix,
        ) == prefix,
        prefix.len() > 0 && prefix.last() != '/' && prefix.last() != '\\' ==> directory_prefix(
            prefix,
        ) == prefix + seq!['/'],
{
    assert(prefix.push('/') == prefix + seq!['/']);
}

/// What the splitter holds is clean: no item, completed or being
/// collected, holds a separator, and no completed item is empty.
pub open spec fn split_clean(st: Split) -> bool {
    &&& forall|j: int| 0 <= j < st.current.len() ==> !is_separator(#[trigger] st.current[j])
    &&& forall|i: int| 0 <= i < st.items.len() ==> (#[trigger] st.items[i]).len() > 0
    &&& forall|i: int, j: int|
        0 <= i < st.items.len() && 0 <= j < st.items[i].len() ==> !is_separator(
            #[trigger] st.items[i][j],
        )
}

proof fn lemma_split_scan_clean(text: Seq<char>)
    ensures
        split_clean(split_scan(text)),
    decreases text.len(),
{
    if text.len() > 0 {
        lemma_split_scan_clean(text.drop_last());
    }
}

/// Every item is a non-empty run of characters that are neither commas nor
/// white space.
pub proof fn lemma_items_clean(text: Seq<char>, i: int)
    requires
        0 <= i < split_items(text).len(),
    ensures
        split_items(text)[i].len() > 0,
        forall|j: int|
            0 <= j < split_items(text)[i].len() ==> !is_separator(#[trigger] split_items(text)[i][j]),
{
    lemma_split_scan_clean(text);
}

/// A text that is not empty and holds no separator is its own single item.
pub proof fn lemma_single_item(text: Seq<char>)
    requires
        text.len() > 0,
        forall|j: int| 0 <= j < text.len() ==> !is_separator(#[trigger] text[j]),
    ensures
        split_items(text) == seq![text],
{
    lemma_scan_without_separator(text);
    assert(Seq::<Seq<char>>::empty().push(text) == seq![text]);
}

proof fn lemma_scan_without_separator(text: Seq<char>)
    requires
        forall|j: int| 0 <= j < text.len() ==> !is_separator(#[trigger] text[j]),
    ensures
        split_scan(text) == (Split { items: Seq::empty(), current: text }),
    decreases text.len(),
{
    if text.len() > 0 {
        lemma_scan_without_separator(text.drop_last());
        assert(text.drop_last().push(text.last()) == text);
    } else {
        assert(text == Seq::<char>::empty());
    }
}

/// The splitter that starts with the completed items `items` and reads
/// `text`.
pub open spec fn split_scan_after(items: Seq<Seq<char>>, text: Seq<char>) -> Split {
    Split { items: items + split_scan(text).items, current: split_scan(text).current }
}

proof fn lemma_split_scan_concat(a: Seq<char>, c: char, b: Seq<char>)
    requires
        is_separator(c),
    ensures
        split_scan(a.push(c) + b) == split_scan_after(split_items(a), b),
    decreases b.len(),
{
    let whole = a.push(c) + b;
    if b.len() == 0 {
        assert(whole == a.push(c));
        lemma_split_scan_push(a, c);
        assert(split_items(a) + Seq::<Seq<char>>::empty() == split_items(a));
    } else {
        lemma_split_scan_concat(a, c, b.drop_last());
        assert(whole.drop_last() == a.push(c) + b.drop_last());
        assert(whole.last() == b.last());
        let before = split_scan(b.drop_last());
        if is_separator(b.last()) {
            assert(split_items(a) + split_finish(before) == split_finish(
                split_scan_after(split_items(a), b.drop_last()),
            ));
        }
    }
}

/// Splitting goes piece by piece: the items of two texts joined by a
/// separator are the items of the first followed by those of the second.
/// So the commas may be taken first and the white space within each piece
/// after, with the same items in the same order.
pub proof fn lemma_split_at_separator(a: Seq<char>, c: char, b: Seq<char>)
    requires
        is_separator(c),
    ensures
        split_items(a.push(c) + b) == split_items(a) + split_items(b),
{
    lemma_split_scan_concat(a, c, b);
    let st = split_scan(b);
    if st.current.len() > 0 {
        assert((split_items(a) + st.items).push(st.current) == split_items(a) + st.items.push(
            st.current,
        ));
    }
}

impl BraceGroup {
    /// The paths of the group: for each item of the items text, the
    /// directory prefix, the item and the suffix. A group whose items text
    /// holds only commas and white space gives no path.
    pub fn expand(&self) -> (paths: Vec<String>)
        ensures
            paths.deep_view() == expand_group(self@),
    {
        let mut prefix = chars_of(self.prefix.as_str());
        let n = prefix.len();
        if n > 0 && prefix[n - 1] != '/' && prefix[n - 1] != '\\' {
            prefix.push('/');
        }
        let suffix = chars_of(self.suffix.as_str());
        let text = chars_of(self.items_text.as_str());
        let mut paths: Vec<String> = Vec::new();
        let mut current: Vec<char> = Vec::new();
        let mut i: usize = 0;
        assert(paths.deep_view() == paths_of(self@, Seq::empty()));
        while i < text.len()
            invariant
                i <= text.len(),
                text@ == self@.items_text,
                prefix@ == directory_prefix(self@.prefix),
                suffix@ == self@.suffix,
                current@ == split_scan(text@.take(i as int)).current,
                paths.deep_view() == paths_of(self@, split_scan(text@.take(i as int)).items),
            decreases text.len() - i,
        {
            let c = text[i];
            proof {
                lemma_split_scan_push(text@.take(i as int), c);
                assert(text@.take(i as int).push(c) == text@.take(i + 1));
            }
            if c == ',' || is_white_space(c) {
                self.close_item(&prefix, &suffix, &mut current, &mut paths);
            } else {
                current.push(c);
            }
            i += 1;
        }
        assert(text@.take(i as int) == text@);
        self.close_item(&prefix, &suffix, &mut current, &mut paths);
        paths
    }

    /// Ends the item being collected: unless it is empty, its path joins
    /// `paths`, and the collection starts anew.
    fn close_item(
        &self,
        prefix: &Vec<char>,
        suffix: &Vec<char>,
        current: &mut Vec<char>,
        paths: &mut Vec<String>,
    )
        requires
            prefix@ == directory_prefix(self@.prefix),
            suffix@ == self@.suffix,
        ensures
            final(current)@ == Seq::<char>::empty(),
            forall|items: Seq<Seq<char>>|
                old(paths).deep_view() == paths_of(self@, items) ==> final(paths).deep_view()
                    == #[trigger] paths_of(
                    self@,
                    split_finish(Split { items, current: old(current)@ }),
                ),
    {
        if current.len() > 0 {
            let mut path: Vec<char> = prefix.clone();
            let mut item: Vec<char> = Vec::new();
            item.append(current);
            path.append(&mut item);
            let mut tail = suffix.clone();
            path.append(&mut tail);
            assert(path@ == path_of(self@, old(current)@));
            paths.push(string_of(path.as_slice()));
            assert forall|items: Seq<Seq<char>>|
                old(paths).deep_view() == paths_of(self@, items) implies paths.deep_view()
                == #[trigger] paths_of(
                self@,
                split_finish(Split { items, current: old(current)@ }),
            ) by {
                assert(paths.deep_view() =~= old(paths).deep_view().push(path@));
                assert(paths_of(self@, items.push(old(current)@)) =~= paths_of(self@, items).push(
                    path@,
                ));
            }
        }
    }
}

/// Expands a token into the paths that it stands for.
///
/// A token with a brace group gives one path per item of the group, in the
/// order of the items, each made of the directory prefix, the item and the
/// suffix. Any other token gives itself, unchanged.
pub fn expand(token: &str) -> (paths: Vec<String>)
    ensures
        paths.deep_view() == expansion(token@),
{
    match find_group(token) {
        Some(g) => g.expand(),
        None => {
            let mut paths: Vec<String> = Vec::new();
            paths.push(token.to_owned());
            assert(paths.deep_view() == seq![token@]);
            paths
        },
    }
}

/// The paths that a list of tokens stands for: those of the first token,
/// then those of the second, and so on.
pub open spec fn planned_paths(tokens: Seq<Seq<char>>) -> Seq<Seq<char>>
    decreases tokens.len(),
{
    if tokens.len() == 0 {
        Seq::empty()
    } else {
        planned_paths(tokens.drop_last()) + expansion(tokens.last())
    }
}

/// The number of paths that a list of tokens stands for, token by token.
pub open spec fn expected_total(tokens: Seq<Seq<char>>) -> nat
    decreases tokens.len(),
{
    if tokens.len() == 0 {
        0
    } else {
        expected_total(tokens.drop_last()) + expansion(tokens.last()).len()
    }
}

/// The planned paths are as many as the tokens' expansions hold together:
/// counting the paths and adding up the counts of the tokens cannot
/// disagree.
pub proof fn lemma_planned_total(tokens: Seq<Seq<char>>)
    ensures
        planned_paths(tokens).len() == expected_total(tokens),
    decreases tokens.len(),
{
    if tokens.len() > 0 {
        lemma_planned_total(tokens.drop_last());
    }
}

/// Tokens without braces are their own paths: the list comes back as it
/// went in.
pub proof fn lemma_planned_without_braces(tokens: Seq<Seq<char>>)
    requires
        forall|i: int|
            0 <= i < tokens.len() ==> !(#[trigger] tokens[i]).contains('{') && !tokens[i].contains(
                '}',
            ),
    ensures
        planned_paths(tokens) == tokens,
    decreases tokens.len(),
{
    if tokens.len() > 0 {
        lemma_planned_without_braces(tokens.drop_last());
        lemma_expansion_without_braces(tokens.last());
        assert(tokens.drop_last() + seq![tokens.last()] == tokens);
    }
}

/// Expands every token, and lines the paths up in the order of the tokens.
/// A token that stands for no path adds none.
pub fn expand_all(tokens: &[String]) -> (paths: Vec<String>)
    ensures
        paths.deep_view() == planned_paths(tokens.deep_view()),
{
    let ghost all = tokens.deep_view();
    let mut paths: Vec<String> = Vec::new();
    let mut k: usize = 0;
    assert(paths.deep_view() == Seq::<Seq<char>>::empty());
    while k < tokens.len()
        invariant
            k <= tokens.len(),
            all == tokens.deep_view(),
            paths.deep_view() == planned_paths(all.take(k as int)),
        decreases tokens.len() - k,
    {
        let ghost before = paths.deep_view();
        let token = tokens[k].as_str();
        proof {
            assert(all.take(k + 1).drop_last() == all.take(k as int));
            assert(all.take(k + 1).last() == token@);
        }
        if has_char(token, '{') && has_char(token, '}') {
            let mut expanded = expand(token);
            paths.append(&mut expanded);
            assert(paths.deep_view() == before + expansion(token@));
        } else {
            proof {
                lemma_expansion_needs_braces(token@);
            }
            paths.push(tokens[k].clone());
            assert(paths.deep_view() == before + seq![token@]);
        }
        k += 1;
    }
    assert(all.take(k as int) == all);
    paths
}

} // verus!
