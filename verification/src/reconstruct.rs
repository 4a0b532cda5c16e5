//! Rebuilding file-spec tokens from the raw argument vector.
//!
//! A shell splits on every space, also on those inside a quoted `{...}`
//! group. The arguments are therefore read as one text, joined by single
//! spaces, and split again only at the spaces that stand outside braces.

use vstd::prelude::*;
use crate::text::string_of;

verus! {

/// The arguments joined into one text, a single space between neighbours.
pub open spec fn join_args(args: Seq<Seq<char>>) -> Seq<char>
    decreases args.len(),
{
    if args.len() == 0 {
        Seq::empty()
    } else if args.len() == 1 {
        args[0]
    } else {
        join_args(args.drop_last()) + seq![' '] + args.last()
    }
}

/// What the scanner knows after reading a part of the text.
pub struct Scan {
    /// The tokens completed so far.
    pub tokens: Seq<Seq<char>>,
    /// The token being collected.
    pub current: Seq<char>,
    /// Whether the last brace read was `{`.
    pub in_braces: bool,
}

/// The scanner before it has read anything.
pub open spec fn scan_start() -> Scan {
    Scan { tokens: Seq::empty(), current: Seq::empty(), in_braces: false }
}

/// The scanner after reading one more character.
pub open spec fn scan_step(st: Scan, c: char) -> Scan {
    if c == '{' {
        Scan { tokens: st.tokens, current: st.current.push(c), in_braces: true }
    } else if c == '}' {
        Scan { tokens: st.tokens, current: st.current.push(c), in_braces: false }
    } else if c == ' ' && !st.in_braces {
        Scan { tokens: scan_finish(st), current: Seq::empty(), in_braces: false }
    } else {
        Scan { tokens: st.tokens, current: st.current.push(c), in_braces: st.in_braces }
    }
}

/// The scanner after reading all of `text`, from the left.
pub open spec fn scan(text: Seq<char>) -> Scan
    decreases text.len(),
{
    if text.len() == 0 {
        scan_start()
    } else {
        scan_step(scan(text.drop_last()), text.last())
    }
}

/// The completed tokens, with the one being collected if it is not empty.
pub open spec fn scan_finish(st: Scan) -> Seq<Seq<char>> {
    if st.current.len() > 0 {
        st.tokens.push(st.current)
    } else {
        st.tokens
    }
}

/// The tokens of a text: its pieces between the spaces outside braces,
/// without the empty ones.
pub open spec fn split_tokens(text: Seq<char>) -> Seq<Seq<char>> {
    scan_finish(scan(text))
}

/// The tokens that an argument vector stands for.
pub open spec fn reconstruct(args: Seq<Seq<char>>) -> Seq<Seq<char>> {
    split_tokens(join_args(args))
}

/// Reading `text` and then `c` is one step after reading `text`.
pub proof fn lemma_scan_push(text: Seq<char>, c: char)
    ensures
        scan(text.push(c)) == scan_step(scan(text), c),
{
    assert(text.push(c).drop_last() == text);
}

/// Whether the `{` at `j` still holds at `i`: no `}` stands between the
/// two.
pub open spec fn opens(text: Seq<char>, j: int, i: int) -> bool {
    &&& 0 <= j < i <= text.len()
    &&& text[j] == '{'
    &&& forall|k: int| j < k < i ==> text[k] != '}'
}

/// Whether position `i` of `text` lies inside braces: some `{` before it
/// still holds there. It is the same to say that the last brace before `i`
/// is a `{`.
pub open spec fn in_braces_at(text: Seq<char>, i: int) -> bool {
    exists|j: int| #[trigger] opens(text, j, i)
}

/// Whether a token ends at position `i` of `text`: a space outside braces
/// stands there.
pub open spec fn is_break(text: Seq<char>, i: int) -> bool {
    text[i] == ' ' && !in_braces_at(text, i)
}

/// The characters of `text` that are no breaks, in order.
pub open spec fn kept(text: Seq<char>) -> Seq<char>
    decreases text.len(),
{
    if text.len() == 0 {
        Seq::empty()
    } else if is_break(text, text.len() - 1) {
        kept(text.drop_last())
    } else {
        kept(text.drop_last()).push(text.last())
    }
}

/// Whether `text` is a token by itself: it is not empty, and each of its
/// spaces lies inside braces.
pub open spec fn is_token(text: Seq<char>) -> bool {
    &&& text.len() > 0
    &&& forall|i: int| 0 <= i < text.len() ==> !#[trigger] is_break(text, i)
}

/// Whether a position lies inside braces depends on the text before it
/// alone.
pub proof fn lemma_in_braces_prefix(text: Seq<char>, n: int, i: int)
    requires
        0 <= i <= n <= text.len(),
    ensures
        in_braces_at(text.take(n), i) == in_braces_at(text, i),
{
    if in_braces_at(text, i) {
        let j = choose|j: int| #[trigger] opens(text, j, i);
        assert(opens(text.take(n), j, i));
    }
    if in_braces_at(text.take(n), i) {
        let j = choose|j: int| #[trigger] opens(text.take(n), j, i);
        assert forall|k: int| j < k < i implies text[k] != '}' by {
            assert(text.take(n)[k] == text[k]);
        }
        assert(opens(text, j, i));
    }
}

/// Behind `{` the text is inside braces, behind `}` it is outside, and
/// behind any other character it is where it was before.
pub proof fn lemma_in_braces_push(text: Seq<char>, c: char)
    ensures
        in_braces_at(text.push(c), text.len() + 1 as int) == if c == '{' {
            true
        } else if c == '}' {
            false
        } else {
            in_braces_at(text, text.len() as int)
        },
{
    let n = text.len() as int;
    let next = text.push(c);
    if c == '{' {
        assert(opens(next, n, n + 1));
    } else if c == '}' {
        if in_braces_at(next, n + 1) {
            let j = choose|j: int| #[trigger] opens(next, j, n + 1);
            assert(next[n] == '}');
        }
    } else {
        if in_braces_at(next, n + 1) {
            let j = choose|j: int| #[trigger] opens(next, j, n + 1);
            assert forall|k: int| j < k < n implies text[k] != '}' by {
                assert(next[k] == text[k]);
            }
            assert(text[j] == next[j]);
            assert(opens(text, j, n));
        }
        if in_braces_at(text, n) {
            let j = choose|j: int| #[trigger] opens(text, j, n);
            assert forall|k: int| j < k < n + 1 implies next[k] != '}' by {
                if k < n {
                    assert(next[k] == text[k]);
                }
            }
            assert(next[j] == text[j]);
            assert(opens(next, j, n + 1));
        }
    }
}

/// The scanner is inside braces exactly where the text it has read ends
/// inside braces.
pub proof fn lemma_scan_in_braces(text: Seq<char>)
    ensures
        scan(text).in_braces == in_braces_at(text, text.len() as int),
    decreases text.len(),
{
    if text.len() > 0 {
        lemma_scan_in_braces(text.drop_last());
        lemma_in_braces_push(text.drop_last(), text.last());
        assert(text.drop_last().push(text.last()) == text);
    } else {
        if in_braces_at(text, 0) {
            let j = choose|j: int| #[trigger] opens(text, j, 0);
        }
    }
}

/// Nothing but the breaks is lost: the tokens of a text, one after the
/// other, are the text without the spaces that end a token.
pub proof fn lemma_tokens_keep_text(text: Seq<char>)
    ensures
        split_tokens(text).flatten() == kept(text),
{
    lemma_scan_keeps_text(text);
    let st = scan(text);
    if st.current.len() > 0 {
        st.tokens.lemma_flatten_push(st.current);
    } else {
        assert(st.tokens.flatten() + st.current == st.tokens.flatten());
    }
}

proof fn lemma_scan_keeps_text(text: Seq<char>)
    ensures
        scan(text).tokens.flatten() + scan(text).current == kept(text),
    decreases text.len(),
{
    if text.len() == 0 {
        assert(Seq::<Seq<char>>::empty().flatten() + Seq::<char>::empty() == kept(text));
    } else {
        let before = text.drop_last();
        let c = text.last();
        let st = scan(before);
        lemma_scan_keeps_text(before);
        lemma_scan_in_braces(before);
        lemma_in_braces_prefix(text, text.len() - 1, text.len() - 1);
        assert(text.take(text.len() - 1) == before);
        if c == ' ' && !st.in_braces {
            if st.current.len() > 0 {
                st.tokens.lemma_flatten_push(st.current);
            } else {
                assert(st.tokens.flatten() + st.current == st.tokens.flatten());
            }
            assert(scan(text).tokens.flatten() + Seq::<char>::empty() == scan(
                text,
            ).tokens.flatten());
        } else {
            assert(st.tokens.flatten() + st.current.push(c) == (st.tokens.flatten()
                + st.current).push(c));
        }
    }
}

/// Where the scanner stands between two tokens, a text that is a token by
/// itself, or empty, is taken up whole into the token being collected.
proof fn lemma_scan_takes_token(read: Seq<char>, token: Seq<char>)
    requires
        scan(read).current.len() == 0,
        !scan(read).in_braces,
        forall|i: int| 0 <= i < token.len() ==> !#[trigger] is_break(token, i),
    ensures
        scan(read + token) == (Scan {
            tokens: scan(read).tokens,
            current: token,
            in_braces: in_braces_at(token, token.len() as int),
        }),
    decreases token.len(),
{
    if token.len() == 0 {
        assert(read + token == read);
        assert(scan(read).current == token);
        if in_braces_at(token, 0) {
            let j = choose|j: int| #[trigger] opens(token, j, 0);
        }
    } else {
        let before = token.drop_last();
        let n = token.len() - 1;
        assert forall|i: int| 0 <= i < before.len() implies !#[trigger] is_break(before, i) by {
            lemma_in_braces_prefix(token, n, i);
            assert(token.take(n) == before);
            assert(!is_break(token, i));
        }
        lemma_scan_takes_token(read, before);
        assert((read + token).drop_last() == read + before);
        assert(before.push(token.last()) == token);
        lemma_in_braces_push(before, token.last());
        lemma_in_braces_prefix(token, n, n);
        assert(token.take(n) == before);
        assert(!is_break(token, n));
    }
}

/// A token by itself comes back as the one token of its text.
pub proof fn lemma_token_is_kept(token: Seq<char>)
    requires
        is_token(token),
    ensures
        split_tokens(token) == seq![token],
{
    let read = Seq::<char>::empty();
    lemma_scan_takes_token(read, token);
    assert(read + token == token);
    assert(Seq::<Seq<char>>::empty().push(token) == seq![token]);
}

/// What the scanner holds are tokens: each completed one is a token by
/// itself, and the one being collected has no break in it and ends inside
/// braces exactly if the scanner is inside braces.
pub open spec fn scan_holds_tokens(st: Scan) -> bool {
    &&& forall|i: int| 0 <= i < st.tokens.len() ==> is_token(#[trigger] st.tokens[i])
    &&& forall|i: int| 0 <= i < st.current.len() ==> !#[trigger] is_break(st.current, i)
    &&& st.in_braces == in_braces_at(st.current, st.current.len() as int)
}

proof fn lemma_scan_holds_tokens(text: Seq<char>)
    ensures
        scan_holds_tokens(scan(text)),
    decreases text.len(),
{
    let now = scan(text);
    if text.len() == 0 {
        if in_braces_at(now.current, 0) {
            let j = choose|j: int| #[trigger] opens(now.current, j, 0);
        }
    } else {
        let st = scan(text.drop_last());
        let c = text.last();
        lemma_scan_holds_tokens(text.drop_last());
        if c != '{' && c != '}' && c == ' ' && !st.in_braces {
            if in_braces_at(now.current, 0) {
                let j = choose|j: int| #[trigger] opens(now.current, j, 0);
            }
        } else {
            let n = st.current.len() as int;
            lemma_in_braces_push(st.current, c);
            assert forall|i: int| 0 <= i < now.current.len() implies !#[trigger] is_break(
                now.current,
                i,
            ) by {
                lemma_in_braces_prefix(now.current, n, i);
                assert(now.current.take(n) == st.current);
                if i < n {
                    assert(!is_break(st.current, i));
                }
            }
        }
    }
}

/// Every token of a text is a token by itself: it is not empty, and no
/// space of it stands outside braces. So to split a token again changes
/// nothing.
pub proof fn lemma_tokens_are_tokens(text: Seq<char>, i: int)
    requires
        0 <= i < split_tokens(text).len(),
    ensures
        is_token(split_tokens(text)[i]),
        split_tokens(split_tokens(text)[i]) == seq![split_tokens(text)[i]],
{
    lemma_scan_holds_tokens(text);
    lemma_token_is_kept(split_tokens(text)[i]);
}

/// Arguments that are tokens by themselves, each with its braces closed,
/// come back as they are: one token for each argument.
pub proof fn lemma_reconstruct_tokens(args: Seq<Seq<char>>)
    requires
        forall|k: int| 0 <= k < args.len() ==> is_token(#[trigger] args[k]),
        forall|k: int|
            0 <= k < args.len() ==> !in_braces_at(#[trigger] args[k], args[k].len() as int),
    ensures
        reconstruct(args) == args,
{
    if args.len() == 0 {
        assert(reconstruct(args) == args);
    } else {
        lemma_scan_joined_tokens(args);
        assert(args.drop_last().push(args.last()) == args);
    }
}

proof fn lemma_scan_joined_tokens(args: Seq<Seq<char>>)
    requires
        args.len() > 0,
        forall|k: int| 0 <= k < args.len() ==> is_token(#[trigger] args[k]),
        forall|k: int|
            0 <= k < args.len() ==> !in_braces_at(#[trigger] args[k], args[k].len() as int),
    ensures
        scan(join_args(args)) == (Scan {
            tokens: args.drop_last(),
            current: args.last(),
            in_braces: false,
        }),
    decreases args.len(),
{
    let last = args.last();
    assert(is_token(last));
    if args.len() == 1 {
        let read = Seq::<char>::empty();
        lemma_scan_takes_token(read, last);
        assert(read + last == last);
        assert(args.drop_last() == Seq::<Seq<char>>::empty());
    } else {
        let head = args.drop_last();
        assert forall|k: int| 0 <= k < head.len() implies is_token(#[trigger] head[k])
            && !in_braces_at(head[k], head[k].len() as int) by {
            assert(head[k] == args[k]);
        }
        lemma_scan_joined_tokens(head);
        let joined = join_args(head);
        lemma_scan_push(joined, ' ');
        assert(joined.push(' ') == joined + seq![' ']);
        assert(head.drop_last().push(head.last()) == head);
        lemma_scan_takes_token(joined + seq![' '], last);
    }
}

/// Arguments that are not empty and hold neither spaces nor braces come
/// back as they are.
pub proof fn lemma_reconstruct_plain(args: Seq<Seq<char>>)
    requires
        forall|k: int| 0 <= k < args.len() ==> (#[trigger] args[k]).len() > 0,
        forall|k: int, i: int|
            0 <= k < args.len() && 0 <= i < args[k].len() ==> {
                let c = #[trigger] args[k][i];
                c != ' ' && c != '{' && c != '}'
            },
    ensures
        reconstruct(args) == args,
{
    assert forall|k: int| 0 <= k < args.len() implies is_token(#[trigger] args[k])
        && !in_braces_at(args[k], args[k].len() as int) by {
        let arg = args[k];
        if in_braces_at(arg, arg.len() as int) {
            let j = choose|j: int| #[trigger] opens(arg, j, arg.len() as int);
            assert(arg[j] == args[k][j]);
        }
        assert forall|i: int| 0 <= i < arg.len() implies !#[trigger] is_break(arg, i) by {
            assert(arg[i] == args[k][i]);
        }
    }
    lemma_reconstruct_tokens(args);
}

/// The text joined from the first `k` arguments, a space added where another
/// argument comes before the one at `k`.
pub open spec fn joined_before(args: Seq<Seq<char>>, k: int) -> Seq<char> {
    if k == 0 {
        Seq::empty()
    } else {
        join_args(args.take(k)) + seq![' ']
    }
}

proof fn lemma_join_next(args: Seq<Seq<char>>, k: int)
    requires
        0 <= k < args.len(),
    ensures
        join_args(args.take(k + 1)) == joined_before(args, k) + args[k],
{
    let head = args.take(k + 1);
    assert(head.last() == args[k]);
    assert(head.drop_last() == args.take(k));
    if k == 0 {
        assert(head[0] == args[0]);
        assert(Seq::<char>::empty() + args[0] == args[0]);
    }
}

/// Rejoins the argument vector into file-spec tokens.
///
/// The arguments are read as one text with a single space between them. A
/// space outside braces ends the current token, and empty tokens are
/// dropped; a space inside braces stays in the token. `{` opens a brace
/// group and only `}` closes it, so after an unclosed `{` every later space
/// is kept.
pub fn reconstruct_files(args: &[String]) -> (tokens: Vec<String>)
    ensures
        tokens.deep_view() == reconstruct(args.deep_view()),
{
    let ghost all = args.deep_view();
    let mut tokens: Vec<String> = Vec::new();
    let mut current: Vec<char> = Vec::new();
    let mut in_braces = false;
    let mut k: usize = 0;
    assert(tokens.deep_view() == Seq::<Seq<char>>::empty());
    while k < args.len()
        invariant
            k <= args.len(),
            all == args.deep_view(),
            scan(join_args(all.take(k as int))) == (Scan {
                tokens: tokens.deep_view(),
                current: current@,
                in_braces,
            }),
        decreases args.len() - k,
    {
        let ghost before = joined_before(all, k as int);
        if k > 0 {
            proof {
                let joined = join_args(all.take(k as int));
                lemma_scan_push(joined, ' ');
                assert(joined.push(' ') == before);
            }
            if !in_braces {
                flush(&mut tokens, &mut current);
            } else {
                current.push(' ');
            }
        }
        assert(scan(before) == (Scan {
            tokens: tokens.deep_view(),
            current: current@,
            in_braces,
        }));
        let arg = args[k].as_str();
        assert(arg@ == all[k as int]);
        for c in it: arg.chars()
            invariant
                it.seq() == arg@,
                scan(before + arg@.take(it.index() as int)) == (Scan {
                    tokens: tokens.deep_view(),
                    current: current@,
                    in_braces,
                }),
        {
            proof {
                let read = before + arg@.take(it.index() as int);
                lemma_scan_push(read, c);
                assert(read.push(c) == before + arg@.take(it.index() + 1));
            }
            if c == '{' {
                in_braces = true;
                current.push(c);
            } else if c == '}' {
                in_braces = false;
                current.push(c);
            } else if c == ' ' && !in_braces {
                flush(&mut tokens, &mut current);
            } else {
                current.push(c);
            }
        }
        proof {
            assert(arg@.take(arg@.len() as int) == arg@);
            lemma_join_next(all, k as int);
        }
        k += 1;
    }
    assert(all.take(k as int) == all);
    if current.len() > 0 {
        flush(&mut tokens, &mut current);
    }
    tokens
}

/// Ends the token being collected: it joins the completed ones unless it is
/// empty, and the collection starts anew.
fn flush(tokens: &mut Vec<String>, current: &mut Vec<char>)
    ensures
        final(tokens).deep_view() == scan_finish(
            Scan { tokens: old(tokens).deep_view(), current: old(current)@, in_braces: false },
        ),
        final(current)@ == Seq::<char>::empty(),
{
    if current.len() > 0 {
        let token = string_of(current.as_slice());
        tokens.push(token);
        current.clear();
        assert(tokens.deep_view() == old(tokens).deep_view().push(old(current)@));
    }
    assert(current@ == Seq::<char>::empty());
}

} // verus!
