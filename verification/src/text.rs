//! Text as a sequence of tokens: the maximal runs of characters that are not
//! whitespace, in the order in which they stand in the text.

use vstd::prelude::*;

verus! {

/// Whether `c` is whitespace: a character with the Unicode property
/// `White_Space`. Tab, line feed, carriage return and the space are among
/// them.
pub open spec fn is_whitespace(c: char) -> bool {
    let u = c as u32;
    ||| 0x09 <= u <= 0x0d
    ||| u == 0x20
    ||| u == 0x85
    ||| u == 0xa0
    ||| u == 0x1680
    ||| 0x2000 <= u <= 0x200a
    ||| u == 0x2028
    ||| u == 0x2029
    ||| u == 0x202f
    ||| u == 0x205f
    ||| u == 0x3000
}

/// The length of the longest prefix of `s` that holds no whitespace.
pub open spec fn token_len(s: Seq<char>) -> nat
    decreases s.len(),
{
    if s.len() == 0 || is_whitespace(s[0]) {
        0
    } else {
        1 + token_len(s.drop_first())
    }
}

/// The tokens of `s`. Whitespace before a token is passed over; a token
/// starts at the first character that is not whitespace and runs up to the
/// next whitespace or the end of the text.
pub open spec fn tokens(s: Seq<char>) -> Seq<Seq<char>>
    decreases s.len(),
    via tokens_decreases
{
    if s.len() == 0 {
        Seq::empty()
    } else if is_whitespace(s[0]) {
        tokens(s.drop_first())
    } else {
        seq![s.take(token_len(s) as int)] + tokens(s.skip(token_len(s) as int))
    }
}

#[via_fn]
proof fn tokens_decreases(s: Seq<char>) {
    lemma_token_len(s);
}

/// The character sequences of a list of tokens.
pub open spec fn views(list: Seq<Vec<char>>) -> Seq<Seq<char>> {
    Seq::new(list.len(), |k: int| list[k]@)
}

/// The prefix that `token_len` measures lies within `s`, holds no
/// whitespace, and cannot be made longer: it ends at whitespace or at the
/// end of `s`.
pub proof fn lemma_token_len(s: Seq<char>)
    ensures
        token_len(s) <= s.len(),
        forall|k: int| 0 <= k < token_len(s) ==> !is_whitespace(s[k]),
        token_len(s) < s.len() ==> is_whitespace(s[token_len(s) as int]),
        s.len() > 0 && !is_whitespace(s[0]) ==> token_len(s) >= 1,
    decreases s.len(),
{
    if s.len() == 0 || is_whitespace(s[0]) {
    } else {
        let rest = s.drop_first();
        lemma_token_len(rest);
        assert forall|k: int| 0 <= k < token_len(s) implies !is_whitespace(s[k]) by {
            if k > 0 {
                assert(s[k] == rest[k - 1]);
            }
        }
        if token_len(s) < s.len() {
            assert(s[token_len(s) as int] == rest[token_len(rest) as int]);
        }
    }
}

/// A run of `n` characters without whitespace that ends at whitespace or at
/// the end of `s` is the prefix that `token_len` measures.
pub proof fn lemma_token_len_is(s: Seq<char>, n: int)
    requires
        0 <= n <= s.len(),
        forall|k: int| 0 <= k < n ==> !is_whitespace(s[k]),
        n < s.len() ==> is_whitespace(s[n]),
    ensures
        token_len(s) == n,
    decreases n,
{
    if n > 0 {
        let rest = s.drop_first();
        assert forall|k: int| 0 <= k < n - 1 implies !is_whitespace(rest[k]) by {
            assert(rest[k] == s[k + 1]);
        }
        if n - 1 < rest.len() {
            assert(rest[n - 1] == s[n]);
        }
        lemma_token_len_is(rest, n - 1);
    }
}

/// Whether `t` can be a token: it is not empty and holds no whitespace.
pub open spec fn is_word(t: Seq<char>) -> bool {
    t.len() > 0 && forall|j: int| 0 <= j < t.len() ==> !is_whitespace(t[j])
}

/// No token is empty, and no token holds whitespace.
pub proof fn lemma_tokens_are_words(s: Seq<char>)
    ensures
        forall|k: int| 0 <= k < tokens(s).len() ==> is_word(#[trigger] tokens(s)[k]),
    decreases s.len(),
{
    if s.len() == 0 {
    } else if is_whitespace(s[0]) {
        lemma_tokens_are_words(s.drop_first());
        assert(tokens(s) == tokens(s.drop_first()));
    } else {
        lemma_token_len(s);
        let n = token_len(s) as int;
        lemma_tokens_are_words(s.skip(n));
        assert(is_word(s.take(n)));
        assert forall|k: int| 0 <= k < tokens(s).len() implies is_word(#[trigger] tokens(s)[k]) by {
            if k == 0 {
                assert(tokens(s)[0] == s.take(n));
            } else {
                assert(tokens(s)[k] == tokens(s.skip(n))[k - 1]);
            }
        }
    }
}

/// A word is its own single token.
pub proof fn lemma_tokens_of_word(t: Seq<char>)
    requires
        is_word(t),
    ensures
        tokens(t) == seq![t],
{
    lemma_token_len_is(t, t.len() as int);
    assert(t.take(t.len() as int) =~= t);
    assert(t.skip(t.len() as int) =~= Seq::<char>::empty());
    assert(tokens(t.skip(t.len() as int)) =~= Seq::<Seq<char>>::empty());
    assert(tokens(t) =~= seq![t]);
}

/// Tokens do not reach across whitespace: the tokens of two texts joined by
/// one whitespace character are the tokens of the first text followed by the
/// tokens of the second.
pub proof fn lemma_tokens_split(first: Seq<char>, gap: char, second: Seq<char>)
    requires
        is_whitespace(gap),
    ensures
        tokens(first + seq![gap] + second) == tokens(first) + tokens(second),
    decreases first.len(),
{
    let whole = first + seq![gap] + second;
    if first.len() == 0 {
        assert(whole.drop_first() =~= second);
        assert(tokens(first) + tokens(second) =~= tokens(second));
    } else if is_whitespace(first[0]) {
        assert(whole.drop_first() =~= first.drop_first() + seq![gap] + second);
        lemma_tokens_split(first.drop_first(), gap, second);
    } else {
        lemma_token_len(first);
        let n = token_len(first) as int;
        assert forall|k: int| 0 <= k < n implies !is_whitespace(whole[k]) by {
            assert(whole[k] == first[k]);
        }
        assert(is_whitespace(whole[n])) by {
            if n < first.len() {
                assert(whole[n] == first[n]);
            } else {
                assert(whole[n] == gap);
            }
        }
        lemma_token_len_is(whole, n);
        assert(whole.take(n) =~= first.take(n));
        assert(whole.skip(n) =~= first.skip(n) + seq![gap] + second);
        lemma_tokens_split(first.skip(n), gap, second);
        assert(tokens(whole) =~= tokens(first) + tokens(second));
    }
}

/// A text of whitespace alone, the empty text among them, has no tokens.
pub proof fn lemma_blank_text_has_no_tokens(s: Seq<char>)
    requires
        forall|k: int| 0 <= k < s.len() ==> is_whitespace(s[k]),
    ensures
        tokens(s) == Seq::<Seq<char>>::empty(),
    decreases s.len(),
{
    if s.len() > 0 {
        let rest = s.drop_first();
        assert forall|k: int| 0 <= k < rest.len() implies is_whitespace(rest[k]) by {
            assert(rest[k] == s[k + 1]);
        }
        lemma_blank_text_has_no_tokens(rest);
    }
}

/// Whether `c` is whitespace.
pub fn is_whitespace_char(c: char) -> (b: bool)
    ensures
        b == is_whitespace(c),
{
    let u: u32 = c as u32;
    (0x09 <= u && u <= 0x0d) || u == 0x20 || u == 0x85 || u == 0xa0 || u == 0x1680 || (0x2000 <= u
        && u <= 0x200a) || u == 0x2028 || u == 0x2029 || u == 0x202f || u == 0x205f || u == 0x3000
}

/// The characters of `text`, in order.
pub fn chars_of(text: &str) -> (chars: Vec<char>)
    ensures
        chars@ == text@,
{
    let mut chars: Vec<char> = Vec::new();
    for c in it: text.chars()
        invariant
            it.seq() == text@,
            chars@ == it.seq().take(it.index() as int),
    {
        chars.push(c);
    }
    assert(chars@ =~= text@);
    chars
}

/// Splits `text` into its tokens.
pub fn split_whitespace(text: &str) -> (list: Vec<Vec<char>>)
    ensures
        views(list@) == tokens(text@),
{
    let chars = chars_of(text);
    let mut list: Vec<Vec<char>> = Vec::new();
    let mut i: usize = 0;
    assert(chars@.skip(0) =~= chars@);
    assert(views(list@) + tokens(chars@.skip(0)) =~= tokens(chars@));
    while i < chars.len()
        invariant
            i <= chars.len(),
            chars@ == text@,
            views(list@) + tokens(chars@.skip(i as int)) == tokens(chars@),
        decreases chars.len() - i,
    {
        let ghost rest = chars@.skip(i as int);
        if is_whitespace_char(chars[i]) {
            assert(rest.drop_first() =~= chars@.skip(i + 1));
            i = i + 1;
        } else {
            let start: usize = i;
            let mut token: Vec<char> = Vec::new();
            while i < chars.len() && !is_whitespace_char(chars[i])
                invariant
                    start <= i <= chars.len(),
                    token@ == chars@.subrange(start as int, i as int),
                    forall|k: int| start <= k < i ==> !is_whitespace(chars[k]),
                decreases chars.len() - i,
            {
                token.push(chars[i]);
                i = i + 1;
                assert(token@ =~= chars@.subrange(start as int, i as int));
            }
            proof {
                let n = i - start;
                assert forall|k: int| 0 <= k < n implies !is_whitespace(rest[k]) by {
                    assert(rest[k] == chars[start + k]);
                }
                lemma_token_len_is(rest, n);
                assert(rest.take(n) =~= token@);
                assert(rest.skip(n) =~= chars@.skip(i as int));
                assert(views(list@.push(token)) =~= views(list@).push(token@));
                assert(views(list@).push(token@) + tokens(chars@.skip(i as int)) =~= views(list@)
                    + tokens(rest));
            }
            list.push(token);
        }
    }
    proof {
        assert(chars@.skip(i as int) =~= Seq::<char>::empty());
        assert(views(list@) + Seq::<Seq<char>>::empty() =~= views(list@));
    }
    list
}

} // verus!
