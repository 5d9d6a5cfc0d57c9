use vstd::prelude::*;
use vstd::string::StrSliceExecFns;

verus! {

/// The characters that Unicode classes as White_Space (those for which
/// `char::is_whitespace` holds).
pub open spec fn is_space(c: char) -> bool {
    ('\u{9}' <= c <= '\u{d}') || c == ' ' || c == '\u{85}' || c == '\u{a0}' || c == '\u{1680}'
        || ('\u{2000}' <= c <= '\u{200a}') || c == '\u{2028}' || c == '\u{2029}' || c == '\u{202f}'
        || c == '\u{205f}' || c == '\u{3000}'
}

/// Tells whether `c` separates tokens.
pub fn space(c: char) -> (r: bool)
    ensures
        r == is_space(c),
{
    ('\u{9}' <= c && c <= '\u{d}') || c == ' ' || c == '\u{85}' || c == '\u{a0}' || c == '\u{1680}'
        || ('\u{2000}' <= c && c <= '\u{200a}') || c == '\u{2028}' || c == '\u{2029}' || c == '\u{202f}'
        || c == '\u{205f}' || c == '\u{3000}'
}

/// The length of the run of non-space characters that starts `s`.
pub open spec fn token_len(s: Seq<char>) -> nat
    decreases s.len(),
{
    if s.len() == 0 || is_space(s[0]) {
        0
    } else {
        1 + token_len(s.drop_first())
    }
}

pub proof fn lemma_token_len_bounds(s: Seq<char>)
    ensures
        token_len(s) <= s.len(),
        s.len() > 0 && !is_space(s[0]) ==> token_len(s) >= 1,
    decreases s.len(),
{
    if s.len() > 0 && !is_space(s[0]) {
        lemma_token_len_bounds(s.drop_first());
    }
}

/// The tokens of `s`: its maximal runs of non-space characters, in order.
pub open spec fn tokens_of(s: Seq<char>) -> Seq<Seq<char>>
    decreases s.len(),
{
    if s.len() == 0 {
        Seq::empty()
    } else if is_space(s[0]) {
        tokens_of(s.drop_first())
    } else {
        let k = token_len(s);
        proof {
            lemma_token_len_bounds(s);
        }
        seq![s.take(k as int)] + tokens_of(s.skip(k as int))
    }
}

proof fn lemma_token_len_run(s: Seq<char>, k: int)
    requires
        0 <= k <= s.len(),
        forall|m: int| 0 <= m < k ==> !is_space(#[trigger] s[m]),
        k == s.len() || is_space(s[k]),
    ensures
        token_len(s) == k,
    decreases k,
{
    if k > 0 {
        let t = s.drop_first();
        assert forall|m: int| 0 <= m < k - 1 implies !is_space(#[trigger] t[m]) by {
            assert(t[m] == s[m + 1]);
        }
        lemma_token_len_run(t, k - 1);
    }
}

/// Splits `text` into its whitespace-separated tokens, left to right. Runs of
/// whitespace of any length separate tokens; no token is empty.
pub fn tokenize<'a>(text: &'a str) -> (r: Vec<&'a str>)
    ensures
        r@.map_values(|t: &str| t@) == tokens_of(text@),
{
    let mut chars: Vec<char> = Vec::new();
    for c in it: text.chars()
        invariant
            chars@ == it.seq().take(it.index() as int),
    {
        chars.push(c);
    }
    assert(chars@ == text@);
    let ghost s = text@;
    let n = chars.len();
    let mut r: Vec<&'a str> = Vec::new();
    let mut i: usize = 0;
    while i < n
        invariant
            chars@ == s,
            n == s.len(),
            s == text@,
            i <= n,
            r@.map_values(|t: &str| t@) + tokens_of(s.skip(i as int)) == tokens_of(s),
        decreases n - i,
    {
        let ghost rest = s.skip(i as int);
        if space(chars[i]) {
            assert(rest.drop_first() == s.skip(i + 1));
            i = i + 1;
        } else {
            let mut j: usize = i + 1;
            while j < n && !space(chars[j])
                invariant
                    chars@ == s,
                    n == s.len(),
                    i < j <= n,
                    forall|m: int| i <= m < j ==> !is_space(#[trigger] s[m]),
                decreases n - j,
            {
                j = j + 1;
            }
            let token = text.substring_char(i, j);
            proof {
                let k = j - i;
                assert forall|m: int| 0 <= m < k implies !is_space(#[trigger] rest[m]) by {
                    assert(rest[m] == s[i + m]);
                }
                lemma_token_len_run(rest, k);
                assert(rest.take(k) == s.subrange(i as int, j as int));
                assert(rest.skip(k) == s.skip(j as int));
                assert(tokens_of(rest) == seq![rest.take(k)] + tokens_of(rest.skip(k)));
            }
            let ghost before = r@.map_values(|t: &str| t@);
            r.push(token);
            assert(r@.map_values(|t: &str| t@) == before.push(token@));
            assert(before.push(token@) + tokens_of(s.skip(j as int)) == before + tokens_of(rest));
            i = j;
        }
    }
    assert(s.skip(n as int) == Seq::<char>::empty());
    assert(r@.map_values(|t: &str| t@) + tokens_of(s.skip(i as int)) == r@.map_values(|t: &str| t@));
    r
}

} // verus!
