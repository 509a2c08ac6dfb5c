//! Query-string handling of full-text search: quoted phrases are taken out
//! of a query, the rest is left for term matching.

use vstd::prelude::*;
use crate::text::concat;

verus! {

/// The text with leading and trailing whitespace removed.
pub uninterp spec fn trimmed(s: Seq<char>) -> Seq<char>;

/// Relies on `str::trim`: the text without leading and trailing
/// whitespace; an empty text stays empty.
#[verifier::external_body]
fn trim_text(s: &str) -> (r: String)
    ensures
        r@ == trimmed(s@),
        s@.len() == 0 ==> r@.len() == 0,
{
    s.trim().to_string()
}

/// `a` and `b` are the first two double quotes of `s`.
pub open spec fn first_pair(s: Seq<char>, a: int, b: int) -> bool {
    &&& 0 <= a < b < s.len()
    &&& s[a] == '"'
    &&& s[b] == '"'
    &&& forall|i: int| 0 <= i < a ==> s[i] != '"'
    &&& forall|i: int| a < i < b ==> s[i] != '"'
}

/// The phrases of a query, and what is left of it: while the text has two
/// double quotes, the text between the first two, trimmed, is a phrase
/// (kept when not empty), and the quotes and the text between them are
/// removed.
pub open spec fn phrase_split(s: Seq<char>) -> (Seq<Seq<char>>, Seq<char>)
    decreases s.len(),
{
    if exists|a: int, b: int| first_pair(s, a, b) {
        let (a, b) = choose|a: int, b: int| first_pair(s, a, b);
        let inner = trimmed(s.subrange(a + 1, b));
        let rest = s.subrange(0, a) + s.subrange(b + 1, s.len() as int);
        let (ps, r) = phrase_split(rest);
        (if inner.len() > 0 { seq![inner] + ps } else { ps }, r)
    } else {
        (seq![], s)
    }
}

proof fn lemma_first_pair_unique(s: Seq<char>, a: int, b: int, c: int, d: int)
    requires
        first_pair(s, a, b),
        first_pair(s, c, d),
    ensures
        a == c && b == d,
{
    if a < c {
        assert(s[a] != '"');
    }
    if c < a {
        assert(s[c] != '"');
    }
    if b < d {
        assert(s[b] != '"');
    }
    if d < b {
        assert(s[d] != '"');
    }
}

/// The index of the first double quote at or after `from`.
fn find_quote(s: &str, from: usize) -> (r: Option<usize>)
    requires
        from <= s@.len(),
    ensures
        r matches Some(i) ==> from <= i < s@.len() && s@[i as int] == '"' && forall|j: int| from <= j < i ==> s@[j] != '"',
        r is None ==> forall|j: int| from <= j < s@.len() ==> s@[j] != '"',
{
    let n = s.unicode_len();
    let mut i = from;
    while i < n
        invariant
            n == s@.len(),
            from <= i <= n,
            forall|j: int| from <= j < i ==> s@[j] != '"',
        decreases n - i,
    {
        if s.get_char(i) == '"' {
            return Some(i);
        }
        i = i + 1;
    }
    None
}

/// Splits the quoted phrases out of a query.
pub fn parse_phrases(query: &str) -> (r: (Vec<String>, String))
    ensures
        crate::text::views(r.0@) == phrase_split(query@).0,
        r.1@ == phrase_split(query@).1,
{
    let mut phrases: Vec<String> = Vec::new();
    let mut remaining = query.to_owned();
    loop
        invariant
            phrase_split(query@).0 == crate::text::views(phrases@) + phrase_split(remaining@).0,
            phrase_split(query@).1 == phrase_split(remaining@).1,
        ensures
            phrase_split(query@).0 == crate::text::views(phrases@),
            phrase_split(query@).1 == remaining@,
        decreases remaining@.len(),
    {
        let rem = remaining.as_str();
        let n = rem.unicode_len();
        let a = match find_quote(rem, 0) {
            Some(a) => a,
            None => {
                proof {
                    assert(!exists|a: int, b: int| first_pair(remaining@, a, b));
                    assert(phrase_split(remaining@).0 =~= Seq::<Seq<char>>::empty());
                    assert(crate::text::views(phrases@) + Seq::<Seq<char>>::empty() =~= crate::text::views(phrases@));
                }
                break;
            },
        };
        let b = match find_quote(rem, a + 1) {
            Some(b) => b,
            None => {
                proof {
                    assert(!exists|x: int, y: int| first_pair(remaining@, x, y)) by {
                        if exists|x: int, y: int| first_pair(remaining@, x, y) {
                            let (x, y) = choose|x: int, y: int| first_pair(remaining@, x, y);
                            if x < a as int {
                                assert(remaining@[x] != '"');
                            }
                            if x > a as int {
                                assert(remaining@[a as int] != '"');
                            }
                            assert(remaining@[y] != '"');
                        }
                    }
                    assert(phrase_split(remaining@).0 =~= Seq::<Seq<char>>::empty());
                    assert(crate::text::views(phrases@) + Seq::<Seq<char>>::empty() =~= crate::text::views(phrases@));
                }
                break;
            },
        };
        let ghost s = remaining@;
        proof {
            assert(first_pair(s, a as int, b as int));
            let (x, y) = choose|x: int, y: int| first_pair(s, x, y);
            lemma_first_pair_unique(s, a as int, b as int, x, y);
        }
        let phrase = trim_text(rem.substring_char(a + 1, b));
        let before = rem.substring_char(0, a);
        let after = rem.substring_char(b + 1, n);
        let rest = concat(before, after);
        let ghost old_phrases = phrases@;
        if phrase.unicode_len() > 0 {
            proof {
                crate::text::lemma_views_push(phrases@, phrase);
            }
            phrases.push(phrase);
            proof {
                assert(crate::text::views(phrases@) + phrase_split(rest@).0 =~= crate::text::views(old_phrases)
                    + (seq![phrase@] + phrase_split(rest@).0));
            }
        }
        remaining = rest;
    }
    (phrases, remaining)
}

} // verus!
