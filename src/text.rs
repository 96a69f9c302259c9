//! Case mapping, character classes and the tokenizer that turns a raw
//! query line into normalized words.
use vstd::prelude::*;

verus! {

/// The text that `str::to_lowercase` produces for `s`.
pub uninterp spec fn lower_of(s: Seq<char>) -> Seq<char>;

/// The text that `str::to_uppercase` produces for `s`.
pub uninterp spec fn upper_of(s: Seq<char>) -> Seq<char>;

/// Whether `c` has the Unicode `White_Space` property.
pub uninterp spec fn is_space(c: char) -> bool;

/// Whether `c` has the Unicode `Alphabetic` property.
pub uninterp spec fn is_alpha(c: char) -> bool;

/// Whether `c` is alphabetic or numeric in the Unicode sense.
pub uninterp spec fn is_alnum(c: char) -> bool;

/// Relies on `char::is_whitespace`: the answer depends on the character alone.
pub assume_specification[ char::is_whitespace ](c: char) -> (r: bool)
    ensures
        r == is_space(c),
;

/// Relies on `char::is_alphabetic`: the answer depends on the character alone.
pub assume_specification[ char::is_alphabetic ](c: char) -> (r: bool)
    ensures
        r == is_alpha(c),
;

/// Relies on `char::is_alphanumeric`: the answer depends on the character alone.
pub assume_specification[ char::is_alphanumeric ](c: char) -> (r: bool)
    ensures
        r == is_alnum(c),
;

/// Relies on `str::to_lowercase`: the characters of the lower-cased text,
/// which depend on the text alone.
#[verifier::external_body]
fn lowercase(s: &str) -> (r: Vec<char>)
    ensures
        r@ == lower_of(s@),
{
    s.to_lowercase().chars().collect()
}

/// Relies on `str::to_uppercase`: the upper-cased text, which depends on the
/// characters alone.
#[verifier::external_body]
pub(crate) fn uppercase(w: &Vec<char>) -> (r: String)
    ensures
        r@ == upper_of(w@),
{
    w.iter().collect::<String>().to_uppercase()
}

/// A character that survives trimming at the ends of a word.
pub open spec fn is_word_char(c: char) -> bool {
    is_alnum(c) || c == '-'
}

/// `w` without its leading characters that are neither alphanumeric nor `-`.
pub open spec fn trim_start(w: Seq<char>) -> Seq<char>
    decreases w.len(),
{
    if w.len() > 0 && !is_word_char(w[0]) {
        trim_start(w.drop_first())
    } else {
        w
    }
}

/// `w` without its trailing characters that are neither alphanumeric nor `-`.
pub open spec fn trim_end(w: Seq<char>) -> Seq<char>
    decreases w.len(),
{
    if w.len() > 0 && !is_word_char(w.last()) {
        trim_end(w.drop_last())
    } else {
        w
    }
}

/// A whitespace-separated fragment with its punctuation stripped at both ends.
pub open spec fn trim_word(w: Seq<char>) -> Seq<char> {
    trim_end(trim_start(w))
}

/// Closes the fragment `cur`: its trimmed form joins `words` unless it is empty.
pub open spec fn close_fragment(words: Seq<Seq<char>>, cur: Seq<char>) -> Seq<Seq<char>> {
    if trim_word(cur).len() > 0 {
        words.push(trim_word(cur))
    } else {
        words
    }
}

/// The words closed so far and the open fragment, after reading `s` left to right.
pub open spec fn scan_words(s: Seq<char>) -> (Seq<Seq<char>>, Seq<char>)
    decreases s.len(),
{
    if s.len() == 0 {
        (Seq::empty(), Seq::empty())
    } else {
        let (words, cur) = scan_words(s.drop_last());
        let c = s.last();
        if is_space(c) {
            (close_fragment(words, cur), Seq::empty())
        } else {
            (words, cur.push(c))
        }
    }
}

/// The words of `s`: split on whitespace, each fragment trimmed, empty ones dropped.
pub open spec fn words_of(s: Seq<char>) -> Seq<Seq<char>> {
    close_fragment(scan_words(s).0, scan_words(s).1)
}

/// The tokens of a raw query: the words of its lower-cased text.
pub open spec fn tokens_of(query: Seq<char>) -> Seq<Seq<char>> {
    words_of(lower_of(query))
}

/// The abstract value of a token list.
pub open spec fn words_view(t: Seq<Vec<char>>) -> Seq<Seq<char>> {
    t.map_values(|w: Vec<char>| w@)
}

proof fn lemma_trim_start_skip(w: Seq<char>, i: int)
    requires
        0 <= i < w.len(),
        !is_word_char(w[i]),
    ensures
        trim_start(w.subrange(i, w.len() as int)) == trim_start(w.subrange(i + 1, w.len() as int)),
{
    let s = w.subrange(i, w.len() as int);
    assert(s.drop_first() =~= w.subrange(i + 1, w.len() as int));
}

proof fn lemma_trim_end_skip(w: Seq<char>, j: int)
    requires
        0 < j <= w.len(),
        !is_word_char(w[j - 1]),
    ensures
        trim_end(w.subrange(0, j)) == trim_end(w.subrange(0, j - 1)),
{
    let s = w.subrange(0, j);
    assert(s.drop_last() =~= w.subrange(0, j - 1));
}

/// Strips from both ends of `w` every character that is neither
/// alphanumeric nor a hyphen.
pub fn trim_word_exec(w: &Vec<char>) -> (r: Vec<char>)
    ensures
        r@ == trim_word(w@),
{
    let n = w.len();
    let mut lo: usize = 0;
    assert(w@.subrange(0, n as int) =~= w@);
    while lo < n && !(w[lo].is_alphanumeric() || w[lo] == '-')
        invariant
            n == w@.len(),
            lo <= n,
            trim_start(w@) == trim_start(w@.subrange(lo as int, n as int)),
        decreases n - lo,
    {
        proof {
            lemma_trim_start_skip(w@, lo as int);
        }
        lo = lo + 1;
    }
    let ghost rest = w@.subrange(lo as int, n as int);
    assert(trim_start(rest) == rest);
    assert(trim_start(w@) == rest);
    let mut hi: usize = n;
    while hi > lo && !(w[hi - 1].is_alphanumeric() || w[hi - 1] == '-')
        invariant
            n == w@.len(),
            lo <= hi <= n,
            rest == w@.subrange(lo as int, n as int),
            trim_end(rest) == trim_end(w@.subrange(lo as int, hi as int)),
        decreases hi,
    {
        proof {
            lemma_trim_end_skip(w@.subrange(lo as int, hi as int), (hi - lo) as int);
            assert(w@.subrange(lo as int, hi as int).subrange(0, (hi - lo) as int)
                =~= w@.subrange(lo as int, hi as int));
            assert(w@.subrange(lo as int, hi as int).subrange(0, (hi - lo - 1) as int)
                =~= w@.subrange(lo as int, hi - 1));
        }
        hi = hi - 1;
    }
    let mut r: Vec<char> = Vec::new();
    let mut k: usize = lo;
    while k < hi
        invariant
            n == w@.len(),
            lo <= k <= hi <= n,
            r@ =~= w@.subrange(lo as int, k as int),
        decreases hi - k,
    {
        r.push(w[k]);
        k = k + 1;
    }
    assert(trim_end(r@) == r@);
    r
}

/// Appends the trimmed `cur` to `words` unless it is empty.
fn close_fragment_exec(words: &mut Vec<Vec<char>>, cur: &Vec<char>)
    ensures
        words_view(final(words)@) == close_fragment(words_view(old(words)@), cur@),
{
    let t = trim_word_exec(cur);
    if t.len() > 0 {
        words.push(t);
        assert(words_view(final(words)@) =~= words_view(old(words)@).push(trim_word(cur@)));
    }
}

/// Splits `s` on whitespace and trims each fragment, dropping empty ones.
pub fn split_words(s: &Vec<char>) -> (r: Vec<Vec<char>>)
    ensures
        words_view(r@) == words_of(s@),
{
    let mut words: Vec<Vec<char>> = Vec::new();
    let mut cur: Vec<char> = Vec::new();
    let mut i: usize = 0;
    while i < s.len()
        invariant
            i <= s@.len(),
            (words_view(words@), cur@) == scan_words(s@.subrange(0, i as int)),
        decreases s@.len() - i,
    {
        let c = s[i];
        assert(s@.subrange(0, i + 1).drop_last() =~= s@.subrange(0, i as int));
        if c.is_whitespace() {
            close_fragment_exec(&mut words, &cur);
            cur = Vec::new();
            assert(cur@ =~= Seq::<char>::empty());
        } else {
            cur.push(c);
        }
        i = i + 1;
    }
    assert(s@.subrange(0, s@.len() as int) =~= s@);
    close_fragment_exec(&mut words, &cur);
    words
}

/// Lower-cases the query and splits it into trimmed words, in order.
pub fn tokenize(query: &str) -> (r: Vec<Vec<char>>)
    ensures
        words_view(r@) == tokens_of(query@),
{
    let lower = lowercase(query);
    split_words(&lower)
}

} // verus!
