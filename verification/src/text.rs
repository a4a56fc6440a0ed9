//! Text primitives over sequences of characters: trimming, splitting into
//! lines, words and fields, decimal parsing and rendering.
//!
//! Each executable function works on a `Vec<char>` and is proved equal to a
//! spec function over `Seq<char>` that mirrors the behaviour of the
//! corresponding `str` method.
use vstd::prelude::*;

verus! {

// ---------------------------------------------------------------------------
// Character classes
// ---------------------------------------------------------------------------

/// The Unicode `White_Space` property, as tested by `char::is_whitespace`.
pub open spec fn is_ws(c: char) -> bool {
    ||| c == '\t'
    ||| c == '\n'
    ||| c == '\u{0B}'
    ||| c == '\u{0C}'
    ||| c == '\r'
    ||| c == ' '
    ||| c == '\u{85}'
    ||| c == '\u{A0}'
    ||| c == '\u{1680}'
    ||| ('\u{2000}' <= c && c <= '\u{200A}')
    ||| c == '\u{2028}'
    ||| c == '\u{2029}'
    ||| c == '\u{202F}'
    ||| c == '\u{205F}'
    ||| c == '\u{3000}'
}

/// An ASCII decimal digit.
pub open spec fn is_digit(c: char) -> bool {
    '0' <= c && c <= '9'
}

/// The classes of characters that trimming can strip.
#[derive(Clone, Copy, Debug, PartialEq, Eq)]
pub enum CharClass {
    Whitespace,
    Brackets,
    Digits,
}

/// Membership of a character in a class.
pub open spec fn in_class(c: char, k: CharClass) -> bool {
    match k {
        CharClass::Whitespace => is_ws(c),
        CharClass::Brackets => c == '[' || c == ']',
        CharClass::Digits => is_digit(c),
    }
}

/// Tests `char::is_whitespace`.
pub fn is_whitespace(c: char) -> (b: bool)
    ensures
        b == is_ws(c),
{
    c == '\t' || c == '\n' || c == '\u{0B}' || c == '\u{0C}' || c == '\r' || c == ' '
        || c == '\u{85}' || c == '\u{A0}' || c == '\u{1680}' || ('\u{2000}' <= c && c
        <= '\u{200A}') || c == '\u{2028}' || c == '\u{2029}' || c == '\u{202F}' || c
        == '\u{205F}' || c == '\u{3000}'
}

/// Tests `char::is_ascii_digit`.
pub fn is_ascii_digit(c: char) -> (b: bool)
    ensures
        b == is_digit(c),
{
    '0' <= c && c <= '9'
}

/// Tests membership of `c` in the class `k`.
pub fn class_contains(c: char, k: CharClass) -> (b: bool)
    ensures
        b == in_class(c, k),
{
    match k {
        CharClass::Whitespace => is_whitespace(c),
        CharClass::Brackets => c == '[' || c == ']',
        CharClass::Digits => is_ascii_digit(c),
    }
}

// ---------------------------------------------------------------------------
// Conversions between `str`/`String` and character vectors
// ---------------------------------------------------------------------------

/// The characters of a string slice.
pub fn chars_of(s: &str) -> (r: Vec<char>)
    ensures
        r@ == s@,
{
    let mut r: Vec<char> = Vec::new();
    for c in it: s.chars()
        invariant
            r@ == it.seq().take(it.index() as int),
    {
        r.push(c);
    }
    r
}

/// Builds a `String` from characters (`FromIterator<&char>` for `String`).
#[verifier::external_body]
pub(crate) fn string_of(v: &Vec<char>) -> (r: String)
    ensures
        r@ == v@,
{
    v.iter().collect()
}

/// The characters `v[lo..hi]`.
pub fn slice_of(v: &Vec<char>, lo: usize, hi: usize) -> (r: Vec<char>)
    requires
        lo <= hi <= v@.len(),
    ensures
        r@ == v@.subrange(lo as int, hi as int),
{
    let mut r: Vec<char> = Vec::new();
    let mut i = lo;
    while i < hi
        invariant
            lo <= i <= hi,
            hi <= v@.len(),
            r@ == v@.subrange(lo as int, i as int),
        decreases hi - i,
    {
        r.push(v[i]);
        i += 1;
    }
    r
}

/// A copy of `v`.
pub fn copy(v: &Vec<char>) -> (r: Vec<char>)
    ensures
        r@ == v@,
{
    let r = slice_of(v, 0, v.len());
    assert(v@.subrange(0, v@.len() as int) =~= v@);
    r
}

/// The concatenation `a + b`.
pub fn cat(a: &Vec<char>, b: &Vec<char>) -> (r: Vec<char>)
    ensures
        r@ == a@ + b@,
{
    let mut r = copy(a);
    let mut i: usize = 0;
    while i < b.len()
        invariant
            i <= b@.len(),
            r@ == a@ + b@.subrange(0, i as int),
        decreases b@.len() - i,
    {
        r.push(b[i]);
        i += 1;
    }
    r
}

/// The concatenation of a string literal and characters.
pub fn lit_cat(a: &str, b: &Vec<char>) -> (r: Vec<char>)
    ensures
        r@ == a@ + b@,
{
    cat(&chars_of(a), b)
}

/// Equality of two character sequences.
pub fn eq_chars(a: &Vec<char>, b: &Vec<char>) -> (r: bool)
    ensures
        r == (a@ == b@),
{
    if a.len() != b.len() {
        return false;
    }
    let mut i: usize = 0;
    while i < a.len()
        invariant
            i <= a@.len(),
            a@.len() == b@.len(),
            forall|j: int| 0 <= j < i ==> a@[j] == b@[j],
        decreases a@.len() - i,
    {
        if a[i] != b[i] {
            return false;
        }
        i += 1;
    }
    assert(a@ =~= b@);
    true
}

/// Equality of a character sequence and a string literal.
pub fn eq_lit(a: &Vec<char>, b: &str) -> (r: bool)
    ensures
        r == (a@ == b@),
{
    eq_chars(a, &chars_of(b))
}

// ---------------------------------------------------------------------------
// Prefixes, suffixes, substrings
// ---------------------------------------------------------------------------

/// Tests `str::starts_with` with a string pattern.
pub fn starts_with(s: &Vec<char>, p: &Vec<char>) -> (r: bool)
    ensures
        r == p@.is_prefix_of(s@),
{
    if p.len() > s.len() {
        return false;
    }
    let mut i: usize = 0;
    while i < p.len()
        invariant
            i <= p@.len(),
            p@.len() <= s@.len(),
            forall|j: int| 0 <= j < i ==> p@[j] == s@[j],
        decreases p@.len() - i,
    {
        if p[i] != s[i] {
            return false;
        }
        i += 1;
    }
    assert(p@ =~= s@.subrange(0, p@.len() as int));
    true
}

/// Tests `str::starts_with` with a string literal pattern.
pub fn starts_with_lit(s: &Vec<char>, p: &str) -> (r: bool)
    ensures
        r == p@.is_prefix_of(s@),
{
    starts_with(s, &chars_of(p))
}

/// Whether `p` occurs in `s` at position `i`.
pub open spec fn occurs_at(s: Seq<char>, p: Seq<char>, i: int) -> bool {
    0 <= i && i + p.len() <= s.len() && s.subrange(i, i + p.len()) == p
}

/// Whether `p` occurs anywhere in `s` (`str::contains`).
pub open spec fn contains_seq(s: Seq<char>, p: Seq<char>) -> bool {
    exists|i: int| occurs_at(s, p, i)
}

/// Tests `str::contains` with a string pattern.
pub fn contains(s: &Vec<char>, p: &Vec<char>) -> (r: bool)
    ensures
        r == contains_seq(s@, p@),
{
    if p.len() > s.len() {
        assert forall|i: int| !occurs_at(s@, p@, i) by {}
        return false;
    }
    if p.len() == 0 {
        assert(occurs_at(s@, p@, 0)) by {
            assert(s@.subrange(0, 0) =~= p@);
        }
        return true;
    }
    let last = s.len() - p.len();
    let mut i: usize = 0;
    while i <= last
        invariant
            last == s@.len() - p@.len(),
            s@.len() <= usize::MAX,
            i <= last + 1,
            forall|j: int| 0 <= j < i ==> !occurs_at(s@, p@, j),
        decreases last + 1 - i,
    {
        let mut k: usize = 0;
        let mut same = true;
        while k < p.len()
            invariant
                k <= p@.len(),
                i <= last,
                last == s@.len() - p@.len(),
                s@.len() <= usize::MAX,
                same == (forall|j: int| 0 <= j < k ==> s@[i + j] == p@[j]),
            decreases p@.len() - k,
        {
            if s[i + k] != p[k] {
                same = false;
            }
            k += 1;
        }
        if same {
            assert(s@.subrange(i as int, i + p@.len()) =~= p@);
            assert(occurs_at(s@, p@, i as int));
            return true;
        }
        assert(!occurs_at(s@, p@, i as int)) by {
            if occurs_at(s@, p@, i as int) {
                assert forall|j: int| 0 <= j < p@.len() implies s@[i + j] == p@[j] by {
                    assert(s@.subrange(i as int, i + p@.len())[j] == s@[i + j]);
                }
            }
        }
        i += 1;
    }
    assert forall|j: int| !occurs_at(s@, p@, j) by {
        if occurs_at(s@, p@, j) {
            assert(0 <= j < i);
        }
    }
    false
}

/// Tests `str::contains` with a string literal pattern.
pub fn contains_lit(s: &Vec<char>, p: &str) -> (r: bool)
    ensures
        r == contains_seq(s@, p@),
{
    contains(s, &chars_of(p))
}

/// Tests whether `c` occurs in `s`.
pub fn contains_char(s: &Vec<char>, c: char) -> (r: bool)
    ensures
        r == s@.contains(c),
{
    let mut i: usize = 0;
    while i < s.len()
        invariant
            i <= s@.len(),
            forall|j: int| 0 <= j < i ==> s@[j] != c,
        decreases s@.len() - i,
    {
        if s[i] == c {
            assert(s@[i as int] == c);
            return true;
        }
        i += 1;
    }
    false
}

/// `str::trim_start_matches` with a (non-empty) string pattern: strips the
/// pattern from the front as many times as it occurs there.
pub open spec fn strip_all_prefix(s: Seq<char>, p: Seq<char>) -> Seq<char>
    decreases s.len(),
{
    if p.len() > 0 && p.is_prefix_of(s) {
        strip_all_prefix(s.skip(p.len() as int), p)
    } else {
        s
    }
}

/// Strips the string pattern `p` from the front of `s` as often as it occurs.
pub fn trim_start_matches(s: &Vec<char>, p: &Vec<char>) -> (r: Vec<char>)
    ensures
        r@ == strip_all_prefix(s@, p@),
{
    let n = s.len();
    let mut lo: usize = 0;
    proof {
        assert(s@.subrange(0, n as int) =~= s@);
    }
    while p.len() > 0 && p.len() <= n - lo && starts_with(&slice_of(s, lo, n), p)
        invariant
            lo <= n,
            n == s@.len(),
            strip_all_prefix(s@, p@) == strip_all_prefix(s@.subrange(lo as int, n as int), p@),
        decreases n - lo,
    {
        proof {
            assert(s@.subrange(lo as int, n as int).skip(p@.len() as int) =~= s@.subrange(
                lo + p@.len(),
                n as int,
            ));
        }
        lo = lo + p.len();
    }
    slice_of(s, lo, n)
}

// ---------------------------------------------------------------------------
// Trimming by character class
// ---------------------------------------------------------------------------

/// Drops the characters of class `k` from the front.
pub open spec fn trim_start_of(s: Seq<char>, k: CharClass) -> Seq<char>
    decreases s.len(),
{
    if s.len() > 0 && in_class(s[0], k) {
        trim_start_of(s.drop_first(), k)
    } else {
        s
    }
}

/// Drops the characters of class `k` from the back.
pub open spec fn trim_end_of(s: Seq<char>, k: CharClass) -> Seq<char>
    decreases s.len(),
{
    if s.len() > 0 && in_class(s.last(), k) {
        trim_end_of(s.drop_last(), k)
    } else {
        s
    }
}

/// Drops the characters of class `k` from both ends.
pub open spec fn trim_both_of(s: Seq<char>, k: CharClass) -> Seq<char> {
    trim_end_of(trim_start_of(s, k), k)
}

/// `str::trim`: whitespace dropped from both ends.
pub open spec fn trim_of(s: Seq<char>) -> Seq<char> {
    trim_both_of(s, CharClass::Whitespace)
}

/// Index of the first character not of class `k` from position `lo`.
fn skip_class_forward(s: &Vec<char>, lo: usize, k: CharClass) -> (r: usize)
    requires
        lo <= s@.len(),
    ensures
        lo <= r <= s@.len(),
        trim_start_of(s@.subrange(lo as int, s@.len() as int), k) == s@.subrange(
            r as int,
            s@.len() as int,
        ),
{
    let n = s.len();
    let mut i = lo;
    while i < n && class_contains(s[i], k)
        invariant
            lo <= i <= n,
            n == s@.len(),
            trim_start_of(s@.subrange(lo as int, n as int), k) == trim_start_of(
                s@.subrange(i as int, n as int),
                k,
            ),
        decreases n - i,
    {
        proof {
            assert(s@.subrange(i as int, n as int).drop_first() =~= s@.subrange(
                i + 1,
                n as int,
            ));
        }
        i += 1;
    }
    i
}

/// Index one past the last character not of class `k` in `s[lo..hi]`.
fn skip_class_backward(s: &Vec<char>, lo: usize, hi: usize, k: CharClass) -> (r: usize)
    requires
        lo <= hi <= s@.len(),
    ensures
        lo <= r <= hi,
        trim_end_of(s@.subrange(lo as int, hi as int), k) == s@.subrange(lo as int, r as int),
{
    let mut j = hi;
    while j > lo && class_contains(s[j - 1], k)
        invariant
            lo <= j <= hi,
            hi <= s@.len(),
            trim_end_of(s@.subrange(lo as int, hi as int), k) == trim_end_of(
                s@.subrange(lo as int, j as int),
                k,
            ),
        decreases j - lo,
    {
        proof {
            assert(s@.subrange(lo as int, j as int).drop_last() =~= s@.subrange(
                lo as int,
                j - 1,
            ));
        }
        j -= 1;
    }
    j
}

/// Drops the characters of class `k` from the front (`trim_start_matches`).
pub fn trim_start_by(s: &Vec<char>, k: CharClass) -> (r: Vec<char>)
    ensures
        r@ == trim_start_of(s@, k),
{
    let lo = skip_class_forward(s, 0, k);
    proof {
        assert(s@.subrange(0, s@.len() as int) =~= s@);
    }
    slice_of(s, lo, s.len())
}

/// Drops the characters of class `k` from the back (`trim_end_matches`).
pub fn trim_end_by(s: &Vec<char>, k: CharClass) -> (r: Vec<char>)
    ensures
        r@ == trim_end_of(s@, k),
{
    let hi = skip_class_backward(s, 0, s.len(), k);
    proof {
        assert(s@.subrange(0, s@.len() as int) =~= s@);
    }
    slice_of(s, 0, hi)
}

/// Drops the characters of class `k` from both ends (`trim_matches`).
pub fn trim_by(s: &Vec<char>, k: CharClass) -> (r: Vec<char>)
    ensures
        r@ == trim_both_of(s@, k),
{
    let t = trim_start_by(s, k);
    trim_end_by(&t, k)
}

/// `str::trim`.
pub fn trim(s: &Vec<char>) -> (r: Vec<char>)
    ensures
        r@ == trim_of(s@),
{
    trim_by(s, CharClass::Whitespace)
}

// ---------------------------------------------------------------------------
// Splitting
// ---------------------------------------------------------------------------

/// `s` without one trailing carriage return.
pub open spec fn strip_cr(s: Seq<char>) -> Seq<char> {
    if s.len() > 0 && s.last() == '\r' {
        s.drop_last()
    } else {
        s
    }
}

/// The finished lines and the line in progress after reading `s`.
pub open spec fn lines_acc(s: Seq<char>) -> (Seq<Seq<char>>, Seq<char>)
    decreases s.len(),
{
    if s.len() == 0 {
        (seq![], seq![])
    } else {
        let prev = lines_acc(s.drop_last());
        if s.last() == '\n' {
            (prev.0.push(strip_cr(prev.1)), seq![])
        } else {
            (prev.0, prev.1.push(s.last()))
        }
    }
}

/// `str::lines`: pieces ended by `\n` (an `\r` before it dropped), and the
/// unterminated rest when it is not empty.
pub open spec fn lines_of(s: Seq<char>) -> Seq<Seq<char>> {
    let acc = lines_acc(s);
    if acc.1.len() > 0 {
        acc.0.push(acc.1)
    } else {
        acc.0
    }
}

/// The finished pieces and the piece in progress after reading `s`.
pub open spec fn split_acc(s: Seq<char>, d: char) -> (Seq<Seq<char>>, Seq<char>)
    decreases s.len(),
{
    if s.len() == 0 {
        (seq![], seq![])
    } else {
        let prev = split_acc(s.drop_last(), d);
        if s.last() == d {
            (prev.0.push(prev.1), seq![])
        } else {
            (prev.0, prev.1.push(s.last()))
        }
    }
}

/// `str::split` on a character: all pieces between delimiters, empty ones
/// included.
pub open spec fn split_of(s: Seq<char>, d: char) -> Seq<Seq<char>> {
    let acc = split_acc(s, d);
    acc.0.push(acc.1)
}

/// The finished words and the word in progress after reading `s`.
pub open spec fn words_acc(s: Seq<char>) -> (Seq<Seq<char>>, Seq<char>)
    decreases s.len(),
{
    if s.len() == 0 {
        (seq![], seq![])
    } else {
        let prev = words_acc(s.drop_last());
        if is_ws(s.last()) {
            if prev.1.len() > 0 {
                (prev.0.push(prev.1), seq![])
            } else {
                (prev.0, seq![])
            }
        } else {
            (prev.0, prev.1.push(s.last()))
        }
    }
}

/// `str::split_whitespace`: the maximal runs of non-whitespace characters.
pub open spec fn words_of(s: Seq<char>) -> Seq<Seq<char>> {
    let acc = words_acc(s);
    if acc.1.len() > 0 {
        acc.0.push(acc.1)
    } else {
        acc.0
    }
}

/// The deep view of a vector of character vectors.
pub open spec fn seqs_of(v: Seq<Vec<char>>) -> Seq<Seq<char>> {
    v.map_values(|x: Vec<char>| x@)
}

/// Pushing a vector pushes its characters.
pub proof fn lemma_seqs_push(v: Seq<Vec<char>>, x: Vec<char>)
    ensures
        seqs_of(v.push(x)) == seqs_of(v).push(x@),
{
    assert(seqs_of(v.push(x)) =~= seqs_of(v).push(x@));
}

/// `str::lines`.
pub fn lines(s: &Vec<char>) -> (r: Vec<Vec<char>>)
    ensures
        seqs_of(r@) == lines_of(s@),
{
    let mut done: Vec<Vec<char>> = Vec::new();
    let mut cur: Vec<char> = Vec::new();
    let mut i: usize = 0;
    while i < s.len()
        invariant
            i <= s@.len(),
            (seqs_of(done@), cur@) == lines_acc(s@.take(i as int)),
        decreases s@.len() - i,
    {
        proof {
            assert(s@.take(i + 1).drop_last() =~= s@.take(i as int));
        }
        let c = s[i];
        if c == '\n' {
            if cur.len() > 0 && cur[cur.len() - 1] == '\r' {
                cur.pop();
            }
            proof {
                lemma_seqs_push(done@, cur);
            }
            done.push(cur);
            cur = Vec::new();
        } else {
            cur.push(c);
        }
        i += 1;
    }
    proof {
        assert(s@.take(s@.len() as int) =~= s@);
    }
    if cur.len() > 0 {
        proof {
            lemma_seqs_push(done@, cur);
        }
        done.push(cur);
    }
    done
}

/// `str::split` on the character `d`.
pub fn split(s: &Vec<char>, d: char) -> (r: Vec<Vec<char>>)
    ensures
        seqs_of(r@) == split_of(s@, d),
{
    let mut done: Vec<Vec<char>> = Vec::new();
    let mut cur: Vec<char> = Vec::new();
    let mut i: usize = 0;
    while i < s.len()
        invariant
            i <= s@.len(),
            (seqs_of(done@), cur@) == split_acc(s@.take(i as int), d),
        decreases s@.len() - i,
    {
        proof {
            assert(s@.take(i + 1).drop_last() =~= s@.take(i as int));
        }
        let c = s[i];
        if c == d {
            proof {
                lemma_seqs_push(done@, cur);
            }
            done.push(cur);
            cur = Vec::new();
        } else {
            cur.push(c);
        }
        i += 1;
    }
    proof {
        assert(s@.take(s@.len() as int) =~= s@);
        lemma_seqs_push(done@, cur);
    }
    done.push(cur);
    done
}

/// `str::split_whitespace`.
pub fn words(s: &Vec<char>) -> (r: Vec<Vec<char>>)
    ensures
        seqs_of(r@) == words_of(s@),
{
    let mut done: Vec<Vec<char>> = Vec::new();
    let mut cur: Vec<char> = Vec::new();
    let mut i: usize = 0;
    while i < s.len()
        invariant
            i <= s@.len(),
            (seqs_of(done@), cur@) == words_acc(s@.take(i as int)),
        decreases s@.len() - i,
    {
        proof {
            assert(s@.take(i + 1).drop_last() =~= s@.take(i as int));
        }
        let c = s[i];
        if is_whitespace(c) {
            if cur.len() > 0 {
                proof {
                    lemma_seqs_push(done@, cur);
                }
                done.push(cur);
            }
            cur = Vec::new();
        } else {
            cur.push(c);
        }
        i += 1;
    }
    proof {
        assert(s@.take(s@.len() as int) =~= s@);
    }
    if cur.len() > 0 {
        proof {
            lemma_seqs_push(done@, cur);
        }
        done.push(cur);
    }
    done
}

// ---------------------------------------------------------------------------
// Searching sequences of lines and words
// ---------------------------------------------------------------------------

/// Index of the first sequence in `ls` that starts with `p`.
pub open spec fn first_prefixed(ls: Seq<Seq<char>>, p: Seq<char>) -> Option<int>
    decreases ls.len(),
{
    if ls.len() == 0 {
        None
    } else if p.is_prefix_of(ls[0]) {
        Some(0)
    } else {
        match first_prefixed(ls.drop_first(), p) {
            Some(i) => Some(i + 1),
            None => None,
        }
    }
}

/// `first_prefixed` holds exactly of the first index whose entry starts with `p`.
pub proof fn lemma_first_prefixed(ls: Seq<Seq<char>>, p: Seq<char>)
    ensures
        match first_prefixed(ls, p) {
            Some(i) => 0 <= i < ls.len() && p.is_prefix_of(ls[i]) && forall|j: int|
                0 <= j < i ==> !p.is_prefix_of(#[trigger] ls[j]),
            None => forall|j: int| 0 <= j < ls.len() ==> !p.is_prefix_of(#[trigger] ls[j]),
        },
    decreases ls.len(),
{
    if ls.len() > 0 && !p.is_prefix_of(ls[0]) {
        lemma_first_prefixed(ls.drop_first(), p);
        assert forall|j: int| 1 <= j < ls.len() implies ls[j] == ls.drop_first()[j - 1] by {}
    }
}

/// Finds the first entry of `ls` that starts with `p`.
pub fn find_prefixed(ls: &Vec<Vec<char>>, p: &Vec<char>) -> (r: Option<usize>)
    ensures
        r matches Some(i) ==> i < ls@.len() && first_prefixed(seqs_of(ls@), p@) == Some(i as int),
        r is None ==> first_prefixed(seqs_of(ls@), p@) is None,
{
    proof {
        lemma_first_prefixed(seqs_of(ls@), p@);
    }
    let mut i: usize = 0;
    while i < ls.len()
        invariant
            i <= ls@.len(),
            forall|j: int| 0 <= j < i ==> !p@.is_prefix_of(#[trigger] seqs_of(ls@)[j]),
        decreases ls@.len() - i,
    {
        let ghost ss = seqs_of(ls@);
        assert(ss[i as int] == ls@[i as int]@);
        if starts_with(&ls[i], p) {
            proof {
                lemma_first_prefixed(ss, p@);
                assert(p@.is_prefix_of(ss[i as int]));
                match first_prefixed(ss, p@) {
                    Some(k) => {
                        if k < i {
                            assert(!p@.is_prefix_of(ss[k]));
                        } else if k > i {
                            assert(!p@.is_prefix_of(ss[i as int]));
                        }
                    },
                    None => {
                        assert(!p@.is_prefix_of(ss[i as int]));
                    },
                }
            }
            return Some(i);
        }
        i += 1;
    }
    None
}

/// Index of the first sequence in `ls` in which `p` occurs.
pub open spec fn first_containing(ls: Seq<Seq<char>>, p: Seq<char>) -> Option<int>
    decreases ls.len(),
{
    if ls.len() == 0 {
        None
    } else if contains_seq(ls[0], p) {
        Some(0)
    } else {
        match first_containing(ls.drop_first(), p) {
            Some(i) => Some(i + 1),
            None => None,
        }
    }
}

proof fn lemma_first_containing(ls: Seq<Seq<char>>, p: Seq<char>)
    ensures
        match first_containing(ls, p) {
            Some(i) => 0 <= i < ls.len() && contains_seq(ls[i], p) && forall|j: int|
                0 <= j < i ==> !contains_seq(#[trigger] ls[j], p),
            None => forall|j: int| 0 <= j < ls.len() ==> !contains_seq(#[trigger] ls[j], p),
        },
    decreases ls.len(),
{
    if ls.len() > 0 && !contains_seq(ls[0], p) {
        lemma_first_containing(ls.drop_first(), p);
        assert forall|j: int| 1 <= j < ls.len() implies ls[j] == ls.drop_first()[j - 1] by {}
    }
}

/// Finds the first entry of `ls` in which `p` occurs.
pub fn find_containing(ls: &Vec<Vec<char>>, p: &Vec<char>) -> (r: Option<usize>)
    ensures
        r matches Some(i) ==> i < ls@.len() && first_containing(seqs_of(ls@), p@) == Some(
            i as int,
        ),
        r is None ==> first_containing(seqs_of(ls@), p@) is None,
{
    proof {
        lemma_first_containing(seqs_of(ls@), p@);
    }
    let mut i: usize = 0;
    while i < ls.len()
        invariant
            i <= ls@.len(),
            forall|j: int| 0 <= j < i ==> !contains_seq(#[trigger] seqs_of(ls@)[j], p@),
        decreases ls@.len() - i,
    {
        let ghost ss = seqs_of(ls@);
        assert(ss[i as int] == ls@[i as int]@);
        if contains(&ls[i], p) {
            proof {
                lemma_first_containing(ss, p@);
                assert(contains_seq(ss[i as int], p@));
                match first_containing(ss, p@) {
                    Some(k) => {
                        if k < i {
                            assert(!contains_seq(ss[k], p@));
                        } else if k > i {
                            assert(!contains_seq(ss[i as int], p@));
                        }
                    },
                    None => {
                        assert(!contains_seq(ss[i as int], p@));
                    },
                }
            }
            return Some(i);
        }
        i += 1;
    }
    None
}

/// Number of entries of `ls` that start with `p`.
pub open spec fn count_prefixed(ls: Seq<Seq<char>>, p: Seq<char>) -> nat
    decreases ls.len(),
{
    if ls.len() == 0 {
        0
    } else {
        count_prefixed(ls.drop_last(), p) + if p.is_prefix_of(ls.last()) {
            1nat
        } else {
            0nat
        }
    }
}

/// Counts the entries of `ls` that start with `p`.
pub fn count_starting_with(ls: &Vec<Vec<char>>, p: &Vec<char>) -> (r: usize)
    ensures
        r == count_prefixed(seqs_of(ls@), p@),
{
    let mut n: usize = 0;
    let mut i: usize = 0;
    while i < ls.len()
        invariant
            i <= ls@.len(),
            n <= i,
            n == count_prefixed(seqs_of(ls@).take(i as int), p@),
        decreases ls@.len() - i,
    {
        proof {
            assert(seqs_of(ls@).take(i + 1).drop_last() =~= seqs_of(ls@).take(i as int));
        }
        if starts_with(&ls[i], p) {
            n += 1;
        }
        i += 1;
    }
    proof {
        assert(seqs_of(ls@).take(ls@.len() as int) =~= seqs_of(ls@));
    }
    n
}

// ---------------------------------------------------------------------------
// Decimal numbers
// ---------------------------------------------------------------------------

/// The value of a sequence of decimal digits.
pub open spec fn digits_value(s: Seq<char>) -> nat
    decreases s.len(),
{
    if s.len() == 0 {
        0
    } else {
        digits_value(s.drop_last()) * 10 + ((s.last() as int - '0' as int) as nat)
    }
}

/// The digits of `s` after an optional leading `+`.
pub open spec fn unsigned_digits(s: Seq<char>) -> Seq<char> {
    if s.len() > 0 && s[0] == '+' {
        s.drop_first()
    } else {
        s
    }
}

/// `str::parse` for an unsigned integer, without the bound of the type: an
/// optional `+`, then one or more ASCII digits, nothing else.
pub open spec fn parse_nat_of(s: Seq<char>) -> Option<nat> {
    let d = unsigned_digits(s);
    if d.len() > 0 && forall|i: int| 0 <= i < d.len() ==> is_digit(#[trigger] d[i]) {
        Some(digits_value(d))
    } else {
        None
    }
}

/// `str::parse::<u64>`.
pub open spec fn parse_u64_of(s: Seq<char>) -> Option<u64> {
    match parse_nat_of(s) {
        Some(n) => if n <= u64::MAX {
            Some(n as u64)
        } else {
            None
        },
        None => None,
    }
}

/// `str::parse::<u32>`.
pub open spec fn parse_u32_of(s: Seq<char>) -> Option<u32> {
    match parse_nat_of(s) {
        Some(n) => if n <= u32::MAX {
            Some(n as u32)
        } else {
            None
        },
        None => None,
    }
}

/// `str::parse::<u8>`.
pub open spec fn parse_u8_of(s: Seq<char>) -> Option<u8> {
    match parse_nat_of(s) {
        Some(n) => if n <= u8::MAX {
            Some(n as u8)
        } else {
            None
        },
        None => None,
    }
}

/// `str::parse::<usize>`.
pub open spec fn parse_usize_of(s: Seq<char>) -> Option<usize> {
    match parse_nat_of(s) {
        Some(n) => if n <= usize::MAX {
            Some(n as usize)
        } else {
            None
        },
        None => None,
    }
}

proof fn lemma_digits_value_prefix_le(s: Seq<char>, i: int)
    requires
        0 <= i <= s.len(),
        forall|j: int| 0 <= j < s.len() ==> is_digit(#[trigger] s[j]),
    ensures
        digits_value(s.take(i)) <= digits_value(s),
    decreases s.len() - i,
{
    if i < s.len() {
        lemma_digits_value_prefix_le(s, i + 1);
        assert(s.take(i + 1).drop_last() =~= s.take(i));
    } else {
        assert(s.take(i) =~= s);
    }
}

/// `str::parse::<u64>`.
pub fn parse_u64(s: &Vec<char>) -> (r: Option<u64>)
    ensures
        r == parse_u64_of(s@),
{
    let start: usize = if s.len() > 0 && s[0] == '+' {
        1
    } else {
        0
    };
    let ghost d = unsigned_digits(s@);
    proof {
        assert(d =~= s@.subrange(start as int, s@.len() as int));
    }
    if start >= s.len() {
        return None;
    }
    let mut acc: u64 = 0;
    let mut i = start;
    while i < s.len()
        invariant
            start <= i <= s@.len(),
            d == unsigned_digits(s@),
            d == s@.subrange(start as int, s@.len() as int),
            forall|j: int| start <= j < i ==> is_digit(#[trigger] s@[j]),
            acc == digits_value(d.take(i - start)),
        decreases s@.len() - i,
    {
        let c = s[i];
        assert(d[i - start] == s@[i as int]);
        if !is_ascii_digit(c) {
            assert(!is_digit(d[i - start]));
            assert(parse_nat_of(s@) is None);
            return None;
        }
        let digit: u64 = (c as u8 - 48u8) as u64;
        proof {
            assert(d.take(i + 1 - start).drop_last() =~= d.take(i - start));
            assert(d.take(i + 1 - start).last() == c);
            assert(digit == (c as int - '0' as int));
            assert(digits_value(d.take(i + 1 - start)) == acc * 10 + digit);
        }
        if acc > (u64::MAX - digit) / 10 {
            proof {
                assert(acc * 10 + digit > u64::MAX) by (nonlinear_arith)
                    requires
                        acc > (u64::MAX - digit) / 10,
                        digit <= 9,
                ;
                if forall|j: int| 0 <= j < d.len() ==> is_digit(#[trigger] d[j]) {
                    lemma_digits_value_prefix_le(d, i + 1 - start);
                    assert(parse_nat_of(s@) == Some(digits_value(d)));
                }
                assert(parse_u64_of(s@) is None);
            }
            return None;
        }
        proof {
            assert(acc * 10 + digit <= u64::MAX) by (nonlinear_arith)
                requires
                    acc <= (u64::MAX - digit) / 10,
                    digit <= 9,
            ;
        }
        acc = acc * 10 + digit;
        i += 1;
    }
    proof {
        assert(d.take(d.len() as int) =~= d);
        assert forall|j: int| 0 <= j < d.len() implies is_digit(#[trigger] d[j]) by {
            assert(d[j] == s@[start + j]);
        }
    }
    Some(acc)
}

/// `str::parse::<u32>`.
pub fn parse_u32(s: &Vec<char>) -> (r: Option<u32>)
    ensures
        r == parse_u32_of(s@),
{
    match parse_u64(s) {
        Some(v) => if v <= u32::MAX as u64 {
            Some(v as u32)
        } else {
            None
        },
        None => None,
    }
}

/// `str::parse::<u8>`.
pub fn parse_u8(s: &Vec<char>) -> (r: Option<u8>)
    ensures
        r == parse_u8_of(s@),
{
    match parse_u64(s) {
        Some(v) => if v <= u8::MAX as u64 {
            Some(v as u8)
        } else {
            None
        },
        None => None,
    }
}

/// `str::parse::<usize>`.
pub fn parse_usize(s: &Vec<char>) -> (r: Option<usize>)
    ensures
        r == parse_usize_of(s@),
{
    match parse_u64(s) {
        Some(v) => if v <= usize::MAX as u64 {
            Some(v as usize)
        } else {
            None
        },
        None => None,
    }
}

/// The ASCII digit for a value below ten.
pub open spec fn digit_char(d: nat) -> char {
    ((d + 48) as u8) as char
}

/// The decimal rendering of `n` (as `Display` writes an unsigned integer).
pub open spec fn decimal_of(n: nat) -> Seq<char>
    decreases n,
{
    if n < 10 {
        seq![digit_char(n)]
    } else {
        decimal_of(n / 10).push(digit_char(n % 10))
    }
}

/// Renders `n` in decimal.
pub fn decimal(n: u64) -> (r: Vec<char>)
    ensures
        r@ == decimal_of(n as nat),
{
    let mut out: Vec<char> = Vec::new();
    let mut cur = n;
    loop
        invariant
            decimal_of(n as nat) == decimal_of(cur as nat) + out@,
        decreases cur,
    {
        let c = ((cur % 10) as u8 + 48u8) as char;
        if cur < 10 {
            out.insert(0, c);
            assert(decimal_of(n as nat) =~= out@);
            return out;
        }
        out.insert(0, c);
        proof {
            assert(decimal_of(cur as nat) == decimal_of((cur / 10) as nat).push(
                digit_char((cur % 10) as nat),
            ));
        }
        cur = cur / 10;
    }
}

// ---------------------------------------------------------------------------
// Building text
// ---------------------------------------------------------------------------

/// Appends the characters of `s` to `v`.
pub fn push_str(v: &mut Vec<char>, s: &str)
    ensures
        final(v)@ == old(v)@ + s@,
{
    let mut c = chars_of(s);
    v.append(&mut c);
}

/// Appends the characters `s` to `v`.
pub fn push_chars(v: &mut Vec<char>, s: &Vec<char>)
    ensures
        final(v)@ == old(v)@ + s@,
{
    let mut c = copy(s);
    v.append(&mut c);
}

/// Appends `n` in decimal to `v`.
pub fn push_decimal(v: &mut Vec<char>, n: u64)
    ensures
        final(v)@ == old(v)@ + decimal_of(n as nat),
{
    let mut c = decimal(n);
    v.append(&mut c);
}

/// The parts with `sep` between each two of them (as `join` on a slice of
/// strings).
pub open spec fn join_of(parts: Seq<Seq<char>>, sep: Seq<char>) -> Seq<char>
    decreases parts.len(),
{
    if parts.len() == 0 {
        seq![]
    } else if parts.len() == 1 {
        parts[0]
    } else {
        join_of(parts.drop_last(), sep) + sep + parts.last()
    }
}

/// Joins the parts with `sep` between each two of them.
pub fn join(parts: &Vec<String>, sep: &str) -> (r: Vec<char>)
    ensures
        r@ == join_of(parts.deep_view(), sep@),
{
    let ghost ps = parts.deep_view();
    let mut r: Vec<char> = Vec::new();
    let mut i: usize = 0;
    while i < parts.len()
        invariant
            i <= parts@.len(),
            ps == parts.deep_view(),
            r@ == join_of(ps.take(i as int), sep@),
        decreases parts@.len() - i,
    {
        proof {
            assert(ps.take(i + 1).drop_last() =~= ps.take(i as int));
            assert(ps.take(i + 1).last() == parts@[i as int]@);
        }
        if i > 0 {
            push_str(&mut r, sep);
        }
        push_str(&mut r, parts[i].as_str());
        proof {
            if i == 0 {
                assert(r@ =~= join_of(ps.take(1), sep@));
            }
        }
        i += 1;
    }
    proof {
        assert(ps.take(ps.len() as int) =~= ps);
    }
    r
}

/// `s` padded with spaces to `width` characters, as `{:<width}` does.
pub open spec fn pad_right_of(s: Seq<char>, width: nat) -> Seq<char> {
    if s.len() < width {
        s + Seq::new((width - s.len()) as nat, |i: int| ' ')
    } else {
        s
    }
}

/// `s` padded with spaces to `width` characters.
pub fn pad_right(s: &str, width: usize) -> (r: Vec<char>)
    ensures
        r@ == pad_right_of(s@, width as nat),
{
    let mut v = chars_of(s);
    let n = v.len();
    while v.len() < width
        invariant
            n == s@.len(),
            n <= v@.len(),
            v@ == s@ + Seq::new((v@.len() - n) as nat, |i: int| ' '),
            v@.len() <= width || v@.len() == n,
        decreases width - v@.len(),
    {
        v.push(' ');
        assert(v@ =~= s@ + Seq::new((v@.len() - n) as nat, |i: int| ' '));
    }
    assert(v@ =~= pad_right_of(s@, width as nat));
    v
}

// ---------------------------------------------------------------------------
// UTF-8 lengths
// ---------------------------------------------------------------------------

/// The number of bytes UTF-8 takes for a character.
pub open spec fn utf8_width(c: char) -> nat {
    if (c as u32) < 0x80 {
        1
    } else if (c as u32) < 0x800 {
        2
    } else if (c as u32) < 0x10000 {
        3
    } else {
        4
    }
}

/// The number of bytes UTF-8 takes for some characters (`str::len`).
pub open spec fn utf8_len(s: Seq<char>) -> nat
    decreases s.len(),
{
    if s.len() == 0 {
        0
    } else {
        utf8_width(s[0]) + utf8_len(s.drop_first())
    }
}

/// The longest prefix of `s` that takes at most `n` bytes.
pub open spec fn prefix_within(s: Seq<char>, n: nat) -> Seq<char>
    decreases s.len(),
{
    if s.len() == 0 || utf8_width(s[0]) > n {
        seq![]
    } else {
        seq![s[0]] + prefix_within(s.drop_first(), (n - utf8_width(s[0])) as nat)
    }
}

fn width_of(c: char) -> (r: u64)
    ensures
        r == utf8_width(c),
{
    let u = c as u32;
    if u < 0x80 {
        1
    } else if u < 0x800 {
        2
    } else if u < 0x10000 {
        3
    } else {
        4
    }
}

/// Whether `s` takes more than `n` bytes in UTF-8.
pub fn utf8_len_exceeds(s: &Vec<char>, n: u64) -> (r: bool)
    ensures
        r == (utf8_len(s@) > n),
{
    let mut total: u64 = 0;
    let mut i: usize = 0;
    assert(s@.skip(0) =~= s@);
    while i < s.len()
        invariant
            i <= s@.len(),
            total <= n,
            utf8_len(s@) == total + utf8_len(s@.skip(i as int)),
        decreases s@.len() - i,
    {
        assert(s@.skip(i as int).drop_first() =~= s@.skip(i + 1));
        assert(s@.skip(i as int)[0] == s@[i as int]);
        let w = width_of(s[i]);
        if w > n - total {
            return true;
        }
        total = total + w;
        i += 1;
    }
    assert(s@.skip(i as int).len() == 0);
    false
}

/// The longest prefix of `s` that takes at most `n` bytes, and whether it
/// takes exactly `n` bytes (`n` falls on a character boundary of `s`, or is
/// past its end).
pub fn cut_within(s: &Vec<char>, n: u64) -> (r: (Vec<char>, bool))
    ensures
        r.0@ == prefix_within(s@, n as nat),
        r.1 == (utf8_len(prefix_within(s@, n as nat)) == n),
{
    let mut out: Vec<char> = Vec::new();
    let mut total: u64 = 0;
    let mut i: usize = 0;
    assert(s@.skip(0) =~= s@);
    assert(s@.take(0) =~= Seq::<char>::empty());
    while i < s.len()
        invariant_except_break
            i <= s@.len(),
            total <= n,
            out@ == s@.take(i as int),
            total == utf8_len(s@.take(i as int)),
            prefix_within(s@, n as nat) == s@.take(i as int) + prefix_within(
                s@.skip(i as int),
                (n - total) as nat,
            ),
        ensures
            total <= n,
            out@ == prefix_within(s@, n as nat),
            total == utf8_len(out@),
        decreases s@.len() - i,
    {
        let ghost rest = s@.skip(i as int);
        assert(rest.drop_first() =~= s@.skip(i + 1));
        assert(rest[0] == s@[i as int]);
        let w = width_of(s[i]);
        if w > n - total {
            assert(prefix_within(rest, (n - total) as nat) == Seq::<char>::empty());
            assert(out@ =~= prefix_within(s@, n as nat));
            break;
        }
        proof {
            lemma_utf8_len_push(s@.take(i as int), s@[i as int]);
            assert(s@.take(i + 1) =~= s@.take(i as int).push(s@[i as int]));
            assert(s@.take(i as int) + (seq![rest[0]] + prefix_within(
                rest.drop_first(),
                (n - total - w) as nat,
            )) =~= s@.take(i + 1) + prefix_within(s@.skip(i + 1), (n - total - w) as nat));
        }
        out.push(s[i]);
        total = total + w;
        i += 1;
    }
    proof {
        if i == s@.len() {
            assert(s@.skip(i as int).len() == 0);
            assert(s@.take(i as int) =~= s@);
        }
    }
    let exact = total == n;
    (out, exact)
}

/// Appending a character adds its width.
pub proof fn lemma_utf8_len_push(s: Seq<char>, c: char)
    ensures
        utf8_len(s.push(c)) == utf8_len(s) + utf8_width(c),
    decreases s.len(),
{
    if s.len() > 0 {
        lemma_utf8_len_push(s.drop_first(), c);
        assert(s.push(c).drop_first() =~= s.drop_first().push(c));
        assert(s.push(c)[0] == s[0]);
    } else {
        assert(s.push(c).drop_first() =~= Seq::<char>::empty());
        assert(s.push(c)[0] == c);
        assert(utf8_len(Seq::<char>::empty()) == 0);
    }
}

} // verus!

verus! {

// ---------------------------------------------------------------------------
// Lexicographic order (the order of `String`: UTF-8 bytes compare as code
// points do)
// ---------------------------------------------------------------------------

/// `a < b` in lexicographic order of code points.
pub open spec fn lex_lt(a: Seq<char>, b: Seq<char>) -> bool
    decreases a.len(),
{
    if a.len() == 0 {
        b.len() > 0
    } else if b.len() == 0 {
        false
    } else if a[0] != b[0] {
        a[0] < b[0]
    } else {
        lex_lt(a.drop_first(), b.drop_first())
    }
}

/// No sequence is below itself.
pub proof fn lemma_lex_irreflexive(a: Seq<char>)
    ensures
        !lex_lt(a, a),
    decreases a.len(),
{
    if a.len() > 0 {
        lemma_lex_irreflexive(a.drop_first());
    }
}

/// The order is asymmetric.
pub proof fn lemma_lex_asymmetric(a: Seq<char>, b: Seq<char>)
    ensures
        lex_lt(a, b) ==> !lex_lt(b, a),
    decreases a.len(),
{
    if a.len() > 0 && b.len() > 0 && a[0] == b[0] {
        lemma_lex_asymmetric(a.drop_first(), b.drop_first());
    }
}

/// Two different sequences are ordered one way or the other.
pub proof fn lemma_lex_total(a: Seq<char>, b: Seq<char>)
    ensures
        a != b ==> lex_lt(a, b) || lex_lt(b, a),
    decreases a.len(),
{
    if a.len() > 0 && b.len() > 0 && a[0] == b[0] {
        lemma_lex_total(a.drop_first(), b.drop_first());
        if a.drop_first() == b.drop_first() {
            assert(a =~= b) by {
                assert forall|i: int| 0 <= i < a.len() implies a[i] == b[i] by {
                    if i > 0 {
                        assert(a[i] == a.drop_first()[i - 1]);
                        assert(b[i] == b.drop_first()[i - 1]);
                    }
                }
            }
        }
    } else if a.len() == 0 && b.len() == 0 {
        assert(a =~= b);
    }
}

/// The order is transitive.
pub proof fn lemma_lex_transitive(a: Seq<char>, b: Seq<char>, c: Seq<char>)
    ensures
        lex_lt(a, b) && lex_lt(b, c) ==> lex_lt(a, c),
    decreases a.len(),
{
    if a.len() > 0 && b.len() > 0 && c.len() > 0 && a[0] == b[0] && b[0] == c[0] {
        lemma_lex_transitive(a.drop_first(), b.drop_first(), c.drop_first());
    }
}

/// Compares two character sequences lexicographically.
pub fn lex_less(a: &Vec<char>, b: &Vec<char>) -> (r: bool)
    ensures
        r == lex_lt(a@, b@),
{
    let mut i: usize = 0;
    proof {
        assert(a@.skip(0) =~= a@);
        assert(b@.skip(0) =~= b@);
    }
    while i < a.len() && i < b.len()
        invariant
            i <= a@.len(),
            i <= b@.len(),
            lex_lt(a@, b@) == lex_lt(a@.skip(i as int), b@.skip(i as int)),
        decreases a@.len() - i,
    {
        if a[i] != b[i] {
            return a[i] < b[i];
        }
        proof {
            assert(a@.skip(i as int).drop_first() =~= a@.skip(i + 1));
            assert(b@.skip(i as int).drop_first() =~= b@.skip(i + 1));
        }
        i += 1;
    }
    a.len() - i == 0 && b.len() > i
}

/// Index of the last occurrence of `c` (`str::rfind` on a character).
pub open spec fn last_index_of(s: Seq<char>, c: char) -> Option<int>
    decreases s.len(),
{
    if s.len() == 0 {
        None
    } else if s.last() == c {
        Some(s.len() - 1)
    } else {
        last_index_of(s.drop_last(), c)
    }
}

/// Finds the last occurrence of `c`.
pub fn rfind(s: &Vec<char>, c: char) -> (r: Option<usize>)
    ensures
        match r {
            Some(i) => i < s@.len() && last_index_of(s@, c) == Some(i as int),
            None => last_index_of(s@, c) is None,
        },
{
    let mut j = s.len();
    proof {
        assert(s@.take(j as int) =~= s@);
    }
    while j > 0 && s[j - 1] != c
        invariant
            j <= s@.len(),
            last_index_of(s@, c) == last_index_of(s@.take(j as int), c),
        decreases j,
    {
        proof {
            assert(s@.take(j as int).drop_last() =~= s@.take(j - 1));
        }
        j -= 1;
    }
    if j == 0 {
        None
    } else {
        Some(j - 1)
    }
}

/// Whether every character of `s` is an ASCII digit.
pub open spec fn all_digits(s: Seq<char>) -> bool {
    forall|i: int| 0 <= i < s.len() ==> is_digit(#[trigger] s[i])
}

/// Tests whether every character of `s` is an ASCII digit.
pub fn all_ascii_digits(s: &Vec<char>) -> (r: bool)
    ensures
        r == all_digits(s@),
{
    let mut i: usize = 0;
    while i < s.len()
        invariant
            i <= s@.len(),
            forall|j: int| 0 <= j < i ==> is_digit(#[trigger] s@[j]),
        decreases s@.len() - i,
    {
        if !is_ascii_digit(s[i]) {
            return false;
        }
        i += 1;
    }
    true
}

} // verus!
