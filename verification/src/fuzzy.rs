//! Fuzzy matching of search terms against stored commands.

use crate::text::{lemma_tokens_bounds, split_whitespace, views, ws_tokens};
use vstd::prelude::*;

verus! {

/// The smaller of two integers.
pub open spec fn min2(a: int, b: int) -> int {
    if a <= b {
        a
    } else {
        b
    }
}

/// The edit (Levenshtein) distance between two character sequences: the
/// fewest insertions, deletions and substitutions that turn one into the other.
pub open spec fn lev(a: Seq<char>, b: Seq<char>) -> int
    decreases a.len() + b.len(),
{
    if a.len() == 0 {
        b.len() as int
    } else if b.len() == 0 {
        a.len() as int
    } else {
        min2(
            min2(lev(a.drop_last(), b) + 1, lev(a, b.drop_last()) + 1),
            lev(a.drop_last(), b.drop_last()) + if a.last() == b.last() {
                0int
            } else {
                1int
            },
        )
    }
}

/// The edit distance never exceeds the longer length.
pub proof fn lemma_lev_bounds(a: Seq<char>, b: Seq<char>)
    ensures
        0 <= lev(a, b),
        lev(a, b) <= if a.len() >= b.len() {
            a.len() as int
        } else {
            b.len() as int
        },
    decreases a.len() + b.len(),
{
    if a.len() > 0 && b.len() > 0 {
        lemma_lev_bounds(a.drop_last(), b);
        lemma_lev_bounds(a, b.drop_last());
        lemma_lev_bounds(a.drop_last(), b.drop_last());
    }
}

/// The edit distance between two character sequences.
pub fn edit_distance(left: &[char], right: &[char]) -> (res: usize)
    requires
        right@.len() + 1 < usize::MAX,
        left@.len() + 1 < usize::MAX,
    ensures
        res == lev(left@, right@),
{
    let n = right.len();
    let mut previous: Vec<usize> = Vec::new();
    let mut j: usize = 0;
    while j <= n
        invariant
            j <= n + 1,
            n == right@.len(),
            n + 1 < usize::MAX,
            previous@.len() == j,
            forall|k: int| 0 <= k < j ==> #[trigger] previous@[k] == k,
        decreases n + 1 - j,
    {
        previous.push(j);
        j += 1;
    }
    assert forall|k: int| 0 <= k <= n implies #[trigger] previous@[k] == lev(
        left@.take(0),
        right@.take(k),
    ) by {}
    let mut i: usize = 0;
    while i < left.len()
        invariant
            i <= left@.len(),
            left@.len() + 1 < usize::MAX,
            n == right@.len(),
            n + 1 < usize::MAX,
            previous@.len() == n + 1,
            forall|k: int|
                0 <= k <= n ==> #[trigger] previous@[k] == lev(
                    left@.take(i as int),
                    right@.take(k),
                ),
        decreases left@.len() - i,
    {
        let lc = left[i];
        let ghost a = left@.take(i + 1);
        assert(a.drop_last() =~= left@.take(i as int));
        assert(a.last() == lc);
        let mut current: Vec<usize> = Vec::new();
        current.push(i + 1);
        assert(right@.take(0).len() == 0);
        assert(current@[0] == lev(a, right@.take(0)));
        let mut k: usize = 0;
        while k < n
            invariant
                k <= n,
                n == right@.len(),
                n + 1 < usize::MAX,
                i < left@.len(),
                left@.len() + 1 < usize::MAX,
                a == left@.take(i + 1),
                a.drop_last() == left@.take(i as int),
                a.last() == lc,
                a.len() == i + 1,
                previous@.len() == n + 1,
                forall|m: int|
                    0 <= m <= n ==> #[trigger] previous@[m] == lev(
                        left@.take(i as int),
                        right@.take(m),
                    ),
                current@.len() == k + 1,
                forall|m: int| 0 <= m <= k ==> #[trigger] current@[m] == lev(a, right@.take(m)),
            decreases n - k,
        {
            let rc = right[k];
            let ghost b = right@.take(k + 1);
            assert(b.drop_last() =~= right@.take(k as int));
            assert(b.last() == rc);
            proof {
                lemma_lev_bounds(left@.take(i as int), b);
                lemma_lev_bounds(a, right@.take(k as int));
                lemma_lev_bounds(left@.take(i as int), right@.take(k as int));
            }
            let up = previous[k + 1] + 1;
            let lft = current[k] + 1;
            let diag = previous[k] + if lc != rc {
                1usize
            } else {
                0usize
            };
            let mut best = up;
            if lft < best {
                best = lft;
            }
            if diag < best {
                best = diag;
            }
            current.push(best);
            k += 1;
        }
        previous = current;
        i += 1;
    }
    assert(left@.take(left@.len() as int) =~= left@);
    assert(right@.take(n as int) =~= right@);
    previous[n]
}


/// How many bytes the UTF-8 encoding of a character takes.
pub open spec fn utf8_width(c: char) -> nat {
    let u = c as u32;
    if u < 0x80 {
        1
    } else if u < 0x800 {
        2
    } else if u < 0x10000 {
        3
    } else {
        4
    }
}

/// How many bytes the UTF-8 encoding of a character sequence takes.
pub open spec fn byte_len(s: Seq<char>) -> nat
    decreases s.len(),
{
    if s.len() == 0 {
        0
    } else {
        byte_len(s.drop_last()) + utf8_width(s.last())
    }
}

proof fn lemma_byte_len_bounds(s: Seq<char>)
    ensures
        s.len() <= byte_len(s) <= 4 * s.len(),
    decreases s.len(),
{
    if s.len() > 0 {
        lemma_byte_len_bounds(s.drop_last());
    }
}

proof fn lemma_byte_len_prefix(s: Seq<char>, i: int)
    requires
        0 <= i <= s.len(),
    ensures
        byte_len(s.take(i)) <= byte_len(s),
    decreases s.len() - i,
{
    if i < s.len() {
        lemma_byte_len_prefix(s, i + 1);
        assert(s.take(i + 1).drop_last() =~= s.take(i));
    } else {
        assert(s.take(i) =~= s);
    }
}

/// The number of bytes in the UTF-8 encoding of the first `n` characters.
fn utf8_len(s: &[char], n: usize) -> (res: usize)
    requires
        4 * s@.len() <= usize::MAX,
        n <= s@.len(),
    ensures
        res == byte_len(s@.take(n as int)),
{
    let mut total: usize = 0;
    let mut i: usize = 0;
    while i < n
        invariant
            i <= n <= s@.len(),
            4 * s@.len() <= usize::MAX,
            total == byte_len(s@.take(i as int)),
        decreases n - i,
    {
        proof {
            lemma_byte_len_bounds(s@.take(i as int));
            assert(s@.take(i + 1).drop_last() =~= s@.take(i as int));
        }
        let u = s[i] as u32;
        let w: usize = if u < 0x80 {
            1
        } else if u < 0x800 {
            2
        } else if u < 0x10000 {
            3
        } else {
            4
        };
        total = total + w;
        i += 1;
    }
    total
}

/// Whether `t` occurs in `w` starting at position `p`.
pub open spec fn occurs_at(w: Seq<char>, t: Seq<char>, p: int) -> bool {
    0 <= p && p + t.len() <= w.len() && w.subrange(p, p + t.len()) == t
}

/// The first position at or after `from` where `t` occurs in `w`.
pub open spec fn find_from(w: Seq<char>, t: Seq<char>, from: int) -> Option<int>
    decreases w.len() + 1 - from,
{
    if from < 0 || from + t.len() > w.len() {
        None
    } else if occurs_at(w, t, from) {
        Some(from)
    } else {
        find_from(w, t, from + 1)
    }
}

proof fn lemma_find_from_sound(w: Seq<char>, t: Seq<char>, from: int)
    ensures
        find_from(w, t, from) matches Some(p) ==> occurs_at(w, t, p) && from <= p,
    decreases w.len() + 1 - from,
{
    if !(from < 0 || from + t.len() > w.len()) && !occurs_at(w, t, from) {
        lemma_find_from_sound(w, t, from + 1);
    }
}

/// The first position at or after `from` where `w` holds the character `c`.
pub open spec fn next_match(w: Seq<char>, c: char, from: int) -> Option<int>
    decreases w.len() - from,
{
    if from < 0 || from >= w.len() {
        None
    } else if w[from] == c {
        Some(from)
    } else {
        next_match(w, c, from + 1)
    }
}

/// The positions at which the characters of `t` are found in `w`, each
/// searched for after the previous one; none when one is missing.
pub open spec fn greedy(t: Seq<char>, w: Seq<char>) -> Option<Seq<int>>
    decreases t.len(),
{
    if t.len() == 0 {
        Some(seq![])
    } else {
        match greedy(t.drop_last(), w) {
            None => None,
            Some(ps) => {
                let from = if ps.len() == 0 {
                    0
                } else {
                    ps.last() + 1
                };
                match next_match(w, t.last(), from) {
                    None => None,
                    Some(p) => Some(ps.push(p)),
                }
            },
        }
    }
}

/// `a - b`, or zero when that would be negative.
pub open spec fn sat_sub(a: int, b: int) -> int {
    if a >= b {
        a - b
    } else {
        0
    }
}

/// The score of `t` as a scattered subsequence of `w`: 50, plus ten per
/// character before the first match, plus the gaps inside the match, plus the
/// characters after it.
pub open spec fn subseq_score(t: Seq<char>, w: Seq<char>) -> Option<int> {
    match greedy(t, w) {
        Some(ps) => if ps.len() > 0 {
            Some(
                50 + ps[0] * 10 + sat_sub(ps.last() - ps[0] + 1, t.len() as int) + sat_sub(
                    w.len() as int,
                    ps.last() + 1,
                ),
            )
        } else {
            None
        },
        None => None,
    }
}

/// The greatest number of edits that still counts as a typo of `t`.
pub open spec fn typo_allowance(t: Seq<char>) -> int {
    if t.len() / 3 >= 1 {
        (t.len() / 3) as int
    } else {
        1
    }
}

/// How well the search term `t` matches the word `w` (lower is better): a
/// substring match scores by its byte offset and the bytes left over; a term
/// of one character matches only as a substring; otherwise a scattered
/// subsequence match, and failing that a near miss within the typo allowance.
pub open spec fn term_score(t: Seq<char>, w: Seq<char>) -> Option<int> {
    match find_from(w, t, 0) {
        Some(p) => Some(byte_len(w.take(p)) * 10 + sat_sub(byte_len(w) as int, byte_len(t) as int)),
        None => if t.len() < 2 {
            None
        } else {
            match subseq_score(t, w) {
                Some(s) => Some(s),
                None => if lev(t, w) <= typo_allowance(t) {
                    Some(100 + lev(t, w) * 10)
                } else {
                    None
                },
            }
        },
    }
}

/// The first position at which `t` occurs in `w`.
fn find_chars(w: &[char], t: &[char]) -> (res: Option<usize>)
    ensures
        res matches Some(p) ==> find_from(w@, t@, 0) == Some(p as int),
        res is None ==> find_from(w@, t@, 0) is None,
{
    if t.len() > w.len() {
        return None;
    }
    if t.len() == 0 {
        assert(w@.subrange(0, 0) =~= t@);
        return Some(0);
    }
    let wl = w.len();
    let mut p: usize = 0;
    let last_start = w.len() - t.len();
    while p <= last_start
        invariant
            t@.len() <= w@.len(),
            last_start == w@.len() - t@.len(),
            wl == w@.len(),
            t@.len() > 0,
            p <= last_start + 1,
            find_from(w@, t@, 0) == find_from(w@, t@, p as int),
        decreases last_start + 1 - p,
    {
        let mut k: usize = 0;
        let mut same = true;
        while k < t.len()
            invariant
                k <= t@.len(),
                p <= last_start,
                last_start == w@.len() - t@.len(),
                wl == w@.len(),
                t@.len() <= w@.len(),
                same == (forall|m: int| 0 <= m < k ==> w@[p + m] == t@[m]),
            decreases t@.len() - k,
        {
            if w[p + k] != t[k] {
                same = false;
            }
            k += 1;
        }
        if same {
            assert(w@.subrange(p as int, p + t@.len()) =~= t@);
            return Some(p);
        }
        assert(!occurs_at(w@, t@, p as int)) by {
            if occurs_at(w@, t@, p as int) {
                assert forall|m: int| 0 <= m < t@.len() implies w@[p + m] == t@[m] by {
                    assert(w@.subrange(p as int, p + t@.len())[m] == t@[m]);
                }
            }
        }
        p += 1;
    }
    None
}

/// The subsequence score of `t` in `w`.
fn subsequence_score(t: &[char], w: &[char]) -> (res: Option<usize>)
    requires
        w@.len() * 11 + 100 < usize::MAX,
    ensures
        res matches Some(s) ==> subseq_score(t@, w@) == Some(s as int) && s <= 50 + 10 * w@.len(),
        res is None ==> subseq_score(t@, w@) is None,
{
    let mut from: usize = 0;
    let mut first: usize = 0;
    let mut last: usize = 0;
    let ghost mut ps: Seq<int> = seq![];
    let mut k: usize = 0;
    while k < t.len()
        invariant
            k <= t@.len(),
            greedy(t@.take(k as int), w@) == Some(ps),
            ps.len() == k,
            k > 0 ==> ps[0] == first && ps.last() == last && from == last + 1,
            k == 0 ==> from == 0,
            from <= w@.len(),
            forall|m: int| 0 <= m < ps.len() ==> 0 <= #[trigger] ps[m] < w@.len(),
            forall|m: int| 0 <= m < ps.len() ==> ps[0] <= #[trigger] ps[m] <= ps.last(),
        decreases t@.len() - k,
    {
        let c = t[k];
        assert(t@.take(k + 1).drop_last() =~= t@.take(k as int));
        let mut q: usize = from;
        while q < w.len() && w[q] != c
            invariant
                from <= q <= w@.len(),
                next_match(w@, c, from as int) == next_match(w@, c, q as int),
            decreases w@.len() - q,
        {
            q += 1;
        }
        if q >= w.len() {
            assert(greedy(t@.take(k + 1), w@) is None);
            assert(greedy(t@, w@) is None) by {
                lemma_greedy_none_extends(t@, w@, k + 1);
            }
            return None;
        }
        if k == 0 {
            first = q;
        }
        last = q;
        proof {
            ps = ps.push(q as int);
        }
        from = q + 1;
        k += 1;
    }
    assert(t@.take(t@.len() as int) =~= t@);
    if k == 0 {
        return None;
    }
    let span = last - first + 1;
    let gap = if span >= t.len() {
        span - t.len()
    } else {
        0
    };
    let tail = w.len() - (last + 1);
    Some(50 + first * 10 + gap + tail)
}

proof fn lemma_greedy_none_extends(t: Seq<char>, w: Seq<char>, k: int)
    requires
        0 <= k <= t.len(),
        greedy(t.take(k), w) is None,
    ensures
        greedy(t, w) is None,
    decreases t.len() - k,
{
    if k < t.len() {
        assert(t.take(k + 1).drop_last() =~= t.take(k));
        lemma_greedy_none_extends(t, w, k + 1);
    } else {
        assert(t.take(k) =~= t);
    }
}


/// How well a search term matches a word (lower is better).
pub fn fuzzy_term_score(t: &[char], w: &[char]) -> (res: Option<usize>)
    requires
        50 * (t@.len() + w@.len() + 1) <= usize::MAX,
    ensures
        res matches Some(s) ==> term_score(t@, w@) == Some(s as int) && s <= 50 * (t@.len()
            + w@.len() + 1),
        res is None ==> term_score(t@, w@) is None,
{
    if let Some(p) = find_chars(w, t) {
        proof {
            lemma_find_from_sound(w@, t@, 0);
            lemma_byte_len_bounds(w@);
            lemma_byte_len_bounds(t@);
            lemma_byte_len_prefix(w@, p as int);
        }
        let before = utf8_len(w, p);
        let whole = utf8_len(w, w.len());
        let term = utf8_len(t, t.len());
        assert(w@.take(w@.len() as int) =~= w@);
        assert(t@.take(t@.len() as int) =~= t@);
        let rest = if whole >= term {
            whole - term
        } else {
            0
        };
        return Some(before * 10 + rest);
    }
    if t.len() < 2 {
        return None;
    }
    if let Some(score) = subsequence_score(t, w) {
        return Some(score);
    }
    let distance = edit_distance(t, w);
    proof {
        lemma_lev_bounds(t@, w@);
    }
    let third = t.len() / 3;
    let allowance = if third >= 1 {
        third
    } else {
        1
    };
    if distance <= allowance {
        Some(100 + distance * 10)
    } else {
        None
    }
}


/// The smaller of two optional scores, where a missing score loses.
pub open spec fn opt_min(a: Option<int>, b: Option<int>) -> Option<int> {
    match (a, b) {
        (None, x) => x,
        (x, None) => x,
        (Some(x), Some(y)) => Some(min2(x, y)),
    }
}

/// The best score of term `t` over the words of a candidate, where each word
/// costs 25 per word before it.
pub open spec fn best_word_score(t: Seq<char>, words: Seq<Seq<char>>) -> Option<int>
    decreases words.len(),
{
    if words.len() == 0 {
        None
    } else {
        opt_min(
            best_word_score(t, words.drop_last()),
            match term_score(t, words.last()) {
                Some(s) => Some(s + (words.len() - 1) * 25),
                None => None,
            },
        )
    }
}

/// The sum of the best scores of all terms; none when some term matches no
/// word.
pub open spec fn terms_score(terms: Seq<Seq<char>>, words: Seq<Seq<char>>) -> Option<int>
    decreases terms.len(),
{
    if terms.len() == 0 {
        Some(0)
    } else {
        match (terms_score(terms.drop_last(), words), best_word_score(terms.last(), words)) {
            (Some(a), Some(b)) => Some(a + b),
            _ => None,
        }
    }
}

/// How well a (normalized) query matches a (normalized) candidate text.
pub open spec fn fuzzy_score_of(query: Seq<char>, candidate: Seq<char>) -> Option<int> {
    terms_score(ws_tokens(query), ws_tokens(candidate))
}

/// The sum of a sequence of integers.
pub open spec fn int_sum(xs: Seq<int>) -> int
    decreases xs.len(),
{
    if xs.len() == 0 {
        0
    } else {
        int_sum(xs.drop_last()) + xs.last()
    }
}

/// A term's best score over the words of a candidate is the least, over the
/// words it matches, of its score against that word plus 25 per word before
/// it; there is none exactly when it matches no word.
pub proof fn lemma_best_word_score_is_least(t: Seq<char>, words: Seq<Seq<char>>)
    ensures
        best_word_score(t, words) is None <==> forall|j: int|
            0 <= j < words.len() ==> #[trigger] term_score(t, words[j]) is None,
        best_word_score(t, words) matches Some(b) ==> (exists|j: int|
            0 <= j < words.len() && #[trigger] term_score(t, words[j]) == Some(b - 25 * j)),
        best_word_score(t, words) matches Some(b) ==> (forall|j: int|
            0 <= j < words.len() && #[trigger] term_score(t, words[j]) is Some ==> b
                <= term_score(t, words[j])->0 + 25 * j),
    decreases words.len(),
{
    if words.len() > 0 {
        let init = words.drop_last();
        lemma_best_word_score_is_least(t, init);
        let n = words.len() - 1;
        assert(words[n] == words.last());
        assert forall|j: int| 0 <= j < init.len() implies #[trigger] words[j] == init[j] by {}
        let prev = best_word_score(t, init);
        let here = term_score(t, words[n]);
        if let Some(b) = best_word_score(t, words) {
            match (prev, here) {
                (Some(p), Some(x)) => {
                    let j0 = choose|j: int| 0 <= j < init.len() && #[trigger] term_score(t, init[j]) == Some(p - 25 * j);
                    if p <= x + n * 25 {
                        assert(words[j0] == init[j0]);
                    }
                },
                (Some(p), None) => {
                    let j0 = choose|j: int| 0 <= j < init.len() && #[trigger] term_score(t, init[j]) == Some(p - 25 * j);
                    assert(words[j0] == init[j0]);
                },
                _ => {},
            }
            assert forall|j: int|
                0 <= j < words.len() && #[trigger] term_score(t, words[j]) is Some implies b
                    <= term_score(t, words[j])->0 + 25 * j by {
                if j < n {
                    assert(words[j] == init[j]);
                }
            }
        }
        if best_word_score(t, words) is None {
            assert forall|j: int| 0 <= j < words.len() implies #[trigger] term_score(t, words[j])
                is None by {
                if j < n {
                    assert(words[j] == init[j]);
                }
            }
        }
        if forall|j: int| 0 <= j < words.len() ==> #[trigger] term_score(t, words[j]) is None {
            assert forall|j: int| 0 <= j < init.len() implies #[trigger] term_score(t, init[j])
                is None by {
                assert(words[j] == init[j]);
                assert(term_score(t, words[j]) is None);
            }
        }
    }
}

/// The best scores of each term, in order (0 for a term that matches no
/// word).
pub open spec fn term_bests(terms: Seq<Seq<char>>, words: Seq<Seq<char>>) -> Seq<int> {
    terms.map_values(
        |t: Seq<char>|
            match best_word_score(t, words) {
                Some(b) => b,
                None => 0,
            },
    )
}

/// Scoring several terms: there is a score exactly when every term has a best
/// word score, and then it is the sum of those scores.
proof fn lemma_terms_score_sum(terms: Seq<Seq<char>>, words: Seq<Seq<char>>)
    ensures
        terms_score(terms, words) is Some <==> forall|k: int|
            0 <= k < terms.len() ==> #[trigger] best_word_score(terms[k], words) is Some,
        terms_score(terms, words) matches Some(s) ==> s == int_sum(term_bests(terms, words)),
    decreases terms.len(),
{
    if terms.len() > 0 {
        let init = terms.drop_last();
        lemma_terms_score_sum(init, words);
        let n = terms.len() - 1;
        assert(terms[n] == terms.last());
        assert forall|k: int| 0 <= k < init.len() implies #[trigger] terms[k] == init[k] by {}
        assert(term_bests(terms, words).drop_last() =~= term_bests(init, words));
        if forall|k: int| 0 <= k < terms.len() ==> #[trigger] best_word_score(terms[k], words) is Some {
            assert forall|k: int| 0 <= k < init.len() implies #[trigger] best_word_score(
                init[k],
                words,
            ) is Some by {
                assert(terms[k] == init[k]);
                assert(best_word_score(terms[k], words) is Some);
            }
        }
        if terms_score(terms, words) is None {
            if terms_score(init, words) is None {
                let k = choose|k: int| 0 <= k < init.len() && !(#[trigger] best_word_score(init[k], words) is Some);
                assert(terms[k] == init[k]);
                assert(!(best_word_score(terms[k], words) is Some));
            } else {
                assert(!(best_word_score(terms[n], words) is Some));
            }
        }
    }
}

/// Whether the term `t` matches at least one of the words.
pub open spec fn matches_some_word(t: Seq<char>, words: Seq<Seq<char>>) -> bool {
    exists|j: int| 0 <= j < words.len() && #[trigger] term_score(t, words[j]) is Some
}

/// A term has a best word score exactly when it matches some word.
proof fn lemma_best_exists_iff_matches(t: Seq<char>, words: Seq<Seq<char>>)
    ensures
        best_word_score(t, words) is Some <==> matches_some_word(t, words),
{
    lemma_best_word_score_is_least(t, words);
    if best_word_score(t, words) is Some {
        let b = best_word_score(t, words)->0;
        let j0 = choose|j: int|
            0 <= j < words.len() && #[trigger] term_score(t, words[j]) == Some(b - 25 * j);
        assert(term_score(t, words[j0]) is Some);
    }
}

/// Scoring terms against words: there is a score exactly when every term
/// matches some word.
proof fn lemma_terms_score_every_term(terms: Seq<Seq<char>>, words: Seq<Seq<char>>)
    ensures
        terms_score(terms, words) is Some <==> forall|k: int|
            0 <= k < terms.len() ==> #[trigger] matches_some_word(terms[k], words),
{
    lemma_terms_score_sum(terms, words);
    assert forall|k: int| 0 <= k < terms.len() implies (#[trigger] best_word_score(
        terms[k],
        words,
    ) is Some <==> matches_some_word(terms[k], words)) by {
        lemma_best_exists_iff_matches(terms[k], words);
    }
    assert forall|k: int| 0 <= k < terms.len() implies (best_word_score(terms[k], words) is Some
        <==> #[trigger] matches_some_word(terms[k], words)) by {
        lemma_best_exists_iff_matches(terms[k], words);
    }
}

/// A candidate is a fuzzy match for a query exactly when every white-space
/// separated term of the query matches some word of the candidate; its score
/// is then the sum, over all terms, of each term's best score, which is the
/// least of its score against a word plus 25 per word before that word
/// (see [`lemma_best_word_score_is_least`]).
pub proof fn lemma_fuzzy_score_every_term(query: Seq<char>, candidate: Seq<char>)
    ensures
        fuzzy_score_of(query, candidate) is Some <==> forall|k: int|
            0 <= k < ws_tokens(query).len() ==> #[trigger] matches_some_word(
                ws_tokens(query)[k],
                ws_tokens(candidate),
            ),
        fuzzy_score_of(query, candidate) matches Some(s) ==> s == int_sum(
            term_bests(ws_tokens(query), ws_tokens(candidate)),
        ),
{
    lemma_terms_score_sum(ws_tokens(query), ws_tokens(candidate));
    lemma_terms_score_every_term(ws_tokens(query), ws_tokens(candidate));
}

/// Whether scoring a query of `q` characters against a candidate of `c`
/// characters stays within the machine's word size.
pub open spec fn fuzzy_fits(q: nat, c: nat) -> bool {
    100 * (q + 1) * (q + c + 1) <= usize::MAX
}

/// The best score of a term over the words of a candidate.
fn best_word(t: &Vec<char>, words: &Vec<Vec<char>>, q: Ghost<nat>, c: Ghost<nat>) -> (res: Option<
    usize,
>)
    requires
        t@.len() <= q@,
        words@.len() <= c@,
        forall|i: int| 0 <= i < words@.len() ==> #[trigger] words@[i]@.len() <= c@,
        fuzzy_fits(q@, c@),
    ensures
        res matches Some(s) ==> best_word_score(t@, views(words@)) == Some(s as int) && s <= 75 * (
        q@ + c@ + 1),
        res is None ==> best_word_score(t@, views(words@)) is None,
{
    let ghost cap: int = (75 * (q@ + c@ + 1)) as int;
    assert(cap <= usize::MAX) by (nonlinear_arith)
        requires
            cap == 75 * (q@ + c@ + 1),
            100 * (q@ + 1) * (q@ + c@ + 1) <= usize::MAX,
    ;
    let mut best: Option<usize> = None;
    let mut j: usize = 0;
    while j < words.len()
        invariant
            j <= words@.len(),
            t@.len() <= q@,
            words@.len() <= c@,
            forall|i: int| 0 <= i < words@.len() ==> #[trigger] words@[i]@.len() <= c@,
            cap == 75 * (q@ + c@ + 1),
            cap <= usize::MAX,
            best matches Some(b) ==> best_word_score(t@, views(words@).take(j as int)) == Some(
                b as int,
            ) && b <= cap,
            best is None ==> best_word_score(t@, views(words@).take(j as int)) is None,
        decreases words@.len() - j,
    {
        let w = &words[j];
        assert(views(words@).take(j + 1).drop_last() =~= views(words@).take(j as int));
        assert(views(words@).take(j + 1).last() == w@);
        assert(50 * (t@.len() + w@.len() + 1) <= 50 * (q@ + c@ + 1));
        let here = fuzzy_term_score(t.as_slice(), w.as_slice());
        if let Some(score) = here {
            assert(score + j * 25 <= cap);
            let total = score + j * 25;
            best = match best {
                Some(b) => if total < b {
                    Some(total)
                } else {
                    Some(b)
                },
                None => Some(total),
            };
        }
        j += 1;
    }
    assert(views(words@).take(words@.len() as int) =~= views(words@));
    best
}

/// How well a normalized query matches a normalized candidate (lower is
/// better); none when some query term matches no word of the candidate.
pub fn fuzzy_score(query: &[char], candidate: &[char]) -> (res: Option<usize>)
    requires
        fuzzy_fits(query@.len(), candidate@.len()),
    ensures
        res matches Some(s) ==> fuzzy_score_of(query@, candidate@) == Some(s as int),
        res is None ==> fuzzy_score_of(query@, candidate@) is None,
{
    let terms = split_whitespace(query);
    let words = split_whitespace(candidate);
    let ghost q = query@.len();
    let ghost c = candidate@.len();
    proof {
        lemma_tokens_bounds(query@);
        lemma_tokens_bounds(candidate@);
        assert forall|i: int| 0 <= i < terms@.len() implies #[trigger] terms@[i]@.len() <= q by {
            assert(views(terms@)[i] == terms@[i]@);
        }
        assert forall|i: int| 0 <= i < words@.len() implies #[trigger] words@[i]@.len() <= c by {
            assert(views(words@)[i] == words@[i]@);
        }
    }
    let ghost cap: int = (75 * (q + c + 1)) as int;
    let mut total: usize = 0;
    let mut k: usize = 0;
    while k < terms.len()
        invariant
            k <= terms@.len(),
            terms@.len() <= q,
            words@.len() <= c,
            views(terms@) == ws_tokens(query@),
            views(words@) == ws_tokens(candidate@),
            forall|i: int| 0 <= i < terms@.len() ==> #[trigger] terms@[i]@.len() <= q,
            forall|i: int| 0 <= i < words@.len() ==> #[trigger] words@[i]@.len() <= c,
            fuzzy_fits(q, c),
            cap == 75 * (q + c + 1),
            total <= k * cap,
            terms_score(views(terms@).take(k as int), views(words@)) == Some(total as int),
        decreases terms@.len() - k,
    {
        assert(views(terms@)[k as int] == terms@[k as int]@);
        let best = best_word(&terms[k], &words, Ghost(q), Ghost(c));
        assert(views(terms@).take(k + 1).drop_last() =~= views(terms@).take(k as int));
        match best {
            None => {
                proof {
                    lemma_terms_none_extends(views(terms@), views(words@), k + 1);
                }
                assert(views(terms@).take(terms@.len() as int) =~= views(terms@));
                return None;
            },
            Some(b) => {
                assert(total + b <= (k + 1) * cap) by (nonlinear_arith)
                    requires
                        total <= k * cap,
                        b <= cap,
                ;
                assert((k + 1) * cap <= usize::MAX) by (nonlinear_arith)
                    requires
                        k + 1 <= q,
                        cap == 75 * (q + c + 1),
                        100 * (q + 1) * (q + c + 1) <= usize::MAX,
                        c >= 0,
                ;
                total = total + b;
            },
        }
        k += 1;
    }
    assert(views(terms@).take(terms@.len() as int) =~= views(terms@));
    Some(total)
}

proof fn lemma_terms_none_extends(terms: Seq<Seq<char>>, words: Seq<Seq<char>>, k: int)
    requires
        0 < k <= terms.len(),
        best_word_score(terms[k - 1], words) is None,
    ensures
        terms_score(terms, words) is None,
    decreases terms.len() - k,
{
    if k < terms.len() {
        lemma_terms_none_extends_take(terms, words, k);
        assert(terms.take(k + 1).drop_last() =~= terms.take(k));
        lemma_terms_none_grow(terms, words, k);
    } else {
        lemma_terms_none_extends_take(terms, words, k);
        assert(terms.take(k) =~= terms);
    }
}

proof fn lemma_terms_none_extends_take(terms: Seq<Seq<char>>, words: Seq<Seq<char>>, k: int)
    requires
        0 < k <= terms.len(),
        best_word_score(terms[k - 1], words) is None,
    ensures
        terms_score(terms.take(k), words) is None,
{
    assert(terms.take(k).last() == terms[k - 1]);
}

proof fn lemma_terms_none_grow(terms: Seq<Seq<char>>, words: Seq<Seq<char>>, k: int)
    requires
        0 < k <= terms.len(),
        terms_score(terms.take(k), words) is None,
    ensures
        terms_score(terms, words) is None,
    decreases terms.len() - k,
{
    if k < terms.len() {
        assert(terms.take(k + 1).drop_last() =~= terms.take(k));
        lemma_terms_none_grow(terms, words, k + 1);
    } else {
        assert(terms.take(k) =~= terms);
    }
}

} // verus!
