//! Character and string utilities shared by the rest of the library.

use vstd::prelude::*;
use vstd::std_specs::iter::IteratorSpec;

verus! {

/// The `White_Space` property of Unicode, which `char::is_whitespace`,
/// `str::trim` and `str::split_whitespace` use.
pub open spec fn is_ws(c: char) -> bool {
    let u = c as u32;
    ||| 0x09 <= u <= 0x0d
    ||| u == 0x20
    ||| u == 0x85
    ||| u == 0xa0
    ||| u == 0x1680
    ||| 0x2000 <= u <= 0x200a
    ||| u == 0x2028
    ||| u == 0x2029
    ||| u == 0x202f
    ||| u == 0x205f
    ||| u == 0x3000
}

/// Whether `c` is Unicode white space.
pub fn is_whitespace(c: char) -> (res: bool)
    ensures
        res == is_ws(c),
{
    let u = c as u32;
    (0x09 <= u && u <= 0x0d) || u == 0x20 || u == 0x85 || u == 0xa0 || u == 0x1680 || (0x2000
        <= u && u <= 0x200a) || u == 0x2028 || u == 0x2029 || u == 0x202f || u == 0x205f || u
        == 0x3000
}

/// The characters of a string slice, in order.
pub(crate) fn chars_of(s: &str) -> (res: Vec<char>)
    ensures
        res@ == s@,
{
    broadcast use vstd::string::axiom_spec_iter, vstd::string::next_postcondition;

    let mut it = s.chars();
    let mut v: Vec<char> = Vec::new();
    loop
        invariant
            v@ + it.remaining() == s@,
            it.decrease() is Some,
        ensures
            v@ == s@,
        decreases it.decrease()->0,
    {
        let ghost before = it.remaining();
        match it.next() {
            Some(c) => {
                v.push(c);
                assert(v@ + it.remaining() =~= s@) by {
                    assert(before == seq![c] + it.remaining());
                }
            },
            None => {
                assert(v@ =~= s@);
                break;
            },
        }
    }
    v
}

/// Calls `String::push`: the contract claims that the character is appended
/// and nothing else changes.
#[verifier::external_body]
pub(crate) fn push_char(s: &mut String, c: char)
    ensures
        final(s)@ == old(s)@.push(c),
{
    s.push(c)
}

/// Builds a string from its characters.
pub fn string_from_chars(chars: &[char]) -> (res: String)
    ensures
        res@ == chars@,
{
    let mut res = String::new();
    let mut i: usize = 0;
    while i < chars.len()
        invariant
            i <= chars@.len(),
            res@ == chars@.take(i as int),
        decreases chars@.len() - i,
    {
        push_char(&mut res, chars[i]);
        assert(chars@.take(i as int).push(chars@[i as int]) =~= chars@.take(i + 1));
        i += 1;
    }
    assert(chars@.take(chars@.len() as int) =~= chars@);
    res
}


/// The views of a sequence of character vectors.
pub open spec fn views(v: Seq<Vec<char>>) -> Seq<Seq<char>> {
    v.map_values(|x: Vec<char>| x@)
}

/// Splitting a character sequence at white space, scanned from left to right:
/// the tokens completed so far and the token still being read.
pub open spec fn split_state(s: Seq<char>) -> (Seq<Seq<char>>, Seq<char>)
    decreases s.len(),
{
    if s.len() == 0 {
        (seq![], seq![])
    } else {
        let (done, cur) = split_state(s.drop_last());
        let c = s.last();
        if is_ws(c) {
            if cur.len() > 0 {
                (done.push(cur), seq![])
            } else {
                (done, seq![])
            }
        } else {
            (done, cur.push(c))
        }
    }
}

/// The maximal runs of non-white-space characters of `s`, in order
/// (what `str::split_whitespace` yields).
pub open spec fn ws_tokens(s: Seq<char>) -> Seq<Seq<char>> {
    let (done, cur) = split_state(s);
    if cur.len() > 0 {
        done.push(cur)
    } else {
        done
    }
}

/// `parts` joined with `sep` between consecutive parts.
pub open spec fn join_with(parts: Seq<Seq<char>>, sep: Seq<char>) -> Seq<char>
    decreases parts.len(),
{
    if parts.len() == 0 {
        seq![]
    } else if parts.len() == 1 {
        parts[0]
    } else {
        join_with(parts.drop_last(), sep) + sep + parts.last()
    }
}

/// Appends the characters of `src` to `dst`.
pub fn append_chars(dst: &mut Vec<char>, src: &[char])
    ensures
        final(dst)@ == old(dst)@ + src@,
{
    let mut i: usize = 0;
    while i < src.len()
        invariant
            i <= src@.len(),
            dst@ == old(dst)@ + src@.take(i as int),
        decreases src@.len() - i,
    {
        dst.push(src[i]);
        assert(old(dst)@ + src@.take(i + 1) =~= (old(dst)@ + src@.take(i as int)).push(src@[i as int]));
        i += 1;
    }
    assert(src@.take(src@.len() as int) =~= src@);
}

/// Appends a string slice to a string.
pub fn append_str(dst: &mut String, src: &str)
    ensures
        final(dst)@ == old(dst)@ + src@,
{
    dst.append(src);
}

/// The white-space separated tokens of `s`.
pub fn split_whitespace(s: &[char]) -> (res: Vec<Vec<char>>)
    ensures
        views(res@) == ws_tokens(s@),
        forall|i: int| 0 <= i < res@.len() ==> #[trigger] res@[i]@.len() > 0,
{
    let mut done: Vec<Vec<char>> = Vec::new();
    let mut cur: Vec<char> = Vec::new();
    let mut i: usize = 0;
    while i < s.len()
        invariant
            i <= s@.len(),
            (views(done@), cur@) == split_state(s@.take(i as int)),
            forall|j: int| 0 <= j < done@.len() ==> #[trigger] done@[j]@.len() > 0,
        decreases s@.len() - i,
    {
        let c = s[i];
        assert(s@.take(i + 1).drop_last() =~= s@.take(i as int));
        assert(s@.take(i + 1).last() == c);
        if is_whitespace(c) {
            if cur.len() > 0 {
                let ghost old_done = done@;
                done.push(cur);
                assert(views(done@) =~= views(old_done).push(done@.last()@));
                cur = Vec::new();
            }
        } else {
            cur.push(c);
        }
        i += 1;
    }
    assert(s@.take(s@.len() as int) =~= s@);
    if cur.len() > 0 {
        let ghost old_done = done@;
        done.push(cur);
        assert(views(done@) =~= views(old_done).push(done@.last()@));
    }
    done
}

/// `parts` joined with `sep`.
pub fn join_chars(parts: &Vec<Vec<char>>, sep: &[char]) -> (res: Vec<char>)
    ensures
        res@ == join_with(views(parts@), sep@),
{
    let mut res: Vec<char> = Vec::new();
    let mut i: usize = 0;
    while i < parts.len()
        invariant
            i <= parts@.len(),
            res@ == join_with(views(parts@).take(i as int), sep@),
        decreases parts@.len() - i,
    {
        let ghost before = res@;
        if i > 0 {
            append_chars(&mut res, sep);
        }
        append_chars(&mut res, parts[i].as_slice());
        assert(views(parts@).take(i + 1).drop_last() =~= views(parts@).take(i as int));
        if i == 0 {
            assert(views(parts@).take(1) =~= seq![parts@[0]@]);
        }
        i += 1;
    }
    assert(views(parts@).take(parts@.len() as int) =~= views(parts@));
    res
}

/// The decimal digit `d` (`d < 10`) as a character.
pub open spec fn digit_char(d: nat) -> char {
    (48 + d) as char
}

/// The decimal representation of a natural number.
pub open spec fn nat_decimal(n: nat) -> Seq<char>
    decreases n,
{
    if n < 10 {
        seq![digit_char(n)]
    } else {
        nat_decimal(n / 10).push(digit_char(n % 10))
    }
}

/// The decimal representation of an integer, with a leading `-` when negative
/// (what `Display` prints for Rust's integer types).
pub open spec fn int_decimal(i: int) -> Seq<char> {
    if i < 0 {
        seq!['-'] + nat_decimal((-i) as nat)
    } else {
        nat_decimal(i as nat)
    }
}

/// The decimal digits of `n`.
pub fn u64_decimal(n: u64) -> (res: Vec<char>)
    ensures
        res@ == nat_decimal(n as nat),
    decreases n,
{
    let d = (n % 10) as u8;
    let c = (48u8 + d) as char;
    if n < 10 {
        let mut v = Vec::new();
        v.push(c);
        v
    } else {
        let mut v = u64_decimal(n / 10);
        v.push(c);
        v
    }
}

/// The decimal representation of a signed integer.
pub fn i64_decimal(n: i64) -> (res: Vec<char>)
    ensures
        res@ == int_decimal(n as int),
{
    if n < 0 {
        let m: u64 = (0i128 - n as i128) as u64;
        let digits = u64_decimal(m);
        let mut v = Vec::new();
        v.push('-');
        append_chars(&mut v, digits.as_slice());
        v
    } else {
        u64_decimal(n as u64)
    }
}

/// The decimal representation of a signed integer, as a string.
pub fn i64_to_string(n: i64) -> (res: String)
    ensures
        res@ == int_decimal(n as int),
{
    let v = i64_decimal(n);
    string_from_chars(v.as_slice())
}

/// The decimal representation of an unsigned integer, as a string.
pub fn usize_to_string(n: usize) -> (res: String)
    ensures
        res@ == nat_decimal(n as nat),
{
    let v = u64_decimal(n as u64);
    string_from_chars(v.as_slice())
}


/// Whether every character of `s` is white space (`str::trim` leaves nothing).
pub open spec fn all_ws(s: Seq<char>) -> bool {
    forall|i: int| 0 <= i < s.len() ==> #[trigger] is_ws(s[i])
}

/// Whether `s` holds only white space.
pub fn is_blank(s: &[char]) -> (res: bool)
    ensures
        res == all_ws(s@),
{
    let mut i: usize = 0;
    while i < s.len()
        invariant
            i <= s@.len(),
            forall|j: int| 0 <= j < i ==> #[trigger] is_ws(s@[j]),
        decreases s@.len() - i,
    {
        if !is_whitespace(s[i]) {
            return false;
        }
        i += 1;
    }
    true
}

/// What `char::is_alphanumeric` answers for `c` (the Unicode `Alphabetic`
/// and `Numeric` properties).
pub uninterp spec fn unicode_alphanumeric(c: char) -> bool;

/// The first character of the lowercase mapping of `c`
/// (`c.to_lowercase().next()`).
pub uninterp spec fn unicode_first_lowercase(c: char) -> char;

/// Whether `c` is an ASCII letter or digit.
pub open spec fn ascii_alphanumeric(c: char) -> bool {
    let u = c as u32;
    (48 <= u <= 57) || (65 <= u <= 90) || (97 <= u <= 122)
}

/// Calls `char::is_alphanumeric`: its answer is named; of ASCII characters
/// the contract states what std documents (the letters and digits are
/// alphanumeric, nothing else is).
#[verifier::external_body]
pub(crate) fn is_alphanumeric(c: char) -> (res: bool)
    ensures
        res == unicode_alphanumeric(c),
        (c as u32) < 128 ==> (res <==> ascii_alphanumeric(c)),
{
    c.is_alphanumeric()
}

/// Calls `char::to_lowercase` and takes the first character that its
/// iterator yields. The mapping is named, not stated; std documents that the
/// iterator yields one or more characters, so there is a first one.
#[verifier::external_body]
pub(crate) fn first_lowercase(c: char) -> (res: Option<char>)
    ensures
        res == Some(unicode_first_lowercase(c)),
{
    c.to_lowercase().next()
}

/// Whether two character sequences are equal.
pub fn chars_eq(a: &[char], b: &[char]) -> (res: bool)
    ensures
        res == (a@ == b@),
{
    if a.len() != b.len() {
        return false;
    }
    let mut i: usize = 0;
    while i < a.len()
        invariant
            i <= a@.len(),
            a@.len() == b@.len(),
            forall|j: int| 0 <= j < i ==> a@[j] == b@[j],
        decreases a@.len() - i,
    {
        if a[i] != b[i] {
            return false;
        }
        i += 1;
    }
    assert(a@ =~= b@);
    true
}


proof fn lemma_split_state_bounds(s: Seq<char>)
    ensures
        ({
            let (done, cur) = split_state(s);
            &&& done.len() + (if cur.len() > 0 {
                1int
            } else {
                0int
            }) <= s.len()
            &&& cur.len() <= s.len()
            &&& forall|i: int| 0 <= i < done.len() ==> #[trigger] done[i].len() <= s.len()
        }),
    decreases s.len(),
{
    if s.len() > 0 {
        lemma_split_state_bounds(s.drop_last());
    }
}

/// A string has no more tokens than characters, and no token longer than the
/// string.
pub proof fn lemma_tokens_bounds(s: Seq<char>)
    ensures
        ws_tokens(s).len() <= s.len(),
        forall|i: int| 0 <= i < ws_tokens(s).len() ==> #[trigger] ws_tokens(s)[i].len() <= s.len(),
{
    lemma_split_state_bounds(s);
}

/// Whether every character of `t` satisfies `p` and none is white space.
pub open spec fn word_chars(t: Seq<char>, p: spec_fn(char) -> bool) -> bool {
    forall|j: int| 0 <= j < t.len() ==> p(#[trigger] t[j]) && !is_ws(t[j])
}

/// Whether `t` is a non-empty word of characters that satisfy `p`.
pub open spec fn good_word(t: Seq<char>, p: spec_fn(char) -> bool) -> bool {
    t.len() > 0 && word_chars(t, p)
}

/// The tokens being split keep the property of the characters they came
/// from.
proof fn lemma_split_state_words(s: Seq<char>, p: spec_fn(char) -> bool)
    requires
        forall|i: int| 0 <= i < s.len() && !is_ws(s[i]) ==> p(#[trigger] s[i]),
    ensures
        forall|k: int|
            0 <= k < split_state(s).0.len() ==> good_word(#[trigger] split_state(s).0[k], p),
        word_chars(split_state(s).1, p),
    decreases s.len(),
{
    if s.len() > 0 {
        let init = s.drop_last();
        assert forall|i: int| 0 <= i < init.len() && !is_ws(init[i]) implies p(#[trigger] init[i]) by {
            assert(init[i] == s[i]);
        }
        lemma_split_state_words(init, p);
        let (done, cur) = split_state(init);
        let c = s.last();
        assert(c == s[s.len() - 1]);
        if is_ws(c) {
            if cur.len() > 0 {
                assert forall|k: int| 0 <= k < done.push(cur).len() implies good_word(
                    #[trigger] done.push(cur)[k],
                    p,
                ) by {
                    if k < done.len() {
                        assert(done.push(cur)[k] == done[k]);
                    }
                }
            }
        } else {
            assert forall|j: int| 0 <= j < cur.push(c).len() implies p(#[trigger] cur.push(c)[j])
                && !is_ws(cur.push(c)[j]) by {
                if j < cur.len() {
                    assert(cur.push(c)[j] == cur[j]);
                }
            }
        }
    }
}

/// Every token of `s` is non-empty, holds no white space, and consists of
/// characters of `s` that satisfy `p` whenever every such character does.
pub proof fn lemma_token_words(s: Seq<char>, p: spec_fn(char) -> bool)
    requires
        forall|i: int| 0 <= i < s.len() && !is_ws(s[i]) ==> p(#[trigger] s[i]),
    ensures
        forall|k: int| 0 <= k < ws_tokens(s).len() ==> good_word(#[trigger] ws_tokens(s)[k], p),
{
    lemma_split_state_words(s, p);
    let (done, cur) = split_state(s);
    if cur.len() > 0 {
        assert forall|k: int| 0 <= k < done.push(cur).len() implies good_word(
            #[trigger] done.push(cur)[k],
            p,
        ) by {
            if k < done.len() {
                assert(done.push(cur)[k] == done[k]);
            }
        }
    }
}

/// Appending characters that are not white space extends the token being
/// read.
proof fn lemma_split_append_word(a: Seq<char>, b: Seq<char>)
    requires
        forall|i: int| 0 <= i < b.len() ==> !is_ws(#[trigger] b[i]),
    ensures
        split_state(a + b) == (split_state(a).0, split_state(a).1 + b),
    decreases b.len(),
{
    if b.len() == 0 {
        assert(a + b =~= a);
        assert(split_state(a).1 + b =~= split_state(a).1);
    } else {
        let b2 = b.drop_last();
        assert forall|i: int| 0 <= i < b2.len() implies !is_ws(#[trigger] b2[i]) by {
            assert(b2[i] == b[i]);
        }
        lemma_split_append_word(a, b2);
        assert((a + b).drop_last() =~= a + b2);
        assert((a + b).last() == b[b.len() - 1]);
        assert(split_state(a).1 + b =~= (split_state(a).1 + b2).push(b.last()));
    }
}

/// White space alone completes no token and starts none.
proof fn lemma_split_all_ws(w: Seq<char>)
    requires
        forall|i: int| 0 <= i < w.len() ==> #[trigger] is_ws(w[i]),
    ensures
        split_state(w) == (Seq::<Seq<char>>::empty(), Seq::<char>::empty()),
    decreases w.len(),
{
    if w.len() > 0 {
        let init = w.drop_last();
        assert forall|i: int| 0 <= i < init.len() implies #[trigger] is_ws(init[i]) by {
            assert(init[i] == w[i]);
        }
        lemma_split_all_ws(init);
        assert(is_ws(w[w.len() - 1]));
    }
}

/// Reading more characters never changes the tokens already completed.
proof fn lemma_split_done_grows(a: Seq<char>, b: Seq<char>)
    ensures
        split_state(a).0.len() <= split_state(a + b).0.len(),
        forall|k: int|
            0 <= k < split_state(a).0.len() ==> #[trigger] split_state(a + b).0[k]
                == split_state(a).0[k],
    decreases b.len(),
{
    if b.len() == 0 {
        assert(a + b =~= a);
    } else {
        lemma_split_done_grows(a, b.drop_last());
        assert((a + b).drop_last() =~= a + b.drop_last());
        let (d0, c0) = split_state(a + b.drop_last());
        assert forall|k: int| 0 <= k < split_state(a).0.len() implies #[trigger] split_state(
            a + b,
        ).0[k] == split_state(a).0[k] by {
            assert(d0[k] == split_state(a).0[k]);
            if cur_nonempty_ws(a + b) {
                assert(d0.push(c0)[k] == d0[k]);
            }
        }
    }
}

/// Whether the last character of `s` is white space ending a token being
/// read.
spec fn cur_nonempty_ws(s: Seq<char>) -> bool {
    s.len() > 0 && is_ws(s.last()) && split_state(s.drop_last()).1.len() > 0
}

/// The first token of a text that starts with white space `w`, then the
/// word `t`, then either nothing or white space followed by anything, is `t`.
pub proof fn lemma_first_token_of(w: Seq<char>, t: Seq<char>, r: Seq<char>)
    requires
        forall|i: int| 0 <= i < w.len() ==> #[trigger] is_ws(w[i]),
        t.len() > 0,
        forall|i: int| 0 <= i < t.len() ==> !is_ws(#[trigger] t[i]),
        r.len() == 0 || is_ws(r[0]),
    ensures
        ws_tokens(w + t + r).len() > 0,
        ws_tokens(w + t + r)[0] == t,
{
    lemma_split_all_ws(w);
    lemma_split_append_word(w, t);
    assert(Seq::<char>::empty() + t =~= t);
    if r.len() == 0 {
        assert(w + t + r =~= w + t);
    } else {
        let a = w + t + seq![r[0]];
        assert(a.drop_last() =~= w + t);
        assert(split_state(a).0 =~= seq![t]);
        let rest = r.skip(1);
        assert(w + t + r =~= a + rest);
        lemma_split_done_grows(a, rest);
        assert(split_state(a + rest).0[0] == t);
    }
}

/// A text of white space alone has no tokens.
pub proof fn lemma_tokens_of_blank(w: Seq<char>)
    requires
        forall|i: int| 0 <= i < w.len() ==> #[trigger] is_ws(w[i]),
    ensures
        ws_tokens(w).len() == 0,
{
    lemma_split_all_ws(w);
}

/// Splitting words joined by single spaces: all but the last are complete,
/// and the last is being read.
proof fn lemma_split_join(ts: Seq<Seq<char>>, p: spec_fn(char) -> bool)
    requires
        ts.len() > 0,
        forall|k: int| 0 <= k < ts.len() ==> good_word(#[trigger] ts[k], p),
    ensures
        split_state(join_with(ts, seq![' '])) == (ts.drop_last(), ts.last()),
    decreases ts.len(),
{
    let last = ts[ts.len() - 1];
    assert(good_word(last, p));
    assert forall|i: int| 0 <= i < last.len() implies !is_ws(#[trigger] last[i]) by {
        assert(p(last[i]) && !is_ws(last[i]));
    }
    if ts.len() == 1 {
        lemma_split_append_word(Seq::<char>::empty(), last);
        assert(Seq::<char>::empty() + last =~= last);
        assert(ts.drop_last() =~= Seq::<Seq<char>>::empty());
    } else {
        let init = ts.drop_last();
        assert forall|k: int| 0 <= k < init.len() implies good_word(#[trigger] init[k], p) by {
            assert(init[k] == ts[k]);
        }
        lemma_split_join(init, p);
        let j0 = join_with(init, seq![' ']);
        let a = j0 + seq![' '];
        assert(a.drop_last() =~= j0);
        assert(a.last() == ' ');
        assert(good_word(init[init.len() - 1], p));
        assert(init.drop_last().push(init.last()) =~= init);
        lemma_split_append_word(a, last);
        assert(join_with(ts, seq![' ']) =~= a + last);
        assert(Seq::<char>::empty() + last =~= last);
    }
}

/// Words joined by single spaces split back into the same words.
pub proof fn lemma_tokens_of_join(ts: Seq<Seq<char>>, p: spec_fn(char) -> bool)
    requires
        forall|k: int| 0 <= k < ts.len() ==> good_word(#[trigger] ts[k], p),
    ensures
        ws_tokens(join_with(ts, seq![' '])) == ts,
{
    if ts.len() == 0 {
        assert(ws_tokens(Seq::<char>::empty()) =~= Seq::<Seq<char>>::empty());
    } else {
        lemma_split_join(ts, p);
        assert(ts[ts.len() - 1].len() > 0);
        assert(ts.drop_last().push(ts.last()) =~= ts);
    }
}

/// Words joined by single spaces neither start nor end with a space, and hold
/// no two spaces in a row.
pub proof fn lemma_join_spaces(ts: Seq<Seq<char>>, p: spec_fn(char) -> bool)
    requires
        forall|k: int| 0 <= k < ts.len() ==> good_word(#[trigger] ts[k], p),
    ensures
        ({
            let all = join_with(ts, seq![' ']);
            &&& ts.len() > 0 ==> all.len() > 0 && all[all.len() - 1] == ts[ts.len() - 1][ts[ts.len()
                - 1].len() - 1]
            &&& forall|i: int|
                0 <= i < all.len() && #[trigger] all[i] == ' ' ==> 0 < i && i + 1 < all.len()
                    && all[i - 1] != ' ' && all[i + 1] != ' '
        }),
    decreases ts.len(),
{
    let all = join_with(ts, seq![' ']);
    if ts.len() == 1 {
        assert(good_word(ts[0], p));
        assert forall|i: int| 0 <= i < all.len() && #[trigger] all[i] == ' ' implies 0 < i && i + 1
            < all.len() && all[i - 1] != ' ' && all[i + 1] != ' ' by {
            assert(p(ts[0][i]) && !is_ws(ts[0][i]));
        }
    } else if ts.len() > 1 {
        let init = ts.drop_last();
        assert forall|k: int| 0 <= k < init.len() implies good_word(#[trigger] init[k], p) by {
            assert(init[k] == ts[k]);
        }
        lemma_join_spaces(init, p);
        let j0 = join_with(init, seq![' ']);
        let last = ts[ts.len() - 1];
        assert(good_word(last, p));
        assert(good_word(init[init.len() - 1], p));
        assert(all =~= j0 + seq![' '] + last);
        let e = init[init.len() - 1];
        assert(p(e[e.len() - 1]) && !is_ws(e[e.len() - 1]));
        assert(p(last[0]) && !is_ws(last[0]));
        assert(p(last[last.len() - 1]) && !is_ws(last[last.len() - 1]));
        assert forall|i: int| 0 <= i < all.len() && #[trigger] all[i] == ' ' implies 0 < i && i + 1
            < all.len() && all[i - 1] != ' ' && all[i + 1] != ' ' by {
            if i < j0.len() {
                assert(all[i] == j0[i]);
                assert(j0[i] == ' ');
                assert(all[i - 1] == j0[i - 1]);
                assert(all[i + 1] == j0[i + 1]);
            } else if i == j0.len() {
                assert(all[i - 1] == j0[j0.len() - 1]);
                assert(all[i + 1] == last[0]);
            } else {
                assert(all[i] == last[i - j0.len() - 1]);
                assert(p(last[i - j0.len() - 1]) && !is_ws(last[i - j0.len() - 1]));
            }
        }
    }
}

/// Every character of a joined sequence comes from a part or the separator,
/// so it satisfies what all of those satisfy.
pub proof fn lemma_join_chars(ts: Seq<Seq<char>>, sep: Seq<char>, p: spec_fn(char) -> bool)
    requires
        forall|k: int, j: int| 0 <= k < ts.len() && 0 <= j < ts[k].len() ==> p(#[trigger] ts[k][j]),
        forall|j: int| 0 <= j < sep.len() ==> p(#[trigger] sep[j]),
    ensures
        forall|i: int| 0 <= i < join_with(ts, sep).len() ==> p(#[trigger] join_with(ts, sep)[i]),
    decreases ts.len(),
{
    if ts.len() == 1 {
        assert forall|i: int| 0 <= i < join_with(ts, sep).len() implies p(
            #[trigger] join_with(ts, sep)[i],
        ) by {
            assert(join_with(ts, sep)[i] == ts[0][i]);
        }
    } else if ts.len() > 1 {
        let init = ts.drop_last();
        assert forall|k: int, j: int| 0 <= k < init.len() && 0 <= j < init[k].len() implies p(
            #[trigger] init[k][j],
        ) by {
            assert(init[k] == ts[k]);
        }
        lemma_join_chars(init, sep, p);
        let j0 = join_with(init, sep);
        let last = ts[ts.len() - 1];
        let all = join_with(ts, sep);
        assert(all =~= j0 + sep + last);
        assert forall|i: int| 0 <= i < all.len() implies p(#[trigger] all[i]) by {
            if i < j0.len() {
                assert(all[i] == j0[i]);
            } else if i < j0.len() + sep.len() {
                assert(all[i] == sep[i - j0.len()]);
            } else {
                assert(all[i] == last[i - j0.len() - sep.len()]);
            }
        }
    }
}


/// Whether `c` is an ASCII decimal digit.
pub open spec fn is_digit(c: char) -> bool {
    48 <= (c as u32) <= 57
}

/// The value of a sequence of decimal digits.
pub open spec fn digits_value(s: Seq<char>) -> int
    decreases s.len(),
{
    if s.len() == 0 {
        0
    } else {
        digits_value(s.drop_last()) * 10 + ((s.last() as u32) - 48)
    }
}

/// Whether every character of `s` is a decimal digit.
pub open spec fn all_digits(s: Seq<char>) -> bool {
    forall|i: int| 0 <= i < s.len() ==> #[trigger] is_digit(s[i])
}

/// What `str::parse::<i64>` accepts: an optional `+` or `-`, then one or more
/// decimal digits, with a value that fits in an `i64`.
pub open spec fn parse_i64_spec(s: Seq<char>) -> Option<i64> {
    let neg = s.len() > 0 && s[0] == '-';
    let signed = s.len() > 0 && (s[0] == '-' || s[0] == '+');
    let ds = if signed {
        s.skip(1)
    } else {
        s
    };
    if ds.len() == 0 || !all_digits(ds) {
        None
    } else {
        let v = if neg {
            -digits_value(ds)
        } else {
            digits_value(ds)
        };
        if i64::MIN <= v <= i64::MAX {
            Some(v as i64)
        } else {
            None
        }
    }
}

proof fn lemma_digits_prefix_grows(s: Seq<char>, k: int)
    requires
        0 <= k <= s.len(),
        all_digits(s),
    ensures
        0 <= digits_value(s.take(k)) <= digits_value(s),
    decreases s.len() - k,
{
    if k < s.len() {
        lemma_digits_prefix_grows(s, k + 1);
        assert(s.take(k + 1).drop_last() =~= s.take(k));
        assert(is_digit(s[k]));
    } else {
        assert(s.take(k) =~= s);
        lemma_digits_nonneg(s);
    }
}

proof fn lemma_digits_nonneg(s: Seq<char>)
    requires
        all_digits(s),
    ensures
        digits_value(s) >= 0,
    decreases s.len(),
{
    if s.len() > 0 {
        assert(all_digits(s.drop_last())) by {
            assert forall|i: int| 0 <= i < s.drop_last().len() implies #[trigger] is_digit(
                s.drop_last()[i],
            ) by {
                assert(s.drop_last()[i] == s[i]);
            }
        }
        lemma_digits_nonneg(s.drop_last());
        assert(is_digit(s[s.len() - 1]));
    }
}

/// Parses a signed decimal integer as `str::parse::<i64>` does.
pub fn parse_i64(s: &[char]) -> (res: Option<i64>)
    ensures
        res == parse_i64_spec(s@),
{
    let n = s.len();
    let neg = n > 0 && s[0] == '-';
    let signed = n > 0 && (s[0] == '-' || s[0] == '+');
    let start: usize = if signed {
        1
    } else {
        0
    };
    let ghost ds = if signed {
        s@.skip(1)
    } else {
        s@
    };
    assert(ds =~= s@.skip(start as int));
    if start >= n {
        return None;
    }
    let mut acc: i128 = 0;
    let mut k: usize = start;
    while k < n
        invariant
            start <= k <= n,
            n == s@.len(),
            signed == (s@.len() > 0 && (s@[0] == '-' || s@[0] == '+')),
            neg == (s@.len() > 0 && s@[0] == '-'),
            ds == if signed {
                s@.skip(1)
            } else {
                s@
            },
            ds == s@.skip(start as int),
            all_digits(ds.take(k - start)),
            acc == digits_value(ds.take(k - start)),
            0 <= acc <= 0x8000_0000_0000_0000,
        decreases n - k,
    {
        let c = s[k];
        let u = c as u32;
        assert(ds[k - start] == c);
        if u < 48 || u > 57 {
            assert(!all_digits(ds)) by {
                assert(!is_digit(ds[k - start]));
            }
            assert(signed == (s@.len() > 0 && (s@[0] == '-' || s@[0] == '+')));
            assert(parse_i64_spec(s@) is None);
            return None;
        }
        assert(ds.take(k + 1 - start).drop_last() =~= ds.take(k - start));
        assert(all_digits(ds.take(k + 1 - start))) by {
            assert forall|i: int| 0 <= i < ds.take(k + 1 - start).len() implies #[trigger] is_digit(
                ds.take(k + 1 - start)[i],
            ) by {
                if i < k - start {
                    assert(ds.take(k + 1 - start)[i] == ds.take(k - start)[i]);
                }
            }
        }
        let next = acc * 10 + (u - 48) as i128;
        if next > 0x8000_0000_0000_0000 {
            proof {
                assert(digits_value(ds.take(k + 1 - start)) == next);
                if all_digits(ds) {
                    lemma_digits_prefix_grows(ds, k + 1 - start);
                }
            }
            return None;
        }
        acc = next;
        k += 1;
    }
    assert(ds.take(n - start) =~= ds);
    if neg {
        let v: i128 = 0 - acc;
        Some(v as i64)
    } else {
        if acc > 0x7fff_ffff_ffff_ffff {
            assert(!neg);
            assert(parse_i64_spec(s@) is None);
            return None;
        }
        Some(acc as i64)
    }
}

} // verus!
