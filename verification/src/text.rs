use vstd::prelude::*;

verus! {

broadcast use vstd::string::axiom_spec_iter;

// ---------------------------------------------------------------------------
// Characters
// ---------------------------------------------------------------------------

/// The characters of `s`, in order.
pub fn chars_of(s: &str) -> (cs: Vec<char>)
    ensures
        cs@ == s@,
{
    let mut cs: Vec<char> = Vec::new();
    for c in it: s.chars()
        invariant
            cs@ == it.seq().take(it.index() as int),
            it.seq() == s@,
    {
        cs.push(c);
    }
    cs
}

/// Unicode's White_Space characters: tab through carriage return, space, next line,
/// no-break space, ogham space mark, the spaces from en quad to hair space, line and
/// paragraph separators, narrow no-break space, medium mathematical space and
/// ideographic space.
pub open spec fn is_white_space(c: char) -> bool {
    let v = c as int;
    ||| 0x9 <= v <= 0xd
    ||| v == 0x20
    ||| v == 0x85
    ||| v == 0xa0
    ||| v == 0x1680
    ||| 0x2000 <= v <= 0x200a
    ||| v == 0x2028
    ||| v == 0x2029
    ||| v == 0x202f
    ||| v == 0x205f
    ||| v == 0x3000
}

/// Whether `c` is white space (see [`is_white_space`]).
pub fn is_whitespace(c: char) -> (ws: bool)
    ensures
        ws == is_white_space(c),
{
    let v = c as u32;
    (0x9 <= v && v <= 0xd) || v == 0x20 || v == 0x85 || v == 0xa0 || v == 0x1680 || (0x2000 <= v
        && v <= 0x200a) || v == 0x2028 || v == 0x2029 || v == 0x202f || v == 0x205f || v == 0x3000
}

// ---------------------------------------------------------------------------
// Words
// ---------------------------------------------------------------------------

/// The one-word list holding `cur`, or nothing when `cur` is empty.
pub open spec fn word_if_any(cur: Seq<char>) -> Seq<Seq<char>> {
    if cur.len() > 0 {
        seq![cur]
    } else {
        Seq::<Seq<char>>::empty()
    }
}

/// The words of `s`, when the word `cur` has been read just before `s` began.
pub open spec fn words_after(s: Seq<char>, cur: Seq<char>) -> Seq<Seq<char>>
    decreases s.len(),
{
    if s.len() == 0 {
        word_if_any(cur)
    } else if is_white_space(s[0]) {
        word_if_any(cur) + words_after(s.drop_first(), Seq::<char>::empty())
    } else {
        words_after(s.drop_first(), cur.push(s[0]))
    }
}

/// The words of `s`: its maximal runs of characters that are not white space, in order.
pub open spec fn words(s: Seq<char>) -> Seq<Seq<char>> {
    words_after(s, Seq::<char>::empty())
}

/// The character sequences that a list of character vectors holds.
pub open spec fn views(ts: Seq<Vec<char>>) -> Seq<Seq<char>> {
    ts.map_values(|t: Vec<char>| t@)
}

/// Splits `cs` into its words (see [`words`]).
pub fn split_whitespace(cs: &Vec<char>) -> (ws: Vec<Vec<char>>)
    ensures
        views(ws@) == words(cs@),
{
    let n = cs.len();
    let mut ws: Vec<Vec<char>> = Vec::new();
    let mut cur: Vec<char> = Vec::new();
    let mut i: usize = 0;
    assert(cs@.skip(0) =~= cs@);
    while i < n
        invariant
            n == cs@.len(),
            i <= n,
            views(ws@) + words_after(cs@.skip(i as int), cur@) == words(cs@),
        decreases n - i,
    {
        let c = cs[i];
        let ghost rest = cs@.skip(i as int);
        assert(rest[0] == c);
        assert(rest.drop_first() =~= cs@.skip(i + 1));
        if is_whitespace(c) {
            if cur.len() > 0 {
                let ghost old_ws = ws@;
                ws.push(cur);
                assert(views(ws@) =~= views(old_ws) + word_if_any(cur@));
                cur = Vec::new();
            } else {
                assert(word_if_any(cur@) =~= Seq::<Seq<char>>::empty());
                assert(cur@ =~= Seq::<char>::empty());
            }
        } else {
            cur.push(c);
        }
        i = i + 1;
        assert(views(ws@) + words_after(cs@.skip(i as int), cur@) =~= words(cs@));
    }
    assert(cs@.skip(n as int) =~= Seq::<char>::empty());
    if cur.len() > 0 {
        let ghost old_ws = ws@;
        ws.push(cur);
        assert(views(ws@) =~= views(old_ws) + word_if_any(cur@));
    } else {
        assert(word_if_any(cur@) =~= Seq::<Seq<char>>::empty());
    }
    assert(views(ws@) =~= words(cs@));
    ws
}


/// Every word of `words_after(s, cur)` has at least one character, when `cur`'s
/// words (none or one) do.
proof fn lemma_words_after_not_empty(s: Seq<char>, cur: Seq<char>)
    ensures
        forall|i: int|
            0 <= i < words_after(s, cur).len() ==> #[trigger] words_after(s, cur)[i].len() > 0,
    decreases s.len(),
{
    if s.len() == 0 {
        assert(words_after(s, cur) == word_if_any(cur));
    } else {
        if is_white_space(s[0]) {
            lemma_words_after_not_empty(s.drop_first(), Seq::<char>::empty());
            let a = word_if_any(cur);
            let b = words_after(s.drop_first(), Seq::<char>::empty());
            assert(words_after(s, cur) == a + b);
            assert forall|i: int| 0 <= i < (a + b).len() implies #[trigger] (a + b)[i].len() > 0 by {
                if i >= a.len() {
                    assert((a + b)[i] == b[i - a.len()]);
                }
            }
        } else {
            lemma_words_after_not_empty(s.drop_first(), cur.push(s[0]));
            assert(words_after(s, cur) == words_after(s.drop_first(), cur.push(s[0])));
        }
    }
}

/// No word is empty.
pub proof fn lemma_words_not_empty(s: Seq<char>)
    ensures
        forall|i: int| 0 <= i < words(s).len() ==> #[trigger] words(s)[i].len() > 0,
{
    lemma_words_after_not_empty(s, Seq::<char>::empty());
}

/// Whether no character of `w` is white space.
pub open spec fn no_white_space(w: Seq<char>) -> bool {
    forall|j: int| 0 <= j < w.len() ==> !is_white_space(#[trigger] w[j])
}

proof fn lemma_words_after_no_white_space(s: Seq<char>, cur: Seq<char>)
    requires
        no_white_space(cur),
    ensures
        forall|i: int|
            0 <= i < words_after(s, cur).len() ==> no_white_space(#[trigger] words_after(s, cur)[i]),
    decreases s.len(),
{
    if s.len() == 0 {
        assert(words_after(s, cur) == word_if_any(cur));
    } else if is_white_space(s[0]) {
        lemma_words_after_no_white_space(s.drop_first(), Seq::<char>::empty());
        let a = word_if_any(cur);
        let b = words_after(s.drop_first(), Seq::<char>::empty());
        assert(words_after(s, cur) == a + b);
        assert forall|i: int| 0 <= i < (a + b).len() implies no_white_space(#[trigger] (a + b)[i]) by {
            if i >= a.len() {
                assert((a + b)[i] == b[i - a.len()]);
            }
        }
    } else {
        let next = cur.push(s[0]);
        assert(no_white_space(next)) by {
            assert forall|j: int| 0 <= j < next.len() implies !is_white_space(#[trigger] next[j]) by {
                if j < cur.len() {
                    assert(next[j] == cur[j]);
                }
            }
        }
        lemma_words_after_no_white_space(s.drop_first(), next);
        assert(words_after(s, cur) == words_after(s.drop_first(), next));
    }
}

/// No word holds white space.
pub proof fn lemma_words_have_no_white_space(s: Seq<char>)
    ensures
        forall|i: int| 0 <= i < words(s).len() ==> no_white_space(#[trigger] words(s)[i]),
{
    lemma_words_after_no_white_space(s, Seq::<char>::empty());
}

// ---------------------------------------------------------------------------
// Unsigned integers
// ---------------------------------------------------------------------------

/// Whether `c` is one of the ASCII digits `0` to `9`.
pub open spec fn is_digit(c: char) -> bool {
    '0' <= c <= '9'
}

/// Whether every character of `s` is an ASCII digit.
pub open spec fn all_digits(s: Seq<char>) -> bool {
    forall|i: int| 0 <= i < s.len() ==> is_digit(#[trigger] s[i])
}

/// The number that the decimal digits `s` stand for.
pub open spec fn digits_value(s: Seq<char>) -> nat
    decreases s.len(),
{
    if s.len() == 0 {
        0
    } else {
        digits_value(s.drop_last()) * 10 + (s.last() as nat - '0' as nat) as nat
    }
}

/// The digits of `s` once an optional leading `+` is dropped.
pub open spec fn unsigned_digits(s: Seq<char>) -> Seq<char> {
    if s.len() > 0 && s[0] == '+' {
        s.drop_first()
    } else {
        s
    }
}

/// How `s` reads as a `usize`: an optional `+`, then one or more ASCII digits whose
/// value fits a `usize`; anything else does not read.
pub open spec fn usize_of(s: Seq<char>) -> Option<usize> {
    let d = unsigned_digits(s);
    if d.len() > 0 && all_digits(d) && digits_value(d) <= usize::MAX {
        Some(digits_value(d) as usize)
    } else {
        None
    }
}

/// Digits only add to a number: a prefix of a string of digits is worth no more
/// than the whole.
proof fn lemma_digits_prefix_le(d: Seq<char>, i: int)
    requires
        0 <= i <= d.len(),
        all_digits(d),
    ensures
        digits_value(d.take(i)) <= digits_value(d),
    decreases d.len() - i,
{
    if i < d.len() {
        lemma_digits_prefix_le(d, i + 1);
        assert(d.take(i + 1).drop_last() =~= d.take(i));
        assert(is_digit(d[i]));
    } else {
        assert(d.take(i) =~= d);
    }
}

/// Reads `s` as a `usize` (see [`usize_of`]).
pub fn parse_usize(s: &Vec<char>) -> (v: Option<usize>)
    ensures
        v == usize_of(s@),
{
    let n = s.len();
    let start: usize = if n > 0 && s[0] == '+' { 1 } else { 0 };
    let ghost d = unsigned_digits(s@);
    assert(d =~= s@.subrange(start as int, n as int));
    if start == n {
        return None;
    }
    let mut acc: usize = 0;
    let mut i: usize = start;
    assert(d.take(0) =~= Seq::<char>::empty());
    while i < n
        invariant
            start <= i <= n,
            n == s@.len(),
            d == s@.subrange(start as int, n as int),
            d == unsigned_digits(s@),
            all_digits(d.take(i - start)),
            acc == digits_value(d.take(i - start)),
        decreases n - i,
    {
        let c = s[i];
        let k = i - start;
        assert(d[k as int] == c);
        assert(d.take(k + 1).drop_last() =~= d.take(k as int));
        assert(d.take(k + 1).last() == c);
        if !('0' <= c && c <= '9') {
            assert(!is_digit(d[k as int]));
            assert(!all_digits(d));
            assert(unsigned_digits(s@) == d);
            return None;
        }
        let digit = (c as u32 - '0' as u32) as usize;
        assert(digits_value(d.take(k + 1)) == acc * 10 + digit);
        let next = match acc.checked_mul(10) {
            Some(m) => m.checked_add(digit),
            None => None,
        };
        match next {
            Some(v) => {
                acc = v;
            },
            None => {
                assert(digits_value(d.take(k + 1)) > usize::MAX);
                proof {
                    if all_digits(d) {
                        lemma_digits_prefix_le(d, k + 1);
                        assert(digits_value(d) > usize::MAX);
                    }
                }
                assert(unsigned_digits(s@) == d);
                return None;
            },
        }
        i = i + 1;
        assert(all_digits(d.take(i - start))) by {
            assert forall|j: int| 0 <= j < i - start implies is_digit(#[trigger] d.take(i - start)[j]) by {
                if j < k {
                    assert(d.take(i - start)[j] == d.take(k as int)[j]);
                }
            }
        }
    }
    assert(d.take(n - start) =~= d);
    Some(acc)
}

} // verus!
