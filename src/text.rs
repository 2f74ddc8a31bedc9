use vstd::prelude::*;

verus! {

/// The Unicode White_Space characters: they separate tokens, and schemas may
/// hold them freely.
pub open spec fn is_ws(c: char) -> bool {
    ('\u{9}' <= c && c <= '\u{D}') || c == ' ' || c == '\u{85}' || c == '\u{A0}' || c
        == '\u{1680}' || ('\u{2000}' <= c && c <= '\u{200A}') || c == '\u{2028}' || c
        == '\u{2029}' || c == '\u{202F}' || c == '\u{205F}' || c == '\u{3000}'
}

/// `s` with every whitespace character taken out.
pub open spec fn strip_ws(s: Seq<char>) -> Seq<char>
    decreases s.len(),
{
    if s.len() == 0 {
        seq![]
    } else {
        let r = strip_ws(s.drop_last());
        if is_ws(s.last()) {
            r
        } else {
            r.push(s.last())
        }
    }
}

pub open spec fn is_digit(c: char) -> bool {
    '0' <= c && c <= '9'
}

/// The value of a run of decimal digits.
pub open spec fn digits_value(s: Seq<char>) -> int
    decreases s.len(),
{
    if s.len() == 0 {
        0
    } else {
        digits_value(s.drop_last()) * 10 + (s.last() as int - '0' as int)
    }
}

pub open spec fn all_digits(s: Seq<char>) -> bool {
    forall|i: int| 0 <= i < s.len() ==> is_digit(#[trigger] s[i])
}

/// A base-10 `i32` literal: an optional sign, then one or more digits, within range.
pub open spec fn int_literal(s: Seq<char>) -> Option<i32> {
    let neg = s.len() > 0 && s[0] == '-';
    let signed = s.len() > 0 && (s[0] == '-' || s[0] == '+');
    let d = if signed { s.subrange(1, s.len() as int) } else { s };
    let v = if neg { -digits_value(d) } else { digits_value(d) };
    if d.len() > 0 && all_digits(d) && i32::MIN <= v && v <= i32::MAX {
        Some(v as i32)
    } else {
        None
    }
}

/// A boolean literal: exactly `true` or `false`.
pub open spec fn bool_literal(s: Seq<char>) -> Option<bool> {
    if s == seq!['t', 'r', 'u', 'e'] {
        Some(true)
    } else if s == seq!['f', 'a', 'l', 's', 'e'] {
        Some(false)
    } else {
        None
    }
}

/// The characters of `s`, one by one.
pub fn chars_of(s: &str) -> (r: Vec<char>)
    ensures
        r@ == s@,
{
    let n = s.unicode_len();
    let mut r: Vec<char> = Vec::new();
    let mut i: usize = 0;
    while i < n
        invariant
            n == s@.len(),
            i <= n,
            r@ == s@.subrange(0, i as int),
        decreases n - i,
    {
        r.push(s.get_char(i));
        i = i + 1;
    }
    assert(r@ =~= s@);
    r
}

/// Relies on `FromIterator<char>` for `String`: the string holds the characters in order.
#[verifier::external_body]
pub(crate) fn string_of(v: &Vec<char>) -> (r: String)
    ensures
        r@ == v@,
{
    v.iter().collect()
}

/// The characters of `s` without its whitespace.
pub fn strip_whitespace(s: &Vec<char>) -> (r: Vec<char>)
    ensures
        r@ == strip_ws(s@),
{
    let mut r: Vec<char> = Vec::new();
    let mut i: usize = 0;
    while i < s.len()
        invariant
            i <= s@.len(),
            r@ == strip_ws(s@.subrange(0, i as int)),
        decreases s@.len() - i,
    {
        assert(s@.subrange(0, i + 1).drop_last() =~= s@.subrange(0, i as int));
        if !is_ws_char(s[i]) {
            r.push(s[i]);
        }
        i = i + 1;
    }
    assert(s@.subrange(0, s@.len() as int) =~= s@);
    r
}

pub fn is_ws_char(c: char) -> (r: bool)
    ensures
        r == is_ws(c),
{
    ('\u{9}' <= c && c <= '\u{D}') || c == ' ' || c == '\u{85}' || c == '\u{A0}' || c
        == '\u{1680}' || ('\u{2000}' <= c && c <= '\u{200A}') || c == '\u{2028}' || c
        == '\u{2029}' || c == '\u{202F}' || c == '\u{205F}' || c == '\u{3000}'
}

proof fn lemma_digits_prefix_monotone(d: Seq<char>, i: int, j: int)
    requires
        0 <= i <= j <= d.len(),
        all_digits(d),
    ensures
        digits_value(d.subrange(0, i)) <= digits_value(d.subrange(0, j)),
        0 <= digits_value(d.subrange(0, i)),
    decreases j - i,
{
    lemma_digits_nonneg(d.subrange(0, i));
    if i < j {
        lemma_digits_prefix_monotone(d, i, j - 1);
        assert(d.subrange(0, j).drop_last() =~= d.subrange(0, j - 1));
        lemma_digits_nonneg(d.subrange(0, j - 1));
        assert(is_digit(d[j - 1]));
    }
}

proof fn lemma_digits_nonneg(d: Seq<char>)
    requires
        all_digits(d),
    ensures
        0 <= digits_value(d),
    decreases d.len(),
{
    if d.len() > 0 {
        assert(is_digit(d[d.len() - 1]));
        lemma_digits_nonneg(d.drop_last());
    }
}

/// Reads `s` as a base-10 `i32` literal.
pub fn parse_int(s: &Vec<char>) -> (r: Option<i32>)
    ensures
        r == int_literal(s@),
{
    let n = s.len();
    let neg = n > 0 && s[0] == '-';
    let signed = n > 0 && (s[0] == '-' || s[0] == '+');
    let start: usize = if signed { 1 } else { 0 };
    let ghost d = if signed { s@.subrange(1, n as int) } else { s@ };
    assert(s@.subrange(0, n as int) =~= s@);
    if start >= n {
        return None;
    }
    let mut acc: i64 = 0;
    let mut i: usize = start;
    while i < n
        invariant
            start <= i <= n,
            n == s@.len(),
            d == s@.subrange(start as int, n as int),
            d == (if signed { s@.subrange(1, n as int) } else { s@ }),
            signed == (n > 0 && (s@[0] == '-' || s@[0] == '+')),
            neg == (n > 0 && s@[0] == '-'),
            forall|k: int| start <= k < i ==> is_digit(#[trigger] s@[k]),
            acc == digits_value(d.subrange(0, i - start)),
            0 <= acc <= 2147483648,
        decreases n - i,
    {
        let c = s[i];
        if !('0' <= c && c <= '9') {
            assert(d[i - start] == s@[i as int]);
            assert(!all_digits(d));
            return None;
        }
        assert(d.subrange(0, i + 1 - start).drop_last() =~= d.subrange(0, i - start));
        acc = acc * 10 + (c as i64 - '0' as i64);
        i = i + 1;
        assert(d[i - 1 - start] == c);
        assert(acc == digits_value(d.subrange(0, i - start)));
        if acc > 2147483648 {
            proof {
                assert forall|k: int| 0 <= k < i - start implies is_digit(
                    #[trigger] d.subrange(0, i - start)[k],
                ) by {
                    assert(s@[k + start] == d.subrange(0, i - start)[k]);
                }
                if all_digits(d) {
                    lemma_digits_prefix_monotone(d, i - start, d.len() as int);
                    assert(d.subrange(0, d.len() as int) =~= d);
                }
            }
            return None;
        }
    }
    assert(d.subrange(0, n - start) =~= d);
    assert(all_digits(d));
    if neg {
        Some((-acc) as i32)
    } else if acc <= 2147483647 {
        Some(acc as i32)
    } else {
        None
    }
}

/// Reads `s` as `true` or `false`.
pub fn parse_bool(s: &Vec<char>) -> (r: Option<bool>)
    ensures
        r == bool_literal(s@),
{
    if s.len() == 4 && s[0] == 't' && s[1] == 'r' && s[2] == 'u' && s[3] == 'e' {
        assert(s@ =~= seq!['t', 'r', 'u', 'e']);
        Some(true)
    } else if s.len() == 5 && s[0] == 'f' && s[1] == 'a' && s[2] == 'l' && s[3] == 's' && s[4]
        == 'e' {
        assert(s@ =~= seq!['f', 'a', 'l', 's', 'e']);
        Some(false)
    } else {
        None
    }
}

/// The position of the first `c` in `t`, or the length of `t` when there is none.
pub open spec fn find(t: Seq<char>, c: char) -> int
    decreases t.len(),
{
    if t.len() == 0 {
        0
    } else if t[0] == c {
        0
    } else {
        1 + find(t.drop_first(), c)
    }
}

proof fn lemma_find(t: Seq<char>, c: char, i: int)
    requires
        0 <= i <= t.len(),
        forall|k: int| 0 <= k < i ==> t[k] != c,
        i == t.len() || t[i] == c,
    ensures
        find(t, c) == i,
    decreases i,
{
    if i > 0 {
        lemma_find(t.drop_first(), c, i - 1);
    }
}

/// The position of the first `c` in `t[lo..hi]`, counted from `lo`.
pub fn find_char(t: &Vec<char>, c: char, lo: usize, hi: usize) -> (r: usize)
    requires
        lo <= hi <= t@.len(),
    ensures
        r - lo == find(t@.subrange(lo as int, hi as int), c),
        lo <= r <= hi,
{
    let mut i: usize = lo;
    while i < hi
        invariant
            lo <= i <= hi,
            hi <= t@.len(),
            forall|k: int| lo <= k < i ==> t@[k] != c,
        decreases hi - i,
    {
        if t[i] == c {
            proof {
                lemma_find(t@.subrange(lo as int, hi as int), c, i - lo);
            }
            return i;
        }
        i = i + 1;
    }
    proof {
        lemma_find(t@.subrange(lo as int, hi as int), c, i - lo);
    }
    i
}

/// The characters `t[lo..hi]`.
pub fn slice_chars(t: &Vec<char>, lo: usize, hi: usize) -> (r: Vec<char>)
    requires
        lo <= hi <= t@.len(),
    ensures
        r@ == t@.subrange(lo as int, hi as int),
{
    let mut r: Vec<char> = Vec::new();
    let mut i: usize = lo;
    while i < hi
        invariant
            lo <= i <= hi,
            hi <= t@.len(),
            r@ == t@.subrange(lo as int, i as int),
        decreases hi - i,
    {
        r.push(t[i]);
        i = i + 1;
    }
    r
}

/// The words found so far in `s`, and the word being read at its end.
pub open spec fn split_state(s: Seq<char>) -> (Seq<Seq<char>>, Seq<char>)
    decreases s.len(),
{
    if s.len() == 0 {
        (seq![], seq![])
    } else {
        let (a, c) = split_state(s.drop_last());
        if is_ws(s.last()) {
            if c.len() > 0 {
                (a.push(c), seq![])
            } else {
                (a, c)
            }
        } else {
            (a, c.push(s.last()))
        }
    }
}

/// The maximal runs of non-whitespace characters of `s`, in order.
pub open spec fn words(s: Seq<char>) -> Seq<Seq<char>> {
    let (a, c) = split_state(s);
    if c.len() > 0 {
        a.push(c)
    } else {
        a
    }
}

pub open spec fn texts(tokens: Seq<String>) -> Seq<Seq<char>> {
    tokens.map_values(|t: String| t@)
}

/// Splits a line into its whitespace-separated words.
pub fn split_words(line: &str) -> (r: Vec<String>)
    ensures
        texts(r@) == words(line@),
{
    let s = chars_of(line);
    let mut acc: Vec<String> = Vec::new();
    let mut cur: Vec<char> = Vec::new();
    let mut i: usize = 0;
    while i < s.len()
        invariant
            i <= s@.len(),
            s@ == line@,
            texts(acc@) == split_state(s@.subrange(0, i as int)).0,
            cur@ == split_state(s@.subrange(0, i as int)).1,
        decreases s@.len() - i,
    {
        assert(s@.subrange(0, i + 1).drop_last() =~= s@.subrange(0, i as int));
        let c = s[i];
        if is_ws_char(c) {
            if cur.len() > 0 {
                let w = string_of(&cur);
                let ghost acc0 = acc@;
                acc.push(w);
                assert(texts(acc@) =~= texts(acc0).push(cur@));
                cur = Vec::new();
            }
        } else {
            cur.push(c);
        }
        i = i + 1;
    }
    assert(s@.subrange(0, i as int) =~= s@);
    if cur.len() > 0 {
        let w = string_of(&cur);
        let ghost acc0 = acc@;
        acc.push(w);
        assert(texts(acc@) =~= texts(acc0).push(cur@));
    }
    acc
}

} // verus!
