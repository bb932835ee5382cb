//! Text primitives over sequences of characters: splitting, trimming,
//! searching, decimal parsing and decimal formatting, each with the
//! meaning that std's `str` methods of the same name give them.
use vstd::prelude::*;

verus! {

// ---------------------------------------------------------------------
// Specifications
// ---------------------------------------------------------------------

/// Unicode `White_Space`, which is what `char::is_whitespace` tests.
pub open spec fn is_ws(c: char) -> bool {
    let u = c as u32;
    ||| u == 0x20
    ||| 0x09 <= u <= 0x0D
    ||| u == 0x85
    ||| u == 0xA0
    ||| u == 0x1680
    ||| 0x2000 <= u <= 0x200A
    ||| u == 0x2028
    ||| u == 0x2029
    ||| u == 0x202F
    ||| u == 0x205F
    ||| u == 0x3000
}

pub open spec fn is_digit(c: char) -> bool {
    0x30 <= (c as u32) <= 0x39
}

pub open spec fn digit_value(c: char) -> nat {
    ((c as u32) - 0x30) as nat
}

pub open spec fn all_digits(s: Seq<char>) -> bool {
    forall|i: int| 0 <= i < s.len() ==> #[trigger] is_digit(s[i])
}

/// The number that a string of decimal digits denotes.
pub open spec fn digits_value(s: Seq<char>) -> nat
    decreases s.len(),
{
    if s.len() == 0 {
        0
    } else {
        digits_value(s.drop_last()) * 10 + digit_value(s.last())
    }
}

/// What `str::parse` gives for an unsigned integer type whose largest value is `max`:
/// an optional `+`, then one or more decimal digits denoting at most `max`.
pub open spec fn parse_unsigned(s: Seq<char>, max: nat) -> Option<nat> {
    let body = if s.len() > 0 && s[0] == '+' { s.drop_first() } else { s };
    if body.len() > 0 && all_digits(body) && digits_value(body) <= max {
        Some(digits_value(body))
    } else {
        None
    }
}

/// What `str::parse::<i32>` gives: an optional sign, then one or more decimal
/// digits denoting a value in the range of `i32`.
pub open spec fn parse_i32_spec(s: Seq<char>) -> Option<int> {
    if s.len() > 0 && s[0] == '-' {
        let body = s.drop_first();
        if body.len() > 0 && all_digits(body) && digits_value(body) <= 0x8000_0000 {
            Some(-(digits_value(body) as int))
        } else {
            None
        }
    } else {
        match parse_unsigned(s, 0x7FFF_FFFF) {
            Some(v) => Some(v as int),
            None => None,
        }
    }
}

pub open spec fn digit_char(d: nat) -> char {
    ((d + 0x30) as u32) as char
}

/// The decimal notation of `n`, as `format!("{}", n)` writes it.
pub open spec fn decimal(n: nat) -> Seq<char>
    decreases n,
{
    if n < 10 {
        seq![digit_char(n)]
    } else {
        decimal(n / 10).push(digit_char(n % 10))
    }
}

/// `s` split at every occurrence of `d` (as `str::split` with a `char` pattern).
pub open spec fn split_on(s: Seq<char>, d: char) -> Seq<Seq<char>>
    decreases s.len(),
{
    if s.len() == 0 {
        seq![Seq::empty()]
    } else {
        let r = split_on(s.drop_last(), d);
        if s.last() == d {
            r.push(Seq::empty())
        } else {
            r.update(r.len() - 1, r.last().push(s.last()))
        }
    }
}

/// The pieces joined back together with `d` between them.
pub open spec fn join_with(parts: Seq<Seq<char>>, d: char) -> Seq<char>
    decreases parts.len(),
{
    if parts.len() == 0 {
        Seq::empty()
    } else if parts.len() == 1 {
        parts[0]
    } else {
        join_with(parts.drop_last(), d).push(d) + parts.last()
    }
}

pub open spec fn strip_cr(p: Seq<char>) -> Seq<char> {
    if p.len() > 0 && p.last() == '\r' {
        p.drop_last()
    } else {
        p
    }
}

/// The lines of `s`, as `str::lines` gives them: split at `\n`, a `\r` just
/// before a `\n` removed, and no empty line after a final `\n`.
pub open spec fn lines_of(s: Seq<char>) -> Seq<Seq<char>> {
    let parts = split_on(s, '\n');
    let body = parts.drop_last().map_values(|p: Seq<char>| strip_cr(p));
    if parts.last().len() == 0 {
        body
    } else {
        body.push(parts.last())
    }
}

/// The words seen so far and the word being read, scanning `s` from the left.
pub open spec fn words_state(s: Seq<char>) -> (Seq<Seq<char>>, Seq<char>)
    decreases s.len(),
{
    if s.len() == 0 {
        (Seq::empty(), Seq::empty())
    } else {
        let (w, cur) = words_state(s.drop_last());
        if is_ws(s.last()) {
            if cur.len() > 0 {
                (w.push(cur), Seq::empty())
            } else {
                (w, Seq::empty())
            }
        } else {
            (w, cur.push(s.last()))
        }
    }
}

/// The non-empty runs of non-whitespace characters (as `str::split_whitespace`).
pub open spec fn words(s: Seq<char>) -> Seq<Seq<char>> {
    let (w, cur) = words_state(s);
    if cur.len() > 0 {
        w.push(cur)
    } else {
        w
    }
}

/// `s` without leading characters for which `is_ws` holds.
pub open spec fn trim_start(s: Seq<char>) -> Seq<char>
    decreases s.len(),
{
    if s.len() > 0 && is_ws(s[0]) {
        trim_start(s.drop_first())
    } else {
        s
    }
}

pub open spec fn trim_end(s: Seq<char>) -> Seq<char>
    decreases s.len(),
{
    if s.len() > 0 && is_ws(s.last()) {
        trim_end(s.drop_last())
    } else {
        s
    }
}

/// `str::trim`.
pub open spec fn trim(s: Seq<char>) -> Seq<char> {
    trim_end(trim_start(s))
}

/// `s` without the leading and trailing copies of `c` (as `str::trim_matches(c)`).
pub open spec fn trim_char_start(s: Seq<char>, c: char) -> Seq<char>
    decreases s.len(),
{
    if s.len() > 0 && s[0] == c {
        trim_char_start(s.drop_first(), c)
    } else {
        s
    }
}

pub open spec fn trim_char_end(s: Seq<char>, c: char) -> Seq<char>
    decreases s.len(),
{
    if s.len() > 0 && s.last() == c {
        trim_char_end(s.drop_last(), c)
    } else {
        s
    }
}

pub open spec fn trim_char(s: Seq<char>, c: char) -> Seq<char> {
    trim_char_end(trim_char_start(s, c), c)
}

pub open spec fn has_prefix(s: Seq<char>, p: Seq<char>) -> bool {
    p.len() <= s.len() && s.take(p.len() as int) == p
}

pub open spec fn has_suffix(s: Seq<char>, p: Seq<char>) -> bool {
    p.len() <= s.len() && s.skip(s.len() - p.len()) == p
}

/// `p` occurs in `s` starting at index `i`.
pub open spec fn occurs_at(s: Seq<char>, p: Seq<char>, i: int) -> bool {
    0 <= i && i + p.len() <= s.len() && s.subrange(i, i + p.len()) == p
}

pub open spec fn contains(s: Seq<char>, p: Seq<char>) -> bool {
    exists|i: int| #[trigger] occurs_at(s, p, i)
}

/// The first index at or after `i` where `p` occurs in `s`.
pub open spec fn find_from(s: Seq<char>, p: Seq<char>, i: int) -> Option<int>
    decreases s.len() + 1 - i,
{
    if i < 0 || i + p.len() > s.len() {
        None
    } else if occurs_at(s, p, i) {
        Some(i)
    } else {
        find_from(s, p, i + 1)
    }
}

/// `str::find`: the first index where `p` occurs in `s`.
pub open spec fn find(s: Seq<char>, p: Seq<char>) -> Option<int> {
    find_from(s, p, 0)
}

/// The index of the last `c` in `s` (as `str::rfind` with a `char` pattern).
pub open spec fn rfind_char(s: Seq<char>, c: char) -> Option<int>
    decreases s.len(),
{
    if s.len() == 0 {
        None
    } else if s.last() == c {
        Some(s.len() - 1)
    } else {
        rfind_char(s.drop_last(), c)
    }
}

/// The index of the first `c` in `s` (as `str::find` with a `char` pattern).
pub open spec fn find_char(s: Seq<char>, c: char) -> Option<int> {
    find(s, seq![c])
}

/// The views of a sequence of character vectors.
pub open spec fn views(v: Seq<Vec<char>>) -> Seq<Seq<char>> {
    v.map_values(|x: Vec<char>| x@)
}

pub open spec fn contains_char(s: Seq<char>, c: char) -> bool {
    exists|i: int| 0 <= i < s.len() && #[trigger] s[i] == c
}

// ---------------------------------------------------------------------
// Lemmas
// ---------------------------------------------------------------------

pub proof fn lemma_split_nonempty(s: Seq<char>, d: char)
    ensures
        split_on(s, d).len() >= 1,
    decreases s.len(),
{
    if s.len() > 0 {
        lemma_split_nonempty(s.drop_last(), d);
    }
}

/// No piece of a split holds the separator.
pub proof fn lemma_split_pieces_free(s: Seq<char>, d: char)
    ensures
        forall|k: int, j: int|
            0 <= k < split_on(s, d).len() && 0 <= j < split_on(s, d)[k].len() ==> #[trigger] split_on(
                s,
                d,
            )[k][j] != d,
    decreases s.len(),
{
    lemma_split_nonempty(s, d);
    if s.len() > 0 {
        lemma_split_pieces_free(s.drop_last(), d);
        lemma_split_nonempty(s.drop_last(), d);
        let r = split_on(s.drop_last(), d);
        if s.last() != d {
            assert forall|k: int, j: int|
                0 <= k < split_on(s, d).len() && 0 <= j < split_on(s, d)[k].len() implies #[trigger] split_on(
                s,
                d,
            )[k][j] != d by {
                if k < r.len() - 1 {
                    assert(split_on(s, d)[k] == r[k]);
                } else {
                    assert(split_on(s, d)[k] == r.last().push(s.last()));
                    if j < r.last().len() {
                        assert(r[r.len() - 1][j] != d);
                    }
                }
            }
        } else {
            assert forall|k: int, j: int|
                0 <= k < split_on(s, d).len() && 0 <= j < split_on(s, d)[k].len() implies #[trigger] split_on(
                s,
                d,
            )[k][j] != d by {
                assert(k < r.len());
                assert(split_on(s, d)[k] == r[k]);
            }
        }
    }
}

/// Joining the pieces of a split with the separator gives back the text.
pub proof fn lemma_split_join(s: Seq<char>, d: char)
    ensures
        join_with(split_on(s, d), d) == s,
    decreases s.len(),
{
    if s.len() == 0 {
        assert(join_with(split_on(s, d), d) =~= s);
    } else {
        let r = split_on(s.drop_last(), d);
        lemma_split_join(s.drop_last(), d);
        lemma_split_nonempty(s.drop_last(), d);
        if s.last() == d {
            let n = r.push(Seq::empty());
            assert(n.drop_last() =~= r);
            assert(join_with(n, d) =~= join_with(r, d).push(d) + Seq::empty());
            assert(s =~= s.drop_last().push(d));
        } else {
            let n = r.update(r.len() - 1, r.last().push(s.last()));
            if r.len() == 1 {
                assert(join_with(n, d) == n[0]);
                assert(s =~= s.drop_last().push(s.last()));
            } else {
                assert(n.drop_last() =~= r.drop_last());
                assert(join_with(r, d) == join_with(r.drop_last(), d).push(d) + r.last());
                assert(join_with(n, d) =~= join_with(r, d).push(s.last()));
                assert(s =~= s.drop_last().push(s.last()));
            }
        }
    }
}

pub proof fn lemma_digits_value_push(s: Seq<char>, c: char)
    ensures
        digits_value(s.push(c)) == digits_value(s) * 10 + digit_value(c),
{
    assert(s.push(c).drop_last() =~= s);
}

/// Decimal notation consists of digits, starts with one, and denotes its number.
pub proof fn lemma_decimal(n: nat)
    ensures
        decimal(n).len() > 0,
        all_digits(decimal(n)),
        digits_value(decimal(n)) == n,
        is_digit(decimal(n)[0]),
    decreases n,
{
    if n < 10 {
        assert(digits_value(decimal(n)) == digits_value(decimal(n).drop_last()) * 10 + digit_value(
            decimal(n).last(),
        ));
        assert(decimal(n).drop_last() =~= Seq::<char>::empty());
    } else {
        lemma_decimal(n / 10);
        let p = decimal(n / 10);
        let c = digit_char(n % 10);
        lemma_digits_value_push(p, c);
        assert(decimal(n) == p.push(c));
        assert(decimal(n)[0] == p[0]);
        assert forall|i: int| 0 <= i < decimal(n).len() implies #[trigger] is_digit(decimal(n)[i]) by {
            if i < p.len() {
                assert(decimal(n)[i] == p[i]);
            }
        }
    }
}

/// Reading back the decimal notation of a number gives the number.
pub proof fn lemma_parse_decimal(n: nat, max: nat)
    requires
        n <= max,
    ensures
        parse_unsigned(decimal(n), max) == Some(n),
{
    lemma_decimal(n);
}

proof fn lemma_digits_value_monotone(s: Seq<char>, i: int)
    requires
        0 <= i <= s.len(),
    ensures
        digits_value(s.take(i)) <= digits_value(s),
    decreases s.len() - i,
{
    if i < s.len() {
        lemma_digits_value_monotone(s, i + 1);
        assert(s.take(i + 1).drop_last() =~= s.take(i));
    } else {
        assert(s.take(i) =~= s);
    }
}

// ---------------------------------------------------------------------
// Executable functions
// ---------------------------------------------------------------------

/// Appends one character to a `String` (std's `String::push`).
#[verifier::external_body]
pub(crate) fn string_push(s: &mut String, c: char)
    ensures
        final(s)@ == old(s)@.push(c),
{
    s.push(c);
}

/// The characters of a string slice, in order.
pub fn chars_of(s: &str) -> (v: Vec<char>)
    ensures
        v@ == s@,
{
    let n = s.unicode_len();
    let mut v: Vec<char> = Vec::new();
    let mut i: usize = 0;
    while i < n
        invariant
            n == s@.len(),
            i <= n,
            v@ == s@.take(i as int),
        decreases n - i,
    {
        let c = s.get_char(i);
        v.push(c);
        i = i + 1;
        assert(v@ =~= s@.take(i as int));
    }
    assert(s@.take(n as int) =~= s@);
    v
}

/// A `String` holding exactly the given characters.
pub fn string_from_chars(v: &[char]) -> (s: String)
    ensures
        s@ == v@,
{
    let mut s = String::new();
    let mut i: usize = 0;
    while i < v.len()
        invariant
            i <= v@.len(),
            s@ == v@.take(i as int),
        decreases v@.len() - i,
    {
        string_push(&mut s, v[i]);
        i = i + 1;
        assert(s@ =~= v@.take(i as int));
    }
    assert(v@.take(v@.len() as int) =~= v@);
    s
}

/// Appends characters to the end of a vector.
pub fn extend_chars(dst: &mut Vec<char>, src: &[char])
    ensures
        final(dst)@ == old(dst)@ + src@,
{
    let mut i: usize = 0;
    while i < src.len()
        invariant
            i <= src@.len(),
            dst@ == old(dst)@ + src@.take(i as int),
        decreases src@.len() - i,
    {
        dst.push(src[i]);
        i = i + 1;
        assert(dst@ =~= old(dst)@ + src@.take(i as int));
    }
    assert(src@.take(src@.len() as int) =~= src@);
}

/// Appends the characters of a string slice to the end of a vector.
pub fn extend_str(dst: &mut Vec<char>, src: &str)
    ensures
        final(dst)@ == old(dst)@ + src@,
{
    let v = chars_of(src);
    extend_chars(dst, v.as_slice());
}

/// The characters from `from` up to `to`.
pub fn slice_chars(s: &[char], from: usize, to: usize) -> (r: Vec<char>)
    requires
        from <= to <= s@.len(),
    ensures
        r@ == s@.subrange(from as int, to as int),
{
    let mut r: Vec<char> = Vec::new();
    let mut i: usize = from;
    while i < to
        invariant
            from <= i <= to <= s@.len(),
            r@ == s@.subrange(from as int, i as int),
        decreases to - i,
    {
        r.push(s[i]);
        i = i + 1;
        assert(r@ =~= s@.subrange(from as int, i as int));
    }
    r
}

pub fn is_ws_char(c: char) -> (r: bool)
    ensures
        r == is_ws(c),
{
    let u = c as u32;
    u == 0x20 || (0x09 <= u && u <= 0x0D) || u == 0x85 || u == 0xA0 || u == 0x1680 || (0x2000
        <= u && u <= 0x200A) || u == 0x2028 || u == 0x2029 || u == 0x202F || u == 0x205F || u
        == 0x3000
}

/// Whether two character sequences are equal.
pub fn chars_eq(a: &[char], b: &[char]) -> (r: bool)
    ensures
        r == (a@ == b@),
{
    if a.len() != b.len() {
        return false;
    }
    let mut i: usize = 0;
    while i < a.len()
        invariant
            a@.len() == b@.len(),
            i <= a@.len(),
            forall|j: int| 0 <= j < i ==> a@[j] == b@[j],
        decreases a@.len() - i,
    {
        if a[i] != b[i] {
            return false;
        }
        i = i + 1;
    }
    assert(a@ =~= b@);
    true
}

/// Whether `p` occurs in `s` at index `i`.
pub fn occurs_at_exec(s: &[char], p: &[char], i: usize) -> (r: bool)
    ensures
        r == occurs_at(s@, p@, i as int),
{
    if i > s.len() || p.len() > s.len() - i {
        return false;
    }
    let n = s.len();
    let mut j: usize = 0;
    while j < p.len()
        invariant
            n == s@.len(),
            i + p@.len() <= s@.len(),
            j <= p@.len(),
            forall|k: int| 0 <= k < j ==> s@[i + k] == p@[k],
        decreases p@.len() - j,
    {
        assert(i + j < n);
        if s[i + j] != p[j] {
            assert(s@.subrange(i as int, i + p@.len())[j as int] != p@[j as int]);
            return false;
        }
        j = j + 1;
    }
    assert(s@.subrange(i as int, i + p@.len()) =~= p@);
    true
}

pub fn starts_with(s: &[char], p: &[char]) -> (r: bool)
    ensures
        r == has_prefix(s@, p@),
{
    let r = occurs_at_exec(s, p, 0);
    assert(s@.take(p@.len() as int) =~= s@.subrange(0, p@.len() as int));
    r
}

pub fn ends_with(s: &[char], p: &[char]) -> (r: bool)
    ensures
        r == has_suffix(s@, p@),
{
    if p.len() > s.len() {
        return false;
    }
    let r = occurs_at_exec(s, p, s.len() - p.len());
    assert(s@.skip(s@.len() - p@.len()) =~= s@.subrange(
        s@.len() - p@.len(),
        s@.len() - p@.len() + p@.len(),
    ));
    r
}

/// The first index where `p` occurs in `s` (as `str::find`).
pub fn find_exec(s: &[char], p: &[char]) -> (r: Option<usize>)
    ensures
        match r {
            Some(i) => find(s@, p@) == Some(i as int),
            None => find(s@, p@) is None,
        },
{
    if p.len() > s.len() {
        return None;
    }
    if p.len() == 0 {
        assert(s@.subrange(0, 0) =~= p@);
        return Some(0);
    }
    let n = s.len();
    let last = n - p.len();
    let mut i: usize = 0;
    while i <= last
        invariant
            n == s@.len(),
            last + p@.len() == n,
            p@.len() >= 1,
            i <= last + 1,
            find(s@, p@) == find_from(s@, p@, i as int),
        decreases last + 1 - i,
    {
        if occurs_at_exec(s, p, i) {
            return Some(i);
        }
        i = i + 1;
    }
    None
}

proof fn lemma_find_from_some(s: Seq<char>, p: Seq<char>, i: int)
    requires
        0 <= i,
    ensures
        find_from(s, p, i) matches Some(k) ==> occurs_at(s, p, k) && i <= k,
        find_from(s, p, i) is None ==> forall|k: int| i <= k ==> !#[trigger] occurs_at(s, p, k),
    decreases s.len() + 1 - i,
{
    if i < 0 || i + p.len() > s.len() {
        if i >= 0 {
            assert forall|k: int| i <= k implies !#[trigger] occurs_at(s, p, k) by {}
        }
    } else if occurs_at(s, p, i) {
    } else {
        lemma_find_from_some(s, p, i + 1);
        if find_from(s, p, i) is None {
            assert forall|k: int| i <= k implies !#[trigger] occurs_at(s, p, k) by {
                if k > i {
                }
            }
        }
    }
}

/// `find` gives an occurrence, and none exists where it gives none.
pub proof fn lemma_find(s: Seq<char>, p: Seq<char>)
    ensures
        find(s, p) matches Some(k) ==> occurs_at(s, p, k) && 0 <= k,
        find(s, p) is None <==> !contains(s, p),
{
    lemma_find_from_some(s, p, 0);
    if find(s, p) is None {
        assert forall|k: int| !#[trigger] occurs_at(s, p, k) by {
            if k >= 0 {
            }
        }
    }
}

/// Whether `p` occurs anywhere in `s` (as `str::contains`).
pub fn contains_exec(s: &[char], p: &[char]) -> (r: bool)
    ensures
        r == contains(s@, p@),
{
    let f = find_exec(s, p);
    proof {
        lemma_find(s@, p@);
    }
    f.is_some()
}

/// Whether the character `c` occurs in `s`.
pub fn contains_char_exec(s: &[char], c: char) -> (r: bool)
    ensures
        r == contains_char(s@, c),
{
    let mut i: usize = 0;
    while i < s.len()
        invariant
            i <= s@.len(),
            forall|j: int| 0 <= j < i ==> s@[j] != c,
        decreases s@.len() - i,
    {
        if s[i] == c {
            return true;
        }
        i = i + 1;
    }
    false
}

/// The last `c` found stands in the text and is a `c`.
pub proof fn lemma_rfind_char_bound(s: Seq<char>, c: char)
    ensures
        rfind_char(s, c) matches Some(k) ==> 0 <= k < s.len() && s[k] == c,
    decreases s.len(),
{
    if s.len() > 0 && s.last() != c {
        lemma_rfind_char_bound(s.drop_last(), c);
    }
}

/// The index of the last `c` in `s`.
pub fn rfind_char_exec(s: &[char], c: char) -> (r: Option<usize>)
    ensures
        match r {
            Some(i) => rfind_char(s@, c) == Some(i as int) && i < s@.len() && s@[i as int] == c,
            None => rfind_char(s@, c) is None,
        },
{
    let mut i: usize = s.len();
    assert(s@.take(i as int) =~= s@);
    while i > 0
        invariant
            i <= s@.len(),
            rfind_char(s@, c) == rfind_char(s@.take(i as int), c),
        decreases i,
    {
        assert(s@.take(i as int).last() == s@[i - 1]);
        assert(s@.take(i as int).drop_last() =~= s@.take(i - 1));
        if s[i - 1] == c {
            return Some(i - 1);
        }
        i = i - 1;
    }
    None
}

/// The index of the first `c` in `s`.
pub fn find_char_exec(s: &[char], c: char) -> (r: Option<usize>)
    ensures
        match r {
            Some(i) => find_char(s@, c) == Some(i as int) && i < s@.len() && s@[i as int] == c,
            None => find_char(s@, c) is None,
        },
{
    let mut p: Vec<char> = Vec::new();
    p.push(c);
    assert(p@ =~= seq![c]);
    let r = find_exec(s, p.as_slice());
    proof {
        lemma_find(s@, p@);
        if let Some(i) = r {
            assert(s@.subrange(i as int, i + 1)[0] == s@[i as int]);
        }
    }
    r
}

/// `s` split at every `d` (as `str::split`).
pub fn split_exec(s: &[char], d: char) -> (r: Vec<Vec<char>>)
    ensures
        views(r@) == split_on(s@, d),
{
    let mut pieces: Vec<Vec<char>> = Vec::new();
    let mut cur: Vec<char> = Vec::new();
    let mut i: usize = 0;
    assert(s@.take(0) =~= Seq::<char>::empty());
    assert(views(pieces@).push(cur@) =~= split_on(s@.take(0), d));
    while i < s.len()
        invariant
            i <= s@.len(),
            views(pieces@).push(cur@) == split_on(s@.take(i as int), d),
        decreases s@.len() - i,
    {
        let c = s[i];
        let ghost prev = views(pieces@);
        let ghost prev_cur = cur@;
        assert(s@.take(i + 1).drop_last() =~= s@.take(i as int));
        assert(s@.take(i + 1).last() == c);
        if c == d {
            let done = cur;
            pieces.push(done);
            cur = Vec::new();
            assert(views(pieces@) =~= prev.push(prev_cur));
        } else {
            cur.push(c);
            assert(views(pieces@) =~= prev);
        }
        i = i + 1;
        assert(views(pieces@).push(cur@) =~= split_on(s@.take(i as int), d));
    }
    pieces.push(cur);
    assert(s@.take(s@.len() as int) =~= s@);
    pieces
}

/// The lines of `s` (as `str::lines`).
pub fn lines_exec(s: &[char]) -> (r: Vec<Vec<char>>)
    ensures
        views(r@) == lines_of(s@),
{
    let parts = split_exec(s, '\n');
    proof {
        lemma_split_nonempty(s@, '\n');
    }
    let n = parts.len();
    let ghost pv = views(parts@);
    let mut out: Vec<Vec<char>> = Vec::new();
    let mut i: usize = 0;
    while i + 1 < n
        invariant
            n == parts@.len(),
            n >= 1,
            pv == views(parts@),
            pv == split_on(s@, '\n'),
            i + 1 <= n,
            views(out@) == pv.drop_last().map_values(|p: Seq<char>| strip_cr(p)).take(i as int),
        decreases n - i,
    {
        let p = &parts[i];
        let piece = if p.len() > 0 && p[p.len() - 1] == '\r' {
            slice_chars(p.as_slice(), 0, p.len() - 1)
        } else {
            slice_chars(p.as_slice(), 0, p.len())
        };
        proof {
            assert(pv[i as int] == p@);
            assert(p@.drop_last() =~= p@.subrange(0, p@.len() - 1));
            assert(p@ =~= p@.subrange(0, p@.len() as int));
        }
        let ghost before = views(out@);
        out.push(piece);
        i = i + 1;
        assert(views(out@) =~= before.push(strip_cr(pv[i - 1])));
        assert(views(out@) =~= pv.drop_last().map_values(|p: Seq<char>| strip_cr(p)).take(
            i as int,
        ));
    }
    assert(pv.drop_last().map_values(|p: Seq<char>| strip_cr(p)).take(i as int)
        =~= pv.drop_last().map_values(|p: Seq<char>| strip_cr(p)));
    let last = &parts[n - 1];
    if last.len() > 0 {
        let ghost before = views(out@);
        let piece = slice_chars(last.as_slice(), 0, last.len());
        assert(last@ =~= last@.subrange(0, last@.len() as int));
        out.push(piece);
        assert(views(out@) =~= before.push(pv.last()));
    }
    out
}

/// The whitespace-separated words of `s` (as `str::split_whitespace`).
pub fn words_exec(s: &[char]) -> (r: Vec<Vec<char>>)
    ensures
        views(r@) == words(s@),
{
    let mut w: Vec<Vec<char>> = Vec::new();
    let mut cur: Vec<char> = Vec::new();
    let mut i: usize = 0;
    assert(s@.take(0) =~= Seq::<char>::empty());
    while i < s.len()
        invariant
            i <= s@.len(),
            words_state(s@.take(i as int)) == (views(w@), cur@),
        decreases s@.len() - i,
    {
        let c = s[i];
        let ghost pw = views(w@);
        let ghost pc = cur@;
        assert(s@.take(i + 1).drop_last() =~= s@.take(i as int));
        assert(s@.take(i + 1).last() == c);
        if is_ws_char(c) {
            if cur.len() > 0 {
                let done = cur;
                w.push(done);
                assert(views(w@) =~= pw.push(pc));
            }
            cur = Vec::new();
            assert(cur@ =~= Seq::<char>::empty());
        } else {
            cur.push(c);
        }
        i = i + 1;
        assert(words_state(s@.take(i as int)) == (views(w@), cur@));
    }
    assert(s@.take(s@.len() as int) =~= s@);
    if cur.len() > 0 {
        let ghost pw = views(w@);
        let ghost pc = cur@;
        w.push(cur);
        assert(views(w@) =~= pw.push(pc));
    }
    w
}

proof fn lemma_trim_start_skip(s: Seq<char>, i: int)
    requires
        0 <= i <= s.len(),
        forall|j: int| 0 <= j < i ==> #[trigger] is_ws(s[j]),
    ensures
        trim_start(s) == trim_start(s.skip(i)),
    decreases i,
{
    if i > 0 {
        assert(s.drop_first().skip(i - 1) =~= s.skip(i));
        assert forall|j: int| 0 <= j < i - 1 implies #[trigger] is_ws(s.drop_first()[j]) by {
            assert(s.drop_first()[j] == s[j + 1]);
        }
        lemma_trim_start_skip(s.drop_first(), i - 1);
    } else {
        assert(s.skip(0) =~= s);
    }
}

proof fn lemma_trim_end_take(s: Seq<char>, i: int)
    requires
        0 <= i <= s.len(),
        forall|j: int| i <= j < s.len() ==> #[trigger] is_ws(s[j]),
    ensures
        trim_end(s) == trim_end(s.take(i)),
    decreases s.len() - i,
{
    if i < s.len() {
        assert(s.drop_last().take(i) =~= s.take(i));
        lemma_trim_end_take(s.drop_last(), i);
    } else {
        assert(s.take(i) =~= s);
    }
}

/// `s` without leading and trailing whitespace (as `str::trim`).
pub fn trim_exec(s: &[char]) -> (r: Vec<char>)
    ensures
        r@ == trim(s@),
{
    let mut a: usize = 0;
    while a < s.len() && is_ws_char(s[a])
        invariant
            a <= s@.len(),
            forall|j: int| 0 <= j < a ==> #[trigger] is_ws(s@[j]),
        decreases s@.len() - a,
    {
        a = a + 1;
    }
    proof {
        lemma_trim_start_skip(s@, a as int);
        if a < s@.len() {
            assert(s@.skip(a as int)[0] == s@[a as int]);
        }
    }
    let mut b: usize = s.len();
    while b > a && is_ws_char(s[b - 1])
        invariant
            a <= b <= s@.len(),
            forall|j: int| b <= j < s@.len() ==> #[trigger] is_ws(s@[j]),
        decreases b,
    {
        b = b - 1;
    }
    let r = slice_chars(s, a, b);
    proof {
        let t = s@.skip(a as int);
        assert(trim_start(s@) == t);
        assert forall|j: int| (b - a) <= j < t.len() implies #[trigger] is_ws(t[j]) by {
            assert(t[j] == s@[j + a]);
        }
        lemma_trim_end_take(t, (b - a) as int);
        assert(t.take((b - a) as int) =~= s@.subrange(a as int, b as int));
        let u = t.take((b - a) as int);
        if u.len() > 0 {
            assert(u.last() == s@[b - 1]);
        }
    }
    r
}

proof fn lemma_trim_char_start_skip(s: Seq<char>, c: char, i: int)
    requires
        0 <= i <= s.len(),
        forall|j: int| 0 <= j < i ==> #[trigger] s[j] == c,
    ensures
        trim_char_start(s, c) == trim_char_start(s.skip(i), c),
    decreases i,
{
    if i > 0 {
        assert(s.drop_first().skip(i - 1) =~= s.skip(i));
        assert forall|j: int| 0 <= j < i - 1 implies #[trigger] s.drop_first()[j] == c by {
            assert(s.drop_first()[j] == s[j + 1]);
        }
        lemma_trim_char_start_skip(s.drop_first(), c, i - 1);
    } else {
        assert(s.skip(0) =~= s);
    }
}

proof fn lemma_trim_char_end_take(s: Seq<char>, c: char, i: int)
    requires
        0 <= i <= s.len(),
        forall|j: int| i <= j < s.len() ==> #[trigger] s[j] == c,
    ensures
        trim_char_end(s, c) == trim_char_end(s.take(i), c),
    decreases s.len() - i,
{
    if i < s.len() {
        assert(s.drop_last().take(i) =~= s.take(i));
        lemma_trim_char_end_take(s.drop_last(), c, i);
    } else {
        assert(s.take(i) =~= s);
    }
}

/// `s` without leading and trailing copies of `c` (as `str::trim_matches(c)`).
pub fn trim_char_exec(s: &[char], c: char) -> (r: Vec<char>)
    ensures
        r@ == trim_char(s@, c),
{
    let mut a: usize = 0;
    while a < s.len() && s[a] == c
        invariant
            a <= s@.len(),
            forall|j: int| 0 <= j < a ==> #[trigger] s@[j] == c,
        decreases s@.len() - a,
    {
        a = a + 1;
    }
    proof {
        lemma_trim_char_start_skip(s@, c, a as int);
        if a < s@.len() {
            assert(s@.skip(a as int)[0] == s@[a as int]);
        }
    }
    let mut b: usize = s.len();
    while b > a && s[b - 1] == c
        invariant
            a <= b <= s@.len(),
            forall|j: int| b <= j < s@.len() ==> #[trigger] s@[j] == c,
        decreases b,
    {
        b = b - 1;
    }
    let r = slice_chars(s, a, b);
    proof {
        let t = s@.skip(a as int);
        assert(trim_char_start(s@, c) == t);
        assert forall|j: int| (b - a) <= j < t.len() implies #[trigger] t[j] == c by {
            assert(t[j] == s@[j + a]);
        }
        lemma_trim_char_end_take(t, c, (b - a) as int);
        assert(t.take((b - a) as int) =~= s@.subrange(a as int, b as int));
        let u = t.take((b - a) as int);
        if u.len() > 0 {
            assert(u.last() == s@[b - 1]);
        }
    }
    r
}

/// Reads a run of decimal digits, failing once the value passes `max`.
fn digits_to_u64(s: &[char], max: u64) -> (r: Option<u64>)
    ensures
        match r {
            Some(v) => all_digits(s@) && digits_value(s@) == v && v <= max,
            None => !(all_digits(s@) && digits_value(s@) <= max),
        },
{
    let mut v: u64 = 0;
    let mut i: usize = 0;
    assert(s@.take(0) =~= Seq::<char>::empty());
    while i < s.len()
        invariant
            i <= s@.len(),
            all_digits(s@.take(i as int)),
            digits_value(s@.take(i as int)) == v,
            v <= max,
        decreases s@.len() - i,
    {
        let c = s[i];
        assert(s@.take(i + 1).drop_last() =~= s@.take(i as int));
        assert(s@.take(i + 1).last() == c);
        let u = c as u32;
        if !(0x30 <= u && u <= 0x39) {
            assert(!is_digit(s@[i as int]));
            return None;
        }
        let d = (u - 0x30) as u64;
        if d > max || v > (max - d) / 10 {
            proof {
                assert(v * 10 + d > max) by (nonlinear_arith)
                    requires
                        d > max || v > (max - d) / 10,
                        d <= 9,
                ;
                lemma_digits_value_monotone(s@, i + 1);
            }
            assert(!(all_digits(s@) && digits_value(s@) <= max));
            return None;
        }
        proof {
            assert(v * 10 + d <= max) by (nonlinear_arith)
                requires
                    v <= (max - d) / 10,
                    d <= max,
            ;
        }
        v = v * 10 + d;
        i = i + 1;
        assert forall|j: int| 0 <= j < i implies #[trigger] is_digit(s@.take(i as int)[j]) by {
            if j < i - 1 {
                assert(s@.take(i as int)[j] == s@.take(i - 1)[j]);
            }
        }
    }
    assert(s@.take(s@.len() as int) =~= s@);
    Some(v)
}

/// Unsigned decimal parsing with an upper bound, as `str::parse` does it for
/// an unsigned type whose largest value is `max`.
pub fn parse_unsigned_exec(s: &[char], max: u64) -> (r: Option<u64>)
    ensures
        match r {
            Some(v) => parse_unsigned(s@, max as nat) == Some(v as nat),
            None => parse_unsigned(s@, max as nat) is None,
        },
{
    let body = if s.len() > 0 && s[0] == '+' {
        slice_chars(s, 1, s.len())
    } else {
        slice_chars(s, 0, s.len())
    };
    assert(s@.drop_first() =~= s@.subrange(1, s@.len() as int));
    assert(s@ =~= s@.subrange(0, s@.len() as int));
    if body.len() == 0 {
        return None;
    }
    digits_to_u64(body.as_slice(), max)
}

pub fn parse_u32(s: &[char]) -> (r: Option<u32>)
    ensures
        match r {
            Some(v) => parse_unsigned(s@, u32::MAX as nat) == Some(v as nat),
            None => parse_unsigned(s@, u32::MAX as nat) is None,
        },
{
    match parse_unsigned_exec(s, 0xFFFF_FFFF) {
        Some(v) => Some(v as u32),
        None => None,
    }
}

pub fn parse_u64(s: &[char]) -> (r: Option<u64>)
    ensures
        match r {
            Some(v) => parse_unsigned(s@, u64::MAX as nat) == Some(v as nat),
            None => parse_unsigned(s@, u64::MAX as nat) is None,
        },
{
    parse_unsigned_exec(s, 0xFFFF_FFFF_FFFF_FFFF)
}

pub fn parse_u8(s: &[char]) -> (r: Option<u8>)
    ensures
        match r {
            Some(v) => parse_unsigned(s@, u8::MAX as nat) == Some(v as nat),
            None => parse_unsigned(s@, u8::MAX as nat) is None,
        },
{
    match parse_unsigned_exec(s, 0xFF) {
        Some(v) => Some(v as u8),
        None => None,
    }
}

/// Signed decimal parsing, as `str::parse::<i32>` does it.
pub fn parse_i32(s: &[char]) -> (r: Option<i32>)
    ensures
        match r {
            Some(v) => parse_i32_spec(s@) == Some(v as int),
            None => parse_i32_spec(s@) is None,
        },
{
    if s.len() > 0 && s[0] == '-' {
        let body = slice_chars(s, 1, s.len());
        assert(s@.drop_first() =~= body@);
        if body.len() == 0 {
            return None;
        }
        match digits_to_u64(body.as_slice(), 0x8000_0000) {
            Some(m) => {
                let v: i64 = 0i64 - (m as i64);
                Some(v as i32)
            },
            None => None,
        }
    } else {
        match parse_unsigned_exec(s, 0x7FFF_FFFF) {
            Some(v) => Some(v as i32),
            None => None,
        }
    }
}

/// The decimal notation of `n` (as `format!("{}", n)`).
pub fn decimal_exec(n: u64) -> (r: Vec<char>)
    ensures
        r@ == decimal(n as nat),
    decreases n,
{
    if n < 10 {
        let c = ((n as u32) + 0x30) as u8 as char;
        assert(c == digit_char(n as nat));
        let mut v: Vec<char> = Vec::new();
        v.push(c);
        assert(v@ =~= seq![digit_char(n as nat)]);
        v
    } else {
        let mut v = decimal_exec(n / 10);
        let c = (((n % 10) as u32) + 0x30) as u8 as char;
        assert(c == digit_char((n % 10) as nat));
        v.push(c);
        v
    }
}

/// The text of the lines `ls`, each followed by a line break.
pub open spec fn lines_text(ls: Seq<Seq<char>>) -> Seq<char>
    decreases ls.len(),
{
    if ls.len() == 0 {
        Seq::empty()
    } else {
        lines_text(ls.drop_last()) + ls.last() + seq!['\n']
    }
}

/// A text without the separator splits into itself alone.
pub(crate) proof fn lemma_split_free(l: Seq<char>, d: char)
    requires
        forall|j: int| 0 <= j < l.len() ==> l[j] != d,
    ensures
        split_on(l, d) == seq![l],
    decreases l.len(),
{
    if l.len() == 0 {
        assert(l =~= Seq::<char>::empty());
        assert(split_on(l, d) =~= seq![l]);
    } else {
        lemma_split_free(l.drop_last(), d);
        assert(l.last() != d);
        let r = split_on(l.drop_last(), d);
        assert(r == seq![l.drop_last()]);
        assert(r.last().push(l.last()) =~= l);
        assert(split_on(l, d) == r.update(0, r.last().push(l.last())));
        assert(split_on(l, d) =~= seq![l]);
    }
}

proof fn lemma_split_concat(a: Seq<char>, b: Seq<char>, d: char)
    requires
        a.len() > 0,
        a.last() == d,
    ensures
        split_on(a + b, d) == split_on(a, d).drop_last() + split_on(b, d),
    decreases b.len(),
{
    lemma_split_nonempty(a.drop_last(), d);
    if b.len() == 0 {
        assert(a + b =~= a);
        assert(split_on(a, d) =~= split_on(a, d).drop_last() + split_on(b, d));
    } else {
        lemma_split_concat(a, b.drop_last(), d);
        lemma_split_nonempty(b.drop_last(), d);
        let s = a + b;
        assert(s.drop_last() =~= a + b.drop_last());
        assert(s.last() == b.last());
        let x = split_on(a, d).drop_last();
        let y = split_on(b.drop_last(), d);
        assert(split_on(s.drop_last(), d) == x + y);
        if b.last() == d {
            assert((x + y).push(Seq::empty()) =~= x + y.push(Seq::empty()));
        } else {
            let n = (x + y).len();
            assert((x + y).update(n - 1, (x + y).last().push(b.last())) =~= x + y.update(
                y.len() - 1,
                y.last().push(b.last()),
            ));
        }
    }
}

/// No line break in `l`.
pub open spec fn no_newline(l: Seq<char>) -> bool {
    forall|j: int| 0 <= j < l.len() ==> l[j] != '\n'
}

/// Lines without line breaks, written out each with a line break, split at the
/// line breaks into the same lines and a last, empty piece.
pub proof fn lemma_split_lines_text(ls: Seq<Seq<char>>)
    requires
        forall|i: int| 0 <= i < ls.len() ==> no_newline(#[trigger] ls[i]),
    ensures
        split_on(lines_text(ls), '\n') == ls.push(Seq::empty()),
    decreases ls.len(),
{
    if ls.len() == 0 {
        assert(split_on(lines_text(ls), '\n') =~= ls.push(Seq::empty()));
    } else {
        let p = ls.drop_last();
        let l = ls.last();
        assert(no_newline(ls[ls.len() - 1]));
        assert forall|i: int| 0 <= i < p.len() implies no_newline(#[trigger] p[i]) by {
            assert(no_newline(ls[i]));
        }
        lemma_split_lines_text(p);
        lemma_split_free(l, '\n');
        let tail = l + seq!['\n'];
        assert(tail.drop_last() =~= l);
        assert(split_on(tail, '\n') =~= seq![l, Seq::empty()]);
        assert(lines_text(ls) =~= lines_text(p) + tail);
        if p.len() == 0 {
            assert(lines_text(p) + tail =~= tail);
            assert(ls =~= seq![l]);
            assert(split_on(lines_text(ls), '\n') =~= ls.push(Seq::empty()));
        } else {
            let a = lines_text(p);
            assert(a =~= lines_text(p.drop_last()) + p.last() + seq!['\n']);
            assert(a.last() == '\n');
            lemma_split_concat(a, tail, '\n');
            assert(split_on(lines_text(ls), '\n') =~= ls.push(Seq::empty()));
        }
    }
}

/// Lines without line breaks, written out each with a line break, read back as
/// the same lines, each without a carriage return at its end.
pub proof fn lemma_lines_text_stripped(ls: Seq<Seq<char>>)
    requires
        forall|i: int| 0 <= i < ls.len() ==> no_newline(#[trigger] ls[i]),
    ensures
        lines_of(lines_text(ls)) == ls.map_values(|p: Seq<char>| strip_cr(p)),
{
    lemma_split_lines_text(ls);
    let parts = split_on(lines_text(ls), '\n');
    assert(parts.drop_last() =~= ls);
}

proof fn lemma_lines_text_push(ls: Seq<Seq<char>>, l: Seq<char>)
    ensures
        lines_text(ls.push(l)) == lines_text(ls) + l + seq!['\n'],
{
    assert(ls.push(l).drop_last() =~= ls);
}

/// The text of two runs of lines is the text of the first, then of the second.
pub proof fn lemma_lines_text_concat(a: Seq<Seq<char>>, b: Seq<Seq<char>>)
    ensures
        lines_text(a + b) == lines_text(a) + lines_text(b),
    decreases b.len(),
{
    if b.len() == 0 {
        assert(a + b =~= a);
        assert(lines_text(a) + lines_text(b) =~= lines_text(a));
    } else {
        let p = b.drop_last();
        lemma_lines_text_concat(a, p);
        assert(a + b =~= (a + p).push(b.last()));
        assert(b =~= p.push(b.last()));
        lemma_lines_text_push(a + p, b.last());
        lemma_lines_text_push(p, b.last());
        assert(lines_text(a + b) =~= lines_text(a) + lines_text(b));
    }
}

/// The text of a single line: the line and a line break.
pub proof fn lemma_lines_text_one(l: Seq<char>)
    ensures
        lines_text(seq![l]) == l + seq!['\n'],
{
    let s = seq![l];
    assert(s.drop_last() =~= Seq::<Seq<char>>::empty());
    assert(s.last() == l);
    assert(lines_text(s.drop_last()) == Seq::<char>::empty());
    assert(lines_text(s) == lines_text(s.drop_last()) + s.last() + seq!['\n']);
    assert(lines_text(s) =~= l + seq!['\n']);
}

proof fn lemma_trim_end_prefixed(p: Seq<char>, s: Seq<char>)
    requires
        p.len() > 0,
        !is_ws(p.last()),
    ensures
        trim_end(p + s) == p + trim_end(s),
    decreases s.len(),
{
    if s.len() == 0 {
        assert(p + s =~= p);
        assert(p + trim_end(s) =~= p);
    } else {
        assert((p + s).last() == s.last());
        assert((p + s).drop_last() =~= p + s.drop_last());
        lemma_trim_end_prefixed(p, s.drop_last());
    }
}

/// Trimming a text that starts with `p`, which neither starts nor ends with white
/// space, keeps `p` and trims the end of the rest.
pub proof fn lemma_trim_prefixed(p: Seq<char>, s: Seq<char>)
    requires
        p.len() > 0,
        !is_ws(p[0]),
        !is_ws(p.last()),
    ensures
        trim(p + s) == p + trim_end(s),
{
    assert((p + s)[0] == p[0]);
    assert(trim_start(p + s) == p + s);
    lemma_trim_end_prefixed(p, s);
}

proof fn lemma_rfind_absent(p: Seq<char>, c: char)
    requires
        forall|j: int| 0 <= j < p.len() ==> p[j] != c,
    ensures
        rfind_char(p, c) is None,
    decreases p.len(),
{
    if p.len() > 0 {
        assert(p.last() == p[p.len() - 1]);
        lemma_rfind_absent(p.drop_last(), c);
    }
}

/// The last `c` of `p` then `u`, where `p` holds no `c`, is the last `c` of `u`.
pub proof fn lemma_rfind_prefixed(p: Seq<char>, u: Seq<char>, c: char)
    requires
        forall|j: int| 0 <= j < p.len() ==> p[j] != c,
    ensures
        rfind_char(p + u, c) == match rfind_char(u, c) {
            Some(k) => Some(k + p.len()),
            None => None,
        },
    decreases u.len(),
{
    if u.len() == 0 {
        assert(p + u =~= p);
        lemma_rfind_absent(p, c);
    } else {
        assert((p + u).last() == u.last());
        assert((p + u).drop_last() =~= p + u.drop_last());
        lemma_rfind_prefixed(p, u.drop_last(), c);
    }
}

/// Splitting `p` then `t`, where `p` holds no separator, gives the pieces of `t`
/// with `p` put in front of the first.
pub proof fn lemma_split_prefix(p: Seq<char>, t: Seq<char>, d: char)
    requires
        forall|j: int| 0 <= j < p.len() ==> p[j] != d,
    ensures
        split_on(p + t, d) == split_on(t, d).update(0, p + split_on(t, d)[0]),
    decreases t.len(),
{
    if t.len() == 0 {
        assert(p + t =~= p);
        lemma_split_free(p, d);
        assert(t =~= Seq::<char>::empty());
        assert(split_on(t, d) == seq![Seq::<char>::empty()]);
        assert(split_on(t, d).update(0, p + split_on(t, d)[0]) =~= seq![p]);
    } else {
        let t1 = t.drop_last();
        let c = t.last();
        lemma_split_prefix(p, t1, d);
        lemma_split_nonempty(t1, d);
        assert((p + t).drop_last() =~= p + t1);
        assert((p + t).last() == c);
        let r = split_on(t1, d);
        let big = r.update(0, p + r[0]);
        assert(split_on(p + t1, d) == big);
        if c == d {
            assert(split_on(p + t, d) == big.push(Seq::empty()));
            assert(split_on(t, d) == r.push(Seq::empty()));
            assert(big.push(Seq::empty()) =~= r.push(Seq::empty()).update(
                0,
                p + r.push(Seq::empty())[0],
            ));
        } else {
            let n = big.len();
            assert(split_on(p + t, d) == big.update(n - 1, big.last().push(c)));
            assert(split_on(t, d) == r.update(r.len() - 1, r.last().push(c)));
            let rt = r.update(r.len() - 1, r.last().push(c));
            if r.len() == 1 {
                assert(big.update(n - 1, big.last().push(c)) =~= rt.update(0, p + rt[0]));
            } else {
                assert(big.update(n - 1, big.last().push(c)) =~= rt.update(0, p + rt[0]));
            }
        }
    }
}

} // verus!
