//! Character-level text helpers shared by the lints.
//!
//! Text is modelled as a sequence of `char`s.  Where the lints report
//! positions they report them in bytes of the UTF-8 encoding, so the model
//! also carries the UTF-8 width of each character.
use vstd::prelude::*;
use vstd::utf8::*;

verus! {

/// Number of bytes the UTF-8 encoding of `c` takes.
pub open spec fn utf8_len(c: char) -> nat {
    if (c as u32) < 0x80 {
        1
    } else if (c as u32) < 0x800 {
        2
    } else if (c as u32) < 0x10000 {
        3
    } else {
        4
    }
}

/// Number of bytes the UTF-8 encoding of `s` takes.
pub open spec fn byte_len(s: Seq<char>) -> nat
    decreases s.len(),
{
    if s.len() == 0 {
        0
    } else {
        utf8_len(s[0]) + byte_len(s.drop_first())
    }
}

/// The byte length of a concatenation is the sum of the byte lengths.
pub proof fn lemma_byte_len_concat(a: Seq<char>, b: Seq<char>)
    ensures
        byte_len(a + b) == byte_len(a) + byte_len(b),
    decreases a.len(),
{
    if a.len() == 0 {
        assert(a + b =~= b);
    } else {
        assert((a + b).drop_first() =~= a.drop_first() + b);
        lemma_byte_len_concat(a.drop_first(), b);
    }
}

/// A character takes at least one and at most four bytes.
pub proof fn lemma_byte_len_bounds(s: Seq<char>)
    ensures
        s.len() <= byte_len(s) <= 4 * s.len(),
    decreases s.len(),
{
    if s.len() > 0 {
        lemma_byte_len_bounds(s.drop_first());
    }
}

/// The bytes of any slice `s[from..to]` are part of the bytes of `s`.
pub proof fn lemma_byte_len_subrange(s: Seq<char>, from: int, to: int)
    requires
        0 <= from <= to <= s.len(),
    ensures
        byte_len(s.subrange(from, to)) <= byte_len(s),
        byte_len(s.subrange(0, to)) == byte_len(s.subrange(0, from)) + byte_len(
            s.subrange(from, to),
        ),
{
    assert(s =~= s.subrange(0, from) + s.subrange(from, to) + s.subrange(to, s.len() as int));
    lemma_byte_len_concat(s.subrange(0, from) + s.subrange(from, to), s.subrange(to, s.len() as int));
    lemma_byte_len_concat(s.subrange(0, from), s.subrange(from, to));
    assert(s.subrange(0, to) =~= s.subrange(0, from) + s.subrange(from, to));
}

/// Our byte count agrees with the length of vstd's UTF-8 encoding.
pub proof fn lemma_byte_len_is_encoding_len(s: Seq<char>)
    ensures
        encode_utf8(s).len() == byte_len(s),
    decreases s.len(),
{
    if s.len() > 0 {
        let c = s[0];
        char_is_scalar(c);
        lemma_byte_len_is_encoding_len(s.drop_first());
    }
}

/// The number of bytes of the UTF-8 encoding of `c`.
pub fn char_byte_len(c: char) -> (n: usize)
    ensures
        n == utf8_len(c),
{
    let u = c as u32;
    if u < 0x80 {
        1
    } else if u < 0x800 {
        2
    } else if u < 0x10000 {
        3
    } else {
        4
    }
}

/// The number of bytes of the UTF-8 encoding of `s`, as `str::len` gives it.
pub fn byte_length(s: &str) -> (n: usize)
    ensures
        n == byte_len(s@),
{
    proof {
        lemma_byte_len_is_encoding_len(s@);
    }
    let b = s.as_bytes();
    b.len()
}

/// Copies the characters of `s` into a vector.
pub fn chars_of(s: &str) -> (v: Vec<char>)
    ensures
        v@ == s@,
{
    let mut v: Vec<char> = Vec::new();
    for c in it: s.chars()
        invariant
            v@ == it.seq().take(it.index() as int),
    {
        v.push(c);
    }
    v
}

/// The number of bytes that the characters `s[from..to]` take.
pub fn range_byte_len(s: &Vec<char>, from: usize, to: usize) -> (n: usize)
    requires
        from <= to <= s.len(),
        byte_len(s@) <= usize::MAX,
    ensures
        n == byte_len(s@.subrange(from as int, to as int)),
{
    let mut n: usize = 0;
    let mut i = from;
    while i < to
        invariant
            from <= i <= to <= s.len(),
            byte_len(s@) <= usize::MAX,
            n == byte_len(s@.subrange(from as int, i as int)),
        decreases to - i,
    {
        proof {
            let part = s@.subrange(from as int, i as int);
            assert(s@.subrange(from as int, i + 1) =~= part + seq![s@[i as int]]);
            lemma_byte_len_concat(part, seq![s@[i as int]]);
            assert(byte_len(seq![s@[i as int]]) == utf8_len(s@[i as int])) by {
                assert(seq![s@[i as int]].drop_first() =~= Seq::<char>::empty());
                assert(byte_len(Seq::<char>::empty()) == 0);
            }
            lemma_byte_len_subrange(s@, from as int, i + 1);
        }
        n = n + char_byte_len(s[i]);
        i = i + 1;
    }
    n
}

/// The number of bytes that all of `s` takes.
pub fn vec_byte_len(s: &Vec<char>) -> (n: usize)
    requires
        byte_len(s@) <= usize::MAX,
    ensures
        n == byte_len(s@),
{
    let n = range_byte_len(s, 0, s.len());
    assert(s@.subrange(0, s@.len() as int) =~= s@);
    n
}

/// Whether `c` has the Unicode `White_Space` property, which is what
/// `char::is_whitespace` tests.
pub open spec fn is_white_space(c: char) -> bool {
    ||| ('\u{9}' <= c && c <= '\u{d}')
    ||| c == ' '
    ||| c == '\u{85}'
    ||| c == '\u{a0}'
    ||| c == '\u{1680}'
    ||| ('\u{2000}' <= c && c <= '\u{200a}')
    ||| c == '\u{2028}'
    ||| c == '\u{2029}'
    ||| c == '\u{202f}'
    ||| c == '\u{205f}'
    ||| c == '\u{3000}'
}

/// Executable test for [`is_white_space`].
pub fn is_whitespace(c: char) -> (b: bool)
    ensures
        b == is_white_space(c),
{
    ('\u{9}' <= c && c <= '\u{d}') || c == ' ' || c == '\u{85}' || c == '\u{a0}' || c
        == '\u{1680}' || ('\u{2000}' <= c && c <= '\u{200a}') || c == '\u{2028}' || c
        == '\u{2029}' || c == '\u{202f}' || c == '\u{205f}' || c == '\u{3000}'
}

/// Length of `s` once trailing white space is removed (`str::trim_end`).
pub open spec fn trimmed_len(s: Seq<char>) -> nat
    decreases s.len(),
{
    if s.len() > 0 && is_white_space(s.last()) {
        trimmed_len(s.drop_last())
    } else {
        s.len()
    }
}

/// `s` without its trailing white space.
pub open spec fn trim_end(s: Seq<char>) -> Seq<char> {
    s.take(trimmed_len(s) as int)
}

/// What `trimmed_len` means: everything after it is white space, and the
/// character just before it is not.
pub proof fn lemma_trimmed_len(s: Seq<char>)
    ensures
        trimmed_len(s) <= s.len(),
        forall|j: int| trimmed_len(s) <= j < s.len() ==> is_white_space(#[trigger] s[j]),
        trimmed_len(s) > 0 ==> !is_white_space(s[trimmed_len(s) - 1]),
    decreases s.len(),
{
    if s.len() > 0 && is_white_space(s.last()) {
        lemma_trimmed_len(s.drop_last());
        assert forall|j: int| trimmed_len(s) <= j < s.len() implies is_white_space(
            #[trigger] s[j],
        ) by {
            if j < s.len() - 1 {
                assert(s[j] == s.drop_last()[j]);
            }
        }
        if trimmed_len(s) > 0 {
            assert(s[trimmed_len(s) - 1] == s.drop_last()[trimmed_len(s) - 1]);
        }
    }
}

/// Computes [`trimmed_len`].
pub fn trimmed_length(s: &Vec<char>) -> (n: usize)
    ensures
        n == trimmed_len(s@),
{
    let mut n = s.len();
    assert(s@.take(n as int) =~= s@);
    while n > 0 && is_whitespace(s[n - 1])
        invariant
            n <= s.len(),
            trimmed_len(s@) == trimmed_len(s@.take(n as int)),
        decreases n,
    {
        proof {
            let t = s@.take(n as int);
            assert(t.drop_last() =~= s@.take(n - 1));
        }
        n = n - 1;
    }
    proof {
        let t = s@.take(n as int);
        assert(t.len() == n);
        if n > 0 {
            assert(t.last() == s@[n - 1]);
        }
        assert(s@.take(s@.len() as int) =~= s@);
    }
    n
}

/// Index of the first `c` in `s`, or `s.len()` when there is none.
pub open spec fn first_index(s: Seq<char>, c: char) -> nat
    decreases s.len(),
{
    if s.len() == 0 {
        0
    } else if s[0] == c {
        0
    } else {
        1 + first_index(s.drop_first(), c)
    }
}

/// What `first_index` means.
pub proof fn lemma_first_index(s: Seq<char>, c: char)
    ensures
        first_index(s, c) <= s.len(),
        forall|j: int| 0 <= j < first_index(s, c) ==> #[trigger] s[j] != c,
        first_index(s, c) < s.len() ==> s[first_index(s, c) as int] == c,
    decreases s.len(),
{
    if s.len() > 0 && s[0] != c {
        lemma_first_index(s.drop_first(), c);
        assert forall|j: int| 0 <= j < first_index(s, c) implies #[trigger] s[j] != c by {
            if j > 0 {
                assert(s[j] == s.drop_first()[j - 1]);
            }
        }
    }
}

/// `first_index` is determined by the characters up to the first `c`.
pub proof fn lemma_first_index_unique(s: Seq<char>, c: char, k: int)
    requires
        0 <= k <= s.len(),
        forall|j: int| 0 <= j < k ==> #[trigger] s[j] != c,
        k < s.len() ==> s[k] == c,
    ensures
        first_index(s, c) == k,
    decreases s.len(),
{
    if s.len() > 0 && s[0] != c {
        assert forall|j: int| 0 <= j < k - 1 implies #[trigger] s.drop_first()[j] != c by {
            assert(s.drop_first()[j] == s[j + 1]);
        }
        lemma_first_index_unique(s.drop_first(), c, k - 1);
    }
}

/// Computes [`first_index`].
pub fn index_of(s: &Vec<char>, c: char) -> (k: usize)
    ensures
        k == first_index(s@, c),
{
    let mut k: usize = 0;
    while k < s.len() && s[k] != c
        invariant
            k <= s.len(),
            forall|j: int| 0 <= j < k ==> #[trigger] s@[j] != c,
        decreases s.len() - k,
    {
        k = k + 1;
    }
    proof {
        lemma_first_index_unique(s@, c, k as int);
    }
    k
}

/// Index of the first `'\n'` in `s`, or `s.len()` when there is none.
pub open spec fn first_newline(s: Seq<char>) -> nat {
    first_index(s, '\n')
}

/// What `first_newline` means.
pub proof fn lemma_first_newline(s: Seq<char>)
    ensures
        first_newline(s) <= s.len(),
        forall|j: int| 0 <= j < first_newline(s) ==> #[trigger] s[j] != '\n',
        first_newline(s) < s.len() ==> s[first_newline(s) as int] == '\n',
{
    lemma_first_index(s, '\n');
}

/// `first_newline` is determined by the characters up to the first newline.
pub proof fn lemma_first_newline_unique(s: Seq<char>, k: int)
    requires
        0 <= k <= s.len(),
        forall|j: int| 0 <= j < k ==> #[trigger] s[j] != '\n',
        k < s.len() ==> s[k] == '\n',
    ensures
        first_newline(s) == k,
{
    lemma_first_index_unique(s, '\n', k);
}

/// A line ended by `"\r\n"` loses its `'\r'`.
pub open spec fn strip_cr(line: Seq<char>) -> Seq<char> {
    if line.len() > 0 && line.last() == '\r' {
        line.drop_last()
    } else {
        line
    }
}

/// The lines of `s`, as `str::lines` yields them: split at `'\n'`, a
/// `'\r'` before the `'\n'` dropped, and no empty line after a final `'\n'`.
pub open spec fn lines(s: Seq<char>) -> Seq<Seq<char>>
    decreases s.len(),
{
    if s.len() == 0 {
        seq![]
    } else {
        let k = first_newline(s) as int;
        if k >= s.len() {
            seq![s]
        } else {
            seq![strip_cr(s.take(k))] + lines(s.skip(k + 1))
        }
    }
}

/// A line holds no more bytes than the text it comes from.
pub proof fn lemma_lines_byte_len(s: Seq<char>, i: int)
    requires
        0 <= i < lines(s).len(),
    ensures
        byte_len(lines(s)[i]) <= byte_len(s),
        lines(s)[i].len() <= s.len(),
    decreases s.len(),
{
    lemma_first_newline(s);
    let k = first_newline(s) as int;
    if k >= s.len() {
    } else {
        let first = s.take(k);
        lemma_byte_len_subrange(s, 0, k as int);
        if first.len() > 0 && first.last() == '\r' {
            lemma_byte_len_subrange(first, 0, first.len() - 1);
            assert(first.drop_last() =~= first.subrange(0, first.len() - 1));
        }
        assert(s.take(k) =~= s.subrange(0, k as int));
        if i > 0 {
            lemma_lines_byte_len(s.skip(k + 1), i - 1);
            lemma_byte_len_subrange(s, k + 1, s.len() as int);
            assert(s.skip(k + 1) =~= s.subrange(k + 1, s.len() as int));
        }
    }
}

/// Splits `s` into its [`lines`].
pub fn split_lines(s: &Vec<char>) -> (r: Vec<Vec<char>>)
    ensures
        r.deep_view() == lines(s@),
{
    let mut r: Vec<Vec<char>> = Vec::new();
    let mut start: usize = 0;
    let mut cur: Vec<char> = Vec::new();
    let mut i: usize = 0;
    assert(s@.skip(0) =~= s@);
    assert(r.deep_view() =~= Seq::<Seq<char>>::empty());
    while i < s.len()
        invariant
            start <= i <= s.len(),
            cur@ == s@.subrange(start as int, i as int),
            forall|j: int| start <= j < i ==> #[trigger] s@[j] != '\n',
            lines(s@) == r.deep_view() + lines(s@.skip(start as int)),
        decreases s.len() - i,
    {
        let c = s[i];
        if c == '\n' {
            proof {
                let rest = s@.skip(start as int);
                lemma_first_newline_unique(rest, (i - start) as int);
                assert(rest.take((i - start) as int) =~= cur@);
                assert(rest.skip((i - start) + 1) =~= s@.skip(i + 1));
            }
            let mut line = cur;
            if line.len() > 0 && line[line.len() - 1] == '\r' {
                line.pop();
            }
            let ghost before = r.deep_view();
            r.push(line);
            proof {
                assert(line.deep_view() =~= line@);
                assert(r.deep_view() =~= before.push(line@));
                assert(lines(s@) =~= r.deep_view() + lines(s@.skip(i + 1)));
            }
            cur = Vec::new();
            start = i + 1;
        } else {
            cur.push(c);
        }
        i = i + 1;
    }
    proof {
        let rest = s@.skip(start as int);
        assert(rest =~= cur@);
        lemma_first_newline_unique(rest, rest.len() as int);
    }
    if start < s.len() {
        let ghost before = r.deep_view();
        let ghost last = cur@;
        assert(cur.deep_view() =~= cur@);
        r.push(cur);
        proof {
            assert(r.deep_view() =~= before.push(last));
        }
    } else {
        proof {
            assert(s@.skip(start as int) =~= Seq::<char>::empty());
        }
    }
    proof {
        assert(r.deep_view() =~= lines(s@));
    }
    r
}

/// Whether `s` begins with `prefix`.
pub open spec fn starts_with(s: Seq<char>, prefix: Seq<char>) -> bool {
    prefix.len() <= s.len() && s.take(prefix.len() as int) == prefix
}

/// Computes [`starts_with`].
pub fn has_prefix(s: &Vec<char>, prefix: &Vec<char>) -> (b: bool)
    ensures
        b == starts_with(s@, prefix@),
{
    if prefix.len() > s.len() {
        return false;
    }
    let mut i: usize = 0;
    while i < prefix.len()
        invariant
            prefix.len() <= s.len(),
            i <= prefix.len(),
            forall|j: int| 0 <= j < i ==> s@[j] == prefix@[j],
        decreases prefix.len() - i,
    {
        if s[i] != prefix[i] {
            proof {
                assert(s@.take(prefix.len() as int)[i as int] != prefix@[i as int]);
            }
            return false;
        }
        i = i + 1;
    }
    assert(s@.take(prefix.len() as int) =~= prefix@);
    true
}

/// Whether the two sequences of characters are equal.
pub fn chars_equal(a: &Vec<char>, b: &Vec<char>) -> (r: bool)
    ensures
        r == (a@ == b@),
{
    if a.len() != b.len() {
        return false;
    }
    let r = has_prefix(a, b);
    assert(a@.take(b.len() as int) =~= a@);
    r
}

/// Lexicographic order on character sequences, by code point: the order
/// `str`'s `Ord` gives, since UTF-8 preserves code point order.
pub open spec fn chars_lt(a: Seq<char>, b: Seq<char>) -> bool
    decreases a.len(),
{
    if b.len() == 0 {
        false
    } else if a.len() == 0 {
        true
    } else if a[0] != b[0] {
        (a[0] as u32) < (b[0] as u32)
    } else {
        chars_lt(a.drop_first(), b.drop_first())
    }
}

/// Distinct characters have distinct code points.
pub proof fn lemma_char_code_injective(x: char, y: char)
    ensures
        x != y ==> (x as u32) != (y as u32),
{
    char_u32_cast(x, x as u32);
    char_u32_cast(y, y as u32);
}

/// `chars_lt` is a strict total order.
pub proof fn lemma_chars_lt_order(a: Seq<char>, b: Seq<char>, c: Seq<char>)
    ensures
        !chars_lt(a, a),
        chars_lt(a, b) && chars_lt(b, c) ==> chars_lt(a, c),
        a != b ==> chars_lt(a, b) || chars_lt(b, a),
        chars_lt(a, b) ==> !chars_lt(b, a),
    decreases a.len(),
{
    if a.len() > 0 {
        lemma_chars_lt_order(a.drop_first(), b.drop_first(), c.drop_first());
        if b.len() > 0 && a[0] == b[0] && a.drop_first() == b.drop_first() {
            assert(a =~= seq![a[0]] + a.drop_first());
            assert(b =~= seq![b[0]] + b.drop_first());
        }
        if b.len() > 0 {
            lemma_char_code_injective(a[0], b[0]);
        }
        if c.len() > 0 {
            lemma_char_code_injective(a[0], c[0]);
        }
        if b.len() > 0 && c.len() > 0 {
            lemma_char_code_injective(b[0], c[0]);
        }
    } else {
        if b.len() == 0 {
            assert(a =~= b);
        }
    }
}

/// `a` comes before `b` when they agree on their first `k` characters and
/// then `a` ends or has the smaller character.
pub proof fn lemma_chars_lt_at(a: Seq<char>, b: Seq<char>, k: int)
    requires
        0 <= k <= a.len(),
        k < b.len(),
        forall|i: int| 0 <= i < k ==> a[i] == b[i],
        k < a.len() ==> (a[k] as u32) < (b[k] as u32),
    ensures
        chars_lt(a, b),
    decreases k,
{
    if k > 0 {
        lemma_chars_lt_at(a.drop_first(), b.drop_first(), k - 1);
    } else if a.len() > 0 {
        lemma_char_code_injective(a[0], b[0]);
    }
}

/// A sequence whose neighbours are in `chars_lt` order is strictly
/// increasing.
pub proof fn lemma_chars_lt_chain(s: Seq<Seq<char>>)
    requires
        forall|i: int| 0 <= i < s.len() - 1 ==> chars_lt(#[trigger] s[i], s[i + 1]),
    ensures
        forall|i: int, j: int| 0 <= i < j < s.len() ==> chars_lt(#[trigger] s[i], #[trigger] s[j]),
    decreases s.len(),
{
    if s.len() > 1 {
        let init = s.drop_last();
        assert forall|i: int| 0 <= i < init.len() - 1 implies chars_lt(#[trigger] init[i], init[i + 1]) by {
            assert(init[i] == s[i] && init[i + 1] == s[i + 1]);
        }
        lemma_chars_lt_chain(init);
        assert forall|i: int, j: int| 0 <= i < j < s.len() implies chars_lt(#[trigger] s[i], #[trigger] s[j]) by {
            if j < s.len() - 1 {
                assert(init[i] == s[i] && init[j] == s[j]);
            } else if i < j - 1 {
                assert(init[i] == s[i] && init[j - 1] == s[j - 1]);
                assert(chars_lt(s[j - 1], s[j]));
                lemma_chars_lt_order(s[i], s[j - 1], s[j]);
            }
        }
    }
}

/// Computes [`chars_lt`].
pub fn chars_less(a: &Vec<char>, b: &Vec<char>) -> (r: bool)
    ensures
        r == chars_lt(a@, b@),
{
    let mut i: usize = 0;
    assert(a@.skip(0) =~= a@);
    assert(b@.skip(0) =~= b@);
    while i < a.len() && i < b.len() && a[i] == b[i]
        invariant
            i <= a.len(),
            i <= b.len(),
            chars_lt(a@, b@) == chars_lt(a@.skip(i as int), b@.skip(i as int)),
        decreases a.len() - i,
    {
        proof {
            assert(a@.skip(i as int).drop_first() =~= a@.skip(i + 1));
            assert(b@.skip(i as int).drop_first() =~= b@.skip(i + 1));
        }
        i = i + 1;
    }
    if i == b.len() {
        false
    } else if i == a.len() {
        true
    } else {
        (a[i] as u32) < (b[i] as u32)
    }
}

/// Computes [`chars_lt`] on two strings.
pub fn str_less(a: &str, b: &str) -> (r: bool)
    ensures
        r == chars_lt(a@, b@),
{
    let av = chars_of(a);
    let bv = chars_of(b);
    chars_less(&av, &bv)
}

/// Whether `c`, a character outside ASCII, is alphabetic or numeric in
/// Unicode (`char::is_alphanumeric`).
pub uninterp spec fn unicode_alphanumeric(c: char) -> bool;

/// Whether `c`, a character outside ASCII, is lowercase in Unicode
/// (`char::is_lowercase`).
pub uninterp spec fn unicode_lowercase(c: char) -> bool;

/// Whether `c` is alphabetic or numeric (`char::is_alphanumeric`): among
/// ASCII characters exactly the letters and digits are.
pub open spec fn char_alphanumeric(c: char) -> bool {
    if (c as u32) < 0x80 {
        ascii_alphanumeric(c)
    } else {
        unicode_alphanumeric(c)
    }
}

/// Whether `c` is lowercase (`char::is_lowercase`): among ASCII characters
/// exactly `'a'` to `'z'` are.
pub open spec fn char_lowercase(c: char) -> bool {
    if (c as u32) < 0x80 {
        'a' <= c && c <= 'z'
    } else {
        unicode_lowercase(c)
    }
}

/// Calls `char::is_alphanumeric`.
///
/// Claims what std documents for ASCII (the alphabetic and numeric ASCII
/// characters are the letters and digits); of other characters only that
/// the result is a function of `c`.
#[verifier::external_body]
pub fn is_alphanumeric(c: char) -> (b: bool)
    ensures
        (c as u32) < 0x80 ==> b == ascii_alphanumeric(c),
        (c as u32) >= 0x80 ==> b == unicode_alphanumeric(c),
{
    c.is_alphanumeric()
}

/// Calls `char::is_lowercase`.
///
/// Claims what std documents for ASCII (the lowercase ASCII characters are
/// `'a'` to `'z'`); of other characters only that the result is a function
/// of `c`.
#[verifier::external_body]
pub fn is_lowercase(c: char) -> (b: bool)
    ensures
        (c as u32) < 0x80 ==> b == ('a' <= c && c <= 'z'),
        (c as u32) >= 0x80 ==> b == unicode_lowercase(c),
{
    c.is_lowercase()
}

/// Whether `c` is an ASCII letter or digit (`char::is_ascii_alphanumeric`).
pub open spec fn ascii_alphanumeric(c: char) -> bool {
    ('0' <= c && c <= '9') || ('A' <= c && c <= 'Z') || ('a' <= c && c <= 'z')
}

/// Computes [`ascii_alphanumeric`].
pub fn is_ascii_alphanumeric(c: char) -> (b: bool)
    ensures
        b == ascii_alphanumeric(c),
{
    ('0' <= c && c <= '9') || ('A' <= c && c <= 'Z') || ('a' <= c && c <= 'z')
}

/// The first line of `s`, or nothing when `s` has no lines.
pub open spec fn first_line(s: Seq<char>) -> Seq<char> {
    if lines(s).len() == 0 {
        seq![]
    } else {
        lines(s)[0]
    }
}

/// The number of bytes of the first line of `s`
/// (`s.lines().next().map(str::len).unwrap_or_default()`).
pub fn first_line_byte_len(s: &String) -> (n: usize)
    ensures
        n == byte_len(first_line(s@)),
{
    let cs = chars_of(s.as_str());
    let _ = byte_length(s.as_str());
    let all = split_lines(&cs);
    if all.len() == 0 {
        return 0;
    }
    proof {
        lemma_lines_byte_len(cs@, 0);
        assert(all@[0].deep_view() =~= all@[0]@);
    }
    vec_byte_len(&all[0])
}

/// Index of the last `c` in `s`, or `-1` when there is none.
pub open spec fn last_index(s: Seq<char>, c: char) -> int
    decreases s.len(),
{
    if s.len() == 0 {
        -1
    } else if s.last() == c {
        s.len() - 1
    } else {
        last_index(s.drop_last(), c)
    }
}

/// What `last_index` means.
pub proof fn lemma_last_index(s: Seq<char>, c: char)
    ensures
        -1 <= last_index(s, c) < s.len(),
        last_index(s, c) >= 0 ==> s[last_index(s, c)] == c,
        forall|j: int| last_index(s, c) < j < s.len() ==> #[trigger] s[j] != c,
    decreases s.len(),
{
    if s.len() > 0 && s.last() != c {
        lemma_last_index(s.drop_last(), c);
        assert forall|j: int| last_index(s, c) < j < s.len() implies #[trigger] s[j] != c by {
            if j < s.len() - 1 {
                assert(s[j] == s.drop_last()[j]);
            }
        }
    }
}

/// Byte offset of the start of the last line that is not blank
/// (`text.trim_end().rfind('\n').unwrap_or_default() + 1`).
pub open spec fn last_line_offset(text: Seq<char>) -> nat {
    let k = last_index(trim_end(text), '\n');
    if k < 0 {
        1
    } else {
        byte_len(text.take(k)) + 1
    }
}

/// Computes [`last_line_offset`] for the characters of a string whose UTF-8
/// encoding fits in memory.
pub fn last_line_start(text: &Vec<char>) -> (n: usize)
    requires
        byte_len(text@) <= usize::MAX,
    ensures
        n == last_line_offset(text@),
        n <= byte_len(text@) + 1,
{
    let end = trimmed_length(text);
    proof {
        lemma_trimmed_len(text@);
    }
    let ghost t = trim_end(text@);
    let mut k = end;
    assert(t.take(end as int) =~= t);
    while k > 0 && text[k - 1] != '\n'
        invariant
            k <= end <= text.len(),
            t == text@.take(end as int),
            last_index(t, '\n') == last_index(t.take(k as int), '\n'),
        decreases k,
    {
        proof {
            let u = t.take(k as int);
            assert(u.drop_last() =~= t.take(k - 1));
        }
        k = k - 1;
    }
    proof {
        assert(t.take(end as int) =~= t);
    }
    if k == 0 {
        assert(last_index(t.take(0), '\n') == -1);
        1
    } else {
        proof {
            let u = t.take(k as int);
            assert(u.last() == '\n');
            lemma_byte_len_subrange(text@, 0, k as int);
            lemma_byte_len_subrange(text@, k - 1, k as int);
            assert(text@.subrange(k - 1, k as int) =~= seq!['\n']);
            assert(byte_len(seq!['\n']) == 1) by {
                assert(seq!['\n'].drop_first() =~= Seq::<char>::empty());
                assert(byte_len(Seq::<char>::empty()) == 0);
                assert(('\n' as u32) == 10);
            }
            lemma_byte_len_subrange(text@, 0, text@.len() as int);
            assert(text@.subrange(0, text@.len() as int) =~= text@);
            assert(text@.subrange(0, k - 1) =~= text@.take(k - 1));
        }
        range_byte_len(text, 0, k - 1) + 1
    }
}

} // verus!
