//! Character-level text operations: searching, splitting, trimming and
//! rendering, each with a mathematical model over `Seq<char>`.

use vstd::prelude::*;
use vstd::slice::slice_subrange;

verus! {

/// `String::push` appends one character to the end of the string.
pub assume_specification[ String::push ](s: &mut String, c: char)
    ensures
        final(s)@ == old(s)@.push(c),
;

/// Whether `c` has the Unicode `White_Space` property.
pub open spec fn is_space(c: char) -> bool {
    let n = c as u32;
    ||| 0x09 <= n <= 0x0d
    ||| n == 0x20
    ||| n == 0x85
    ||| n == 0xa0
    ||| n == 0x1680
    ||| 0x2000 <= n <= 0x200a
    ||| n == 0x2028
    ||| n == 0x2029
    ||| n == 0x202f
    ||| n == 0x205f
    ||| n == 0x3000
}

/// Whether `s` begins with `pat`.
pub open spec fn starts_with(s: Seq<char>, pat: Seq<char>) -> bool {
    pat.len() <= s.len() && s.take(pat.len() as int) == pat
}

/// The least index at which `pat` occurs in `s`, or `s.len()` when it
/// occurs nowhere. An empty pattern occurs at index 0.
pub open spec fn find(s: Seq<char>, pat: Seq<char>) -> int
    decreases s.len(),
{
    if s.len() == 0 || starts_with(s, pat) {
        0
    } else {
        1 + find(s.drop_first(), pat)
    }
}

/// The pieces of `s` between occurrences of `sep`: one more than there are
/// separators, so an empty text is one empty piece.
pub open spec fn split(s: Seq<char>, sep: char) -> Seq<Seq<char>>
    decreases s.len(),
{
    let i = find(s, seq![sep]);
    if 0 <= i < s.len() {
        seq![s.take(i)] + split(s.skip(i + 1), sep)
    } else {
        seq![s]
    }
}

/// `s` without its leading white space.
pub open spec fn trim_start(s: Seq<char>) -> Seq<char>
    decreases s.len(),
{
    if s.len() > 0 && is_space(s[0]) {
        trim_start(s.drop_first())
    } else {
        s
    }
}

/// `s` without its trailing white space.
pub open spec fn trim_end(s: Seq<char>) -> Seq<char>
    decreases s.len(),
{
    if s.len() > 0 && is_space(s.last()) {
        trim_end(s.drop_last())
    } else {
        s
    }
}

/// `s` without leading and trailing white space.
pub open spec fn trim(s: Seq<char>) -> Seq<char> {
    trim_end(trim_start(s))
}

/// `s` without its leading run of `c`.
pub open spec fn strip_start(s: Seq<char>, c: char) -> Seq<char>
    decreases s.len(),
{
    if s.len() > 0 && s[0] == c {
        strip_start(s.drop_first(), c)
    } else {
        s
    }
}

/// `s` without its trailing run of `c`.
pub open spec fn strip_end(s: Seq<char>, c: char) -> Seq<char>
    decreases s.len(),
{
    if s.len() > 0 && s.last() == c {
        strip_end(s.drop_last(), c)
    } else {
        s
    }
}

/// `s` without the runs of `c` at both ends.
pub open spec fn strip(s: Seq<char>, c: char) -> Seq<char> {
    strip_end(strip_start(s, c), c)
}

/// The length of the leading run of characters that are not white space.
pub open spec fn word_len(s: Seq<char>) -> int
    decreases s.len(),
{
    if s.len() > 0 && !is_space(s[0]) {
        1 + word_len(s.drop_first())
    } else {
        0
    }
}

/// The maximal runs of characters that are not white space, in order. The
/// upper bounds in the condition always hold; they let the recursion end in
/// plain sight.
pub open spec fn words(s: Seq<char>) -> Seq<Seq<char>>
    decreases s.len(),
{
    let t = trim_start(s);
    let n = word_len(t);
    if 0 < n <= t.len() <= s.len() {
        seq![t.take(n)] + words(t.skip(n))
    } else {
        seq![]
    }
}

/// The views of a sequence of slices.
pub open spec fn views(parts: Seq<&[char]>) -> Seq<Seq<char>> {
    Seq::new(parts.len(), |i: int| parts[i]@)
}

/// Whether `c` is white space.
pub fn is_whitespace(c: char) -> (r: bool)
    ensures
        r == is_space(c),
{
    let n: u32 = c as u32;
    (0x09 <= n && n <= 0x0d) || n == 0x20 || n == 0x85 || n == 0xa0 || n == 0x1680 || (0x2000 <= n
        && n <= 0x200a) || n == 0x2028 || n == 0x2029 || n == 0x202f || n == 0x205f || n == 0x3000
}

/// The characters of `s`.
pub fn to_chars(s: &str) -> (v: Vec<char>)
    ensures
        v@ == s@,
{
    let mut v: Vec<char> = Vec::new();
    for c in it: s.chars()
        invariant
            v@ == it.seq().take(it.index() as int),
            it.seq() == s@,
    {
        v.push(c);
    }
    v
}

/// The string made of the characters of `s`.
pub fn to_text(s: &[char]) -> (t: String)
    ensures
        t@ == s@,
{
    let mut t = String::new();
    let mut i: usize = 0;
    while i < s.len()
        invariant
            i <= s.len(),
            t@ == s@.take(i as int),
        decreases s.len() - i,
    {
        t.push(s[i]);
        i += 1;
    }
    t
}

/// Whether `s` begins with `pat`.
pub fn begins_with(s: &[char], pat: &[char]) -> (r: bool)
    ensures
        r == starts_with(s@, pat@),
{
    if pat.len() > s.len() {
        return false;
    }
    let mut i: usize = 0;
    while i < pat.len()
        invariant
            i <= pat.len() <= s.len(),
            s@.take(i as int) == pat@.take(i as int),
        decreases pat.len() - i,
    {
        if s[i] != pat[i] {
            assert(s@.take(pat.len() as int)[i as int] != pat@[i as int]);
            return false;
        }
        assert(s@.take(i + 1) == s@.take(i as int).push(s@[i as int]));
        assert(pat@.take(i + 1) == pat@.take(i as int).push(pat@[i as int]));
        i += 1;
    }
    assert(pat@.take(pat.len() as int) == pat@);
    true
}

/// The least index at which `pat` occurs in `s`, or `s.len()`.
pub fn position_of(s: &[char], pat: &[char]) -> (i: usize)
    ensures
        i == find(s@, pat@),
        i <= s.len(),
        i < s.len() ==> starts_with(s@.skip(i as int), pat@),
{
    let mut i: usize = 0;
    assert(s@.skip(0) == s@);
    while i < s.len()
        invariant
            i <= s.len(),
            find(s@, pat@) == i + find(s@.skip(i as int), pat@),
        decreases s.len() - i,
    {
        let rest = slice_subrange(s, i, s.len());
        assert(rest@ == s@.skip(i as int));
        if begins_with(rest, pat) {
            return i;
        }
        assert(s@.skip(i as int).drop_first() == s@.skip(i + 1));
        i += 1;
    }
    i
}

/// The least index at which `c` occurs in `s`, or `s.len()`.
pub fn index_of(s: &[char], c: char) -> (i: usize)
    ensures
        i == find(s@, seq![c]),
        i <= s.len(),
        i < s.len() ==> s@[i as int] == c,
{
    let mut i: usize = 0;
    assert(s@.skip(0) == s@);
    while i < s.len()
        invariant
            i <= s.len(),
            find(s@, seq![c]) == i + find(s@.skip(i as int), seq![c]),
        decreases s.len() - i,
    {
        let ghost rest = s@.skip(i as int);
        assert(rest.take(1) == seq![rest[0]]);
        assert(starts_with(rest, seq![c]) <==> rest[0] == c) by {
            if rest[0] == c {
                assert(seq![rest[0]] == seq![c]);
            } else {
                assert(seq![rest[0]][0] != seq![c][0]);
            }
        }
        if s[i] == c {
            return i;
        }
        assert(rest.drop_first() == s@.skip(i + 1));
        i += 1;
    }
    i
}

/// The pieces of `s` between occurrences of `sep`.
pub fn split_on<'a>(s: &'a [char], sep: char) -> (parts: Vec<&'a [char]>)
    ensures
        views(parts@) == split(s@, sep),
{
    let mut parts: Vec<&'a [char]> = Vec::new();
    let mut rest: &'a [char] = s;
    let mut i: usize = index_of(rest, sep);
    assert(views(parts@) == Seq::<Seq<char>>::empty());
    while i < rest.len()
        invariant
            i == find(rest@, seq![sep]),
            i <= rest.len(),
            split(s@, sep) == views(parts@) + split(rest@, sep),
        decreases rest.len(),
    {
        let piece = slice_subrange(rest, 0, i);
        let ghost before = parts@;
        let ghost whole = rest@;
        parts.push(piece);
        rest = slice_subrange(rest, i + 1, rest.len());
        assert(piece@ == whole.take(i as int));
        assert(rest@ == whole.skip(i + 1));
        assert(views(parts@) == views(before).push(piece@));
        assert(views(before) + (seq![piece@] + split(rest@, sep)) == views(before).push(piece@)
            + split(rest@, sep));
        i = index_of(rest, sep);
    }
    let ghost before = parts@;
    parts.push(rest);
    assert(views(parts@) == views(before).push(rest@));
    assert(views(before).push(rest@) == views(before) + seq![rest@]);
    parts
}

/// `s` without its leading white space.
pub fn skip_spaces<'a>(s: &'a [char]) -> (t: &'a [char])
    ensures
        t@ == trim_start(s@),
        t@.len() <= s@.len(),
        t@.len() > 0 ==> !is_space(t@[0]),
{
    let mut a: usize = 0;
    assert(s@.skip(0) == s@);
    while a < s.len() && is_whitespace(s[a])
        invariant
            a <= s.len(),
            trim_start(s@) == trim_start(s@.skip(a as int)),
        decreases s.len() - a,
    {
        assert(s@.skip(a as int).drop_first() == s@.skip(a + 1));
        a += 1;
    }
    slice_subrange(s, a, s.len())
}

/// `s` without its trailing white space.
pub fn drop_spaces<'a>(s: &'a [char]) -> (t: &'a [char])
    ensures
        t@ == trim_end(s@),
        t@.len() <= s@.len(),
{
    let mut b: usize = s.len();
    assert(s@.take(b as int) == s@);
    while b > 0 && is_whitespace(s[b - 1])
        invariant
            b <= s.len(),
            trim_end(s@) == trim_end(s@.take(b as int)),
        decreases b,
    {
        assert(s@.take(b as int).drop_last() == s@.take(b - 1));
        b -= 1;
    }
    slice_subrange(s, 0, b)
}

/// `s` without leading and trailing white space.
pub fn trimmed<'a>(s: &'a [char]) -> (t: &'a [char])
    ensures
        t@ == trim(s@),
{
    drop_spaces(skip_spaces(s))
}

/// `s` without the runs of `c` at both ends.
pub fn stripped<'a>(s: &'a [char], c: char) -> (t: &'a [char])
    ensures
        t@ == strip(s@, c),
{
    let mut a: usize = 0;
    assert(s@.skip(0) == s@);
    while a < s.len() && s[a] == c
        invariant
            a <= s.len(),
            strip_start(s@, c) == strip_start(s@.skip(a as int), c),
        decreases s.len() - a,
    {
        assert(s@.skip(a as int).drop_first() == s@.skip(a + 1));
        a += 1;
    }
    let rest = slice_subrange(s, a, s.len());
    assert(rest@ == strip_start(s@, c));
    let mut b: usize = rest.len();
    assert(rest@.take(b as int) == rest@);
    while b > 0 && rest[b - 1] == c
        invariant
            b <= rest.len(),
            strip_end(rest@, c) == strip_end(rest@.take(b as int), c),
        decreases b,
    {
        assert(rest@.take(b as int).drop_last() == rest@.take(b - 1));
        b -= 1;
    }
    slice_subrange(rest, 0, b)
}

/// The length of the leading run of characters that are not white space.
pub fn word_length(s: &[char]) -> (n: usize)
    ensures
        n == word_len(s@),
        n <= s.len(),
{
    let mut n: usize = 0;
    assert(s@.skip(0) == s@);
    while n < s.len() && !is_whitespace(s[n])
        invariant
            n <= s.len(),
            word_len(s@) == n + word_len(s@.skip(n as int)),
        decreases s.len() - n,
    {
        assert(s@.skip(n as int).drop_first() == s@.skip(n + 1));
        n += 1;
    }
    n
}

/// The maximal runs of characters that are not white space, in order.
pub fn split_words<'a>(s: &'a [char]) -> (parts: Vec<&'a [char]>)
    ensures
        views(parts@) == words(s@),
{
    let mut parts: Vec<&'a [char]> = Vec::new();
    let mut rest: &'a [char] = skip_spaces(s);
    let mut n: usize = word_length(rest);
    assert(views(parts@) == Seq::<Seq<char>>::empty());
    let ghost mut prev: Seq<char> = s@;
    while n > 0
        invariant
            rest@ == trim_start(prev),
            rest@.len() <= prev.len(),
            n == word_len(rest@),
            n <= rest.len(),
            words(s@) == views(parts@) + words(prev),
        decreases rest.len(),
    {
        let piece = slice_subrange(rest, 0, n);
        let ghost before = parts@;
        let ghost whole = rest@;
        parts.push(piece);
        let tail = slice_subrange(rest, n, rest.len());
        assert(piece@ == whole.take(n as int));
        assert(tail@ == whole.skip(n as int));
        assert(views(parts@) == views(before).push(piece@));
        assert(views(before) + (seq![piece@] + words(tail@)) == views(before).push(piece@)
            + words(tail@));
        proof {
            prev = tail@;
        }
        rest = skip_spaces(tail);
        n = word_length(rest);
    }
    assert(words(prev) == Seq::<Seq<char>>::empty());
    assert(views(parts@) + Seq::<Seq<char>>::empty() == views(parts@));
    parts
}

/// The decimal digit for `d`, which is below ten.
pub open spec fn digit(d: nat) -> char {
    if d == 0 {
        '0'
    } else if d == 1 {
        '1'
    } else if d == 2 {
        '2'
    } else if d == 3 {
        '3'
    } else if d == 4 {
        '4'
    } else if d == 5 {
        '5'
    } else if d == 6 {
        '6'
    } else if d == 7 {
        '7'
    } else if d == 8 {
        '8'
    } else {
        '9'
    }
}

/// `n` written in decimal, without leading zeros.
pub open spec fn decimal(n: nat) -> Seq<char>
    decreases n,
{
    if n < 10 {
        seq![digit(n)]
    } else {
        decimal(n / 10).push(digit(n % 10))
    }
}

/// The decimal digit for `d`.
pub fn digit_char(d: usize) -> (c: char)
    requires
        d < 10,
    ensures
        c == digit(d as nat),
{
    if d == 0 {
        '0'
    } else if d == 1 {
        '1'
    } else if d == 2 {
        '2'
    } else if d == 3 {
        '3'
    } else if d == 4 {
        '4'
    } else if d == 5 {
        '5'
    } else if d == 6 {
        '6'
    } else if d == 7 {
        '7'
    } else if d == 8 {
        '8'
    } else {
        '9'
    }
}

/// Appends `n` in decimal to `out`.
pub fn push_decimal(out: &mut String, n: usize)
    ensures
        final(out)@ == old(out)@ + decimal(n as nat),
    decreases n,
{
    if n >= 10 {
        push_decimal(out, n / 10);
    }
    out.push(digit_char(n % 10));
    proof {
        if n >= 10 {
            assert(old(out)@ + decimal((n / 10) as nat).push(digit((n % 10) as nat)) == (old(out)@
                + decimal((n / 10) as nat)).push(digit((n % 10) as nat)));
        } else {
            assert(old(out)@ + seq![digit(n as nat)] == old(out)@.push(digit(n as nat)));
        }
    }
}

/// Whether two slices hold the same characters.
pub fn same_chars(a: &[char], b: &[char]) -> (r: bool)
    ensures
        r == (a@ == b@),
{
    if a.len() != b.len() {
        return false;
    }
    let mut i: usize = 0;
    while i < a.len()
        invariant
            i <= a.len(),
            a.len() == b.len(),
            a@.take(i as int) == b@.take(i as int),
        decreases a.len() - i,
    {
        if a[i] != b[i] {
            return false;
        }
        assert(a@.take(i + 1) == a@.take(i as int).push(a@[i as int]));
        assert(b@.take(i + 1) == b@.take(i as int).push(b@[i as int]));
        i += 1;
    }
    assert(a@.take(a.len() as int) == a@);
    assert(b@.take(b.len() as int) == b@);
    true
}

/// Whether two byte slices hold the same bytes.
pub fn same_bytes(x: &[u8], y: &[u8]) -> (r: bool)
    ensures
        r == (x@ == y@),
{
    if x.len() != y.len() {
        return false;
    }
    let mut i: usize = 0;
    while i < x.len()
        invariant
            i <= x.len(),
            x.len() == y.len(),
            x@.take(i as int) == y@.take(i as int),
        decreases x.len() - i,
    {
        if x[i] != y[i] {
            return false;
        }
        assert(x@.take(i + 1) == x@.take(i as int).push(x@[i as int]));
        assert(y@.take(i + 1) == y@.take(i as int).push(y@[i as int]));
        i += 1;
    }
    assert(x@.take(x.len() as int) == x@);
    assert(y@.take(y.len() as int) == y@);
    true
}

/// Whether two texts hold the same characters.
pub fn same_text(a: &str, b: &str) -> (r: bool)
    ensures
        r == (a@ == b@),
{
    proof {
        vstd::utf8::encode_utf8_decode_utf8(a@);
        vstd::utf8::encode_utf8_decode_utf8(b@);
    }
    same_bytes(a.as_bytes(), b.as_bytes())
}

/// `find` gives the first place where the pattern stands, or the length
/// where it stands nowhere.
pub proof fn lemma_find(s: Seq<char>, pat: Seq<char>)
    ensures
        0 <= find(s, pat) <= s.len(),
        find(s, pat) < s.len() ==> starts_with(s.skip(find(s, pat)), pat),
        forall|j: int| 0 <= j < find(s, pat) ==> !starts_with(#[trigger] s.skip(j), pat),
    decreases s.len(),
{
    assert(s.skip(0) =~= s);
    if s.len() == 0 || starts_with(s, pat) {
    } else {
        let rest = s.drop_first();
        lemma_find(rest, pat);
        assert(rest.skip(find(rest, pat)) =~= s.skip(find(rest, pat) + 1));
        assert forall|j: int| 0 <= j < find(s, pat) implies !starts_with(
            #[trigger] s.skip(j),
            pat,
        ) by {
            if j > 0 {
                assert(rest.skip(j - 1) =~= s.skip(j));
            }
        }
    }
}

/// Trimming does not lengthen a text, and a run of characters is no longer
/// than the text it begins: the condition in `words` asks only that the first
/// run is not empty.
pub proof fn lemma_word_bounds(s: Seq<char>)
    ensures
        trim_start(s).len() <= s.len(),
        0 <= word_len(s) <= s.len(),
        words(s).len() > 0 <==> word_len(trim_start(s)) > 0,
    decreases s.len(),
{
    if s.len() > 0 {
        lemma_word_bounds(s.drop_first());
    }
    lemma_word_len(trim_start(s));
}

proof fn lemma_word_len(s: Seq<char>)
    ensures
        0 <= word_len(s) <= s.len(),
    decreases s.len(),
{
    if s.len() > 0 {
        lemma_word_len(s.drop_first());
    }
}

/// `find` of a single character gives its first place, or the length where
/// it has none.
pub proof fn lemma_find_char(s: Seq<char>, c: char)
    ensures
        0 <= find(s, seq![c]) <= s.len(),
        find(s, seq![c]) < s.len() ==> s[find(s, seq![c])] == c,
        forall|j: int| 0 <= j < find(s, seq![c]) ==> s[j] != c,
    decreases s.len(),
{
    if s.len() > 0 {
        assert(starts_with(s, seq![c]) <==> s[0] == c) by {
            assert(s.take(1) =~= seq![s[0]]);
            if s[0] != c {
                assert(seq![s[0]][0] != seq![c][0]);
            }
        }
        if s[0] != c {
            let rest = s.drop_first();
            lemma_find_char(rest, c);
            assert forall|j: int| 0 <= j < find(s, seq![c]) implies s[j] != c by {
                if j > 0 {
                    assert(s[j] == rest[j - 1]);
                }
            }
        }
    }
}

/// A place that holds `c` and has no `c` before it is where `find` points.
pub proof fn lemma_find_char_is(s: Seq<char>, c: char, i: int)
    requires
        0 <= i <= s.len(),
        i < s.len() ==> s[i] == c,
        forall|j: int| 0 <= j < i ==> s[j] != c,
    ensures
        find(s, seq![c]) == i,
{
    lemma_find_char(s, c);
}

/// Splitting two texts joined by the separator gives the pieces of the
/// first, then the pieces of the second.
pub proof fn lemma_split_join(a: Seq<char>, b: Seq<char>, sep: char)
    ensures
        split(a + seq![sep] + b, sep) == split(a, sep) + split(b, sep),
    decreases a.len(),
{
    let whole = a + seq![sep] + b;
    lemma_find_char(a, sep);
    let i = find(a, seq![sep]);
    assert forall|j: int| 0 <= j < i implies whole[j] != sep by {
        assert(whole[j] == a[j]);
    }
    if i < a.len() {
        assert(whole[i] == a[i]);
    } else {
        assert(whole[i] == sep);
    }
    lemma_find_char_is(whole, sep, i);
    assert(whole.take(i) =~= a.take(i));
    if i < a.len() {
        assert(whole.skip(i + 1) =~= a.skip(i + 1) + seq![sep] + b);
        lemma_split_join(a.skip(i + 1), b, sep);
        assert(seq![a.take(i)] + (split(a.skip(i + 1), sep) + split(b, sep)) =~= (seq![a.take(i)]
            + split(a.skip(i + 1), sep)) + split(b, sep));
    } else {
        assert(a.take(i) =~= a);
        assert(whole.skip(i + 1) =~= b);
    }
}

/// A text without the separator is its own single piece.
pub proof fn lemma_split_one(s: Seq<char>, sep: char)
    requires
        !s.contains(sep),
    ensures
        split(s, sep) == seq![s],
{
    lemma_find_char(s, sep);
    if find(s, seq![sep]) < s.len() {
        assert(s.contains(s[find(s, seq![sep])]));
    }
}

} // verus!
