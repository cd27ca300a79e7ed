//! Character-level helpers shared by the parsers of this crate.
//!
//! Strings are handled as sequences of `char`; every helper states its
//! result over the spec functions defined here (`trim`, `split_on`,
//! `parse_u64`, ...), which follow the behaviour of the corresponding
//! `str` methods of std.

use vstd::prelude::*;

verus! {

broadcast use vstd::string::group_string_axioms;

// ---------------------------------------------------------------------------
// Spec definitions
// ---------------------------------------------------------------------------

/// Unicode `White_Space`, the set `char::is_whitespace` tests.
pub open spec fn is_ws(c: char) -> bool {
    let u = c as u32;
    ||| (0x9 <= u && u <= 0xd)
    ||| u == 0x20
    ||| u == 0x85
    ||| u == 0xa0
    ||| u == 0x1680
    ||| (0x2000 <= u && u <= 0x200a)
    ||| u == 0x2028
    ||| u == 0x2029
    ||| u == 0x202f
    ||| u == 0x205f
    ||| u == 0x3000
}

/// `s` without its leading whitespace.
pub open spec fn trim_start(s: Seq<char>) -> Seq<char>
    decreases s.len(),
{
    if s.len() > 0 && is_ws(s[0]) {
        trim_start(s.drop_first())
    } else {
        s
    }
}

/// `s` without its trailing whitespace.
pub open spec fn trim_end(s: Seq<char>) -> Seq<char>
    decreases s.len(),
{
    if s.len() > 0 && is_ws(s.last()) {
        trim_end(s.drop_last())
    } else {
        s
    }
}

/// `s` without leading and trailing whitespace (`str::trim`).
pub open spec fn trim(s: Seq<char>) -> Seq<char> {
    trim_end(trim_start(s))
}

/// `s` without any leading `c` (`str::trim_start_matches` with a char).
pub open spec fn trim_start_char(s: Seq<char>, c: char) -> Seq<char>
    decreases s.len(),
{
    if s.len() > 0 && s[0] == c {
        trim_start_char(s.drop_first(), c)
    } else {
        s
    }
}

/// `s` without any trailing `c` (`str::trim_end_matches` with a char).
pub open spec fn trim_end_char(s: Seq<char>, c: char) -> Seq<char>
    decreases s.len(),
{
    if s.len() > 0 && s.last() == c {
        trim_end_char(s.drop_last(), c)
    } else {
        s
    }
}

/// The non-empty pieces of `ps`, in order.
pub open spec fn nonempty_pieces(ps: Seq<Seq<char>>) -> Seq<Seq<char>>
    decreases ps.len(),
{
    if ps.len() == 0 {
        ps
    } else if ps.last().len() > 0 {
        nonempty_pieces(ps.drop_last()).push(ps.last())
    } else {
        nonempty_pieces(ps.drop_last())
    }
}

/// The pieces of `s` between occurrences of `sep` (`str::split` with a
/// char pattern): always at least one piece, empty pieces kept.
pub open spec fn split_on(s: Seq<char>, sep: char) -> Seq<Seq<char>>
    decreases s.len(),
{
    if s.len() == 0 {
        seq![Seq::<char>::empty()]
    } else {
        let p = split_on(s.drop_last(), sep);
        if s.last() == sep {
            p.push(Seq::<char>::empty())
        } else {
            p.update(p.len() - 1, p.last().push(s.last()))
        }
    }
}

/// The part of `s` before the first `sep` (`s.split(sep).next()`).
pub open spec fn before_first(s: Seq<char>, sep: char) -> Seq<char>
    decreases s.len(),
{
    if s.len() == 0 {
        s
    } else if s[0] == sep {
        Seq::<char>::empty()
    } else {
        seq![s[0]] + before_first(s.drop_first(), sep)
    }
}

/// Does `pat` occur in `s` starting at `i`?
pub open spec fn occurs_at(s: Seq<char>, pat: Seq<char>, i: int) -> bool {
    0 <= i && i + pat.len() <= s.len() && s.subrange(i, i + pat.len()) == pat
}

/// `str::contains` with a string pattern.
pub open spec fn contains_seq(s: Seq<char>, pat: Seq<char>) -> bool {
    exists|i: int| occurs_at(s, pat, i)
}

/// `str::find` with a string pattern: the first position of `pat` in `s`.
pub open spec fn find_seq(s: Seq<char>, pat: Seq<char>) -> Option<int> {
    if contains_seq(s, pat) {
        Some(choose|i: int| occurs_at(s, pat, i) && forall|j: int| 0 <= j < i ==> !occurs_at(s, pat, j))
    } else {
        None
    }
}

/// `str::starts_with` with a string pattern.
pub open spec fn starts_with(s: Seq<char>, pat: Seq<char>) -> bool {
    pat.len() <= s.len() && s.take(pat.len() as int) == pat
}

/// `str::ends_with` with a string pattern.
pub open spec fn ends_with(s: Seq<char>, pat: Seq<char>) -> bool {
    pat.len() <= s.len() && s.skip(s.len() - pat.len()) == pat
}

/// An ASCII decimal digit.
pub open spec fn is_digit(c: char) -> bool {
    '0' <= c && c <= '9'
}

/// The value of a digit character.
pub open spec fn digit_value(c: char) -> nat {
    ((c as u32) - ('0' as u32)) as nat
}

/// All characters of `s` are ASCII digits.
pub open spec fn all_digits(s: Seq<char>) -> bool {
    forall|i: int| 0 <= i < s.len() ==> is_digit(#[trigger] s[i])
}

/// The decimal number written by the digits `s`.
pub open spec fn digits_value(s: Seq<char>) -> nat
    decreases s.len(),
{
    if s.len() == 0 {
        0
    } else {
        digits_value(s.drop_last()) * 10 + digit_value(s.last())
    }
}

/// `s` without one leading `+`, as the unsigned `FromStr` impls accept it.
pub open spec fn unsigned_body(s: Seq<char>) -> Seq<char> {
    if s.len() > 0 && s[0] == '+' {
        s.drop_first()
    } else {
        s
    }
}

/// `<u64 as FromStr>::from_str(s).ok()`: an optional `+`, then one or more
/// ASCII digits whose value fits in a `u64`.
pub open spec fn parse_u64(s: Seq<char>) -> Option<u64> {
    let b = unsigned_body(s);
    if b.len() > 0 && all_digits(b) && digits_value(b) <= u64::MAX {
        Some(digits_value(b) as u64)
    } else {
        None
    }
}

/// `<u32 as FromStr>::from_str(s).ok()`.
pub open spec fn parse_u32(s: Seq<char>) -> Option<u32> {
    let b = unsigned_body(s);
    if b.len() > 0 && all_digits(b) && digits_value(b) <= u32::MAX {
        Some(digits_value(b) as u32)
    } else {
        None
    }
}

/// `s` without any repeated trailing `pat` (`str::trim_end_matches` with a
/// string pattern; an empty pattern removes nothing).
pub open spec fn trim_end_str(s: Seq<char>, pat: Seq<char>) -> Seq<char>
    decreases s.len(),
{
    if pat.len() > 0 && ends_with(s, pat) {
        trim_end_str(s.take(s.len() - pat.len()), pat)
    } else {
        s
    }
}

/// The decimal digits of `n`, as `u64::to_string` writes them.
pub open spec fn decimal(n: nat) -> Seq<char>
    decreases n,
{
    if n < 10 {
        seq![digit_char(n)]
    } else {
        decimal(n / 10).push(digit_char(n % 10))
    }
}

/// The ASCII digit for `d < 10`.
pub open spec fn digit_char(d: nat) -> char {
    (('0' as u32) + d) as char
}

/// The lower-case hexadecimal digit for `d < 16`.
pub open spec fn hex_digit(d: nat) -> char {
    if d < 10 {
        (('0' as u32) + d) as char
    } else {
        (('a' as u32) + (d - 10)) as char
    }
}

/// Two lower-case hex digits per byte (`format!("{b:02x}")` for each byte).
pub open spec fn hex_lower(bytes: Seq<u8>) -> Seq<char>
    decreases bytes.len(),
{
    if bytes.len() == 0 {
        Seq::<char>::empty()
    } else {
        let b = bytes.last();
        hex_lower(bytes.drop_last()).push(hex_digit((b / 16) as nat)).push(hex_digit((b % 16) as nat))
    }
}

/// `str::replace` with a non-empty pattern: every occurrence of `pat`,
/// found left to right without overlaps, replaced by `r`.
pub open spec fn replace_all(s: Seq<char>, pat: Seq<char>, r: Seq<char>) -> Seq<char>
    decreases s.len(),
{
    if s.len() == 0 || pat.len() == 0 {
        s
    } else if starts_with(s, pat) {
        r + replace_all(s.skip(pat.len() as int), pat, r)
    } else {
        seq![s[0]] + replace_all(s.drop_first(), pat, r)
    }
}

/// The Unicode lower-case form of `s`, as `str::to_lowercase` computes it.
pub uninterp spec fn spec_to_lowercase(s: Seq<char>) -> Seq<char>;

/// The Unicode upper-case form of `s`, as `str::to_uppercase` computes it.
pub uninterp spec fn spec_to_uppercase(s: Seq<char>) -> Seq<char>;

/// Every character of `s` is ASCII and none is an upper-case letter.
pub open spec fn lower_ascii(s: Seq<char>) -> bool {
    forall|i: int| 0 <= i < s.len() ==> (#[trigger] s[i] as u32) < 128 && !('A' <= s[i] && s[i] <= 'Z')
}

// ---------------------------------------------------------------------------
// Lemmas
// ---------------------------------------------------------------------------

/// Splitting text that holds no separator gives the text itself.
pub proof fn lemma_split_on_absent(s: Seq<char>, sep: char)
    requires
        forall|j: int| 0 <= j < s.len() ==> #[trigger] s[j] != sep,
    ensures
        split_on(s, sep) == seq![s],
    decreases s.len(),
{
    if s.len() == 0 {
        assert(s =~= Seq::<char>::empty());
    } else {
        let d = s.drop_last();
        assert forall|j: int| 0 <= j < d.len() implies #[trigger] d[j] != sep by {
            assert(d[j] == s[j]);
        }
        lemma_split_on_absent(d, sep);
        assert(d.push(s.last()) =~= s);
    }
}

/// The text before the first separator is all of a text that holds none.
pub proof fn lemma_before_first_absent(s: Seq<char>, sep: char)
    requires
        forall|j: int| 0 <= j < s.len() ==> #[trigger] s[j] != sep,
    ensures
        before_first(s, sep) == s,
    decreases s.len(),
{
    if s.len() > 0 {
        let d = s.drop_first();
        assert forall|j: int| 0 <= j < d.len() implies #[trigger] d[j] != sep by {
            assert(d[j] == s[j + 1]);
        }
        lemma_before_first_absent(d, sep);
        assert(seq![s[0]] + d =~= s);
    }
}

/// Trimming text that neither starts nor ends with whitespace keeps it.
pub proof fn lemma_trim_unchanged(s: Seq<char>)
    requires
        s.len() > 0,
        !is_ws(s[0]),
        !is_ws(s.last()),
    ensures
        trim(s) == s,
{
}

/// The pieces joined with `sep` between them (`[a, b, c]` gives `a sep b
/// sep c`).
pub open spec fn join_with(parts: Seq<Seq<char>>, sep: char) -> Seq<char>
    decreases parts.len(),
{
    if parts.len() == 0 {
        Seq::empty()
    } else if parts.len() == 1 {
        parts[0]
    } else {
        join_with(parts.drop_last(), sep) + seq![sep] + parts.last()
    }
}

/// Splitting always yields at least one piece.
pub proof fn lemma_split_on_nonempty(s: Seq<char>, sep: char)
    ensures
        split_on(s, sep).len() >= 1,
    decreases s.len(),
{
    if s.len() > 0 {
        lemma_split_on_nonempty(s.drop_last(), sep);
    }
}

/// Splitting `a sep b` splits `a` and `b` separately.
pub proof fn lemma_split_on_concat(a: Seq<char>, b: Seq<char>, sep: char)
    ensures
        split_on(a + seq![sep] + b, sep) == split_on(a, sep) + split_on(b, sep),
    decreases b.len(),
{
    let x = a + seq![sep] + b;
    lemma_split_on_nonempty(a, sep);
    if b.len() == 0 {
        assert(x.drop_last() =~= a);
        assert(split_on(x, sep) =~= split_on(a, sep) + split_on(b, sep));
    } else {
        let b2 = b.drop_last();
        assert(x.drop_last() =~= a + seq![sep] + b2);
        lemma_split_on_concat(a, b2, sep);
        lemma_split_on_nonempty(b2, sep);
        let pa = split_on(a, sep);
        let pb = split_on(b2, sep);
        assert(x.last() == b.last());
        if b.last() == sep {
            assert(split_on(x, sep) =~= (pa + pb).push(Seq::<char>::empty()));
            assert(split_on(b, sep) =~= pb.push(Seq::<char>::empty()));
            assert((pa + pb).push(Seq::<char>::empty()) =~= pa + pb.push(Seq::<char>::empty()));
        } else {
            let q = pa + pb;
            assert(q.last() == pb.last());
            assert(split_on(b, sep) =~= pb.update(pb.len() - 1, pb.last().push(b.last())));
            assert(q.update(q.len() - 1, q.last().push(b.last())) =~= pa + pb.update(pb.len() - 1, pb.last().push(b.last())));
        }
    }
}

/// Splitting pieces joined with a separator none of them holds gives the
/// pieces back.
pub proof fn lemma_split_join(parts: Seq<Seq<char>>, sep: char)
    requires
        parts.len() >= 1,
        forall|i: int, j: int| 0 <= i < parts.len() && 0 <= j < parts[i].len() ==> #[trigger] parts[i][j] != sep,
    ensures
        split_on(join_with(parts, sep), sep) == parts,
    decreases parts.len(),
{
    if parts.len() == 1 {
        let p0 = parts[0];
        assert forall|j: int| 0 <= j < p0.len() implies #[trigger] p0[j] != sep by {
            assert(parts[0][j] != sep);
        }
        lemma_split_on_absent(p0, sep);
        assert(seq![p0] =~= parts);
    } else {
        let d = parts.drop_last();
        assert forall|i: int, j: int| 0 <= i < d.len() && 0 <= j < d[i].len() implies #[trigger] d[i][j] != sep by {
            assert(d[i] == parts[i]);
        }
        lemma_split_join(d, sep);
        let l = parts.last();
        assert forall|j: int| 0 <= j < l.len() implies #[trigger] l[j] != sep by {
            assert(parts[parts.len() - 1][j] != sep);
        }
        lemma_split_on_absent(l, sep);
        lemma_split_on_concat(join_with(d, sep), l, sep);
        assert(d + seq![l] =~= parts);
    }
}

/// Pieces that are all non-empty are kept as they are.
pub proof fn lemma_nonempty_pieces_keep(ps: Seq<Seq<char>>)
    requires
        forall|i: int| 0 <= i < ps.len() ==> (#[trigger] ps[i]).len() > 0,
    ensures
        nonempty_pieces(ps) == ps,
    decreases ps.len(),
{
    if ps.len() > 0 {
        lemma_nonempty_pieces_keep(ps.drop_last());
        assert(ps.drop_last().push(ps.last()) =~= ps);
    }
}

/// Every character of `w` is whitespace.
pub open spec fn all_ws(w: Seq<char>) -> bool {
    forall|j: int| 0 <= j < w.len() ==> is_ws(#[trigger] w[j])
}

/// Leading whitespace before `x` is trimmed away with `x`'s own.
pub proof fn lemma_trim_start_ws_prefix(w: Seq<char>, x: Seq<char>)
    requires
        all_ws(w),
    ensures
        trim_start(w + x) == trim_start(x),
    decreases w.len(),
{
    if w.len() > 0 {
        assert(is_ws(w[0]));
        assert((w + x)[0] == w[0]);
        assert((w + x).drop_first() =~= w.drop_first() + x);
        assert(all_ws(w.drop_first())) by {
            assert forall|j: int| 0 <= j < w.drop_first().len() implies is_ws(#[trigger] w.drop_first()[j]) by {
                assert(w.drop_first()[j] == w[j + 1]);
            }
        }
        lemma_trim_start_ws_prefix(w.drop_first(), x);
    } else {
        assert(w + x =~= x);
    }
}

/// Trailing whitespace after `x` is trimmed away with `x`'s own.
pub proof fn lemma_trim_end_ws_suffix(x: Seq<char>, w: Seq<char>)
    requires
        all_ws(w),
    ensures
        trim_end(x + w) == trim_end(x),
    decreases w.len(),
{
    if w.len() > 0 {
        assert(is_ws(w[w.len() - 1]));
        assert((x + w).last() == w.last());
        assert((x + w).drop_last() =~= x + w.drop_last());
        assert(all_ws(w.drop_last())) by {
            assert forall|j: int| 0 <= j < w.drop_last().len() implies is_ws(#[trigger] w.drop_last()[j]) by {
                assert(w.drop_last()[j] == w[j]);
            }
        }
        lemma_trim_end_ws_suffix(x, w.drop_last());
    } else {
        assert(x + w =~= x);
    }
}

/// Trimming the start of `q + w`.
pub proof fn lemma_trim_start_concat(q: Seq<char>, w: Seq<char>)
    ensures
        trim_start(q + w) == if trim_start(q).len() > 0 {
            trim_start(q) + w
        } else {
            trim_start(w)
        },
    decreases q.len(),
{
    if q.len() == 0 {
        assert(q + w =~= w);
    } else {
        assert((q + w)[0] == q[0]);
        if is_ws(q[0]) {
            assert((q + w).drop_first() =~= q.drop_first() + w);
            lemma_trim_start_concat(q.drop_first(), w);
        }
    }
}

/// Whitespace around a text does not change its trimmed form.
pub proof fn lemma_trim_ws_around(w1: Seq<char>, q: Seq<char>, w2: Seq<char>)
    requires
        all_ws(w1),
        all_ws(w2),
    ensures
        trim(w1 + q + w2) == trim(q),
{
    assert(w1 + q + w2 =~= w1 + (q + w2));
    lemma_trim_start_ws_prefix(w1, q + w2);
    lemma_trim_start_concat(q, w2);
    if trim_start(q).len() > 0 {
        lemma_trim_end_ws_suffix(trim_start(q), w2);
    } else {
        lemma_trim_start_ws_prefix(w2, Seq::<char>::empty());
        assert(w2 + Seq::<char>::empty() =~= w2);
        assert(trim_start(Seq::<char>::empty()) == Seq::<char>::empty());
        assert(trim_start(q) =~= Seq::<char>::empty());
    }
}

/// `pat` occurs nowhere in `s` when no two neighbouring characters of `s`
/// are the pair `pat[k]`, `pat[k + 1]`.
pub proof fn lemma_absent_by_pair(s: Seq<char>, pat: Seq<char>, k: int)
    requires
        0 <= k,
        k + 1 < pat.len(),
        forall|j: int| 0 <= j && j + 1 < s.len() ==> !(#[trigger] s[j] == pat[k] && s[j + 1] == pat[k + 1]),
    ensures
        !contains_seq(s, pat),
{
    assert forall|i: int| !#[trigger] occurs_at(s, pat, i) by {
        if occurs_at(s, pat, i) {
            assert(s.subrange(i, i + pat.len())[k] == pat[k]);
            assert(s.subrange(i, i + pat.len())[k + 1] == pat[k + 1]);
        }
    }
}

proof fn lemma_trim_start_skip(s: Seq<char>, i: int)
    requires
        0 <= i < s.len(),
        is_ws(s[i]),
    ensures
        trim_start(s.skip(i)) == trim_start(s.skip(i + 1)),
{
    assert(s.skip(i).drop_first() =~= s.skip(i + 1));
}

proof fn lemma_trim_end_take(s: Seq<char>, j: int)
    requires
        0 < j <= s.len(),
        is_ws(s[j - 1]),
    ensures
        trim_end(s.take(j)) == trim_end(s.take(j - 1)),
{
    assert(s.take(j).drop_last() =~= s.take(j - 1));
}

// ---------------------------------------------------------------------------
// Executable helpers
// ---------------------------------------------------------------------------

/// The characters of `s`, in order.
pub fn chars_of(s: &str) -> (res: Vec<char>)
    ensures
        res@ == s@,
{
    let mut res: Vec<char> = Vec::new();
    for c in it: s.chars()
        invariant
            res@ == it.seq().take(it.index() as int),
            it.seq() == s@,
    {
        res.push(c);
    }
    res
}

/// Appends one character to a `String` (`String::push`).
#[verifier::external_body]
pub(crate) fn push_char(s: &mut String, c: char)
    ensures
        final(s)@ == old(s)@.push(c),
{
    s.push(c);
}

/// The `String` holding exactly the characters `v`.
pub fn string_of(v: &[char]) -> (res: String)
    ensures
        res@ == v@,
{
    let mut res = String::new();
    let mut i: usize = 0;
    while i < v.len()
        invariant
            i <= v@.len(),
            res@ == v@.take(i as int),
        decreases v@.len() - i,
    {
        push_char(&mut res, v[i]);
        assert(v@.take(i as int).push(v@[i as int]) =~= v@.take(i + 1));
        i = i + 1;
    }
    assert(v@.take(v@.len() as int) =~= v@);
    res
}

/// `v[lo..hi]` as a new vector.
pub fn sub_chars(v: &[char], lo: usize, hi: usize) -> (res: Vec<char>)
    requires
        lo <= hi <= v@.len(),
    ensures
        res@ == v@.subrange(lo as int, hi as int),
{
    let mut res: Vec<char> = Vec::new();
    let mut i: usize = lo;
    while i < hi
        invariant
            lo <= i <= hi <= v@.len(),
            res@ == v@.subrange(lo as int, i as int),
        decreases hi - i,
    {
        res.push(v[i]);
        assert(v@.subrange(lo as int, i as int).push(v@[i as int]) =~= v@.subrange(lo as int, i + 1));
        i = i + 1;
    }
    res
}

/// `char::is_whitespace`.
pub fn is_whitespace(c: char) -> (r: bool)
    ensures
        r == is_ws(c),
{
    let u = c as u32;
    (0x9 <= u && u <= 0xd) || u == 0x20 || u == 0x85 || u == 0xa0 || u == 0x1680 || (0x2000 <= u
        && u <= 0x200a) || u == 0x2028 || u == 0x2029 || u == 0x202f || u == 0x205f || u == 0x3000
}

/// The bounds `(i, j)` of `trim(v)` inside `v`.
pub fn trim_bounds(v: &[char]) -> (r: (usize, usize))
    ensures
        r.0 <= r.1 <= v@.len(),
        v@.subrange(r.0 as int, r.1 as int) == trim(v@),
{
    let n = v.len();
    let mut i: usize = 0;
    assert(v@.skip(0) =~= v@);
    while i < n && is_whitespace(v[i])
        invariant
            i <= n == v@.len(),
            trim_start(v@) == trim_start(v@.skip(i as int)),
        decreases n - i,
    {
        proof {
            lemma_trim_start_skip(v@, i as int);
        }
        i = i + 1;
    }
    let ghost t = v@.skip(i as int);
    assert(trim_start(v@) == t);
    let mut j: usize = n;
    assert(t.take(t.len() as int) =~= t);
    while j > i && is_whitespace(v[j - 1])
        invariant
            i <= j <= n == v@.len(),
            t == v@.skip(i as int),
            trim_end(t) == trim_end(t.take(j - i)),
        decreases j,
    {
        proof {
            lemma_trim_end_take(t, (j - i) as int);
        }
        j = j - 1;
    }
    assert(t.take(j - i) =~= v@.subrange(i as int, j as int));
    (i, j)
}

/// `str::trim` on a character vector.
pub fn trim_chars(v: &[char]) -> (res: Vec<char>)
    ensures
        res@ == trim(v@),
{
    let (i, j) = trim_bounds(v);
    sub_chars(v, i, j)
}

/// The bounds `(i, j)` of `trim_end_char(trim_start_char(v, c), c)` inside `v`.
pub fn trim_char_bounds(v: &[char], c: char) -> (r: (usize, usize))
    ensures
        r.0 <= r.1 <= v@.len(),
        v@.subrange(r.0 as int, r.1 as int) == trim_end_char(trim_start_char(v@, c), c),
{
    let n = v.len();
    let mut i: usize = 0;
    assert(v@.skip(0) =~= v@);
    while i < n && v[i] == c
        invariant
            i <= n == v@.len(),
            trim_start_char(v@, c) == trim_start_char(v@.skip(i as int), c),
        decreases n - i,
    {
        assert(v@.skip(i as int).drop_first() =~= v@.skip(i + 1));
        i = i + 1;
    }
    let ghost t = v@.skip(i as int);
    assert(trim_start_char(v@, c) == t);
    let mut j: usize = n;
    assert(t.take(t.len() as int) =~= t);
    while j > i && v[j - 1] == c
        invariant
            i <= j <= n == v@.len(),
            t == v@.skip(i as int),
            trim_end_char(t, c) == trim_end_char(t.take(j - i), c),
        decreases j,
    {
        assert(t.take(j - i).drop_last() =~= t.take(j - i - 1));
        j = j - 1;
    }
    assert(t.take(j - i) =~= v@.subrange(i as int, j as int));
    (i, j)
}

/// The non-empty vectors of `ps`, in order.
pub fn nonempty_only(ps: Vec<Vec<char>>) -> (res: Vec<Vec<char>>)
    ensures
        res@.len() == nonempty_pieces(ps@.map_values(|p: Vec<char>| p@)).len(),
        forall|k: int| 0 <= k < res@.len() ==> #[trigger] res@[k]@ == nonempty_pieces(ps@.map_values(|p: Vec<char>| p@))[k],
{
    let ghost views = ps@.map_values(|p: Vec<char>| p@);
    let mut res: Vec<Vec<char>> = Vec::new();
    let mut ps = ps;
    let ghost orig = ps@;
    let n = ps.len();
    let mut i: usize = 0;
    let mut rest: Vec<Vec<char>> = Vec::new();
    // walk the pieces front to back by reversing once
    while ps.len() > 0
        invariant
            ps@.len() + rest@.len() == n,
            n == orig.len(),
            forall|k: int| 0 <= k < ps@.len() ==> #[trigger] ps@[k] == orig[k],
            forall|k: int| 0 <= k < rest@.len() ==> #[trigger] rest@[k] == orig[n - 1 - k],
        decreases ps@.len(),
    {
        let p = ps.pop().unwrap();
        rest.push(p);
    }
    assert(views.take(0) =~= Seq::<Seq<char>>::empty());
    while rest.len() > 0
        invariant
            i + rest@.len() == n,
            n == orig.len(),
            views == orig.map_values(|p: Vec<char>| p@),
            forall|k: int| 0 <= k < rest@.len() ==> #[trigger] rest@[k] == orig[n - 1 - k],
            res@.len() == nonempty_pieces(views.take(i as int)).len(),
            forall|k: int| 0 <= k < res@.len() ==> #[trigger] res@[k]@ == nonempty_pieces(views.take(i as int))[k],
        decreases rest@.len(),
    {
        let p = rest.pop().unwrap();
        assert(p == orig[i as int]);
        assert(views.take(i + 1).drop_last() =~= views.take(i as int));
        assert(views.take(i + 1).last() == p@);
        if p.len() > 0 {
            res.push(p);
        }
        i = i + 1;
    }
    assert(views.take(n as int) =~= views);
    res
}

/// Calls `str::to_lowercase`. Claimed: the result is the one fixed function
/// `spec_to_lowercase` of the input characters, and an ASCII string without
/// upper-case letters comes back unchanged (Unicode's lower-case mapping
/// keeps every character that is already lower case or not a letter); the
/// mapping of other characters is not restated.
#[verifier::external_body]
pub(crate) fn to_lowercase(s: &str) -> (r: String)
    ensures
        r@ == spec_to_lowercase(s@),
        lower_ascii(s@) ==> r@ == s@,
{
    s.to_lowercase()
}

/// Calls `str::to_uppercase`. Claimed: the result is the one fixed function
/// `spec_to_uppercase` of the input characters; the Unicode case mapping
/// itself is not restated.
#[verifier::external_body]
pub(crate) fn to_uppercase(s: &str) -> (r: String)
    ensures
        r@ == spec_to_uppercase(s@),
{
    s.to_uppercase()
}

/// Do two strings hold the same characters?
pub fn str_eq(a: &str, b: &str) -> (r: bool)
    ensures
        r == (a@ == b@),
{
    let av = chars_of(a);
    chars_eq_str(av.as_slice(), b)
}

/// `str::trim_end_matches` with a string pattern: the length of what stays.
pub fn trim_end_str_len(v: &[char], pat: &[char]) -> (n: usize)
    ensures
        n <= v@.len(),
        v@.take(n as int) == trim_end_str(v@, pat@),
{
    let mut n: usize = v.len();
    assert(v@.take(n as int) =~= v@);
    if pat.len() == 0 {
        return n;
    }
    loop
        invariant
            n <= v@.len(),
            pat@.len() > 0,
            trim_end_str(v@, pat@) == trim_end_str(v@.take(n as int), pat@),
        decreases n,
    {
        let w = sub_chars(v, 0, n);
        if !ends_with_chars(w.as_slice(), pat) {
            return n;
        }
        assert(v@.take(n as int).take(n - pat@.len()) =~= v@.take(n - pat@.len()));
        n = n - pat.len();
    }
}

/// The decimal representation of `n` (`u64::to_string`).
pub fn decimal_string(n: u64) -> (r: String)
    ensures
        r@ == decimal(n as nat),
{
    let mut digits: Vec<char> = Vec::new();
    let mut m: u64 = n;
    // digits collected least-significant first
    while m >= 10
        invariant
            decimal(n as nat) == decimal(m as nat) + digits@.reverse(),
        decreases m,
    {
        let d = (m % 10) as u32;
        let c = char_of_digit(d);
        proof {
            assert(decimal(m as nat) == decimal((m / 10) as nat).push(digit_char((m % 10) as nat)));
            assert(digits@.push(c).reverse() =~= seq![c] + digits@.reverse());
            assert(decimal((m / 10) as nat).push(c) + digits@.reverse() =~= decimal((m / 10) as nat) + (seq![c] + digits@.reverse()));
        }
        digits.push(c);
        m = m / 10;
    }
    let c = char_of_digit(m as u32);
    let mut out: Vec<char> = Vec::new();
    out.push(c);
    let mut i: usize = digits.len();
    assert(decimal(m as nat) =~= seq![c]);
    assert(digits@.reverse().take(0) =~= Seq::<char>::empty());
    while i > 0
        invariant
            i <= digits@.len(),
            out@ == seq![c] + digits@.reverse().take(digits@.len() - i),
        decreases i,
    {
        i = i - 1;
        out.push(digits[i]);
        assert(digits@.reverse().take(digits@.len() - i) =~= digits@.reverse().take(digits@.len() - i - 1).push(digits@[i as int]));
        assert(seq![c] + digits@.reverse().take(digits@.len() - i - 1).push(digits@[i as int]) =~= (seq![c] + digits@.reverse().take(digits@.len() - i - 1)).push(digits@[i as int]));
    }
    assert(digits@.reverse().take(digits@.len() as int) =~= digits@.reverse());
    string_of(out.as_slice())
}

/// The ASCII digit for `d < 10`.
fn char_of_digit(d: u32) -> (c: char)
    requires
        d < 10,
    ensures
        c == digit_char(d as nat),
{
    if d == 0 { '0' } else if d == 1 { '1' } else if d == 2 { '2' } else if d == 3 { '3' } else if d == 4 { '4' }
    else if d == 5 { '5' } else if d == 6 { '6' } else if d == 7 { '7' } else if d == 8 { '8' } else { '9' }
}

/// The lower-case hex digit for `d < 16`.
pub(crate) fn hex_char(d: u8) -> (c: char)
    requires
        d < 16,
    ensures
        c == hex_digit(d as nat),
{
    if d < 10 {
        char_of_digit(d as u32)
    } else if d == 10 { 'a' } else if d == 11 { 'b' } else if d == 12 { 'c' } else if d == 13 { 'd' }
    else if d == 14 { 'e' } else { 'f' }
}

/// Lower-case hexadecimal text of `bytes`, two digits per byte.
pub fn hex_lower_string(bytes: &[u8]) -> (r: String)
    ensures
        r@ == hex_lower(bytes@),
{
    let mut out: Vec<char> = Vec::new();
    let mut i: usize = 0;
    assert(bytes@.take(0) =~= Seq::<u8>::empty());
    while i < bytes.len()
        invariant
            i <= bytes@.len(),
            out@ == hex_lower(bytes@.take(i as int)),
        decreases bytes@.len() - i,
    {
        let b = bytes[i];
        assert(bytes@.take(i + 1).drop_last() =~= bytes@.take(i as int));
        out.push(hex_char(b / 16));
        out.push(hex_char(b % 16));
        i = i + 1;
    }
    assert(bytes@.take(bytes@.len() as int) =~= bytes@);
    string_of(out.as_slice())
}

/// `str::replace` with a non-empty pattern.
pub fn replace_all_chars(v: &[char], pat: &[char], r: &[char]) -> (out: Vec<char>)
    requires
        pat@.len() > 0,
    ensures
        out@ == replace_all(v@, pat@, r@),
{
    let n = v.len();
    let mut out: Vec<char> = Vec::new();
    let mut i: usize = 0;
    assert(v@.skip(0) =~= v@);
    while i < n
        invariant
            i <= n == v@.len(),
            pat@.len() > 0,
            replace_all(v@, pat@, r@) == out@ + replace_all(v@.skip(i as int), pat@, r@),
        decreases n - i,
    {
        let ghost t = v@.skip(i as int);
        if occurs_at_exec(v, pat, i) {
            assert(t.take(pat@.len() as int) =~= v@.subrange(i as int, i + pat@.len()));
            assert(starts_with(t, pat@));
            assert(t.skip(pat@.len() as int) =~= v@.skip(i + pat@.len()));
            let ghost before = out@;
            let mut k: usize = 0;
            while k < r.len()
                invariant
                    k <= r@.len(),
                    out@ == before + r@.take(k as int),
                decreases r@.len() - k,
            {
                out.push(r[k]);
                assert(r@.take(k + 1) =~= r@.take(k as int).push(r@[k as int]));
                k = k + 1;
            }
            assert(r@.take(r@.len() as int) =~= r@);
            assert(before + (r@ + replace_all(v@.skip(i + pat@.len()), pat@, r@)) =~= before + r@ + replace_all(v@.skip(i + pat@.len()), pat@, r@));
            i = i + pat.len();
        } else {
            proof {
                if starts_with(t, pat@) {
                    assert(v@.subrange(i as int, i + pat@.len()) =~= t.take(pat@.len() as int));
                }
            }
            assert(t.drop_first() =~= v@.skip(i + 1));
            let ghost before = out@;
            out.push(v[i]);
            assert(before + (seq![v@[i as int]] + replace_all(v@.skip(i + 1), pat@, r@)) =~= before.push(v@[i as int]) + replace_all(v@.skip(i + 1), pat@, r@));
            i = i + 1;
        }
    }
    assert(v@.skip(n as int) =~= Seq::<char>::empty());
    assert(out@ + Seq::<char>::empty() =~= out@);
    out
}

/// Do the characters `a` equal the characters of `b`?
pub fn chars_eq(a: &[char], b: &[char]) -> (r: bool)
    ensures
        r == (a@ == b@),
{
    if a.len() != b.len() {
        return false;
    }
    let mut i: usize = 0;
    while i < a.len()
        invariant
            a@.len() == b@.len(),
            i <= a@.len(),
            forall|k: int| 0 <= k < i ==> a@[k] == b@[k],
        decreases a@.len() - i,
    {
        if a[i] != b[i] {
            return false;
        }
        i = i + 1;
    }
    assert(a@ =~= b@);
    true
}

/// Do the characters `a` equal the string `b`?
pub fn chars_eq_str(a: &[char], b: &str) -> (r: bool)
    ensures
        r == (a@ == b@),
{
    let bv = chars_of(b);
    chars_eq(a, bv.as_slice())
}

/// `str::split` with a char separator: the pieces of `v` between `sep`s.
pub fn split_chars(v: &[char], sep: char) -> (res: Vec<Vec<char>>)
    ensures
        res@.len() == split_on(v@, sep).len(),
        forall|k: int| 0 <= k < res@.len() ==> #[trigger] res@[k]@ == split_on(v@, sep)[k],
{
    let mut res: Vec<Vec<char>> = Vec::new();
    let mut cur: Vec<char> = Vec::new();
    let mut i: usize = 0;
    assert(v@.take(0) =~= Seq::<char>::empty());
    while i < v.len()
        invariant
            i <= v@.len(),
            res@.len() + 1 == split_on(v@.take(i as int), sep).len(),
            forall|k: int| 0 <= k < res@.len() ==> #[trigger] res@[k]@ == split_on(v@.take(i as int), sep)[k],
            cur@ == split_on(v@.take(i as int), sep).last(),
        decreases v@.len() - i,
    {
        let ghost old_p = split_on(v@.take(i as int), sep);
        assert(v@.take(i + 1).drop_last() =~= v@.take(i as int));
        let c = v[i];
        if c == sep {
            let done = cur;
            res.push(done);
            cur = Vec::new();
        } else {
            cur.push(c);
        }
        i = i + 1;
        assert(split_on(v@.take(i as int), sep).len() == res@.len() + 1);
    }
    assert(v@.take(v@.len() as int) =~= v@);
    res.push(cur);
    res
}

/// `s.split(sep).next()`: the characters of `v` before the first `sep`.
pub fn before_first_chars(v: &[char], sep: char) -> (res: Vec<char>)
    ensures
        res@ == before_first(v@, sep),
{
    let mut i: usize = 0;
    assert(v@.skip(0) =~= v@);
    assert(v@.take(0) + v@ =~= v@);
    while i < v.len() && v[i] != sep
        invariant
            i <= v@.len(),
            forall|k: int| 0 <= k < i ==> v@[k] != sep,
            before_first(v@, sep) == v@.take(i as int) + before_first(v@.skip(i as int), sep),
        decreases v@.len() - i,
    {
        assert(v@.skip(i as int).drop_first() =~= v@.skip(i + 1));
        assert(v@.take(i as int) + seq![v@[i as int]] =~= v@.take(i + 1));
        assert(v@.take(i as int) + (seq![v@[i as int]] + before_first(v@.skip(i + 1), sep))
            =~= v@.take(i + 1) + before_first(v@.skip(i + 1), sep));
        i = i + 1;
    }
    proof {
        if i < v@.len() {
            assert(v@.skip(i as int)[0] == sep);
        } else {
            assert(v@.skip(i as int) =~= Seq::<char>::empty());
        }
        assert(v@.take(i as int) + Seq::<char>::empty() =~= v@.take(i as int));
    }
    sub_chars(v, 0, i)
}

/// Does `pat` occur in `v` at position `i`?
pub fn occurs_at_exec(v: &[char], pat: &[char], i: usize) -> (r: bool)
    ensures
        r == occurs_at(v@, pat@, i as int),
{
    let n = v.len();
    if i > n || pat.len() > n - i {
        return false;
    }
    let mut k: usize = 0;
    while k < pat.len()
        invariant
            i + pat@.len() <= v@.len(),
            n == v@.len(),
            k <= pat@.len(),
            forall|m: int| 0 <= m < k ==> v@[i + m] == pat@[m],
        decreases pat@.len() - k,
    {
        assert(i + k < n);
        if v[i + k] != pat[k] {
            assert(v@.subrange(i as int, i + pat@.len())[k as int] != pat@[k as int]);
            return false;
        }
        k = k + 1;
    }
    assert(v@.subrange(i as int, i + pat@.len()) =~= pat@);
    true
}

/// `str::find`: the first position of `pat` in `v`.
pub fn find_chars(v: &[char], pat: &[char]) -> (r: Option<usize>)
    ensures
        match r {
            Some(i) => find_seq(v@, pat@) == Some(i as int) && occurs_at(v@, pat@, i as int) && forall|j: int|
                0 <= j < i ==> !occurs_at(v@, pat@, j),
            None => find_seq(v@, pat@) is None && forall|j: int| !occurs_at(v@, pat@, j),
        },
{
    let n = v.len();
    let mut i: usize = 0;
    loop
        invariant
            i <= n == v@.len(),
            forall|j: int| 0 <= j < i ==> !occurs_at(v@, pat@, j),
        decreases n - i,
    {
        if occurs_at_exec(v, pat, i) {
            proof {
                let w = choose|w: int| occurs_at(v@, pat@, w) && forall|j: int| 0 <= j < w ==> !occurs_at(v@, pat@, j);
                assert(occurs_at(v@, pat@, i as int));
                assert(w == i);
            }
            return Some(i);
        }
        if i == n {
            proof {
                assert forall|j: int| !occurs_at(v@, pat@, j) by {
                    if 0 <= j <= i {
                    }
                }
            }
            return None;
        }
        i = i + 1;
    }
}

/// `str::contains` with a string pattern.
pub fn contains_chars(v: &[char], pat: &[char]) -> (r: bool)
    ensures
        r == contains_seq(v@, pat@),
{
    match find_chars(v, pat) {
        Some(_) => true,
        None => false,
    }
}

/// `str::starts_with` with a string pattern.
pub fn starts_with_chars(v: &[char], pat: &[char]) -> (r: bool)
    ensures
        r == starts_with(v@, pat@),
{
    let r = occurs_at_exec(v, pat, 0);
    proof {
        if pat@.len() <= v@.len() {
            assert(v@.subrange(0, pat@.len() as int) =~= v@.take(pat@.len() as int));
        }
    }
    r
}

/// `str::ends_with` with a string pattern.
pub fn ends_with_chars(v: &[char], pat: &[char]) -> (r: bool)
    ensures
        r == ends_with(v@, pat@),
{
    if pat.len() > v.len() {
        return false;
    }
    let r = occurs_at_exec(v, pat, v.len() - pat.len());
    assert(v@.subrange(v@.len() - pat@.len(), v@.len() as int) =~= v@.skip(v@.len() - pat@.len()));
    r
}

/// An ASCII decimal digit?
pub fn is_digit_char(c: char) -> (r: bool)
    ensures
        r == is_digit(c),
{
    '0' <= c && c <= '9'
}

/// `<u64 as FromStr>::from_str(..).ok()` on a character vector.
pub fn parse_u64_chars(v: &[char]) -> (r: Option<u64>)
    ensures
        r == parse_u64(v@),
{
    let start: usize = if v.len() > 0 && v[0] == '+' { 1 } else { 0 };
    let ghost b = unsigned_body(v@);
    assert(b =~= v@.skip(start as int));
    if start >= v.len() {
        return None;
    }
    let mut acc: u64 = 0;
    let mut i: usize = start;
    assert(b.take(0) =~= Seq::<char>::empty());
    while i < v.len()
        invariant
            start <= i <= v@.len(),
            b == v@.skip(start as int),
            b == unsigned_body(v@),
            all_digits(b.take(i - start)),
            acc as nat == digits_value(b.take(i - start)),
        decreases v@.len() - i,
    {
        let c = v[i];
        if !is_digit_char(c) {
            assert(b[i - start] == c);
            assert(!is_digit(b[i - start]));
            return None;
        }
        let d = (c as u32 - '0' as u32) as u64;
        assert(b.take(i + 1 - start).drop_last() =~= b.take(i - start));
        assert(b.take(i + 1 - start).last() == c);
        if acc > (u64::MAX - d) / 10 {
            proof {
                let t = b.take(i + 1 - start);
                assert(t.last() == c);
                assert(digit_value(c) == d);
                assert(digits_value(t) == digits_value(t.drop_last()) * 10 + digit_value(t.last()));
                assert(digits_value(b.take(i + 1 - start)) == acc * 10 + d);
                assert(acc * 10 + d > u64::MAX) by (nonlinear_arith)
                    requires
                        acc > (u64::MAX - d) / 10,
                        d <= 9,
                ;
                lemma_digits_prefix_bound(b, i + 1 - start);
            }
            return None;
        }
        assert(acc * 10 + d <= u64::MAX) by (nonlinear_arith)
            requires
                acc <= (u64::MAX - d) / 10,
                d <= 9,
        ;
        acc = acc * 10 + d;
        i = i + 1;
        assert(all_digits(b.take(i - start)));
    }
    assert(b.take(v@.len() - start) =~= b);
    Some(acc)
}

/// A longer digit string never has a smaller value than its prefix.
proof fn lemma_digits_prefix_bound(b: Seq<char>, k: int)
    requires
        0 <= k <= b.len(),
    ensures
        all_digits(b) ==> digits_value(b.take(k)) <= digits_value(b),
    decreases b.len() - k,
{
    if k < b.len() && all_digits(b) {
        lemma_digits_prefix_bound(b, k + 1);
        assert(b.take(k + 1).drop_last() =~= b.take(k));
        assert(digits_value(b.take(k + 1)) == digits_value(b.take(k)) * 10 + digit_value(b.take(k + 1).last()));
    } else if k == b.len() {
        assert(b.take(k) =~= b);
    }
}

/// `<u64 as FromStr>::from_str(s).ok()`.
pub fn parse_u64_str(s: &str) -> (r: Option<u64>)
    ensures
        r == parse_u64(s@),
{
    let v = chars_of(s);
    parse_u64_chars(v.as_slice())
}

} // verus!
