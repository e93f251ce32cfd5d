//! Character-level helpers on strings: building, numbers, searching, trimming.
use vstd::prelude::*;

verus! {

/// Appends one character to a `String` (std `String::push`).
/// Trusted: the new contents are the old contents followed by `c`.
#[verifier::external_body]
pub(crate) fn push_char(s: &mut String, c: char)
    ensures
        final(s)@ == old(s)@.push(c),
{
    s.push(c);
}

/// What std `str::to_lowercase` gives for a string: the Unicode lowercase mapping,
/// which depends on the characters alone.
pub uninterp spec fn lowercase_of(s: Seq<char>) -> Seq<char>;

/// Lowercases a string (std `str::to_lowercase`).
/// Trusted: the result is `lowercase_of` of the input; nothing more is claimed of it.
#[verifier::external_body]
pub(crate) fn to_lowercase(s: &str) -> (r: String)
    ensures
        r@ == lowercase_of(s@),
{
    s.to_lowercase()
}

/// The characters of a string slice, in order.
pub fn chars_of(s: &str) -> (v: Vec<char>)
    ensures
        v@ == s@,
{
    let mut v: Vec<char> = Vec::new();
    for c in it: s.chars()
        invariant
            v@ == it.seq().take(it.index()),
    {
        v.push(c);
    }
    v
}

/// A string holding the first `n` of the given characters.
pub fn prefix_string(cs: &Vec<char>, n: usize) -> (s: String)
    requires
        n <= cs@.len(),
    ensures
        s@ == cs@.take(n as int),
{
    let mut s = String::new();
    for i in 0..n
        invariant
            n <= cs@.len(),
            s@ == cs@.take(i as int),
    {
        push_char(&mut s, cs[i]);
        assert(cs@.take(i + 1) == cs@.take(i as int).push(cs@[i as int]));
    }
    s
}

/// Appends a string slice.
pub fn push_str(s: &mut String, t: &str)
    ensures
        final(s)@ == old(s)@ + t@,
{
    s.append(t);
}

/// The character that writes the digit `d` (below 16) in lower-case hexadecimal.
pub open spec fn digit_char(d: nat) -> char {
    if d < 10 {
        (d + 48) as char
    } else {
        (d + 87) as char
    }
}

/// `n` written in decimal, without leading zeros.
pub open spec fn decimal(n: nat) -> Seq<char>
    decreases n,
{
    if n < 10 {
        seq![digit_char(n)]
    } else {
        decimal(n / 10).push(digit_char(n % 10))
    }
}

/// `n` written in decimal, with a leading `-` when it is negative.
pub open spec fn signed_decimal(n: int) -> Seq<char> {
    if n < 0 {
        seq!['-'] + decimal((-n) as nat)
    } else {
        decimal(n as nat)
    }
}

/// The character for a digit below 16.
pub fn digit(d: u64) -> (c: char)
    requires
        d < 16,
    ensures
        c == digit_char(d as nat),
{
    let b: u8 = d as u8;
    if d < 10 {
        (b + 48) as char
    } else {
        (b + 87) as char
    }
}

/// Appends `n` in decimal.
pub fn push_decimal(s: &mut String, n: u64)
    ensures
        final(s)@ == old(s)@ + decimal(n as nat),
    decreases n,
{
    if n >= 10 {
        push_decimal(s, n / 10);
    }
    push_char(s, digit(n % 10));
}

/// Appends `n` in decimal, signed.
pub fn push_signed_decimal(s: &mut String, n: i64)
    ensures
        final(s)@ == old(s)@ + signed_decimal(n as int),
{
    if n < 0 {
        push_char(s, '-');
        let m: u64 = if n == i64::MIN {
            9223372036854775808u64
        } else {
            (-n) as u64
        };
        push_decimal(s, m);
    } else {
        push_decimal(s, n as u64);
    }
}

/// `needle` occurs in `hay` starting at `i`.
pub open spec fn occurs_at(hay: Seq<char>, needle: Seq<char>, i: int) -> bool {
    0 <= i && i + needle.len() <= hay.len() && hay.subrange(i, i + needle.len()) == needle
}

/// `needle` occurs somewhere in `hay` (std `str::contains` with a string pattern).
pub open spec fn contains(hay: Seq<char>, needle: Seq<char>) -> bool {
    exists|i: int| #[trigger] occurs_at(hay, needle, i)
}

/// Whether `needle` starts at position `i` of `hay`.
fn matches_at(hay: &Vec<char>, needle: &Vec<char>, i: usize) -> (r: bool)
    requires
        i + needle.len() <= hay.len(),
    ensures
        r == occurs_at(hay@, needle@, i as int),
{
    let mut j: usize = 0;
    while j < needle.len()
        invariant
            i + needle.len() <= hay.len(),
            j <= needle.len(),
            forall|k: int| 0 <= k < j ==> hay@[i + k] == needle@[k],
        decreases needle.len() - j,
    {
        if hay[i + j] != needle[j] {
            assert(hay@.subrange(i as int, i + needle.len())[j as int] != needle@[j as int]);
            return false;
        }
        j = j + 1;
    }
    assert(hay@.subrange(i as int, i + needle.len()) =~= needle@);
    true
}

/// Whether `needle` occurs in `hay`.
pub fn contains_chars(hay: &Vec<char>, needle: &Vec<char>) -> (r: bool)
    ensures
        r == contains(hay@, needle@),
{
    if needle.len() > hay.len() {
        return false;
    }
    let last: usize = hay.len() - needle.len();
    let mut i: usize = 0;
    loop
        invariant
            i <= last,
            last + needle.len() == hay.len(),
            forall|k: int| 0 <= k < i ==> !occurs_at(hay@, needle@, k),
        ensures
            forall|k: int| 0 <= k <= last ==> !occurs_at(hay@, needle@, k),
        decreases last - i,
    {
        if matches_at(hay, needle, i) {
            return true;
        }
        if i == last {
            break;
        }
        i = i + 1;
    }
    false
}

/// Unicode `White_Space`, as std `char::is_whitespace` documents it.
pub open spec fn white_space(c: char) -> bool {
    let n = c as int;
    (9 <= n <= 13) || n == 32 || n == 0x85 || n == 0xa0 || n == 0x1680 || (0x2000 <= n <= 0x200a)
        || n == 0x2028 || n == 0x2029 || n == 0x202f || n == 0x205f || n == 0x3000
}

/// Whether `c` is white space.
pub fn is_white_space(c: char) -> (r: bool)
    ensures
        r == white_space(c),
{
    let n: u32 = c as u32;
    (9 <= n && n <= 13) || n == 32 || n == 0x85 || n == 0xa0 || n == 0x1680 || (0x2000 <= n && n <= 0x200a)
        || n == 0x2028 || n == 0x2029 || n == 0x202f || n == 0x205f || n == 0x3000
}

/// `s` without its leading white space.
pub open spec fn trim_start(s: Seq<char>) -> Seq<char>
    decreases s.len(),
{
    if s.len() > 0 && white_space(s[0]) {
        trim_start(s.drop_first())
    } else {
        s
    }
}

/// `s` without its trailing white space.
pub open spec fn trim_end(s: Seq<char>) -> Seq<char>
    decreases s.len(),
{
    if s.len() > 0 && white_space(s.last()) {
        trim_end(s.drop_last())
    } else {
        s
    }
}

/// `s` without leading and trailing white space (std `str::trim`).
pub open spec fn trim(s: Seq<char>) -> Seq<char> {
    trim_end(trim_start(s))
}

/// The characters of `s` without leading and trailing white space.
pub fn trim_chars(s: &Vec<char>) -> (t: Vec<char>)
    ensures
        t@ == trim(s@),
{
    let len = s.len();
    let mut i: usize = 0;
    assert(s@.subrange(0, len as int) =~= s@);
    while i < len && is_white_space(s[i])
        invariant
            i <= len,
            len == s@.len(),
            trim_start(s@) == trim_start(s@.subrange(i as int, len as int)),
        decreases len - i,
    {
        assert(s@.subrange(i as int, len as int).drop_first() =~= s@.subrange(i + 1, len as int));
        i = i + 1;
    }
    assert(trim_start(s@) == s@.subrange(i as int, len as int));
    let mut j: usize = len;
    while j > i && is_white_space(s[j - 1])
        invariant
            i <= j <= len,
            len == s@.len(),
            trim(s@) == trim_end(s@.subrange(i as int, j as int)),
        decreases j - i,
    {
        assert(s@.subrange(i as int, j as int).drop_last() =~= s@.subrange(i as int, j - 1));
        j = j - 1;
    }
    let mut t: Vec<char> = Vec::new();
    let mut k: usize = i;
    while k < j
        invariant
            i <= k <= j,
            j <= len,
            len == s@.len(),
            t@ == s@.subrange(i as int, k as int),
        decreases j - k,
    {
        t.push(s[k]);
        assert(t@ =~= s@.subrange(i as int, k + 1));
        k = k + 1;
    }
    t
}

/// The pieces of `s` between occurrences of `sep`, empty pieces included (std `str::split`).
pub open spec fn split_on(s: Seq<char>, sep: char) -> Seq<Seq<char>>
    decreases s.len(),
{
    if s.len() == 0 {
        seq![Seq::empty()]
    } else {
        let p = split_on(s.drop_last(), sep);
        if s.last() == sep {
            p.push(Seq::empty())
        } else {
            p.update(p.len() - 1, p.last().push(s.last()))
        }
    }
}

proof fn lemma_split_nonempty(s: Seq<char>, sep: char)
    ensures
        split_on(s, sep).len() >= 1,
    decreases s.len(),
{
    if s.len() > 0 {
        lemma_split_nonempty(s.drop_last(), sep);
    }
}

/// The pieces as values.
pub open spec fn pieces_view(v: Seq<Vec<char>>) -> Seq<Seq<char>> {
    v.map_values(|p: Vec<char>| p@)
}

/// The pieces of `s` between occurrences of `sep`.
pub fn split_chars(s: &Vec<char>, sep: char) -> (parts: Vec<Vec<char>>)
    ensures
        pieces_view(parts@) == split_on(s@, sep),
{
    let mut parts: Vec<Vec<char>> = Vec::new();
    let mut cur: Vec<char> = Vec::new();
    for i in 0..s.len()
        invariant
            split_on(s@.take(i as int), sep) == pieces_view(parts@).push(cur@),
    {
        proof {
            lemma_split_nonempty(s@.take(i as int), sep);
        }
        assert(s@.take(i + 1).drop_last() =~= s@.take(i as int));
        let c = s[i];
        if c == sep {
            let ghost before = parts@;
            let done = cur;
            parts.push(done);
            cur = Vec::new();
            assert(pieces_view(parts@) =~= pieces_view(before).push(done@));
            assert(pieces_view(parts@).push(cur@) =~= pieces_view(before).push(done@).push(Seq::empty()));
        } else {
            let ghost before = cur@;
            cur.push(c);
            assert(pieces_view(parts@).push(cur@) =~= pieces_view(parts@).push(before).update(
                pieces_view(parts@).len() as int,
                before.push(c),
            ));
        }
    }
    assert(s@.take(s@.len() as int) =~= s@);
    let ghost before = parts@;
    parts.push(cur);
    assert(pieces_view(parts@) =~= pieces_view(before).push(cur@));
    parts
}

/// `s` begins with `p`.
pub open spec fn starts_with(s: Seq<char>, p: Seq<char>) -> bool {
    p.len() <= s.len() && s.take(p.len() as int) == p
}

/// Whether `s` begins with `p` (std `str::starts_with` with a string pattern).
pub fn has_prefix(s: &str, p: &str) -> (r: bool)
    ensures
        r == starts_with(s@, p@),
{
    let sv = chars_of(s);
    let pv = chars_of(p);
    if pv.len() > sv.len() {
        return false;
    }
    let mut i: usize = 0;
    while i < pv.len()
        invariant
            pv@.len() <= sv@.len(),
            i <= pv@.len(),
            sv@ == s@,
            pv@ == p@,
            forall|k: int| 0 <= k < i ==> sv@[k] == pv@[k],
        decreases pv@.len() - i,
    {
        if sv[i] != pv[i] {
            assert(s@.take(p@.len() as int)[i as int] != p@[i as int]);
            return false;
        }
        i = i + 1;
    }
    assert(s@.take(p@.len() as int) =~= p@);
    true
}

/// `s` without the trailing characters equal to `c` (std `str::trim_end_matches` with a char).
pub open spec fn trim_end_char(s: Seq<char>, c: char) -> Seq<char>
    decreases s.len(),
{
    if s.len() > 0 && s.last() == c {
        trim_end_char(s.drop_last(), c)
    } else {
        s
    }
}

/// A copy of `s` without its trailing characters equal to `c`.
pub fn trim_end_matching(s: &str, c: char) -> (r: String)
    ensures
        r@ == trim_end_char(s@, c),
{
    let v = chars_of(s);
    let mut j: usize = v.len();
    assert(v@.take(j as int) =~= v@);
    while j > 0 && v[j - 1] == c
        invariant
            j <= v@.len(),
            v@ == s@,
            trim_end_char(s@, c) == trim_end_char(v@.take(j as int), c),
        decreases j,
    {
        assert(v@.take(j as int).drop_last() =~= v@.take(j - 1));
        j = j - 1;
    }
    prefix_string(&v, j)
}

/// Whether two string slices hold the same text (std `==` on `str`).
pub fn same_text(a: &str, b: &str) -> (r: bool)
    ensures
        r == (a@ == b@),
{
    let av = chars_of(a);
    let bv = chars_of(b);
    if av.len() != bv.len() {
        return false;
    }
    let mut i: usize = 0;
    while i < av.len()
        invariant
            av@.len() == bv@.len(),
            av@ == a@,
            bv@ == b@,
            i <= av@.len(),
            forall|k: int| 0 <= k < i ==> av@[k] == bv@[k],
        decreases av@.len() - i,
    {
        if av[i] != bv[i] {
            return false;
        }
        i = i + 1;
    }
    assert(av@ =~= bv@);
    true
}

/// No `sep` in `y`.
pub open spec fn lacks(y: Seq<char>, sep: char) -> bool {
    forall|i: int| 0 <= i < y.len() ==> #[trigger] y[i] != sep
}

pub(crate) proof fn lemma_split_plain(y: Seq<char>, sep: char)
    requires
        lacks(y, sep),
    ensures
        split_on(y, sep) == seq![y],
    decreases y.len(),
{
    if y.len() > 0 {
        assert(y.last() != sep);
        assert forall|i: int| 0 <= i < y.drop_last().len() implies #[trigger] y.drop_last()[i] != sep by {
            assert(y.drop_last()[i] == y[i]);
        }
        lemma_split_plain(y.drop_last(), sep);
        assert(y.drop_last().push(y.last()) =~= y);
    } else {
        assert(y =~= Seq::<char>::empty());
    }
}

pub(crate) proof fn lemma_split_concat(x: Seq<char>, y: Seq<char>, sep: char)
    requires
        lacks(y, sep),
    ensures
        split_on(x + seq![sep] + y, sep) == split_on(x, sep).push(y),
    decreases y.len(),
{
    let z = x + seq![sep] + y;
    if y.len() == 0 {
        assert(z.drop_last() =~= x);
        assert(z.last() == sep);
        assert(y =~= Seq::<char>::empty());
    } else {
        assert forall|i: int| 0 <= i < y.drop_last().len() implies #[trigger] y.drop_last()[i] != sep by {
            assert(y.drop_last()[i] == y[i]);
        }
        lemma_split_concat(x, y.drop_last(), sep);
        assert(z.drop_last() =~= x + seq![sep] + y.drop_last());
        assert(z.last() == y.last());
        assert(y.last() != sep);
        let p = split_on(x, sep).push(y.drop_last());
        assert(y.drop_last().push(y.last()) =~= y);
        assert(p.last().push(y.last()) == y);
        assert(p.update(p.len() - 1, y) =~= split_on(x, sep).push(y));
    }
}

} // verus!
