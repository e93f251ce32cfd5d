//! Laws of MAC address texts: texts that differ only in separators, letter case or
//! surrounding white space read alike, and the usual written forms read back.
use vstd::prelude::*;
use crate::text::{lacks, lemma_split_concat, lemma_split_plain, split_on, trim, trim_end, trim_start, white_space};
use crate::number::{all_digits, digit_value, digits_value, parse_unsigned, unsigned_digits};
use crate::wake::{dashes_to_colons, mac_of, mac_octet, mac_parts};

verus! {

/// How a MAC text reads a character: `-` as `:`, ASCII upper-case letters as lower-case.
pub open spec fn mac_char_class(c: char) -> char {
    if c == '-' {
        ':'
    } else if 'A' <= c <= 'Z' {
        ((c as int) + 32) as char
    } else {
        c
    }
}

/// Two texts of the same length whose characters read alike one by one.
pub open spec fn mac_texts_alike(a: Seq<char>, b: Seq<char>) -> bool {
    a.len() == b.len() && forall|i: int| 0 <= i < a.len() ==> #[trigger] mac_char_class(a[i]) == mac_char_class(b[i])
}

/// Every character of `w` is white space.
pub open spec fn all_white(w: Seq<char>) -> bool {
    forall|i: int| 0 <= i < w.len() ==> white_space(#[trigger] w[i])
}

proof fn lemma_class(x: char, y: char, r: nat)
    requires
        mac_char_class(x) == mac_char_class(y),
    ensures
        white_space(x) <==> white_space(y),
        x == '+' <==> y == '+',
        (x == ':' || x == '-') <==> (y == ':' || y == '-'),
        digit_value(x, r) == digit_value(y, r),
{
}

proof fn lemma_alike_at(a: Seq<char>, b: Seq<char>, i: int)
    requires
        mac_texts_alike(a, b),
        0 <= i < a.len(),
    ensures
        mac_char_class(a[i]) == mac_char_class(b[i]),
{
}

proof fn lemma_trim_start_alike(a: Seq<char>, b: Seq<char>)
    requires
        mac_texts_alike(a, b),
    ensures
        mac_texts_alike(trim_start(a), trim_start(b)),
    decreases a.len(),
{
    if a.len() > 0 {
        lemma_alike_at(a, b, 0);
        lemma_class(a[0], b[0], 16);
        if white_space(a[0]) {
            assert forall|i: int| 0 <= i < a.drop_first().len() implies #[trigger] mac_char_class(a.drop_first()[i])
                == mac_char_class(b.drop_first()[i]) by {
                lemma_alike_at(a, b, i + 1);
            }
            lemma_trim_start_alike(a.drop_first(), b.drop_first());
        }
    }
}

proof fn lemma_trim_end_alike(a: Seq<char>, b: Seq<char>)
    requires
        mac_texts_alike(a, b),
    ensures
        mac_texts_alike(trim_end(a), trim_end(b)),
    decreases a.len(),
{
    if a.len() > 0 {
        lemma_alike_at(a, b, a.len() - 1);
        lemma_class(a.last(), b.last(), 16);
        if white_space(a.last()) {
            assert forall|i: int| 0 <= i < a.drop_last().len() implies #[trigger] mac_char_class(a.drop_last()[i])
                == mac_char_class(b.drop_last()[i]) by {
                lemma_alike_at(a, b, i);
            }
            lemma_trim_end_alike(a.drop_last(), b.drop_last());
        }
    }
}

proof fn lemma_digits_alike(p: Seq<char>, q: Seq<char>, r: nat)
    requires
        mac_texts_alike(p, q),
    ensures
        digits_value(p, r) == digits_value(q, r),
        all_digits(p, r) == all_digits(q, r),
    decreases p.len(),
{
    if p.len() > 0 {
        assert forall|i: int| 0 <= i < p.drop_last().len() implies #[trigger] mac_char_class(p.drop_last()[i])
            == mac_char_class(q.drop_last()[i]) by {
            lemma_alike_at(p, q, i);
        }
        lemma_digits_alike(p.drop_last(), q.drop_last(), r);
        lemma_alike_at(p, q, p.len() - 1);
        lemma_class(p.last(), q.last(), r);
        if all_digits(p, r) {
            assert forall|i: int| 0 <= i < q.len() implies (#[trigger] digit_value(q[i], r)) is Some by {
                lemma_alike_at(p, q, i);
                lemma_class(p[i], q[i], r);
            }
        }
        if all_digits(q, r) {
            assert forall|i: int| 0 <= i < p.len() implies (#[trigger] digit_value(p[i], r)) is Some by {
                lemma_alike_at(p, q, i);
                lemma_class(p[i], q[i], r);
            }
        }
    }
}

proof fn lemma_parse_alike(p: Seq<char>, q: Seq<char>, r: nat, max: nat)
    requires
        mac_texts_alike(p, q),
        r <= 36,
    ensures
        parse_unsigned(p, r, max) == parse_unsigned(q, r, max),
{
    if p.len() > 0 {
        lemma_alike_at(p, q, 0);
        lemma_class(p[0], q[0], r);
        let dp = unsigned_digits(p);
        let dq = unsigned_digits(q);
        assert(mac_texts_alike(dp, dq)) by {
            assert forall|i: int| 0 <= i < dp.len() implies #[trigger] mac_char_class(dp[i]) == mac_char_class(dq[i]) by {
                if p[0] == '+' {
                    lemma_alike_at(p, q, i + 1);
                } else {
                    lemma_alike_at(p, q, i);
                }
            }
        }
        lemma_digits_alike(dp, dq, r);
        if p.len() == 1 && (p[0] == '-' || q[0] == '-') {
            // `-` and `:` are no digits, so such a one-character text never reads.
            assert(digit_value(p[0], r) is None);
            assert(!all_digits(dp, r));
            assert(!all_digits(dq, r));
        }
    }
}

proof fn lemma_dashes_alike(a: Seq<char>, b: Seq<char>)
    requires
        mac_texts_alike(a, b),
    ensures
        mac_texts_alike(dashes_to_colons(a), dashes_to_colons(b)),
        forall|i: int| 0 <= i < a.len() ==> (#[trigger] dashes_to_colons(a)[i] == ':' <==> dashes_to_colons(b)[i] == ':'),
{
    assert forall|i: int| 0 <= i < a.len() implies #[trigger] mac_char_class(dashes_to_colons(a)[i])
        == mac_char_class(dashes_to_colons(b)[i]) by {
        lemma_alike_at(a, b, i);
        lemma_class(a[i], b[i], 16);
    }
    assert forall|i: int| 0 <= i < a.len() implies (#[trigger] dashes_to_colons(a)[i] == ':' <==> dashes_to_colons(b)[i] == ':') by {
        lemma_alike_at(a, b, i);
        lemma_class(a[i], b[i], 16);
    }
}

proof fn lemma_split_alike(a: Seq<char>, b: Seq<char>)
    requires
        mac_texts_alike(a, b),
        forall|i: int| 0 <= i < a.len() ==> (#[trigger] a[i] == ':' <==> b[i] == ':'),
    ensures
        split_on(a, ':').len() == split_on(b, ':').len(),
        forall|k: int| 0 <= k < split_on(a, ':').len() ==> mac_texts_alike(
            #[trigger] split_on(a, ':')[k],
            split_on(b, ':')[k],
        ),
    decreases a.len(),
{
    if a.len() > 0 {
        let a0 = a.drop_last();
        let b0 = b.drop_last();
        assert forall|i: int| 0 <= i < a0.len() implies #[trigger] mac_char_class(a0[i]) == mac_char_class(b0[i]) by {
            lemma_alike_at(a, b, i);
        }
        assert forall|i: int| 0 <= i < a0.len() implies (#[trigger] a0[i] == ':' <==> b0[i] == ':') by {
            assert(a0[i] == a[i] && b0[i] == b[i]);
        }
        lemma_split_alike(a0, b0);
        lemma_split_nonempty(a0);
        let pa = split_on(a0, ':');
        let pb = split_on(b0, ':');
        assert(a[a.len() - 1] == ':' <==> b[b.len() - 1] == ':');
        lemma_alike_at(a, b, a.len() - 1);
        if a.last() != ':' {
            let la = pa.last().push(a.last());
            let lb = pb.last().push(b.last());
            assert(mac_texts_alike(pa[pa.len() - 1], pb[pb.len() - 1]));
            assert forall|i: int| 0 <= i < la.len() implies #[trigger] mac_char_class(la[i]) == mac_char_class(lb[i]) by {
                if i < la.len() - 1 {
                    lemma_alike_at(pa[pa.len() - 1], pb[pb.len() - 1], i);
                }
            }
            assert forall|k: int| 0 <= k < split_on(a, ':').len() implies mac_texts_alike(
                #[trigger] split_on(a, ':')[k],
                split_on(b, ':')[k],
            ) by {
                if k < pa.len() - 1 {
                    assert(split_on(a, ':')[k] == pa[k]);
                    assert(split_on(b, ':')[k] == pb[k]);
                }
            }
        } else {
            assert forall|k: int| 0 <= k < split_on(a, ':').len() implies mac_texts_alike(
                #[trigger] split_on(a, ':')[k],
                split_on(b, ':')[k],
            ) by {
                if k < pa.len() {
                    assert(split_on(a, ':')[k] == pa[k]);
                    assert(split_on(b, ':')[k] == pb[k]);
                }
            }
        }
    }
}

proof fn lemma_split_nonempty(s: Seq<char>)
    ensures
        split_on(s, ':').len() >= 1,
    decreases s.len(),
{
    if s.len() > 0 {
        lemma_split_nonempty(s.drop_last());
    }
}

/// Law: MAC texts that differ only in `-` against `:` and in the case of ASCII letters
/// (so of hexadecimal digits) read as the same MAC address, or both as none.
pub proof fn mac_texts_read_alike(s: Seq<char>, t: Seq<char>)
    requires
        mac_texts_alike(s, t),
    ensures
        mac_of(s) == mac_of(t),
{
    lemma_trim_start_alike(s, t);
    lemma_trim_end_alike(trim_start(s), trim_start(t));
    lemma_dashes_alike(trim(s), trim(t));
    let a = dashes_to_colons(trim(s));
    let b = dashes_to_colons(trim(t));
    lemma_split_alike(a, b);
    let ps = mac_parts(s);
    let pt = mac_parts(t);
    assert forall|i: int| 0 <= i < ps.len() implies #[trigger] mac_octet(ps[i]) == mac_octet(pt[i]) by {
        lemma_parse_alike(ps[i], pt[i], 16, 255);
    }
    if ps.len() == 6 {
        if forall|i: int| 0 <= i < 6 ==> (#[trigger] mac_octet(ps[i])) is Some {
            assert forall|i: int| 0 <= i < 6 implies (#[trigger] mac_octet(pt[i])) is Some by {
                assert(mac_octet(ps[i]) == mac_octet(pt[i]));
            }
            assert(Seq::new(6, |i: int| mac_octet(ps[i])->0 as u8) =~= Seq::new(6, |i: int| mac_octet(pt[i])->0 as u8));
        } else {
            let j = choose|j: int| 0 <= j < 6 && !((#[trigger] mac_octet(ps[j])) is Some);
            assert(mac_octet(ps[j]) == mac_octet(pt[j]));
        }
    }
}

proof fn lemma_trim_start_white_prefix(w: Seq<char>, y: Seq<char>)
    requires
        all_white(w),
    ensures
        trim_start(w + y) == trim_start(y),
    decreases w.len(),
{
    if w.len() > 0 {
        assert((w + y)[0] == w[0]);
        assert((w + y).drop_first() =~= w.drop_first() + y);
        assert forall|i: int| 0 <= i < w.drop_first().len() implies white_space(#[trigger] w.drop_first()[i]) by {
            assert(w.drop_first()[i] == w[i + 1]);
        }
        lemma_trim_start_white_prefix(w.drop_first(), y);
    } else {
        assert(w + y =~= y);
    }
}

proof fn lemma_trim_end_white_suffix(y: Seq<char>, w: Seq<char>)
    requires
        all_white(w),
    ensures
        trim_end(y + w) == trim_end(y),
    decreases w.len(),
{
    if w.len() > 0 {
        assert((y + w).last() == w.last());
        assert((y + w).drop_last() =~= y + w.drop_last());
        assert forall|i: int| 0 <= i < w.drop_last().len() implies white_space(#[trigger] w.drop_last()[i]) by {
            assert(w.drop_last()[i] == w[i]);
        }
        lemma_trim_end_white_suffix(y, w.drop_last());
    } else {
        assert(y + w =~= y);
    }
}

proof fn lemma_trim_white_suffix(u: Seq<char>, w: Seq<char>)
    requires
        all_white(w),
    ensures
        trim_end(trim_start(u + w)) == trim_end(trim_start(u)),
    decreases u.len(),
{
    if u.len() == 0 {
        assert(u + w =~= w);
        lemma_trim_start_white_prefix(w, Seq::empty());
        assert(w + Seq::<char>::empty() =~= w);
    } else if white_space(u[0]) {
        assert((u + w)[0] == u[0]);
        assert((u + w).drop_first() =~= u.drop_first() + w);
        lemma_trim_white_suffix(u.drop_first(), w);
    } else {
        assert((u + w)[0] == u[0]);
        lemma_trim_end_white_suffix(u, w);
    }
}

/// Law: white space around a MAC text does not change how it reads.
pub proof fn surrounding_white_space_is_ignored(w1: Seq<char>, x: Seq<char>, w2: Seq<char>)
    requires
        all_white(w1),
        all_white(w2),
    ensures
        mac_of(w1 + x + w2) == mac_of(x),
{
    assert(w1 + x + w2 =~= w1 + (x + w2));
    lemma_trim_start_white_prefix(w1, x + w2);
    lemma_trim_white_suffix(x, w2);
    assert(trim(w1 + x + w2) == trim(x));
}

/// The hexadecimal digit for `d` (below 16), with upper-case or lower-case letters.
pub open spec fn hex_digit_as(d: nat, upper: bool) -> char {
    if d < 10 {
        (d + 48) as char
    } else if upper {
        (d + 55) as char
    } else {
        (d + 87) as char
    }
}

/// A byte as two hexadecimal digits, high half first.
pub open spec fn hex_pair_as(b: u8, upper: bool) -> Seq<char> {
    seq![hex_digit_as((b / 16) as nat, upper), hex_digit_as((b % 16) as nat, upper)]
}

/// The first `n` octets of `m`, two hexadecimal digits each, separated by `sep`.
pub open spec fn mac_text_upto(m: Seq<u8>, sep: char, upper: bool, n: nat) -> Seq<char>
    decreases n,
{
    if n <= 1 {
        hex_pair_as(m[0], upper)
    } else {
        mac_text_upto(m, sep, upper, (n - 1) as nat) + seq![sep] + hex_pair_as(m[n - 1], upper)
    }
}

/// A MAC address written the usual way: six octets of two hexadecimal digits each,
/// separated by `sep` (`format!("{:02x}:{:02x}:…")`, or `{:02X}` when `upper`).
pub open spec fn mac_text(m: Seq<u8>, sep: char, upper: bool) -> Seq<char> {
    mac_text_upto(m, sep, upper, 6)
}

proof fn lemma_alike_concat(a1: Seq<char>, b1: Seq<char>, a2: Seq<char>, b2: Seq<char>)
    requires
        mac_texts_alike(a1, b1),
        mac_texts_alike(a2, b2),
    ensures
        mac_texts_alike(a1 + a2, b1 + b2),
{
    assert forall|i: int| 0 <= i < (a1 + a2).len() implies #[trigger] mac_char_class((a1 + a2)[i])
        == mac_char_class((b1 + b2)[i]) by {
        if i < a1.len() {
            lemma_alike_at(a1, b1, i);
        } else {
            lemma_alike_at(a2, b2, i - a1.len());
        }
    }
}

proof fn lemma_text_alike(m: Seq<u8>, sep: char, upper: bool, n: nat)
    requires
        m.len() == 6,
        1 <= n <= 6,
        sep == ':' || sep == '-',
    ensures
        mac_texts_alike(mac_text_upto(m, sep, upper, n), mac_text_upto(m, ':', false, n)),
    decreases n,
{
    let hp = hex_pair_as(m[n - 1], upper);
    let hl = hex_pair_as(m[n - 1], false);
    assert(mac_texts_alike(hp, hl)) by {
        assert forall|i: int| 0 <= i < hp.len() implies #[trigger] mac_char_class(hp[i]) == mac_char_class(hl[i]) by {}
    }
    if n > 1 {
        lemma_text_alike(m, sep, upper, (n - 1) as nat);
        assert(mac_texts_alike(seq![sep], seq![':'])) by {
            assert forall|i: int| 0 <= i < 1 implies #[trigger] mac_char_class(seq![sep][i]) == mac_char_class(seq![':'][i]) by {}
        }
        lemma_alike_concat(mac_text_upto(m, sep, upper, (n - 1) as nat), mac_text_upto(m, ':', false, (n - 1) as nat), seq![sep], seq![':']);
        lemma_alike_concat(
            mac_text_upto(m, sep, upper, (n - 1) as nat) + seq![sep],
            mac_text_upto(m, ':', false, (n - 1) as nat) + seq![':'],
            hp,
            hl,
        );
    }
}

proof fn lemma_pair_facts(b: u8)
    ensures
        lacks(hex_pair_as(b, false), ':'),
        !white_space(hex_pair_as(b, false)[0]),
        !white_space(hex_pair_as(b, false)[1]),
        hex_pair_as(b, false)[0] != '-',
        hex_pair_as(b, false)[1] != '-',
        mac_octet(hex_pair_as(b, false)) == Some(b as nat),
{
    let p = hex_pair_as(b, false);
    let hi = (b / 16) as nat;
    let lo = (b % 16) as nat;
    assert(digit_value(p[0], 16) == Some(hi));
    assert(digit_value(p[1], 16) == Some(lo));
    assert(unsigned_digits(p) == p);
    assert(all_digits(p, 16)) by {
        assert forall|i: int| 0 <= i < p.len() implies (#[trigger] digit_value(p[i], 16)) is Some by {
            if i == 0 {
            } else {
            }
        }
    }
    reveal_with_fuel(digits_value, 3);
    assert(p.drop_last().drop_last() =~= Seq::<char>::empty());
    assert(p.drop_last() =~= seq![p[0]]);
    assert(digits_value(p.drop_last(), 16) == hi);
    assert(digits_value(p, 16) == hi * 16 + lo);
    assert(hi * 16 + lo == b);
}

proof fn lemma_text_facts(m: Seq<u8>, n: nat)
    requires
        m.len() == 6,
        1 <= n <= 6,
    ensures
        mac_text_upto(m, ':', false, n).len() == 3 * n - 1,
        split_on(mac_text_upto(m, ':', false, n), ':') == Seq::new(n, |i: int| hex_pair_as(m[i], false)),
        forall|i: int| 0 <= i < mac_text_upto(m, ':', false, n).len() ==> #[trigger] mac_text_upto(m, ':', false, n)[i] != '-',
        mac_text_upto(m, ':', false, n)[0] == hex_pair_as(m[0], false)[0],
        mac_text_upto(m, ':', false, n).last() == hex_pair_as(m[n - 1], false)[1],
    decreases n,
{
    let t = mac_text_upto(m, ':', false, n);
    let hp = hex_pair_as(m[n - 1], false);
    lemma_pair_facts(m[n - 1]);
    if n == 1 {
        lemma_split_plain(hp, ':');
        assert(Seq::new(1, |i: int| hex_pair_as(m[i], false)) =~= seq![hp]);
    } else {
        let prev = mac_text_upto(m, ':', false, (n - 1) as nat);
        lemma_text_facts(m, (n - 1) as nat);
        lemma_split_concat(prev, hp, ':');
        assert(Seq::new((n - 1) as nat, |i: int| hex_pair_as(m[i], false)).push(hp) =~= Seq::new(n, |i: int| hex_pair_as(m[i], false)));
        assert forall|i: int| 0 <= i < t.len() implies #[trigger] t[i] != '-' by {
            if i < prev.len() {
                assert(t[i] == prev[i]);
            } else if i == prev.len() {
                assert(t[i] == ':');
            } else {
                assert(t[i] == hp[i - prev.len() - 1]);
            }
        }
        assert(t[0] == prev[0]);
    }
}

/// Law: a MAC address written the usual way (two hexadecimal digits per octet, lower-case
/// or upper-case, separated by `:` or by `-`, with any white space around it) reads back as
/// that address.
pub proof fn written_mac_reads_back(m: Seq<u8>, sep: char, upper: bool, w1: Seq<char>, w2: Seq<char>)
    requires
        m.len() == 6,
        sep == ':' || sep == '-',
        all_white(w1),
        all_white(w2),
    ensures
        mac_of(mac_text(m, sep, upper)) == Some(m),
        mac_of(w1 + mac_text(m, sep, upper) + w2) == Some(m),
{
    let t = mac_text(m, ':', false);
    lemma_text_facts(m, 6);
    lemma_pair_facts(m[0]);
    lemma_pair_facts(m[5]);
    assert(trim_start(t) == t);
    assert(trim_end(t) == t);
    assert(dashes_to_colons(t) =~= t);
    let parts = mac_parts(t);
    assert(parts == Seq::new(6, |i: int| hex_pair_as(m[i], false)));
    assert forall|i: int| 0 <= i < 6 implies (#[trigger] mac_octet(parts[i])) is Some && mac_octet(parts[i]) == Some(m[i] as nat) by {
        lemma_pair_facts(m[i]);
    }
    assert(Seq::new(6, |i: int| mac_octet(parts[i])->0 as u8) =~= m);
    lemma_text_alike(m, sep, upper, 6);
    mac_texts_read_alike(mac_text(m, sep, upper), t);
    surrounding_white_space_is_ignored(w1, mac_text(m, sep, upper), w2);
}

} // verus!
