//! What holds of texts and of numbers written out.

use crate::place::in_fifties;
use crate::single::Single;
use crate::text::{
    alike, back_trimmed, blank, blank_sign, counted, digit, few, four_hex, front_trimmed, holds,
    joined, parts, precedes, small, small_letter, small_text, stands_at, trimmed, written,
};
use vstd::prelude::*;
use vstd::string::*;
use vstd::utf8::encode_utf8;

verus! {

/// What a digit stands for, one of ten or of sixteen.
pub open spec fn worth(c: char) -> int {
    if '0' <= c <= '9' {
        c as int - 0x30
    } else {
        c as int - 0x61 + 10
    }
}

/// What some digits stand for.
pub open spec fn read_as(s: Seq<char>, base: int) -> int
    decreases s.len(),
{
    if s.len() == 0 {
        0
    } else {
        read_as(s.drop_last(), base) * base + worth(s.last())
    }
}

proof fn lemma_digit(d: int)
    requires
        0 <= d < 16,
    ensures
        worth(digit(d)) == d,
        d < 10 ==> '0' <= digit(d) <= '9',
        d > 0 ==> digit(d) != '0',
        d >= 10 ==> 'a' <= digit(d) <= 'f',
{
}

proof fn lemma_written(n: nat, base: nat)
    requires
        2 <= base <= 16,
    ensures
        read_as(written(n, base), base as int) == n,
        written(n, base).len() > 0,
        n > 0 ==> written(n, base)[0] != '0',
        n < base ==> written(n, base).len() == 1,
        base <= 10 ==> forall|i: int|
            0 <= i < written(n, base).len() ==> '0' <= #[trigger] written(n, base)[i] <= '9',
    decreases n,
{
    let s = written(n, base);
    if n < base {
        lemma_digit(n as int);
        assert(s.drop_last() =~= Seq::<char>::empty());
        assert(read_as(s.drop_last(), base as int) == 0);
        assert(0 * (base as int) == 0) by (nonlinear_arith);
    } else {
        let q = n / base;
        let r = n % base;
        assert(q < n && q > 0 && r < base && n == q * base + r) by (nonlinear_arith)
            requires
                n >= base,
                base >= 2,
                q == n / base,
                r == n % base,
        ;
        lemma_written(q, base);
        lemma_digit(r as int);
        assert(s.drop_last() =~= written(q, base));
        assert(s[0] == written(q, base)[0]);
        assert(q as int * base as int + r as int == n) by (nonlinear_arith)
            requires
                n == q * base + r,
        ;
    }
}

/// A number written out reads as what it is, in the ten digits and without a nought
/// in front.
pub proof fn law_a_number_reads_back(n: nat)
    ensures
        read_as(counted(n), 10) == n,
        counted(n).len() > 0,
        forall|i: int| 0 <= i < counted(n).len() ==> '0' <= #[trigger] counted(n)[i] <= '9',
        n > 0 ==> counted(n)[0] != '0',
        n == 0 ==> counted(n).len() == 1,
{
    lemma_written(n, 10);
}

/// A number in four hexadecimal digits reads as what it is.
pub proof fn law_four_digits_read_back(n: int)
    requires
        0 <= n < 0x1_0000,
    ensures
        four_hex(n).len() == 4,
        read_as(four_hex(n), 16) == n,
{
    let s = four_hex(n);
    let a = n / 4096 % 16;
    let b = n / 256 % 16;
    let c = n / 16 % 16;
    let d = n % 16;
    lemma_digit(a);
    lemma_digit(b);
    lemma_digit(c);
    lemma_digit(d);
    let s3 = s.drop_last();
    let s2 = s3.drop_last();
    let s1 = s2.drop_last();
    assert(s1.drop_last() =~= Seq::<char>::empty());
    assert(read_as(s1.drop_last(), 16) == 0);
    assert(s1.last() == digit(a) && s2.last() == digit(b) && s3.last() == digit(c));
    assert(read_as(s1, 16) == a);
    assert(read_as(s2, 16) == a * 16 + b);
    assert(read_as(s3, 16) == (a * 16 + b) * 16 + c);
}

/// Names joined are the first, what stands between, and the others joined.
pub proof fn law_joining_goes_from_name_to_name(names: Seq<Seq<char>>, between: Seq<char>)
    requires
        names.len() >= 2,
    ensures
        joined(names, between) == names[0] + between + joined(names.skip(1), between),
        joined(names.take(1), between) == names[0],
    decreases names.len(),
{
    assert(joined(names.take(1), between) == names[0]);
    let rest = names.skip(1);
    if names.len() == 2 {
        assert(names.drop_last().len() == 1);
        assert(joined(names.drop_last(), between) == names[0]);
        assert(joined(rest, between) == rest[0]);
    } else {
        let less = names.drop_last();
        law_joining_goes_from_name_to_name(less, between);
        assert(less.skip(1) =~= rest.drop_last());
        assert(rest.last() == names.last());
        assert(joined(names, between) =~= names[0] + between + joined(rest, between));
    }
}

/// A few names are told by name, four at most, and how many there are besides;
/// where there is none it is said that there is nothing.
pub proof fn law_four_names_are_told(names: Seq<Seq<char>>)
    ensures
        names.len() == 0 ==> few(names) == "nothing"@,
        1 <= names.len() <= 4 ==> few(names) == joined(names, ", "@),
        names.len() > 4 ==> few(names) == joined(names.take(4), ", "@) + " and "@ + counted(
            (names.len() - 4) as nat,
        ) + " more"@,
{
}

/// One text stands before another: they are the same up to somewhere, and there it
/// ends and the other does not, or its sign is the lower.
pub open spec fn is_earlier(a: Seq<char>, b: Seq<char>) -> bool {
    exists|k: int| #[trigger] parts_at(a, b, k)
}

/// Two texts part at a place, the first the earlier.
pub open spec fn parts_at(a: Seq<char>, b: Seq<char>, k: int) -> bool {
    &&& 0 <= k <= a.len()
    &&& k < b.len()
    &&& forall|i: int| 0 <= i < k ==> #[trigger] a[i] == b[i]
    &&& k == a.len() || (a[k] as int) < (b[k] as int)
}

/// Texts are ordered by the first sign in which they differ.
pub proof fn law_texts_are_ordered_by_their_signs(a: Seq<char>, b: Seq<char>)
    ensures
        precedes(a, b) <==> is_earlier(a, b),
    decreases a.len(),
{
    if b.len() == 0 {
    } else if a.len() == 0 {
        assert(parts_at(a, b, 0));
    } else if a[0] != b[0] {
        if precedes(a, b) {
            assert(parts_at(a, b, 0));
        }
        if is_earlier(a, b) {
            let k = choose|k: int| #[trigger] parts_at(a, b, k);
            if k > 0 {
                assert(a[0] == b[0]);
            }
        }
    } else {
        let (x, y) = (a.drop_first(), b.drop_first());
        law_texts_are_ordered_by_their_signs(x, y);
        if is_earlier(x, y) {
            let k = choose|k: int| #[trigger] parts_at(x, y, k);
            assert forall|i: int| 0 <= i < k + 1 implies #[trigger] a[i] == b[i] by {
                if i > 0 {
                    assert(x[i - 1] == y[i - 1]);
                }
            }
            assert(parts_at(a, b, k + 1));
        }
        if is_earlier(a, b) {
            let k = choose|k: int| #[trigger] parts_at(a, b, k);
            assert forall|i: int| 0 <= i < k - 1 implies #[trigger] x[i] == y[i] by {
                assert(a[i + 1] == b[i + 1]);
            }
            assert(parts_at(x, y, k - 1));
        }
    }
}

/// Great letters have a small one, thirty-two further on, and nothing else is
/// changed; texts are alike that differ in nothing but that.
pub proof fn law_great_letters_have_a_small_one(c: char, a: Seq<char>, b: Seq<char>)
    ensures
        'A' <= c <= 'Z' ==> 'a' <= small_letter(c) <= 'z' && small_letter(c) as int == c as int
            + 32,
        !('A' <= c <= 'Z') ==> small_letter(c) == c,
        small_letter(small_letter(c)) == small_letter(c),
        alike(a, a),
        alike(a, b) ==> alike(b, a),
        alike(a, small_text(a)),
        alike(a, b) ==> a.len() == b.len(),
        a == b ==> alike(a, b),
{
    if alike(a, b) {
        assert forall|i: int| 0 <= i < b.len() implies small_letter(#[trigger] b[i])
            == small_letter(a[i]) by {
            assert(small_letter(a[i]) == small_letter(b[i]));
        }
    }
    assert forall|d: char| small_letter(#[trigger] small_letter(d)) == small_letter(d) by {}
    let s = small_text(a);
    assert forall|i: int| 0 <= i < a.len() implies small_letter(#[trigger] a[i]) == small_letter(
        s[i],
    ) by {
        assert(s[i] == small_letter(a[i]));
    }
}

/// What a text is split into holds no sign it was split at, and joined by that sign
/// is the text.
pub proof fn law_what_is_split_joins_again(s: Seq<char>, at: char)
    ensures
        parts(s, at).len() >= 1,
        joined(parts(s, at), seq![at]) == s,
        forall|i: int| 0 <= i < parts(s, at).len() ==> !(#[trigger] parts(s, at)[i]).contains(at),
    decreases s.len(),
{
    let p = parts(s, at);
    let b = seq![at];
    if s.len() == 0 {
        assert(p.len() == 1 && p[0] == s);
        assert(joined(p, b) =~= s);
    } else {
        let t = s.drop_last();
        law_what_is_split_joins_again(t, at);
        let q = parts(t, at);
        if s.last() == at {
            assert(p.drop_last() =~= q);
            assert(joined(p, b) =~= s);
            assert forall|i: int| 0 <= i < p.len() implies !(#[trigger] p[i]).contains(at) by {
                if i < q.len() {
                    assert(p[i] == q[i]);
                }
            }
        } else {
            let last = q.last().push(s.last());
            assert(p == q.drop_last().push(last));
            assert(p.drop_last() =~= q.drop_last());
            assert(p.last() == last);
            assert(joined(p, b) =~= joined(q, b).push(s.last())) by {
                if q.len() == 1 {
                    assert(p.len() == 1 && p[0] == last);
                } else {
                    assert(joined(q, b) == joined(q.drop_last(), b) + b + q.last());
                    assert(joined(p, b) == joined(p.drop_last(), b) + b + last);
                }
            }
            assert(t.push(s.last()) =~= s);
            assert forall|i: int| 0 <= i < p.len() implies !(#[trigger] p[i]).contains(at) by {
                if i < q.len() - 1 {
                    assert(p[i] == q[i]);
                } else {
                    let x = q[q.len() - 1];
                    assert(!x.contains(at));
                    if last.contains(at) {
                        let k = choose|k: int| 0 <= k < last.len() && last[k] == at;
                        assert(k < x.len());
                        assert(x[k] == at);
                    }
                }
            }
        }
    }
}

proof fn lemma_front(s: Seq<char>) -> (k: int)
    ensures
        0 <= k <= s.len(),
        front_trimmed(s) == s.skip(k),
        forall|i: int| 0 <= i < k ==> blank_sign(#[trigger] s[i]),
        k < s.len() ==> !blank_sign(s[k]),
    decreases s.len(),
{
    if s.len() > 0 && blank_sign(s[0]) {
        let t = s.drop_first();
        let k = lemma_front(t);
        assert(t.skip(k) =~= s.skip(k + 1));
        assert forall|i: int| 0 <= i < k + 1 implies blank_sign(#[trigger] s[i]) by {
            if i > 0 {
                assert(t[i - 1] == s[i]);
            }
        }
        k + 1
    } else {
        assert(s.skip(0) =~= s);
        0
    }
}

proof fn lemma_back(s: Seq<char>) -> (k: int)
    ensures
        0 <= k <= s.len(),
        back_trimmed(s) == s.take(k),
        forall|i: int| k <= i < s.len() ==> blank_sign(#[trigger] s[i]),
        k > 0 ==> !blank_sign(s[k - 1]),
    decreases s.len(),
{
    if s.len() > 0 && blank_sign(s.last()) {
        let t = s.drop_last();
        let k = lemma_back(t);
        assert(t.take(k) =~= s.take(k));
        assert forall|i: int| k <= i < s.len() implies blank_sign(#[trigger] s[i]) by {
            if i < s.len() - 1 {
                assert(t[i] == s[i]);
            }
        }
        k
    } else {
        assert(s.take(s.len() as int) =~= s);
        s.len() as int
    }
}

/// A trimmed text is the text between two places: all before the first and from the
/// second on is blank, and what is left begins and ends with something that is not.
pub open spec fn is_trimmed(s: Seq<char>, from: int, to: int) -> bool {
    &&& 0 <= from <= to <= s.len()
    &&& blank(s.take(from))
    &&& blank(s.skip(to))
    &&& from < to ==> !blank_sign(s[from]) && !blank_sign(s[to - 1])
}

/// Trimming takes off what is blank at both ends, all of it, and nothing else.
pub proof fn law_trimming_takes_the_blanks_off(s: Seq<char>)
    ensures
        exists|from: int, to: int| #[trigger]
            is_trimmed(s, from, to) && trimmed(s) == s.subrange(from, to),
{
    let from = lemma_front(s);
    let t = s.skip(from);
    let k = lemma_back(t);
    let to = from + k;
    assert(t.take(k) =~= s.subrange(from, to));
    assert(blank(s.take(from)));
    assert forall|i: int| 0 <= i < s.skip(to).len() implies blank_sign(#[trigger] s.skip(to)[i]) by {
        assert(t[k + i] == s.skip(to)[i]);
    }
    if from < to {
        assert(t[0] == s[from] && t[k - 1] == s[to - 1]);
    }
    assert(is_trimmed(s, from, to));
}

/// A distance is told in steps of fifty metres, raised to the next.
pub proof fn law_a_distance_is_told_in_fifties(distance: Single)
    ensures
        in_fifties(distance) == distance.quotient(Single { bits: 0x4248_0000 }).spec_ceil().product(
            Single { bits: 0x4248_0000 },
        ).cut(),
{
}

/// A text that is not empty is held by itself, and nothing holds an empty one.
pub proof fn law_what_a_text_holds(hay: Seq<char>, needle: Seq<char>)
    ensures
        needle.len() == 0 ==> !holds(hay, needle),
        needle.len() > 0 ==> holds(needle, needle),
        needle.len() > 0 ==> (holds(hay, needle) <==> exists|at: int| #[trigger]
            holds_at(encode_utf8(hay), encode_utf8(needle), at)),
{
    let (x, y) = (encode_utf8(hay), encode_utf8(needle));
    assert forall|at: int| stands_at(x, y, at) <==> #[trigger] holds_at(x, y, at) by {
        if stands_at(x, y, at) {
            assert forall|k: int| 0 <= k < y.len() implies folds(#[trigger] x[at + k]) == folds(
                y[k],
            ) by {
                assert(small(x[at + k]) == small(y[k]));
            }
        }
        if holds_at(x, y, at) {
            assert forall|k: int| 0 <= k < y.len() implies small(#[trigger] x[at + k]) == small(
                y[k],
            ) by {
                assert(folds(x[at + k]) == folds(y[k]));
            }
        }
    }
    if needle.len() > 0 {
        assert(stands_at(y, y, 0));
        if holds(hay, needle) {
            let at = choose|at: int| stands_at(x, y, at);
            assert(holds_at(x, y, at));
        }
        if exists|at: int| #[trigger] holds_at(x, y, at) {
            let at = choose|at: int| #[trigger] holds_at(x, y, at);
            assert(stands_at(x, y, at));
        }
    }
}

/// Some bytes stand in others at a place, great letters counting as small ones.
pub open spec fn holds_at(hay: Seq<u8>, needle: Seq<u8>, at: int) -> bool {
    &&& 0 <= at <= hay.len() - needle.len()
    &&& forall|k: int|
        0 <= k < needle.len() ==> folds(#[trigger] hay[at + k]) == folds(needle[k])
}

/// A byte with a great letter made small.
pub open spec fn folds(b: u8) -> int {
    if 0x41 <= b <= 0x5a {
        b + 0x20
    } else {
        b as int
    }
}

/// The signs that count as blank: the tab and the four that break a line, the
/// space, the next line, the space that does not break and that of ogham, the
/// eleven spaces of set width, the line and the paragraph separator, the two narrow
/// spaces, and the wide one.
pub proof fn law_which_signs_are_blank(c: char)
    ensures
        blank_sign(c) <==> set![
            0x9int, 0xa, 0xb, 0xc, 0xd, 0x20, 0x85, 0xa0, 0x1680, 0x2000, 0x2001, 0x2002, 0x2003,
            0x2004, 0x2005, 0x2006, 0x2007, 0x2008, 0x2009, 0x200a, 0x2028, 0x2029, 0x202f, 0x205f,
            0x3000
        ].contains(c as int),
{
}

} // verus!
