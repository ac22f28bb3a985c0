//! Words: joining them, counting in them, and the order they stand in.

use crate::single::Single;
use vstd::prelude::*;
use vstd::string::*;

verus! {

/// Two texts, one behind the other.
pub fn cat2(a: &str, b: &str) -> (r: String)
    ensures
        r@ == a@ + b@,
{
    let mut r = String::from_str(a);
    r.append(b);
    r
}

/// Three texts, one behind the other.
pub fn cat3(a: &str, b: &str, c: &str) -> (r: String)
    ensures
        r@ == a@ + b@ + c@,
{
    let mut r = cat2(a, b);
    r.append(c);
    r
}

/// Four texts, one behind the other.
pub fn cat4(a: &str, b: &str, c: &str, d: &str) -> (r: String)
    ensures
        r@ == a@ + b@ + c@ + d@,
{
    let mut r = cat3(a, b, c);
    r.append(d);
    r
}

/// Five texts, one behind the other.
pub fn cat5(a: &str, b: &str, c: &str, d: &str, e: &str) -> (r: String)
    ensures
        r@ == a@ + b@ + c@ + d@ + e@,
{
    let mut r = cat4(a, b, c, d);
    r.append(e);
    r
}

/// The sign for a digit, the letters standing for ten and up.
pub open spec fn digit(d: int) -> char {
    if d < 10 {
        ('0' as int + d) as char
    } else {
        ('a' as int + d - 10) as char
    }
}

/// A number written with `base` signs.
pub open spec fn written(n: nat, base: nat) -> Seq<char>
    decreases n,
{
    if n < base || base < 2 {
        seq![digit(n as int)]
    } else {
        proof {
            assert(n / base < n) by (nonlinear_arith)
                requires
                    n >= base,
                    base >= 2,
            ;
        }
        written(n / base, base).push(digit((n % base) as int))
    }
}

/// A number as it is read aloud.
pub open spec fn counted(n: nat) -> Seq<char> {
    written(n, 10)
}

/// A number in four signs of sixteen.
pub open spec fn four_hex(n: int) -> Seq<char> {
    seq![digit(n / 4096 % 16), digit(n / 256 % 16), digit(n / 16 % 16), digit(n % 16)]
}

fn digit_text(d: u8) -> (r: &'static str)
    requires
        d < 16,
    ensures
        r@ == seq![digit(d as int)],
{
    proof {
        reveal_strlit("0");
        reveal_strlit("1");
        reveal_strlit("2");
        reveal_strlit("3");
        reveal_strlit("4");
        reveal_strlit("5");
        reveal_strlit("6");
        reveal_strlit("7");
        reveal_strlit("8");
        reveal_strlit("9");
        reveal_strlit("a");
        reveal_strlit("b");
        reveal_strlit("c");
        reveal_strlit("d");
        reveal_strlit("e");
        reveal_strlit("f");
    }
    match d {
        0 => "0",
        1 => "1",
        2 => "2",
        3 => "3",
        4 => "4",
        5 => "5",
        6 => "6",
        7 => "7",
        8 => "8",
        9 => "9",
        10 => "a",
        11 => "b",
        12 => "c",
        13 => "d",
        14 => "e",
        _ => "f",
    }
}

/// A number as it is read aloud.
pub fn count(n: u128) -> (r: String)
    ensures
        r@ == counted(n as nat),
    decreases n,
{
    if n < 10 {
        String::from_str(digit_text(n as u8))
    } else {
        let mut r = count(n / 10);
        r.append(digit_text((n % 10) as u8));
        r
    }
}

/// A number in four signs of sixteen.
pub fn hex4(n: u16) -> (r: String)
    ensures
        r@ == four_hex(n as int),
{
    cat4(
        digit_text((n / 4096 % 16) as u8),
        digit_text((n / 256 % 16) as u8),
        digit_text((n / 16 % 16) as u8),
        digit_text((n % 16) as u8),
    )
}

/// A number to the nearest whole one, as it is read aloud.
pub open spec fn shown(x: Single) -> Seq<char> {
    if x.nan() {
        "NaN"@
    } else {
        let size = if x.infinite() {
            "inf"@
        } else {
            counted(x.rounded_size() as nat)
        };
        if x.negative() {
            "-"@ + size
        } else {
            size
        }
    }
}

/// A number to the nearest whole one, as it is read aloud.
pub fn show(x: Single) -> (r: String)
    ensures
        r@ == shown(x),
{
    if x.is_nan() {
        return String::from_str("NaN");
    }
    let size = if x.is_infinite() {
        String::from_str("inf")
    } else {
        count(x.round_size())
    };
    if x.is_negative() {
        cat2("-", size.as_str())
    } else {
        size
    }
}

/// Texts in a row with something between them.
pub open spec fn joined(names: Seq<Seq<char>>, between: Seq<char>) -> Seq<char>
    decreases names.len(),
{
    if names.len() == 0 {
        seq![]
    } else if names.len() == 1 {
        names[0]
    } else {
        joined(names.drop_last(), between) + between + names.last()
    }
}

/// What each of some texts says.
pub open spec fn said(names: Seq<&str>) -> Seq<Seq<char>> {
    names.map_values(|s: &str| s@)
}

/// What each of some texts says.
pub open spec fn told(names: Seq<String>) -> Seq<Seq<char>> {
    names.map_values(|s: String| s@)
}

/// Some texts, to be read only.
pub fn lent(names: &Vec<String>) -> (r: Vec<&str>)
    ensures
        said(r@) == told(names@),
{
    let mut r: Vec<&str> = Vec::new();
    let mut i: usize = 0;
    while i < names.len()
        invariant
            i <= names.len(),
            said(r@) == told(names@.take(i as int)),
        decreases names.len() - i,
    {
        let ghost so_far = r@;
        r.push(names[i].as_str());
        proof {
            assert(said(r@) =~= said(so_far).push(names@[i as int]@));
            assert(told(names@.take(i + 1)) =~= told(names@.take(i as int)).push(
                names@[i as int]@,
            ));
        }
        i = i + 1;
    }
    assert(names@.take(i as int) =~= names@);
    r
}

/// Texts in a row with something between them.
pub fn join_all(names: &Vec<String>, between: &str) -> (r: String)
    ensures
        r@ == joined(told(names@), between@),
{
    let v = lent(names);
    assert(v@.take(v@.len() as int) =~= v@);
    join(v.as_slice(), v.len(), between)
}

/// The first `n` texts in a row with something between them.
pub fn join(names: &[&str], n: usize, between: &str) -> (r: String)
    requires
        n <= names.len(),
    ensures
        r@ == joined(said(names@.take(n as int)), between@),
{
    let mut r = String::new();
    let mut i: usize = 0;
    while i < n
        invariant
            i <= n <= names.len(),
            r@ == joined(said(names@.take(i as int)), between@),
        decreases n - i,
    {
        proof {
            let now = said(names@.take(i + 1));
            assert(now.drop_last() =~= said(names@.take(i as int)));
            assert(now.last() == names@[i as int]@);
        }
        if i > 0 {
            r.append(between);
        }
        r.append(names[i]);
        proof {
            if i == 0 {
                assert(r@ =~= names@[0]@);
            }
        }
        i = i + 1;
    }
    r
}

/// The most names a line has room for.
pub const MOST: usize = 4;

/// A few names, and how many more there are.
pub open spec fn few(names: Seq<Seq<char>>) -> Seq<char> {
    if names.len() == 0 {
        "nothing"@
    } else if names.len() <= MOST {
        joined(names, ", "@)
    } else {
        joined(names.take(MOST as int), ", "@) + " and "@ + counted(
            (names.len() - MOST) as nat,
        ) + " more"@
    }
}

/// A few names, and how many more there are.
pub fn a_few(names: &[&str]) -> (r: String)
    ensures
        r@ == few(said(names@)),
{
    if names.len() == 0 {
        return String::from_str("nothing");
    }
    if names.len() <= MOST {
        assert(names@.take(names@.len() as int) =~= names@);
        return join(names, names.len(), ", ");
    }
    assert(said(names@.take(MOST as int)) =~= said(names@).take(MOST as int));
    let first = join(names, MOST, ", ");
    let more = count((names.len() - MOST) as u128);
    cat4(first.as_str(), " and ", more.as_str(), " more")
}

/// The order of dictionaries: which of two texts stands first.
pub open spec fn precedes(a: Seq<char>, b: Seq<char>) -> bool
    decreases a.len(),
{
    if b.len() == 0 {
        false
    } else if a.len() == 0 {
        true
    } else if a[0] != b[0] {
        (a[0] as int) < (b[0] as int)
    } else {
        precedes(a.drop_first(), b.drop_first())
    }
}

pub proof fn lemma_precedes_irreflexive(a: Seq<char>)
    ensures
        !precedes(a, a),
    decreases a.len(),
{
    if a.len() > 0 {
        lemma_precedes_irreflexive(a.drop_first());
    }
}

pub proof fn lemma_precedes_transitive(a: Seq<char>, b: Seq<char>, c: Seq<char>)
    requires
        precedes(a, b),
        precedes(b, c),
    ensures
        precedes(a, c),
    decreases a.len(),
{
    if a.len() > 0 && b.len() > 0 && c.len() > 0 && a[0] == b[0] && b[0] == c[0] {
        lemma_precedes_transitive(a.drop_first(), b.drop_first(), c.drop_first());
    }
}

pub proof fn lemma_precedes_total(a: Seq<char>, b: Seq<char>)
    requires
        !precedes(a, b),
        !precedes(b, a),
    ensures
        a == b,
    decreases a.len(),
{
    if a.len() > 0 && b.len() > 0 {
        lemma_precedes_total(a.drop_first(), b.drop_first());
        assert(a =~= seq![a[0]] + a.drop_first());
        assert(b =~= seq![b[0]] + b.drop_first());
    } else {
        assert(a =~= b);
    }
}

/// Which of two texts stands first.
pub fn stands_first(a: &str, b: &str) -> (r: bool)
    ensures
        r == precedes(a@, b@),
{
    let n: usize = a.unicode_len();
    let m: usize = b.unicode_len();
    let mut i: usize = 0;
    assert(a@.skip(0) =~= a@);
    assert(b@.skip(0) =~= b@);
    while i < n && i < m
        invariant
            n == a@.len(),
            m == b@.len(),
            i <= n,
            i <= m,
            precedes(a@, b@) == precedes(a@.skip(i as int), b@.skip(i as int)),
        decreases n - i,
    {
        let x: char = a.get_char(i);
        let y: char = b.get_char(i);
        if x != y {
            return x < y;
        }
        assert(a@.skip(i as int).drop_first() =~= a@.skip(i + 1));
        assert(b@.skip(i as int).drop_first() =~= b@.skip(i + 1));
        i = i + 1;
    }
    i < m
}

/// Whether two texts say the same.
pub fn same(a: &str, b: &str) -> (r: bool)
    ensures
        r == (a@ == b@),
{
    let x = String::from_str(a);
    let y = String::from_str(b);
    x == y
}

/// A letter of the Latin alphabet in its small form; any other byte as it is.
pub open spec fn small(b: u8) -> u8 {
    if 65 <= b <= 90 {
        (b + 32) as u8
    } else {
        b
    }
}

fn lower_byte(b: u8) -> (r: u8)
    ensures
        r == small(b),
{
    if 65 <= b && b <= 90 {
        b + 32
    } else {
        b
    }
}

/// What stands in `hay` from `at` on is `needle`, great and small letters
/// alike.
pub open spec fn stands_at(hay: Seq<u8>, needle: Seq<u8>, at: int) -> bool {
    &&& 0 <= at
    &&& at + needle.len() <= hay.len()
    &&& forall|k: int| 0 <= k < needle.len() ==> small(#[trigger] hay[at + k]) == small(needle[k])
}

/// `needle` stands somewhere in `hay`, great and small letters alike; an empty
/// one stands nowhere.
pub open spec fn holds(hay: Seq<char>, needle: Seq<char>) -> bool {
    needle.len() > 0 && exists|at: int|
        stands_at(vstd::utf8::encode_utf8(hay), vstd::utf8::encode_utf8(needle), at)
}

/// Whether `needle` stands somewhere in `haystack`, ignoring ASCII case.
pub fn contains_fold(haystack: &str, needle: &str) -> (r: bool)
    ensures
        r == holds(haystack@, needle@),
{
    if needle.is_empty() {
        return false;
    }
    let h = haystack.as_bytes();
    let n = needle.as_bytes();
    if n.len() > h.len() {
        return false;
    }
    let last: usize = h.len() - n.len();
    let mut at: usize = 0;
    loop
        invariant
            needle@.len() > 0,
            h@ == vstd::utf8::encode_utf8(haystack@),
            n@ == vstd::utf8::encode_utf8(needle@),
            h.len() == last + n.len(),
            at <= last,
            forall|k: int| 0 <= k < at ==> !stands_at(h@, n@, k),
        decreases last - at,
    {
        let mut k: usize = 0;
        while k < n.len() && lower_byte(h[at + k]) == lower_byte(n[k])
            invariant
                h.len() == last + n.len(),
                at <= last,
                k <= n.len(),
                forall|j: int| 0 <= j < k ==> small(#[trigger] h[at + j]) == small(n[j]),
            decreases n.len() - k,
        {
            k = k + 1;
        }
        if k == n.len() {
            assert(stands_at(h@, n@, at as int));
            return true;
        }
        assert(!stands_at(h@, n@, at as int)) by {
            assert(small(h@[at + k]) != small(n@[k as int]));
        }
        if at == last {
            return false;
        }
        at = at + 1;
    }
}

/// The letters of a text, those of the Latin alphabet in their small form.
pub open spec fn small_letter(c: char) -> char {
    if 'A' <= c <= 'Z' {
        ((c as int) + 32) as char
    } else {
        c
    }
}

/// Two texts say the same, great and small letters of the Latin alphabet
/// alike.
pub open spec fn alike(a: Seq<char>, b: Seq<char>) -> bool {
    a.len() == b.len() && forall|i: int|
        0 <= i < a.len() ==> small_letter(#[trigger] a[i]) == small_letter(b[i])
}

fn lower_code(c: char) -> (r: u32)
    ensures
        r == small_letter(c) as int,
{
    let n: u32 = c as u32;
    if 65 <= n && n <= 90 {
        n + 32
    } else {
        n
    }
}

/// Whether two texts say the same, ignoring ASCII case.
pub fn same_fold(a: &str, b: &str) -> (r: bool)
    ensures
        r == alike(a@, b@),
{
    let n: usize = a.unicode_len();
    if n != b.unicode_len() {
        return false;
    }
    let mut i: usize = 0;
    while i < n
        invariant
            n == a@.len(),
            n == b@.len(),
            i <= n,
            forall|k: int| 0 <= k < i ==> small_letter(#[trigger] a@[k]) == small_letter(b@[k]),
        decreases n - i,
    {
        let x: char = a.get_char(i);
        let y: char = b.get_char(i);
        if lower_code(x) != lower_code(y) {
            assert(small_letter(a@[i as int]) != small_letter(b@[i as int]));
            return false;
        }
        i = i + 1;
    }
    true
}

/// A text with the great letters of the Latin alphabet made small.
pub open spec fn small_text(s: Seq<char>) -> Seq<char> {
    s.map_values(|c: char| small_letter(c))
}

/// What [`str::to_ascii_lowercase`] gives: each ASCII letter in its lower case,
/// every other sign as it is.
pub assume_specification[ str::to_ascii_lowercase ](s: &str) -> (r: String)
    ensures
        r@ == small_text(s@),
;

/// Texts that differ in nothing but the case of their letters have one small
/// form, and no others have.
pub proof fn law_small_texts_tell_alike(a: Seq<char>, b: Seq<char>)
    ensures
        alike(a, b) <==> small_text(a) == small_text(b),
{
    if alike(a, b) {
        assert(small_text(a) =~= small_text(b));
    }
    if small_text(a) == small_text(b) {
        assert(a.len() == small_text(a).len());
        assert(b.len() == small_text(b).len());
        assert forall|i: int| 0 <= i < a.len() implies small_letter(#[trigger] a[i])
            == small_letter(b[i]) by {
            assert(small_text(a)[i] == small_text(b)[i]);
        }
    }
}

/// The same texts again.
pub fn copy_texts(v: &Vec<String>) -> (r: Vec<String>)
    ensures
        r@ == v@,
{
    let mut r: Vec<String> = Vec::new();
    let mut i: usize = 0;
    while i < v.len()
        invariant
            i <= v.len(),
            r@ == v@.take(i as int),
        decreases v.len() - i,
    {
        r.push(v[i].clone());
        i = i + 1;
        assert(r@ =~= v@.take(i as int));
    }
    assert(v@.take(v@.len() as int) =~= v@);
    r
}

/// The parts of a text between the signs `at`.
pub open spec fn parts(s: Seq<char>, at: char) -> Seq<Seq<char>>
    decreases s.len(),
{
    if s.len() == 0 {
        seq![s]
    } else {
        let rest = parts(s.drop_last(), at);
        if s.last() == at {
            rest.push(seq![])
        } else {
            rest.drop_last().push(rest.last().push(s.last()))
        }
    }
}

/// Every text has a part.
pub proof fn lemma_some_part(s: Seq<char>, at: char)
    ensures
        parts(s, at).len() > 0,
    decreases s.len(),
{
    if s.len() > 0 {
        lemma_some_part(s.drop_last(), at);
    }
}

/// A text without the sign is one part.
pub proof fn lemma_one_part(s: Seq<char>, at: char)
    requires
        !s.contains(at),
    ensures
        parts(s, at) =~= seq![s],
    decreases s.len(),
{
    if s.len() > 0 {
        assert(s[s.len() - 1] == s.last());
        assert forall|i: int| 0 <= i < s.len() - 1 implies s.drop_last()[i] != at by {
            assert(s[i] == s.drop_last()[i]);
        }
        lemma_one_part(s.drop_last(), at);
        assert(s.drop_last().push(s.last()) =~= s);
    }
}

/// What stands behind a sign is parted on its own.
pub proof fn lemma_parts_join(a: Seq<char>, b: Seq<char>, at: char)
    ensures
        parts(a.push(at) + b, at) =~= parts(a, at) + parts(b, at),
    decreases b.len(),
{
    let all = a.push(at) + b;
    lemma_some_part(b, at);
    if b.len() == 0 {
        assert(all.drop_last() =~= a);
        assert(all.last() == at);
        assert(b =~= seq![]);
    } else {
        assert(all.drop_last() =~= a.push(at) + b.drop_last());
        assert(all.last() == b.last());
        lemma_parts_join(a, b.drop_last(), at);
        lemma_some_part(b.drop_last(), at);
        let (x, y) = (parts(a, at), parts(b.drop_last(), at));
        assert((x + y).last() == y.last());
        assert((x + y).drop_last() =~= x + y.drop_last());
    }
}

/// The parts of a text between the signs `at`.
pub fn split<'a>(s: &'a str, at: char) -> (r: Vec<&'a str>)
    ensures
        said(r@) == parts(s@, at),
{
    let n: usize = s.unicode_len();
    let mut r: Vec<&'a str> = Vec::new();
    let mut from: usize = 0;
    let mut i: usize = 0;
    assert(said(r@).push(s@.subrange(0, 0)) =~= parts(s@.take(0), at));
    while i < n
        invariant
            n == s@.len(),
            from <= i <= n,
            parts(s@.take(i as int), at) == said(r@).push(s@.subrange(from as int, i as int)),
        decreases n - i,
    {
        let ghost done = said(r@);
        let ghost part = s@.subrange(from as int, i as int);
        assert(s@.take(i + 1).drop_last() =~= s@.take(i as int));
        assert(done.push(part).drop_last() =~= done);
        assert(part.push(s@[i as int]) =~= s@.subrange(from as int, i + 1));
        if s.get_char(i) == at {
            r.push(s.substring_char(from, i));
            assert(said(r@) =~= done.push(part));
            assert(s@.subrange(i + 1, i + 1) =~= seq![]);
            from = i + 1;
        }
        i = i + 1;
    }
    assert(s@.take(n as int) =~= s@);
    let ghost done = said(r@);
    r.push(s.substring_char(from, n));
    assert(said(r@) =~= done.push(s@.subrange(from as int, n as int)));
    r
}

/// A sign that leaves only room.
pub open spec fn blank_sign(c: char) -> bool {
    let n = c as int;
    ||| 9 <= n <= 13
    ||| n == 0x20
    ||| n == 0x85
    ||| n == 0xa0
    ||| n == 0x1680
    ||| 0x2000 <= n <= 0x200a
    ||| n == 0x2028
    ||| n == 0x2029
    ||| n == 0x202f
    ||| n == 0x205f
    ||| n == 0x3000
}

/// A text of nothing but room.
pub open spec fn blank(a: Seq<char>) -> bool {
    forall|i: int| 0 <= i < a.len() ==> blank_sign(#[trigger] a[i])
}

/// Whether a text is nothing but room.
pub fn is_blank(a: &str) -> (r: bool)
    ensures
        r == blank(a@),
{
    let n: usize = a.unicode_len();
    let mut i: usize = 0;
    while i < n
        invariant
            n == a@.len(),
            i <= n,
            forall|k: int| 0 <= k < i ==> blank_sign(#[trigger] a@[k]),
        decreases n - i,
    {
        let room = is_blank_sign(a.get_char(i));
        if !room {
            assert(!blank_sign(a@[i as int]));
            return false;
        }
        i = i + 1;
    }
    true
}

/// A text without the room it starts with.
pub open spec fn front_trimmed(s: Seq<char>) -> Seq<char>
    decreases s.len(),
{
    if s.len() > 0 && blank_sign(s[0]) {
        front_trimmed(s.drop_first())
    } else {
        s
    }
}

/// A text without the room it ends with.
pub open spec fn back_trimmed(s: Seq<char>) -> Seq<char>
    decreases s.len(),
{
    if s.len() > 0 && blank_sign(s.last()) {
        back_trimmed(s.drop_last())
    } else {
        s
    }
}

/// A text without the room round it.
pub open spec fn trimmed(s: Seq<char>) -> Seq<char> {
    back_trimmed(front_trimmed(s))
}

fn is_blank_sign(c: char) -> (r: bool)
    ensures
        r == blank_sign(c),
{
    let n: u32 = c as u32;
    (9 <= n && n <= 13) || n == 0x20 || n == 0x85 || n == 0xa0 || n == 0x1680 || (0x2000 <= n && n
        <= 0x200a) || n == 0x2028 || n == 0x2029 || n == 0x202f || n == 0x205f || n == 0x3000
}

/// A text without the room round it.
pub fn trim(s: &str) -> (r: &str)
    ensures
        r@ == trimmed(s@),
{
    let n: usize = s.unicode_len();
    let mut from: usize = 0;
    assert(s@.skip(0) =~= s@);
    while from < n && is_blank_sign(s.get_char(from))
        invariant
            n == s@.len(),
            from <= n,
            front_trimmed(s@) == front_trimmed(s@.skip(from as int)),
        decreases n - from,
    {
        assert(s@.skip(from as int).drop_first() =~= s@.skip(from + 1));
        from = from + 1;
    }
    let mut to: usize = n;
    assert(s@.subrange(from as int, n as int) =~= s@.skip(from as int));
    while to > from && is_blank_sign(s.get_char(to - 1))
        invariant
            n == s@.len(),
            from <= to <= n,
            back_trimmed(s@.skip(from as int)) == back_trimmed(
                s@.subrange(from as int, to as int),
            ),
        decreases to,
    {
        assert(s@.subrange(from as int, to as int).drop_last() =~= s@.subrange(
            from as int,
            to - 1,
        ));
        to = to - 1;
    }
    s.substring_char(from, to)
}

/// `needle` stands somewhere in `hay`.
pub open spec fn within(hay: Seq<char>, needle: Seq<char>) -> bool {
    exists|at: int| #[trigger] stands_in(hay, needle, at)
}

/// What stands in `hay` from `at` on is `needle`.
pub open spec fn stands_in(hay: Seq<char>, needle: Seq<char>, at: int) -> bool {
    &&& 0 <= at
    &&& at + needle.len() <= hay.len()
    &&& hay.subrange(at, at + needle.len()) == needle
}

/// Whether `needle` stands somewhere in `hay`.
pub fn contains(hay: &str, needle: &str) -> (r: bool)
    ensures
        r == within(hay@, needle@),
{
    let n: usize = needle.unicode_len();
    let h: usize = hay.unicode_len();
    if n > h {
        return false;
    }
    let last: usize = h - n;
    let mut at: usize = 0;
    loop
        invariant
            n == needle@.len(),
            h == hay@.len(),
            h == last + n,
            at <= last,
            forall|k: int| 0 <= k < at ==> !stands_in(hay@, needle@, k),
        decreases last - at,
    {
        let part = hay.substring_char(at, at + n);
        if same(part, needle) {
            assert(stands_in(hay@, needle@, at as int));
            return true;
        }
        if at == last {
            return false;
        }
        at = at + 1;
    }
}

/// A text in small letters, as [`str::to_lowercase`] writes it.
pub uninterp spec fn lower_case(s: Seq<char>) -> Seq<char>;

/// A text in small letters: what [`str::to_lowercase`] gives, under the name
/// [`lower_case`].
#[verifier::external_body]
pub(crate) fn to_lower(s: &str) -> (r: String)
    ensures
        r@ == lower_case(s@),
{
    s.to_lowercase()
}

} // verus!
