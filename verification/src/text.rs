//! Text helpers: decimal rendering, path segments, suffixes and joins.

use vstd::prelude::*;
use vstd::std_specs::iter::IteratorSpec;
use vstd::string::StringSliceAdditionalSpecFns;
use vstd::utf8::{encode_utf8, encode_utf8_decode_utf8};

verus! {

/// The character of one decimal digit.
pub open spec fn digit_char(d: nat) -> char
    recommends
        d < 10,
{
    if d == 0 {
        '0'
    } else if d == 1 {
        '1'
    } else if d == 2 {
        '2'
    } else if d == 3 {
        '3'
    } else if d == 4 {
        '4'
    } else if d == 5 {
        '5'
    } else if d == 6 {
        '6'
    } else if d == 7 {
        '7'
    } else if d == 8 {
        '8'
    } else {
        '9'
    }
}

/// The decimal numeral of `n`, without sign or leading zeros.
pub open spec fn decimal(n: nat) -> Seq<char>
    decreases n,
{
    if n < 10 {
        seq![digit_char(n)]
    } else {
        decimal(n / 10).push(digit_char(n % 10))
    }
}

fn digit_str(d: usize) -> (s: &'static str)
    requires
        d < 10,
    ensures
        s@ == seq![digit_char(d as nat)],
{
    proof {
        reveal_strlit("0");
        reveal_strlit("1");
        reveal_strlit("2");
        reveal_strlit("3");
        reveal_strlit("4");
        reveal_strlit("5");
        reveal_strlit("6");
        reveal_strlit("7");
        reveal_strlit("8");
        reveal_strlit("9");
    }
    if d == 0 {
        "0"
    } else if d == 1 {
        "1"
    } else if d == 2 {
        "2"
    } else if d == 3 {
        "3"
    } else if d == 4 {
        "4"
    } else if d == 5 {
        "5"
    } else if d == 6 {
        "6"
    } else if d == 7 {
        "7"
    } else if d == 8 {
        "8"
    } else {
        "9"
    }
}

/// Appends the decimal numeral of `n` to `out`.
pub fn push_decimal(out: &mut String, n: usize)
    ensures
        final(out)@ == old(out)@ + decimal(n as nat),
    decreases n,
{
    if n >= 10 {
        push_decimal(out, n / 10);
    }
    out.append(digit_str(n % 10));
}

/// The decimal numeral of `n` as a string.
pub fn decimal_string(n: usize) -> (out: String)
    ensures
        out@ == decimal(n as nat),
{
    let mut out = String::new();
    push_decimal(&mut out, n);
    out
}

/// The characters of `s`, in order.
pub fn chars_of(s: &str) -> (v: Vec<char>)
    ensures
        v@ == s@,
{
    let mut v: Vec<char> = Vec::new();
    for c in it: s.chars()
        invariant
            v@ == s@.take(it.index() as int),
            it.seq() == s@,
    {
        v.push(c);
    }
    v
}

/// Where the final path segment of `s` begins: just behind its last `/`, or
/// at 0 where it has none.
pub open spec fn segment_start(s: Seq<char>) -> int
    decreases s.len(),
{
    if s.len() == 0 {
        0
    } else if s.last() == '/' {
        s.len() as int
    } else {
        segment_start(s.drop_last())
    }
}

/// What follows the last `/` of `s`; all of `s` where it has none.
pub open spec fn last_segment(s: Seq<char>) -> Seq<char> {
    s.subrange(segment_start(s), s.len() as int)
}

/// The final segment lies inside the text, holds no `/`, and is either the
/// whole text or stands directly behind a `/`.
pub proof fn lemma_segment_start(s: Seq<char>)
    ensures
        0 <= segment_start(s) <= s.len(),
        forall|i: int| segment_start(s) <= i < s.len() ==> s[i] != '/',
        segment_start(s) == 0 || s[segment_start(s) - 1] == '/',
    decreases s.len(),
{
    if s.len() > 0 && s.last() != '/' {
        let t = s.drop_last();
        lemma_segment_start(t);
        assert forall|i: int| segment_start(s) <= i < s.len() implies s[i] != '/' by {
            if i < t.len() {
                assert(t[i] == s[i]);
            }
        }
        if segment_start(s) != 0 {
            assert(t[segment_start(s) - 1] == s[segment_start(s) - 1]);
        }
    }
}

/// The final path segment of `s` as a string of its own.
pub fn final_segment(s: &str) -> (out: String)
    ensures
        out@ == last_segment(s@),
{
    let v = chars_of(s);
    let n = v.len();
    let mut start: usize = 0;
    let mut i: usize = 0;
    while i < n
        invariant
            v@ == s@,
            n == v.len(),
            i <= n,
            start <= i,
            start == segment_start(v@.take(i as int)),
        decreases n - i,
    {
        assert(v@.take(i + 1).drop_last() =~= v@.take(i as int));
        if v[i] == '/' {
            start = i + 1;
        }
        i = i + 1;
    }
    assert(v@.take(n as int) =~= v@);
    s.substring_char(start, n).to_owned()
}

/// Whether `s` ends in `suffix`.
pub fn ends_with(s: &str, suffix: &str) -> (yes: bool)
    ensures
        yes == suffix@.is_suffix_of(s@),
{
    let v = chars_of(s);
    let w = chars_of(suffix);
    if w.len() > v.len() {
        return false;
    }
    let off = v.len() - w.len();
    let mut i: usize = 0;
    while i < w.len()
        invariant
            v@ == s@,
            w@ == suffix@,
            w.len() <= v.len(),
            off == v.len() - w.len(),
            i <= w.len(),
            forall|j: int| 0 <= j < i ==> v@[off + j] == w@[j],
        decreases w.len() - i,
    {
        if v[off + i] != w[i] {
            assert(s@.subrange(off as int, s@.len() as int)[i as int] != suffix@[i as int]);
            return false;
        }
        i = i + 1;
    }
    true
}

/// The views of a sequence of strings.
pub open spec fn texts(v: Seq<String>) -> Seq<Seq<char>> {
    Seq::new(v.len(), |i: int| v[i]@)
}

/// The parts in order, with `sep` between each two neighbours.
pub open spec fn joined(parts: Seq<Seq<char>>, sep: Seq<char>) -> Seq<char>
    decreases parts.len(),
{
    if parts.len() == 0 {
        Seq::empty()
    } else if parts.len() == 1 {
        parts[0]
    } else {
        joined(parts.drop_last(), sep) + sep + parts.last()
    }
}

/// The parts joined by single spaces.
pub fn join_spaced(parts: &Vec<String>) -> (out: String)
    ensures
        out@ == joined(texts(parts@), seq![' ']),
{
    let mut out = String::new();
    let mut i: usize = 0;
    proof {
        reveal_strlit(" ");
    }
    while i < parts.len()
        invariant
            i <= parts.len(),
            " "@ == seq![' '],
            out@ == joined(texts(parts@).take(i as int), seq![' ']),
        decreases parts.len() - i,
    {
        assert(texts(parts@).take(i + 1).drop_last() =~= texts(parts@).take(i as int));
        if i > 0 {
            out.append(" ");
        }
        out.append(parts[i].as_str());
        i = i + 1;
    }
    assert(texts(parts@).take(parts.len() as int) =~= texts(parts@));
    out
}

/// `a` and `b` agree before place `k`, and there `a` ends or is smaller.
pub open spec fn smaller_at(a: Seq<u8>, b: Seq<u8>, k: int) -> bool {
    &&& 0 <= k <= a.len()
    &&& k < b.len()
    &&& forall|i: int| 0 <= i < k ==> a[i] == b[i]
    &&& k < a.len() ==> a[k] < b[k]
}

/// `a` comes before `b` when both are compared byte by byte.
pub open spec fn bytes_precede(a: Seq<u8>, b: Seq<u8>) -> bool {
    exists|k: int| smaller_at(a, b, k)
}

/// The text `a` comes before the text `b` in the order of their UTF-8 bytes.
pub open spec fn precedes(a: Seq<char>, b: Seq<char>) -> bool {
    bytes_precede(encode_utf8(a), encode_utf8(b))
}

/// Where two texts stand to each other.
#[derive(Clone, Copy, Debug, PartialEq, Eq, Structural)]
pub enum Side {
    Before,
    Same,
    After,
}

/// Where `a` stands to `b`.
pub open spec fn side_of(a: Seq<char>, b: Seq<char>) -> Side {
    if a == b {
        Side::Same
    } else if precedes(a, b) {
        Side::Before
    } else {
        Side::After
    }
}

/// No text comes before itself, and of two texts only one comes before the
/// other.
pub proof fn lemma_precedes_one_way(a: Seq<char>, b: Seq<char>)
    ensures
        !precedes(a, a),
        precedes(a, b) ==> !precedes(b, a),
{
    let x = encode_utf8(a);
    let y = encode_utf8(b);
    if bytes_precede(x, x) {
        let k = choose|k: int| smaller_at(x, x, k);
        assert(false);
    }
    if bytes_precede(x, y) && bytes_precede(y, x) {
        let k = choose|k: int| smaller_at(x, y, k);
        let m = choose|m: int| smaller_at(y, x, m);
        if k < m {
            assert(y[k] == x[k]);
        } else if m < k {
            assert(x[m] == y[m]);
        }
        assert(false);
    }
}

/// What comes before a text that comes before a third comes before the
/// third.
pub proof fn lemma_precedes_transitive(a: Seq<char>, b: Seq<char>, c: Seq<char>)
    requires
        precedes(a, b),
        precedes(b, c),
    ensures
        precedes(a, c),
{
    let x = encode_utf8(a);
    let y = encode_utf8(b);
    let z = encode_utf8(c);
    let k = choose|k: int| smaller_at(x, y, k);
    let m = choose|m: int| smaller_at(y, z, m);
    let n = if k <= m {
        k
    } else {
        m
    };
    assert forall|i: int| 0 <= i < n implies x[i] == z[i] by {
        assert(x[i] == y[i]);
        assert(y[i] == z[i]);
    }
    if k < m {
        assert(y[k] == z[k]);
    }
    if m < k {
        assert(x[m] == y[m]);
    }
    assert(smaller_at(x, z, n));
}

/// Of two different texts one comes before the other.
pub proof fn lemma_side_of(a: Seq<char>, b: Seq<char>)
    ensures
        side_of(a, b) == Side::After <==> precedes(b, a),
        side_of(a, b) == Side::Before <==> precedes(a, b),
        side_of(a, b) == Side::Same <==> a == b,
{
    lemma_precedes_one_way(a, b);
    lemma_precedes_one_way(b, a);
    let x = encode_utf8(a);
    let y = encode_utf8(b);
    if a != b {
        assert(x != y) by {
            encode_utf8_decode_utf8(a);
            encode_utf8_decode_utf8(b);
        }
        lemma_bytes_differ(x, y, 0);
    }
}

/// Two byte strings that agree before place `from` and are not equal are
/// ordered one way or the other.
proof fn lemma_bytes_differ(x: Seq<u8>, y: Seq<u8>, from: int)
    requires
        0 <= from <= x.len(),
        from <= y.len(),
        forall|i: int| 0 <= i < from ==> x[i] == y[i],
        x != y,
    ensures
        bytes_precede(x, y) || bytes_precede(y, x),
    decreases x.len() - from,
{
    if from == x.len() {
        if from == y.len() {
            assert(x =~= y);
        } else {
            assert(smaller_at(x, y, from));
        }
    } else if from == y.len() {
        assert(smaller_at(y, x, from));
    } else if x[from] < y[from] {
        assert(smaller_at(x, y, from));
    } else if y[from] < x[from] {
        assert(smaller_at(y, x, from));
    } else {
        lemma_bytes_differ(x, y, from + 1);
    }
}

/// Where `a` stands to `b` in the order of their UTF-8 bytes.
pub fn compare(a: &str, b: &str) -> (side: Side)
    ensures
        side == side_of(a@, b@),
{
    let x = a.as_bytes();
    let y = b.as_bytes();
    proof {
        lemma_side_of(a@, b@);
        lemma_precedes_one_way(a@, b@);
        lemma_precedes_one_way(b@, a@);
    }
    let mut i: usize = 0;
    while i < x.len() && i < y.len()
        invariant
            x@ == encode_utf8(a@),
            y@ == encode_utf8(b@),
            i <= x@.len(),
            i <= y@.len(),
            forall|j: int| 0 <= j < i ==> x@[j] == y@[j],
        decreases x@.len() - i,
    {
        if x[i] < y[i] {
            assert(smaller_at(x@, y@, i as int));
            return Side::Before;
        }
        if x[i] > y[i] {
            assert(smaller_at(y@, x@, i as int));
            return Side::After;
        }
        i = i + 1;
    }
    if x.len() < y.len() {
        assert(smaller_at(x@, y@, i as int));
        Side::Before
    } else if x.len() > y.len() {
        assert(smaller_at(y@, x@, i as int));
        Side::After
    } else {
        assert(x@ =~= y@);
        proof {
            encode_utf8_decode_utf8(a@);
            encode_utf8_decode_utf8(b@);
        }
        Side::Same
    }
}

} // verus!
