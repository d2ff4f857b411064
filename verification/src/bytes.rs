//! Numbers as bytes, in either order.

use vstd::arithmetic::div_mod::lemma_div_denominator;
use vstd::arithmetic::power::{lemma_pow_positive, pow};
use vstd::prelude::*;

verus! {

/// The number that bytes write, lowest first.
pub open spec fn le_value(s: Seq<u8>) -> nat
    decreases s.len(),
{
    if s.len() == 0 {
        0
    } else {
        s[0] as nat + 256 * le_value(s.drop_first())
    }
}

/// A number as so many bytes, lowest first.
pub open spec fn le_bytes(n: nat, width: nat) -> Seq<u8>
    decreases width,
{
    if width == 0 {
        Seq::empty()
    } else {
        seq![(n % 256) as u8] + le_bytes(n / 256, (width - 1) as nat)
    }
}

/// The number that bytes write, highest first.
pub open spec fn be_value(s: Seq<u8>) -> nat
    decreases s.len(),
{
    if s.len() == 0 {
        0
    } else {
        256 * be_value(s.drop_last()) + s.last() as nat
    }
}

/// A number as so many bytes, highest first.
pub open spec fn be_bytes(n: nat, width: nat) -> Seq<u8>
    decreases width,
{
    if width == 0 {
        Seq::empty()
    } else {
        be_bytes(n / 256, (width - 1) as nat).push((n % 256) as u8)
    }
}

/// How many values so many bytes can take.
pub open spec fn capacity(width: nat) -> nat
    decreases width,
{
    if width == 0 {
        1
    } else {
        256 * capacity((width - 1) as nat)
    }
}

/// Reading back a number that was written lowest byte first gives the number.
pub proof fn law_le_reads_back(n: nat, width: nat)
    requires
        n < capacity(width),
    ensures
        le_bytes(n, width).len() == width,
        le_value(le_bytes(n, width)) == n,
    decreases width,
{
    if width > 0 {
        law_le_reads_back(n / 256, (width - 1) as nat);
        assert(le_bytes(n, width).drop_first() =~= le_bytes(n / 256, (width - 1) as nat));
    }
}

/// Reading back a number that was written highest byte first gives the number.
pub proof fn law_be_reads_back(n: nat, width: nat)
    requires
        n < capacity(width),
    ensures
        be_bytes(n, width).len() == width,
        be_value(be_bytes(n, width)) == n,
    decreases width,
{
    if width > 0 {
        law_be_reads_back(n / 256, (width - 1) as nat);
        assert(be_bytes(n, width).drop_last() =~= be_bytes(n / 256, (width - 1) as nat));
    }
}

/// Bytes are those of the number that they write, highest first.
pub proof fn lemma_be_bytes_of_value(s: Seq<u8>)
    ensures
        be_bytes(be_value(s), s.len()) == s,
        be_value(s) < capacity(s.len()),
    decreases s.len(),
{
    if s.len() > 0 {
        lemma_be_bytes_of_value(s.drop_last());
        assert(be_value(s) % 256 == s.last());
        assert(be_value(s) / 256 == be_value(s.drop_last()));
        assert(s.drop_last().push(s.last()) =~= s);
    } else {
        assert(be_bytes(0, 0) =~= s);
    }
}

/// Bytes are those of the number that they write, lowest first.
pub proof fn lemma_le_bytes_of_value(s: Seq<u8>)
    ensures
        le_bytes(le_value(s), s.len()) == s,
        le_value(s) < capacity(s.len()),
    decreases s.len(),
{
    if s.len() > 0 {
        lemma_le_bytes_of_value(s.drop_first());
        assert(le_value(s) % 256 == s[0]);
        assert(le_value(s) / 256 == le_value(s.drop_first()));
        assert(seq![s[0]] + s.drop_first() =~= s);
    } else {
        assert(le_bytes(0, 0) =~= s);
    }
}

/// The widths in use.
pub proof fn lemma_capacities()
    ensures
        capacity(2) == 0x1_0000,
        capacity(4) == 0x1_0000_0000,
        capacity(8) == 0x1_0000_0000_0000_0000,
{
    reveal_with_fuel(capacity, 9);
}

/// Appends a number, lowest byte first.
pub fn push_le(out: &mut Vec<u8>, n: u64, width: usize)
    ensures
        final(out)@ == old(out)@ + le_bytes(n as nat, width as nat),
{
    let mut rest: u64 = n;
    let ghost before = out@;
    let mut i: usize = 0;
    while i < width
        invariant
            i <= width,
            before + le_bytes(n as nat, width as nat) == out@ + le_bytes(
                rest as nat,
                (width - i) as nat,
            ),
        decreases width - i,
    {
        let ghost sofar = out@;
        let low: u8 = (rest % 256) as u8;
        out.push(low);
        proof {
            let tail = le_bytes(rest as nat / 256, (width - i - 1) as nat);
            assert(sofar + (seq![low] + tail) =~= sofar.push(low) + tail);
        }
        rest = rest / 256;
        i = i + 1;
    }
    assert(out@ + le_bytes(rest as nat, 0) =~= out@);
}

/// The number in the bytes from `from` up to `to`, lowest first.
pub fn read_le(bytes: &[u8], from: usize, to: usize) -> (out: u64)
    requires
        from <= to <= bytes@.len(),
        to - from <= 8,
    ensures
        out == le_value(bytes@.subrange(from as int, to as int)),
        out < capacity((to - from) as nat),
{
    let mut out: u64 = 0;
    let mut i: usize = to;
    assert(bytes@.subrange(to as int, to as int) =~= Seq::<u8>::empty());
    proof {
        lemma_capacities();
    }
    while i > from
        invariant
            from <= i <= to <= bytes@.len(),
            to - from <= 8,
            out == le_value(bytes@.subrange(i as int, to as int)),
            out < capacity((to - i) as nat),
        decreases i,
    {
        proof {
            let s = bytes@.subrange(i - 1, to as int);
            assert(s.drop_first() =~= bytes@.subrange(i as int, to as int));
            lemma_capacity_grows((to - i + 1) as nat, 8);
            lemma_capacities();
        }
        i = i - 1;
        out = bytes[i] as u64 + 256 * out;
    }
    out
}

proof fn lemma_capacity_grows(a: nat, b: nat)
    requires
        a <= b,
    ensures
        0 < capacity(a) <= capacity(b),
    decreases b,
{
    if a < b {
        lemma_capacity_grows(a, (b - 1) as nat);
    } else if b > 0 {
        lemma_capacity_grows((b - 1) as nat, (b - 1) as nat);
    }
}

/// Appends a number, highest byte first.
pub fn push_be(out: &mut Vec<u8>, n: u64, width: usize)
    ensures
        final(out)@ == old(out)@ + be_bytes(n as nat, width as nat),
    decreases width,
{
    if width > 0 {
        push_be(out, n / 256, width - 1);
        out.push((n % 256) as u8);
    }
    assert(out@ =~= old(out)@ + be_bytes(n as nat, width as nat));
}

/// The number in the first `width` bytes, highest first.
pub fn read_be(bytes: &[u8], width: usize) -> (out: u64)
    requires
        width <= bytes@.len(),
        width <= 8,
    ensures
        out == be_value(bytes@.take(width as int)),
{
    let mut out: u64 = 0;
    assert(bytes@.take(0) =~= Seq::<u8>::empty());
    for i in 0..width
        invariant
            width <= bytes@.len(),
            width <= 8,
            out == be_value(bytes@.take(i as int)),
    {
        proof {
            let s = bytes@.take(i as int + 1);
            assert(s.drop_last() =~= bytes@.take(i as int));
            lemma_be_bytes_of_value(s);
            lemma_capacity_grows((i + 1) as nat, 8);
            lemma_capacities();
        }
        out = 256 * out + bytes[i] as u64;
    }
    out
}

/// Two runs of bytes, one after the other.
pub fn concat(a: &[u8], b: &[u8]) -> (out: Vec<u8>)
    ensures
        out@ == a@ + b@,
{
    let mut out: Vec<u8> = Vec::new();
    extend(&mut out, a);
    extend(&mut out, b);
    assert(out@ =~= a@ + b@);
    out
}

/// Appends bytes.
pub fn extend(out: &mut Vec<u8>, more: &[u8])
    ensures
        final(out)@ == old(out)@ + more@,
{
    let ghost before = out@;
    for i in 0..more.len()
        invariant
            out@ == before + more@.take(i as int),
    {
        out.push(more[i]);
        assert(before + more@.take(i as int + 1) =~= (before + more@.take(i as int)).push(
            more@[i as int],
        ));
    }
    assert(more@.take(more@.len() as int) =~= more@);
}

/// The bytes from `from` up to `to`.
pub fn slice(bytes: &[u8], from: usize, to: usize) -> (out: Vec<u8>)
    requires
        from <= to <= bytes@.len(),
    ensures
        out@ == bytes@.subrange(from as int, to as int),
{
    let mut out: Vec<u8> = Vec::new();
    for i in from..to
        invariant
            from <= to <= bytes@.len(),
            out@ == bytes@.subrange(from as int, i as int),
    {
        out.push(bytes[i]);
        assert(bytes@.subrange(from as int, i as int).push(bytes@[i as int]) =~= bytes@.subrange(
            from as int,
            i as int + 1,
        ));
    }
    out
}

/// Whether two runs of bytes are the same.
pub fn same_bytes(a: &[u8], b: &[u8]) -> (out: bool)
    ensures
        out == (a@ == b@),
{
    if a.len() != b.len() {
        return false;
    }
    for i in 0..a.len()
        invariant
            a@.len() == b@.len(),
            forall|j: int| 0 <= j < i ==> a@[j] == b@[j],
    {
        if a[i] != b[i] {
            return false;
        }
    }
    assert(a@ =~= b@);
    true
}

/// Whether one run of bytes stands no later than another, byte by byte.
pub open spec fn bytes_le(a: Seq<u8>, b: Seq<u8>) -> bool
    decreases a.len(),
{
    if a.len() == 0 {
        true
    } else if b.len() == 0 {
        false
    } else if a[0] != b[0] {
        a[0] < b[0]
    } else {
        bytes_le(a.drop_first(), b.drop_first())
    }
}

/// Whether one run of bytes stands no later than another.
pub fn not_after(a: &[u8], b: &[u8]) -> (out: bool)
    ensures
        out == bytes_le(a@, b@),
{
    let mut i: usize = 0;
    assert(a@.skip(0) =~= a@);
    assert(b@.skip(0) =~= b@);
    while i < a.len() && i < b.len()
        invariant
            i <= a@.len(),
            i <= b@.len(),
            bytes_le(a@, b@) == bytes_le(a@.skip(i as int), b@.skip(i as int)),
        decreases a@.len() - i,
    {
        if a[i] != b[i] {
            return a[i] < b[i];
        }
        assert(a@.skip(i as int).drop_first() =~= a@.skip(i as int + 1));
        assert(b@.skip(i as int).drop_first() =~= b@.skip(i as int + 1));
        i = i + 1;
    }
    i == a.len()
}

/// Of two runs of bytes either stands no later than the other; both do only
/// where they are the same.
pub proof fn law_bytes_le_is_total(a: Seq<u8>, b: Seq<u8>)
    ensures
        bytes_le(a, b) || bytes_le(b, a),
        bytes_le(a, b) && bytes_le(b, a) <==> a == b,
    decreases a.len(),
{
    if a.len() > 0 && b.len() > 0 && a[0] == b[0] {
        law_bytes_le_is_total(a.drop_first(), b.drop_first());
        if a.drop_first() == b.drop_first() {
            assert(a =~= seq![a[0]] + a.drop_first());
            assert(b =~= seq![b[0]] + b.drop_first());
        }
    } else if a.len() == 0 && b.len() == 0 {
        assert(a =~= b);
    }
}

/// The capacity of some bytes is a power of 256.
proof fn lemma_capacity_is_a_power(width: nat)
    ensures
        capacity(width) == pow(256, width),
    decreases width,
{
    reveal(pow);
    if width > 0 {
        lemma_capacity_is_a_power((width - 1) as nat);
    }
}

/// Bytes one after the other count as digits to the base 256, the first ones the
/// least where the order is little-endian and the most where it is big-endian.
pub proof fn law_bytes_are_digits(a: Seq<u8>, b: Seq<u8>, byte: u8)
    ensures
        le_value(seq![byte]) == byte,
        be_value(seq![byte]) == byte,
        le_value(a + b) == le_value(a) + pow(256, a.len()) * le_value(b),
        be_value(a + b) == be_value(a) * pow(256, b.len()) + be_value(b),
{
    let one = seq![byte];
    assert(one.drop_first() =~= Seq::<u8>::empty());
    assert(one.drop_last() =~= Seq::<u8>::empty());
    assert(le_value(Seq::<u8>::empty()) == 0);
    assert(be_value(Seq::<u8>::empty()) == 0);
    lemma_le_concat(a, b);
    lemma_be_concat(a, b);
}

proof fn lemma_le_concat(a: Seq<u8>, b: Seq<u8>)
    ensures
        le_value(a + b) == le_value(a) + pow(256, a.len()) * le_value(b),
    decreases a.len(),
{
    reveal(pow);
    if a.len() == 0 {
        assert(a + b =~= b);
        assert(pow(256, 0) == 1);
        assert(1 * le_value(b) == le_value(b));
    } else {
        let rest = a.drop_first();
        lemma_le_concat(rest, b);
        assert((a + b).drop_first() =~= rest + b);
        let (p, v, w) = (pow(256, rest.len()), le_value(rest) as int, le_value(b) as int);
        assert(256 * (v + p * w) == 256 * v + (256 * p) * w) by (nonlinear_arith);
    }
}

proof fn lemma_be_concat(a: Seq<u8>, b: Seq<u8>)
    ensures
        be_value(a + b) == be_value(a) * pow(256, b.len()) + be_value(b),
    decreases b.len(),
{
    reveal(pow);
    if b.len() == 0 {
        assert(a + b =~= a);
        assert(pow(256, 0) == 1);
        assert(be_value(a) * 1 == be_value(a));
    } else {
        let init = b.drop_last();
        lemma_be_concat(a, init);
        assert((a + b).drop_last() =~= a + init);
        let (p, v, w) = (pow(256, init.len()), be_value(a) as int, be_value(init) as int);
        assert(256 * (v * p + w) == v * (256 * p) + 256 * w) by (nonlinear_arith);
    }
}

/// Each byte of a number is its digit to the base 256, counted from the first where
/// the order is little-endian and from the last where it is big-endian.
pub proof fn law_each_byte_is_a_digit(n: nat, width: nat, i: int)
    requires
        0 <= i < width,
    ensures
        le_bytes(n, width).len() == width,
        le_bytes(n, width)[i] as int == n as int / pow(256, i as nat) % 256,
        be_bytes(n, width).len() == width,
        be_bytes(n, width)[width - 1 - i] as int == n as int / pow(256, i as nat) % 256,
    decreases width,
{
    reveal(pow);
    lemma_bytes_len(n, width);
    if i > 0 {
        let less = (width - 1) as nat;
        law_each_byte_is_a_digit(n / 256, less, i - 1);
        let p = pow(256, (i - 1) as nat);
        lemma_pow_positive(256, (i - 1) as nat);
        lemma_div_denominator(n as int, 256, p);
        assert(le_bytes(n, width)[i] == le_bytes(n / 256, less)[i - 1]);
        assert(be_bytes(n, width)[width - 1 - i] == be_bytes(n / 256, less)[less - 1 - (i - 1)]);
    } else {
        assert(pow(256, 0) == 1);
    }
}

proof fn lemma_bytes_len(n: nat, width: nat)
    ensures
        le_bytes(n, width).len() == width,
        be_bytes(n, width).len() == width,
    decreases width,
{
    if width > 0 {
        lemma_bytes_len(n / 256, (width - 1) as nat);
    }
}

/// Bytes are ordered by the first one in which they differ, and a beginning comes
/// before what it begins.
pub proof fn law_bytes_are_ordered_by_the_first_difference(
    common: Seq<u8>,
    x: u8,
    y: u8,
    a: Seq<u8>,
    b: Seq<u8>,
)
    ensures
        x < y ==> bytes_le(common.push(x) + a, common.push(y) + b) && !bytes_le(
            common.push(y) + b,
            common.push(x) + a,
        ),
        bytes_le(common, common + a),
        a.len() > 0 ==> !bytes_le(common + a, common),
    decreases common.len(),
{
    let (s, t) = (common.push(x) + a, common.push(y) + b);
    if common.len() == 0 {
        assert(s[0] == x && t[0] == y);
        assert(common + a =~= a);
    } else {
        let rest = common.drop_first();
        law_bytes_are_ordered_by_the_first_difference(rest, x, y, a, b);
        assert(s.drop_first() =~= rest.push(x) + a);
        assert(t.drop_first() =~= rest.push(y) + b);
        assert((common + a).drop_first() =~= rest + a);
        assert(s[0] == common[0] && t[0] == common[0]);
    }
}

}
