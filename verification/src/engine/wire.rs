//! Hidden states between their bytes on the wire and the values that the layers
//! work on.
//!
//! A value of either width is held by its bits.

use vstd::prelude::*;

use crate::bytes::{capacity, law_le_reads_back, le_bytes, le_value, lemma_capacities, push_le, read_le};
use crate::engine::abi::{activation_bytes, Activation, WireDtype};
use crate::engine::error::Error;

verus! {

/// The numbers that runs of `width` bytes write; what is left over at the end
/// is dropped.
pub open spec fn unpacked(data: Seq<u8>, width: nat) -> Seq<nat> {
    Seq::new(
        data.len() / width,
        |i: int| le_value(data.subrange(i * width, i * width + width)),
    )
}

/// Numbers as runs of `width` bytes.
pub open spec fn packed(values: Seq<nat>, width: nat) -> Seq<u8>
    decreases values.len(),
{
    if values.len() == 0 {
        Seq::empty()
    } else {
        packed(values.drop_last(), width) + le_bytes(values.last(), width)
    }
}

/// Hidden states off the wire: the bits of values in half precision.
pub fn halves(data: &[u8]) -> (out: Vec<u16>)
    ensures
        numbers16(out@) == unpacked(data@, 2),
{
    let mut out: Vec<u16> = Vec::new();
    let len: usize = data.len();
    let count: usize = len / 2;
    for i in 0..count
        invariant
            len == data@.len(),
            count == len / 2,
            numbers16(out@) == unpacked(data@, 2).take(i as int),
    {
        proof {
            lemma_capacities();
        }
        let ghost before = out@;
        out.push(read_le(data, 2 * i, 2 * i + 2) as u16);
        assert(numbers16(out@) =~= numbers16(before).push(out@.last() as nat));
        assert(unpacked(data@, 2).take(i as int + 1) =~= unpacked(data@, 2).take(i as int).push(
            unpacked(data@, 2)[i as int],
        ));
    }
    assert(unpacked(data@, 2).take(count as int) =~= unpacked(data@, 2));
    out
}

/// Hidden states off the wire: the bits of values in single precision.
pub fn singles(data: &[u8]) -> (out: Vec<u32>)
    ensures
        numbers32(out@) == unpacked(data@, 4),
{
    let mut out: Vec<u32> = Vec::new();
    let len: usize = data.len();
    let count: usize = len / 4;
    for i in 0..count
        invariant
            len == data@.len(),
            count == len / 4,
            numbers32(out@) == unpacked(data@, 4).take(i as int),
    {
        proof {
            lemma_capacities();
        }
        let ghost before = out@;
        out.push(read_le(data, 4 * i, 4 * i + 4) as u32);
        assert(numbers32(out@) =~= numbers32(before).push(out@.last() as nat));
        assert(unpacked(data@, 4).take(i as int + 1) =~= unpacked(data@, 4).take(i as int).push(
            unpacked(data@, 4)[i as int],
        ));
    }
    assert(unpacked(data@, 4).take(count as int) =~= unpacked(data@, 4));
    out
}

/// The bits of some values as numbers.
pub open spec fn numbers16(values: Seq<u16>) -> Seq<nat> {
    Seq::new(values.len(), |i: int| values[i] as nat)
}

/// The bits of some values as numbers.
pub open spec fn numbers32(values: Seq<u32>) -> Seq<nat> {
    Seq::new(values.len(), |i: int| values[i] as nat)
}

/// Hidden states for the wire, from values in half precision.
pub fn from_halves(n_tokens: u32, hidden_dim: u32, values: &Vec<u16>) -> (out: Result<
    Activation,
    Error,
>)
    requires
        activation_bytes(n_tokens, hidden_dim, WireDtype::F16) <= usize::MAX,
    ensures
        match out {
            Ok(activation) => {
                &&& packed(numbers16(values@), 2).len() == activation_bytes(
                    n_tokens,
                    hidden_dim,
                    WireDtype::F16,
                )
                &&& activation.n_tokens == n_tokens
                &&& activation.hidden_dim == hidden_dim
                &&& activation.dtype == WireDtype::F16
                &&& activation.data@ == packed(numbers16(values@), 2)
            },
            Err(error) => {
                &&& packed(numbers16(values@), 2).len() != activation_bytes(
                    n_tokens,
                    hidden_dim,
                    WireDtype::F16,
                )
                &&& error == (Error::Shape {
                    got: packed(numbers16(values@), 2).len() as usize,
                    want: activation_bytes(n_tokens, hidden_dim, WireDtype::F16) as usize,
                    n_tokens,
                    hidden_dim,
                    dtype: WireDtype::F16,
                })
            },
        },
{
    let mut data: Vec<u8> = Vec::new();
    let ghost all = numbers16(values@);
    assert(all.take(0) =~= Seq::<nat>::empty());
    for i in 0..values.len()
        invariant
            all == numbers16(values@),
            data@ == packed(all.take(i as int), 2),
    {
        push_le(&mut data, values[i] as u64, 2);
        assert(all.take(i as int + 1).drop_last() =~= all.take(i as int));
    }
    assert(all.take(all.len() as int) =~= all);
    Activation::new(n_tokens, hidden_dim, WireDtype::F16, data)
}

/// Hidden states for the wire, from values in single precision.
pub fn from_singles(n_tokens: u32, hidden_dim: u32, values: &Vec<u32>) -> (out: Result<
    Activation,
    Error,
>)
    requires
        activation_bytes(n_tokens, hidden_dim, WireDtype::F32) <= usize::MAX,
    ensures
        match out {
            Ok(activation) => {
                &&& packed(numbers32(values@), 4).len() == activation_bytes(
                    n_tokens,
                    hidden_dim,
                    WireDtype::F32,
                )
                &&& activation.n_tokens == n_tokens
                &&& activation.hidden_dim == hidden_dim
                &&& activation.dtype == WireDtype::F32
                &&& activation.data@ == packed(numbers32(values@), 4)
            },
            Err(error) => {
                &&& packed(numbers32(values@), 4).len() != activation_bytes(
                    n_tokens,
                    hidden_dim,
                    WireDtype::F32,
                )
                &&& error == (Error::Shape {
                    got: packed(numbers32(values@), 4).len() as usize,
                    want: activation_bytes(n_tokens, hidden_dim, WireDtype::F32) as usize,
                    n_tokens,
                    hidden_dim,
                    dtype: WireDtype::F32,
                })
            },
        },
{
    let mut data: Vec<u8> = Vec::new();
    let ghost all = numbers32(values@);
    assert(all.take(0) =~= Seq::<nat>::empty());
    for i in 0..values.len()
        invariant
            all == numbers32(values@),
            data@ == packed(all.take(i as int), 4),
    {
        push_le(&mut data, values[i] as u64, 4);
        assert(all.take(i as int + 1).drop_last() =~= all.take(i as int));
    }
    assert(all.take(all.len() as int) =~= all);
    Activation::new(n_tokens, hidden_dim, WireDtype::F32, data)
}

/// Values come off the wire as they went onto it, width for width.
pub proof fn law_values_survive_the_wire(values: Seq<nat>, width: nat)
    requires
        width > 0,
        forall|i: int| 0 <= i < values.len() ==> #[trigger] values[i] < capacity(width),
    ensures
        packed(values, width).len() == values.len() * width,
        unpacked(packed(values, width), width) == values,
    decreases values.len(),
{
    if values.len() == 0 {
        assert(0nat / width == 0) by (nonlinear_arith)
            requires
                width > 0,
        ;
        assert(unpacked(packed(values, width), width) =~= values);
        assert(values.len() * width == 0);
    } else {
        let init = values.drop_last();
        let n = init.len() as int;
        let w = width as int;
        assert forall|i: int| 0 <= i < init.len() implies #[trigger] init[i]
            < capacity(width) by {
            assert(init[i] == values[i]);
        }
        law_values_survive_the_wire(init, width);
        law_le_reads_back(values.last(), width);
        let head = packed(init, width);
        let data = packed(values, width);
        assert(data.len() == n * w + w);
        assert((n + 1) * w == n * w + w) by (nonlinear_arith);
        assert(data.len() == values.len() * width);
        assert((n * w + w) / w == n + 1) by (nonlinear_arith)
            requires
                w > 0,
        ;
        assert((n * w) / w == n) by (nonlinear_arith)
            requires
                w > 0,
        ;
        assert forall|i: int| 0 <= i < values.len() implies unpacked(data, width)[i]
            == values[i] by {
            assert(0 <= i * w && i * w + w <= n * w + w) by (nonlinear_arith)
                requires
                    0 <= i <= n,
                    w > 0,
            ;
            if i < n {
                assert(i * w + w <= n * w) by (nonlinear_arith)
                    requires
                        i + 1 <= n,
                        w > 0,
                ;
                assert(data.subrange(i * w, i * w + w) =~= head.subrange(i * w, i * w + w));
                assert(unpacked(head, width)[i] == init[i]);
            } else {
                assert(data.subrange(n * w, n * w + w) =~= le_bytes(values.last(), width));
            }
        }
        assert(unpacked(data, width) =~= values);
    }
}

/// Values go on the wire one after the other, each as its own bytes, the least
/// first.
pub proof fn law_values_follow_one_another(a: Seq<nat>, b: Seq<nat>, value: nat, width: nat)
    ensures
        packed(seq![value], width) == le_bytes(value, width),
        packed(a + b, width) == packed(a, width) + packed(b, width),
        packed(Seq::empty(), width) == Seq::<u8>::empty(),
    decreases b.len(),
{
    let one = seq![value];
    assert(one.drop_last() =~= Seq::<nat>::empty());
    assert(packed(Seq::<nat>::empty(), width) =~= Seq::<u8>::empty());
    assert(packed(one, width) == Seq::<u8>::empty() + le_bytes(value, width));
    assert(packed(one, width) =~= le_bytes(value, width));
    if b.len() == 0 {
        assert(a + b =~= a);
        assert(packed(a, width) + packed(b, width) =~= packed(a, width));
    } else {
        law_values_follow_one_another(a, b.drop_last(), value, width);
        assert((a + b).drop_last() =~= a + b.drop_last());
        assert(packed(a + b, width) =~= packed(a, width) + packed(b, width));
    }
}

/// Reading values takes so many bytes for each, in their order.
pub proof fn law_each_value_is_read_from_its_bytes(data: Seq<u8>, width: nat, i: int)
    requires
        width > 0,
        0 <= i < data.len() / width,
    ensures
        unpacked(data, width).len() == data.len() / width,
        unpacked(data, width)[i] == le_value(data.subrange(i * width, (i + 1) * width)),
{
    assert((i + 1) * width == i * width + width) by (nonlinear_arith);
}

/// The values on the wire are those given, each in its place.
pub proof fn law_numbers_are_the_values(halves: Seq<u16>, singles: Seq<u32>, i: int)
    ensures
        numbers16(halves).len() == halves.len(),
        numbers32(singles).len() == singles.len(),
        0 <= i < halves.len() ==> numbers16(halves)[i] == halves[i],
        0 <= i < singles.len() ==> numbers32(singles)[i] == singles[i],
{
}

}
