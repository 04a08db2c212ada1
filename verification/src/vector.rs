//! The stored form of an embedding: the bit patterns of its numbers, four bytes each,
//! the low byte first.
use vstd::prelude::*;

verus! {

/// Byte `k` of `bits`, counted from the low end.
pub open spec fn byte_of(bits: u32, k: int) -> u8 {
    if k == 0 {
        (bits as int % 256) as u8
    } else if k == 1 {
        (bits as int / 256 % 256) as u8
    } else if k == 2 {
        (bits as int / 65536 % 256) as u8
    } else {
        (bits as int / 16777216) as u8
    }
}

/// The number that four bytes stand for, the low byte first.
pub open spec fn number_of(b0: u8, b1: u8, b2: u8, b3: u8) -> u32 {
    (b0 + 256 * b1 + 65536 * b2 + 16777216 * b3) as u32
}

/// The bytes of a list of bit patterns.
pub open spec fn encoded(list: Seq<u32>) -> Seq<u8> {
    Seq::new(4 * list.len(), |i: int| byte_of(list[i / 4], i % 4))
}

/// The bit patterns that a list of bytes holds.
pub open spec fn decoded(bytes: Seq<u8>) -> Seq<u32> {
    Seq::new(
        bytes.len() / 4,
        |i: int| number_of(bytes[4 * i], bytes[4 * i + 1], bytes[4 * i + 2], bytes[4 * i + 3]),
    )
}

proof fn lemma_number_of_bytes(bits: u32)
    ensures
        number_of(byte_of(bits, 0), byte_of(bits, 1), byte_of(bits, 2), byte_of(bits, 3)) == bits,
{
}

proof fn lemma_bytes_of_number(b0: u8, b1: u8, b2: u8, b3: u8)
    ensures
        byte_of(number_of(b0, b1, b2, b3), 0) == b0,
        byte_of(number_of(b0, b1, b2, b3), 1) == b1,
        byte_of(number_of(b0, b1, b2, b3), 2) == b2,
        byte_of(number_of(b0, b1, b2, b3), 3) == b3,
{
    let n: int = b0 + 256 * b1 + 65536 * b2 + 16777216 * b3;
    let high: int = b2 + 256 * b3;
    let upper: int = b1 + 256 * high;
    assert(n == 256 * upper + b0);
    assert(n % 256 == b0 && n / 256 == upper);
    assert(upper % 256 == b1);
    assert(n == 65536 * high + (b0 + 256 * b1));
    assert(n / 65536 == high);
    assert(high % 256 == b2);
    assert(n == 16777216 * b3 + (b0 + 256 * b1 + 65536 * b2));
    assert(n / 16777216 == b3);
}

/// Each number takes four bytes at its place, and they add up to it with the low byte
/// first.
pub proof fn lemma_four_bytes_add_up_to_the_number(list: Seq<u32>)
    ensures
        encoded(list).len() == 4 * list.len(),
        forall|i: int|
            0 <= i < list.len() ==> #[trigger] list[i] == encoded(list)[4 * i] + 256 * encoded(
                list,
            )[4 * i + 1] + 65536 * encoded(list)[4 * i + 2] + 16777216 * encoded(list)[4 * i + 3],
{
    assert forall|i: int| 0 <= i < list.len() implies #[trigger] list[i] == encoded(list)[4 * i]
        + 256 * encoded(list)[4 * i + 1] + 65536 * encoded(list)[4 * i + 2] + 16777216 * encoded(
        list,
    )[4 * i + 3] by {
        lemma_number_of_bytes(list[i]);
        assert((4 * i + 1) / 4 == i && (4 * i + 2) / 4 == i && (4 * i + 3) / 4 == i);
    }
}

/// Every four bytes are read as one number, which is their sum with the low byte first.
pub proof fn lemma_number_is_read_from_four_bytes(bytes: Seq<u8>)
    ensures
        4 * decoded(bytes).len() <= bytes.len() < 4 * decoded(bytes).len() + 4,
        forall|i: int|
            0 <= i < decoded(bytes).len() ==> #[trigger] decoded(bytes)[i] == bytes[4 * i] + 256
                * bytes[4 * i + 1] + 65536 * bytes[4 * i + 2] + 16777216 * bytes[4 * i + 3],
{
}

/// What was stored is what is read back.
pub proof fn lemma_decode_undoes_encode(list: Seq<u32>)
    ensures
        decoded(encoded(list)) == list,
{
    let bytes = encoded(list);
    assert forall|i: int| 0 <= i < list.len() implies decoded(bytes)[i] == list[i] by {
        lemma_number_of_bytes(list[i]);
        assert((4 * i + 1) / 4 == i && (4 * i + 2) / 4 == i && (4 * i + 3) / 4 == i);
    }
    assert(decoded(bytes) =~= list);
}

/// Bytes that hold whole numbers are stored again as they were.
pub proof fn lemma_encode_undoes_decode(bytes: Seq<u8>)
    requires
        bytes.len() % 4 == 0,
    ensures
        encoded(decoded(bytes)) == bytes,
{
    let list = decoded(bytes);
    assert forall|i: int| 0 <= i < bytes.len() implies encoded(list)[i] == bytes[i] by {
        let at = i / 4;
        lemma_bytes_of_number(
            bytes[4 * at],
            bytes[4 * at + 1],
            bytes[4 * at + 2],
            bytes[4 * at + 3],
        );
    }
    assert(encoded(list) =~= bytes);
}

/// The bytes to store for a list of bit patterns.
pub fn encode_vector(list: &Vec<u32>) -> (bytes: Vec<u8>)
    ensures
        bytes@ == encoded(list@),
{
    let mut bytes: Vec<u8> = Vec::new();
    for n in 0..list.len()
        invariant
            bytes@ == encoded(list@.take(n as int)),
    {
        let bits: u32 = list[n];
        let ghost before = bytes@;
        bytes.push((bits % 256) as u8);
        bytes.push((bits / 256 % 256) as u8);
        bytes.push((bits / 65536 % 256) as u8);
        bytes.push((bits / 16777216) as u8);
        proof {
            let next = encoded(list@.take(n + 1));
            assert(before.len() == 4 * n);
            assert forall|i: int| 0 <= i < next.len() implies bytes[i] == next[i] by {
                if i < 4 * n {
                    assert(before[i] == byte_of(list@.take(n as int)[i / 4], i % 4));
                } else {
                    assert(i / 4 == n);
                }
            }
            assert(bytes@ =~= next);
        }
    }
    assert(list@.take(list.len() as int) =~= list@);
    bytes
}

/// The bit patterns that stored bytes hold.
pub fn decode_vector(bytes: &Vec<u8>) -> (list: Vec<u32>)
    requires
        bytes.len() % 4 == 0,
    ensures
        list@ == decoded(bytes@),
{
    let mut list: Vec<u32> = Vec::new();
    let mut at: usize = 0;
    while at < bytes.len()
        invariant
            at <= bytes.len(),
            bytes.len() % 4 == 0,
            at % 4 == 0,
            list.len() == at / 4,
            forall|i: int| 0 <= i < list.len() ==> list[i] == decoded(bytes@)[i],
        decreases bytes.len() - at,
    {
        let bits: u32 = bytes[at] as u32 + 256 * (bytes[at + 1] as u32) + 65536 * (bytes[at
            + 2] as u32) + 16777216 * (bytes[at + 3] as u32);
        list.push(bits);
        at = at + 4;
    }
    assert(list@ =~= decoded(bytes@));
    list
}

} // verus!
