//! Integers as the file stores them: variable-length integers of up to nine
//! bytes, and big-endian integers of a fixed width.

use crate::page::{page_type_of, MyError, PageType};
use vstd::prelude::*;

verus! {

/// Two to the power 63: the first unsigned value whose sign bit is set in 64 bits.
pub const SIGN_BIT_64: u64 = 0x8000_0000_0000_0000;

/// The number read from the first `n` bytes of `bytes` when each gives its low
/// seven bits, the earliest byte being the most significant.
pub open spec fn varint_groups(bytes: Seq<u8>, n: nat) -> nat
    decreases n,
{
    if n == 0 {
        0
    } else {
        varint_groups(bytes, (n - 1) as nat) * 128 + (bytes[n - 1] % 128) as nat
    }
}

/// Where a variable-length integer ends, for a reader that has found the high
/// bit set in each of the first `i` bytes: the number of bytes it takes.
///
/// A byte below 128 ends it; so does the ninth byte, whatever it holds; so does
/// the end of `bytes`.
pub open spec fn varint_scan(bytes: Seq<u8>, i: nat) -> nat
    decreases 9 - i,
{
    if i >= bytes.len() {
        i
    } else if i >= 8 {
        9
    } else if bytes[i as int] < 128 {
        i + 1
    } else {
        varint_scan(bytes, i + 1)
    }
}

/// The number of bytes that the variable-length integer at the start of
/// `bytes` takes: at most nine, and at most `bytes.len()`.
pub open spec fn varint_len(bytes: Seq<u8>) -> nat {
    varint_scan(bytes, 0)
}

/// Whether `bytes` holds the whole of the integer at its start: it ends with a
/// byte below 128 or with a ninth byte, not with the end of `bytes`.
pub open spec fn varint_complete(bytes: Seq<u8>) -> bool {
    let n = varint_len(bytes);
    n == 9 || (n >= 1 && bytes[n - 1] < 128)
}

/// The signed number that 64 bits stand for in two's complement.
pub open spec fn signed_64(x: nat) -> int {
    if x < SIGN_BIT_64 {
        x as int
    } else {
        x - 2 * SIGN_BIT_64
    }
}

/// The 64 bits, as an unsigned number, that stand for `v` in two's complement.
pub open spec fn unsigned_64(v: int) -> nat {
    if v >= 0 {
        v as nat
    } else {
        (v + 2 * SIGN_BIT_64) as nat
    }
}

/// The value of the variable-length integer at the start of `bytes`.
///
/// Up to eight bytes give seven bits each. A ninth byte gives all of its eight
/// bits, and the 64 bits so collected are read as two's complement.
pub open spec fn varint_value(bytes: Seq<u8>) -> int {
    let n = varint_len(bytes);
    if n == 9 {
        signed_64(varint_groups(bytes, 8) * 256 + bytes[8] as nat)
    } else {
        varint_groups(bytes, n) as int
    }
}

/// A reader that has passed `i` bytes takes at least `i` bytes and at most
/// nine, and takes none only from no bytes.
pub proof fn lemma_scan_bounds(bytes: Seq<u8>, i: nat)
    requires
        i <= 9,
    ensures
        i <= varint_scan(bytes, i) <= 9,
        i <= bytes.len() ==> varint_scan(bytes, i) <= bytes.len(),
        i == 0 && bytes.len() > 0 ==> varint_scan(bytes, i) >= 1,
    decreases 9 - i,
{
    if i < bytes.len() && i < 8 && bytes[i as int] >= 128 {
        lemma_scan_bounds(bytes, i + 1);
    }
}

/// The least number that `n` groups of seven bits cannot hold.
pub open spec fn group_limit(n: nat) -> nat
    decreases n,
{
    if n == 0 {
        1
    } else {
        128 * group_limit((n - 1) as nat)
    }
}

/// The values of `group_limit` for up to eight groups.
pub proof fn lemma_group_limits()
    ensures
        group_limit(0) == 1,
        group_limit(1) == 0x80,
        group_limit(2) == 0x4000,
        group_limit(3) == 0x20_0000,
        group_limit(4) == 0x1000_0000,
        group_limit(5) == 0x8_0000_0000,
        group_limit(6) == 0x400_0000_0000,
        group_limit(7) == 0x2_0000_0000_0000,
        group_limit(8) == 0x100_0000_0000_0000,
{
    reveal_with_fuel(group_limit, 9);
}

/// `n` groups of seven bits stay below `group_limit(n)`.
pub proof fn lemma_groups_bounded(bytes: Seq<u8>, n: nat)
    ensures
        varint_groups(bytes, n) < group_limit(n),
    decreases n,
{
    if n > 0 {
        lemma_groups_bounded(bytes, (n - 1) as nat);
    }
}

/// Reads the variable-length integer at the start of `bytes`: its value and the
/// number of bytes it takes.
///
/// Where `bytes` ends before the integer does, the bytes at hand are read as if
/// the last of them had ended it; `varint_complete` tells the two apart.
pub fn read_variant(bytes: &[u8]) -> (r: (i64, usize))
    ensures
        r.0 == varint_value(bytes@),
        r.1 == varint_len(bytes@),
{
    let mut acc: u64 = 0;
    let mut i: usize = 0;
    while i < bytes.len() && i < 8
        invariant
            i <= 8,
            i <= bytes@.len(),
            acc == varint_groups(bytes@, i as nat),
            varint_scan(bytes@, i as nat) == varint_len(bytes@),
        decreases 8 - i,
    {
        let b: u8 = bytes[i];
        proof {
            lemma_groups_bounded(bytes@, i as nat);
            lemma_group_limits();
        }
        acc = acc * 128 + (b % 128) as u64;
        i += 1;
        if b < 128 {
            return (acc as i64, i);
        }
    }
    proof {
        lemma_groups_bounded(bytes@, i as nat);
        lemma_group_limits();
    }
    if i < bytes.len() {
        let all: u64 = acc * 256 + bytes[8] as u64;
        if all < SIGN_BIT_64 {
            (all as i64, 9)
        } else {
            ((all - SIGN_BIT_64) as i64 + i64::MIN, 9)
        }
    } else {
        (acc as i64, i)
    }
}

/// Reads the variable-length integer at the start of `bytes`, if `bytes` holds
/// the whole of it: its value and the number of bytes it takes.
pub fn try_read_variant(bytes: &[u8]) -> (r: Option<(i64, usize)>)
    ensures
        r is Some <==> varint_complete(bytes@),
        r matches Some((value, len)) ==> value == varint_value(bytes@) && len == varint_len(
            bytes@,
        ) && 1 <= len <= 9 && len <= bytes@.len(),
{
    let (value, len) = read_variant(bytes);
    proof {
        lemma_scan_bounds(bytes@, 0);
    }
    if len == 9 || (len >= 1 && bytes[len - 1] < 128) {
        Some((value, len))
    } else {
        None
    }
}

/// `n` bytes that carry the low `7 * n` bits of `x`, seven to a byte and the
/// most significant first, each with its high bit set: more bytes follow.
pub open spec fn continued_groups(x: nat, n: nat) -> Seq<u8>
    decreases n,
{
    if n == 0 {
        Seq::empty()
    } else {
        continued_groups(x / 128, (n - 1) as nat).push((x % 128 + 128) as u8)
    }
}

/// The number of bytes in the shortest encoding of `v`: as many groups of
/// seven bits as its value needs, and nine for a value that needs more than
/// eight groups, as every negative one does.
pub open spec fn varint_width(v: i64) -> nat {
    if v < 0 {
        9
    } else if v < 0x80 {
        1
    } else if v < 0x4000 {
        2
    } else if v < 0x20_0000 {
        3
    } else if v < 0x1000_0000 {
        4
    } else if v < 0x8_0000_0000 {
        5
    } else if v < 0x400_0000_0000 {
        6
    } else if v < 0x2_0000_0000_0000 {
        7
    } else if v < 0x100_0000_0000_0000 {
        8
    } else {
        9
    }
}

/// The shortest encoding of `v` as a variable-length integer.
///
/// In up to eight bytes the last byte holds the low seven bits with its high
/// bit clear. In nine bytes the last byte holds the low eight bits of the two's
/// complement of `v`, and the eight before it the other 56.
pub open spec fn varint_encoding(v: i64) -> Seq<u8> {
    let n = varint_width(v);
    if n == 9 {
        let u = unsigned_64(v as int);
        continued_groups(u / 256, 8).push((u % 256) as u8)
    } else {
        continued_groups(v as nat / 128, (n - 1) as nat).push((v % 128) as u8)
    }
}

/// `continued_groups` writes as many bytes as it is asked for.
proof fn lemma_continued_groups_len(x: nat, n: nat)
    ensures
        continued_groups(x, n).len() == n,
    decreases n,
{
    if n > 0 {
        lemma_continued_groups_len(x / 128, (n - 1) as nat);
    }
}

/// A reader adds up the groups that `continued_groups` wrote, whatever follows them.
proof fn lemma_groups_of_continued(x: nat, n: nat, rest: Seq<u8>)
    requires
        x < group_limit(n),
    ensures
        varint_groups(continued_groups(x, n) + rest, n) == x,
    decreases n,
{
    if n > 0 {
        let head = continued_groups(x / 128, (n - 1) as nat);
        let last = (x % 128 + 128) as u8;
        lemma_continued_groups_len(x / 128, (n - 1) as nat);
        lemma_groups_of_continued(x / 128, (n - 1) as nat, seq![last] + rest);
        assert(continued_groups(x, n) + rest =~= head + (seq![last] + rest));
    }
}

/// A reader does not stop inside the bytes that `continued_groups` wrote.
proof fn lemma_scan_of_continued(x: nat, n: nat, rest: Seq<u8>, i: nat)
    requires
        i <= n <= 8,
    ensures
        varint_scan(continued_groups(x, n) + rest, i) == varint_scan(
            continued_groups(x, n) + rest,
            n,
        ),
    decreases n - i,
{
    if i < n {
        lemma_continued_groups_len(x, n);
        lemma_high_bit_of_continued(x, n, i as int);
        lemma_scan_of_continued(x, n, rest, i + 1);
    }
}

/// Each byte that `continued_groups` wrote has its high bit set.
proof fn lemma_high_bit_of_continued(x: nat, n: nat, i: int)
    requires
        0 <= i < n,
    ensures
        continued_groups(x, n).len() == n,
        continued_groups(x, n)[i] >= 128,
    decreases n,
{
    lemma_continued_groups_len(x, n);
    lemma_continued_groups_len(x / 128, (n - 1) as nat);
    if i < n - 1 {
        lemma_high_bit_of_continued(x / 128, (n - 1) as nat, i);
    }
}

/// Reading gives back what was written: the shortest encoding of any `v`,
/// followed by any bytes at all, is read as `v`, and the reader takes exactly
/// the bytes of the encoding, which are at most nine.
pub proof fn lemma_varint_round_trip(v: i64, rest: Seq<u8>)
    ensures
        varint_encoding(v).len() == varint_width(v),
        1 <= varint_width(v) <= 9,
        0 <= v < 0x100_0000_0000_0000 ==> varint_width(v) <= 8,
        varint_complete(varint_encoding(v) + rest),
        varint_len(varint_encoding(v) + rest) == varint_width(v),
        varint_value(varint_encoding(v) + rest) == v,
{
    let n = varint_width(v);
    let enc = varint_encoding(v);
    let all = enc + rest;
    lemma_group_limits();
    if n == 9 {
        let u = unsigned_64(v as int);
        let head = continued_groups(u / 256, 8);
        let last = (u % 256) as u8;
        lemma_continued_groups_len(u / 256, 8);
        lemma_scan_of_continued(u / 256, 8, seq![last] + rest, 0);
        lemma_groups_of_continued(u / 256, 8, seq![last] + rest);
        assert(all =~= head + (seq![last] + rest));
        assert(all[8] == last);
    } else {
        let m = (n - 1) as nat;
        let head = continued_groups(v as nat / 128, m);
        let last = (v % 128) as u8;
        lemma_continued_groups_len(v as nat / 128, m);
        lemma_scan_of_continued(v as nat / 128, m, seq![last] + rest, 0);
        lemma_groups_of_continued(v as nat / 128, m, seq![last] + rest);
        assert(all =~= head + (seq![last] + rest));
        assert(all[m as int] == last);
    }
}

/// Appends to `out` the `n` bytes of `continued_groups(x, n)`.
fn push_continued_groups(out: &mut Vec<u8>, x: u64, n: usize)
    requires
        n <= 8,
    ensures
        final(out)@ == old(out)@ + continued_groups(x as nat, n as nat),
    decreases n,
{
    if n > 0 {
        push_continued_groups(out, x / 128, n - 1);
        out.push((x % 128) as u8 + 128);
        assert(out@ =~= old(out)@ + continued_groups(x as nat, n as nat));
    } else {
        assert(out@ =~= old(out)@ + continued_groups(x as nat, n as nat));
    }
}

/// Writes `v` as a variable-length integer, in as few bytes as it takes.
pub fn write_variant(v: i64) -> (out: Vec<u8>)
    ensures
        out@ == varint_encoding(v),
        out@.len() == varint_width(v),
{
    proof {
        lemma_varint_round_trip(v, Seq::empty());
    }
    let mut out: Vec<u8> = Vec::new();
    if v < 0 || v >= 0x100_0000_0000_0000 {
        let u: u64 = if v >= 0 {
            v as u64
        } else {
            (v - i64::MIN) as u64 + SIGN_BIT_64
        };
        push_continued_groups(&mut out, u / 256, 8);
        out.push((u % 256) as u8);
    } else {
        let n: usize = if v < 0x80 {
            1
        } else if v < 0x4000 {
            2
        } else if v < 0x20_0000 {
            3
        } else if v < 0x1000_0000 {
            4
        } else if v < 0x8_0000_0000 {
            5
        } else if v < 0x400_0000_0000 {
            6
        } else if v < 0x2_0000_0000_0000 {
            7
        } else {
            8
        };
        let u: u64 = v as u64;
        push_continued_groups(&mut out, u / 128, n - 1);
        out.push((u % 128) as u8);
    }
    out
}

/// The number that `bytes` spell in base 256, the first byte being the most
/// significant.
pub open spec fn be_unsigned(bytes: Seq<u8>) -> nat
    decreases bytes.len(),
{
    if bytes.len() == 0 {
        0
    } else {
        be_unsigned(bytes.drop_last()) * 256 + bytes.last() as nat
    }
}

/// The least number that `n` bytes cannot hold: 256 to the power `n`.
pub open spec fn byte_limit(n: nat) -> nat
    decreases n,
{
    if n == 0 {
        1
    } else {
        256 * byte_limit((n - 1) as nat)
    }
}

/// The signed number that `bytes` spell in two's complement, big-endian, at
/// the width of `bytes`: the sign is the high bit of the first byte.
pub open spec fn be_signed(bytes: Seq<u8>) -> int {
    if 2 * be_unsigned(bytes) >= byte_limit(bytes.len()) {
        be_unsigned(bytes) - byte_limit(bytes.len())
    } else {
        be_unsigned(bytes) as int
    }
}

/// The values of `byte_limit` for up to eight bytes.
pub proof fn lemma_byte_limits()
    ensures
        byte_limit(0) == 1,
        byte_limit(1) == 0x100,
        byte_limit(2) == 0x1_0000,
        byte_limit(3) == 0x100_0000,
        byte_limit(4) == 0x1_0000_0000,
        byte_limit(5) == 0x100_0000_0000,
        byte_limit(6) == 0x1_0000_0000_0000,
        byte_limit(7) == 0x100_0000_0000_0000,
        byte_limit(8) == 0x1_0000_0000_0000_0000,
{
    reveal_with_fuel(byte_limit, 9);
}

/// Any bytes spell a number below `byte_limit` of their count.
pub proof fn lemma_be_unsigned_bounded(bytes: Seq<u8>)
    ensures
        be_unsigned(bytes) < byte_limit(bytes.len()),
    decreases bytes.len(),
{
    if bytes.len() > 0 {
        lemma_be_unsigned_bounded(bytes.drop_last());
    }
}

/// The signed reading fits the width, and differs from the unsigned one by a
/// multiple of `byte_limit`: it is the sign extension of the bytes.
pub proof fn lemma_be_signed_range(bytes: Seq<u8>)
    ensures
        -(byte_limit(bytes.len()) as int) <= 2 * be_signed(bytes) < byte_limit(bytes.len()),
        be_signed(bytes) == be_unsigned(bytes) || be_signed(bytes) == be_unsigned(bytes)
            - byte_limit(bytes.len()),
        be_signed(bytes) >= 0 <==> be_signed(bytes) == be_unsigned(bytes),
{
    lemma_be_unsigned_bounded(bytes);
}

/// The big-endian number in the `width` bytes of `data` from `pos` on.
pub(crate) fn read_be(data: &[u8], pos: usize, width: usize) -> (r: u64)
    requires
        width <= 8,
        pos + width <= data@.len(),
    ensures
        r == be_unsigned(data@.subrange(pos as int, pos + width)),
{
    let len: usize = data.len();
    let mut acc: u64 = 0;
    let mut i: usize = 0;
    while i < width
        invariant
            i <= width <= 8,
            pos + width <= data@.len() == len,
            acc == be_unsigned(data@.subrange(pos as int, pos + i)),
        decreases width - i,
    {
        proof {
            lemma_be_unsigned_bounded(data@.subrange(pos as int, pos + i));
            lemma_byte_limits();
            assert(data@.subrange(pos as int, pos + i + 1).drop_last() =~= data@.subrange(
                pos as int,
                pos + i,
            ));
        }
        acc = acc * 256 + data[pos + i] as u64;
        i += 1;
    }
    acc
}

/// The big-endian two's-complement number in the `width` bytes of `data` from
/// `pos` on.
pub(crate) fn read_be_signed(data: &[u8], pos: usize, width: usize) -> (r: i64)
    requires
        1 <= width <= 8,
        pos + width <= data@.len(),
    ensures
        r == be_signed(data@.subrange(pos as int, pos + width)),
{
    let u = read_be(data, pos, width);
    proof {
        lemma_be_unsigned_bounded(data@.subrange(pos as int, pos + width));
        lemma_byte_limits();
    }
    let half: u64 = if width == 1 {
        0x80
    } else if width == 2 {
        0x8000
    } else if width == 3 {
        0x80_0000
    } else if width == 4 {
        0x8000_0000
    } else if width == 5 {
        0x80_0000_0000
    } else if width == 6 {
        0x8000_0000_0000
    } else if width == 7 {
        0x80_0000_0000_0000
    } else {
        SIGN_BIT_64
    };
    if u < half {
        u as i64
    } else {
        ((u - half) as i128 - half as i128) as i64
    }
}

/// The kind of page that `t`, the first byte of a page header, names.
pub fn get_page_type(t: u8) -> (r: Result<PageType, MyError>)
    ensures
        match page_type_of(t) {
            Some(page_type) => r == Ok::<PageType, MyError>(page_type),
            None => r == Err::<PageType, MyError>(MyError::InvalidPageType),
        },
{
    match t {
        2 => Ok(PageType::IndexInterior),
        5 => Ok(PageType::TableInterior),
        10 => Ok(PageType::IndexLeaf),
        13 => Ok(PageType::TableLeaf),
        _ => Err(MyError::InvalidPageType),
    }
}

/// A reader that finds the high bit set in each of the first eight bytes goes
/// on to the ninth.
proof fn lemma_scan_to_ninth(bytes: Seq<u8>, i: nat)
    requires
        i <= 8,
        bytes.len() >= 9,
        forall|j: int| 0 <= j < 8 ==> bytes[j] >= 128,
    ensures
        varint_scan(bytes, i) == 9,
    decreases 8 - i,
{
    if i < 8 {
        lemma_scan_to_ninth(bytes, i + 1);
    }
}

/// The ninth byte counts whole. Where each of the first eight bytes has its
/// high bit set, the integer takes nine bytes, whatever the ninth holds, and
/// the low eight bits of its value are the ninth byte as it stands: its high
/// bit is a bit of the value, not a mark.
pub proof fn lemma_ninth_byte_whole(bytes: Seq<u8>)
    requires
        bytes.len() >= 9,
        forall|i: int| 0 <= i < 8 ==> bytes[i] >= 128,
    ensures
        varint_len(bytes) == 9,
        varint_complete(bytes),
        varint_value(bytes) == signed_64(varint_groups(bytes, 8) * 256 + bytes[8] as nat),
        unsigned_64(varint_value(bytes)) % 256 == bytes[8],
        unsigned_64(varint_value(bytes)) / 256 == varint_groups(bytes, 8),
{
    lemma_scan_to_ninth(bytes, 0);
    lemma_groups_bounded(bytes, 8);
    lemma_group_limits();
    let high = varint_groups(bytes, 8);
    let all = high * 256 + bytes[8] as nat;
    assert(all < 0x1_0000_0000_0000_0000);
    assert(unsigned_64(signed_64(all)) == all);
    assert(all % 256 == bytes[8] && all / 256 == high);
}

/// The chunks of `N` items that a slice holds, one after another. What is
/// left behind the last whole chunk is not given out.
pub struct ArrayIter<'a, T, const N: usize> {
    underlying: &'a [T],
    index: usize,
}

impl<'a, T, const N: usize> ArrayIter<'a, T, N> {
    /// The items that the chunks are taken from.
    pub closed spec fn items(&self) -> Seq<T> {
        self.underlying@
    }

    /// Where the next chunk starts.
    pub closed spec fn position(&self) -> int {
        self.index as int
    }

    /// The next chunk of `N` items, if as many are left, and a step past it.
    pub fn next(&mut self) -> (r: Option<&'a [T]>)
        ensures
            final(self).items() == old(self).items(),
            match r {
                Some(chunk) => {
                    &&& old(self).position() + N <= old(self).items().len()
                    &&& chunk@ == old(self).items().subrange(
                        old(self).position(),
                        old(self).position() + N,
                    )
                    &&& final(self).position() == old(self).position() + N
                },
                None => {
                    &&& old(self).position() + N > old(self).items().len()
                    &&& final(self).position() == old(self).position()
                },
            },
    {
        let len: usize = self.underlying.len();
        if self.index <= len && N <= len - self.index {
            let chunk = vstd::slice::slice_subrange(self.underlying, self.index, self.index + N);
            self.index += N;
            Some(chunk)
        } else {
            None
        }
    }
}

/// Slices that give out their items in chunks.
pub trait MyCoolArrayStuff<T> {
    /// The chunks of `N` items of `self`, from its start.
    fn as_array_iter<'a, const N: usize>(&'a self) -> (r: ArrayIter<'a, T, N>)
        ensures
            r.position() == 0,
    ;
}

impl<T> MyCoolArrayStuff<T> for [T] {
    fn as_array_iter<'a, const N: usize>(&'a self) -> (r: ArrayIter<'a, T, N>)
        ensures
            r.items() == self@,
    {
        ArrayIter { underlying: self, index: 0 }
    }
}

} // verus!
