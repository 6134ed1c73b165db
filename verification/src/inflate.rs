//! A DEFLATE (RFC 1951) decoder for small, bounded metadata entries.
use vstd::prelude::*;
use vstd::arithmetic::power2::{pow2, lemma_pow2_unfold, lemma_pow2_pos};

verus! {


/// Bit `i` of a byte stream, least significant bit of each byte first.
pub open spec fn bit_at(data: Seq<u8>, i: int) -> nat {
    ((data[i / 8] as nat) / pow2((i % 8) as nat)) % 2
}

/// The `count` bits starting at bit `pos`, read as a little-endian number
/// (the first bit is the least significant), as DEFLATE packs its fields.
pub open spec fn bits_le(data: Seq<u8>, pos: int, count: nat) -> nat
    decreases count,
{
    if count == 0 {
        0
    } else {
        bits_le(data, pos, (count - 1) as nat) + bit_at(data, pos + count - 1) * pow2((count - 1) as nat)
    }
}

pub proof fn lemma_bit_at_le_1(data: Seq<u8>, i: int)
    ensures
        bit_at(data, i) <= 1,
{
}

pub proof fn lemma_bits_le_bound(data: Seq<u8>, pos: int, count: nat)
    ensures
        bits_le(data, pos, count) < pow2(count),
    decreases count,
{
    if count > 0 {
        lemma_pow2_unfold(count);
        lemma_pow2_pos((count - 1) as nat);
        lemma_bits_le_bound(data, pos, (count - 1) as nat);
        lemma_bit_at_le_1(data, pos + count - 1);
        let p = pow2((count - 1) as nat);
        assert(bit_at(data, pos + count - 1) * p <= p) by (nonlinear_arith)
            requires bit_at(data, pos + count - 1) <= 1, p > 0;
    } else {
        vstd::arithmetic::power2::lemma2_to64();
    }
}

proof fn lemma_extract_bit(byte: u8, offset: u8)
    requires
        offset < 8,
    ensures
        ((byte >> offset) & 1) as nat == (byte as nat / pow2(offset as nat)) % 2,
{
    vstd::bits::lemma_u8_shr_is_div(byte, offset);
    let q = byte >> offset;
    assert(q & 1 == q % 2) by (bit_vector);
}

/// Setting bit `s` of a value below `2^s` adds `2^s`.
pub proof fn lemma_or_shift(value: u32, b: u32, s: u32)
    requires
        s < 31,
        value < pow2(s as nat),
        b <= 1,
    ensures
        (value | (b << s)) == value + b * pow2(s as nat),
{
    vstd::bits::lemma_u32_pow2_no_overflow(s as nat);
    vstd::bits::lemma_u32_shl_is_mul(1, s);
    assert((value | (b << s)) == value + b * (1u32 << s)) by (bit_vector)
        requires value < (1u32 << s), b <= 1, s < 31;
}

/// A cursor over the bits of a DEFLATE stream.
pub struct BitReader<'a> {
    pub bytes: &'a [u8],
    pub bit: usize,
}

impl<'a> BitReader<'a> {
    /// The cursor stays inside the stream, and the stream is small enough for
    /// bit positions to be counted in a `usize`.
    pub open spec fn wf(&self) -> bool {
        &&& self.bytes@.len() <= usize::MAX / 8
        &&& self.bit <= 8 * self.bytes@.len()
    }

    pub fn new(bytes: &'a [u8]) -> (r: Self)
        ensures
            r.bytes@ == bytes@,
            r.bit == 0,
    {
        BitReader { bytes, bit: 0 }
    }

    /// Reads `count` bits, least significant first. Fails when more than 24
    /// bits are requested or the stream ends first.
    pub fn read_bits(&mut self, count: usize) -> (r: Result<u32, DeflateError>)
        requires
            old(self).wf(),
        ensures
            final(self).wf(),
            final(self).bytes@ == old(self).bytes@,
            r is Ok <==> count <= 24 && old(self).bit + count <= 8 * old(self).bytes@.len(),
            r matches Ok(v) ==> v == bits_le(old(self).bytes@, old(self).bit as int, count as nat)
                && final(self).bit == old(self).bit + count,
    {
        if count > 24 {
            return Err(DeflateError::Malformed);
        }
        let ghost start = self.bit as int;
        let mut value = 0u32;
        let mut shift: usize = 0;
        while shift < count
            invariant
                self.wf(),
                self.bytes@ == old(self).bytes@,
                start == old(self).bit,
                shift <= count <= 24,
                self.bit == start + shift,
                value == bits_le(self.bytes@, start, shift as nat),
            decreases count - shift,
        {
            let index = self.bit / 8;
            if index >= self.bytes.len() {
                return Err(DeflateError::Malformed);
            }
            let byte = self.bytes[index];
            let offset = (self.bit % 8) as u8;
            let b = ((byte >> offset) & 1) as u32;
            proof {
                lemma_extract_bit(byte, offset);
                lemma_bits_le_bound(self.bytes@, start, shift as nat);
                lemma_or_shift(value, b, shift as u32);
                lemma_pow2_unfold((shift + 1) as nat);
            }
            value = value | (b << (shift as u32));
            self.bit = self.bit + 1;
            shift = shift + 1;
        }
        Ok(value)
    }
}

/// The low `n` bits of `v` in reverse order.
pub open spec fn rev_bits(v: nat, n: nat) -> nat
    decreases n,
{
    if n == 0 {
        0
    } else {
        2 * rev_bits(v, (n - 1) as nat) + (v / pow2((n - 1) as nat)) % 2
    }
}

pub proof fn lemma_rev_bits_bound(v: nat, n: nat)
    ensures
        rev_bits(v, n) < pow2(n),
    decreases n,
{
    if n == 0 {
        vstd::arithmetic::power2::lemma2_to64();
    } else {
        lemma_rev_bits_bound(v, (n - 1) as nat);
        lemma_pow2_unfold(n);
    }
}

/// Reverses the low `count` bits of `value`.
pub fn reverse_low_bits(value: u32, count: usize) -> (r: u32)
    requires
        count <= 16,
    ensures
        r == rev_bits(value as nat, count as nat),
{
    let mut value = value;
    let ghost original = value as nat;
    let mut reversed = 0u32;
    let mut i: usize = 0;
    proof {
        vstd::arithmetic::power2::lemma2_to64();
        assert(original / pow2(0) == original);
    }
    while i < count
        invariant
            i <= count <= 16,
            reversed == rev_bits(original, i as nat),
            value as nat == original / pow2(i as nat),
        decreases count - i,
    {
        proof {
            lemma_rev_bits_bound(original, i as nat);
            vstd::arithmetic::power2::lemma2_to64();
            vstd::arithmetic::power2::lemma_pow2_strictly_increases(i as nat, 16);
            assert(value & 1 == value % 2) by (bit_vector);
            assert(reversed < 65536);
            assert(((reversed << 1) | (value & 1)) == 2 * reversed + (value & 1)) by (bit_vector)
                requires reversed < 65536;
            vstd::bits::lemma_u32_shr_is_div(value, 1);
            lemma_pow2_unfold((i + 1) as nat);
            lemma_pow2_pos(i as nat);
            vstd::arithmetic::div_mod::lemma_div_denominator(original as int, pow2(i as nat) as int, 2);
        }
        reversed = (reversed << 1) | (value & 1);
        value = value >> 1;
        i = i + 1;
    }
    reversed
}

/// How many of the first `n` symbols have code length `b`.
pub open spec fn count_upto(lengths: Seq<u8>, b: nat, n: int) -> nat
    decreases n,
{
    if n <= 0 {
        0
    } else {
        count_upto(lengths, b, n - 1) + if lengths[n - 1] == b { 1nat } else { 0nat }
    }
}

/// How many symbols have code length `b` (symbols of length 0 are unused).
pub open spec fn count_len(lengths: Seq<u8>, b: nat) -> nat {
    if b == 0 {
        0
    } else {
        count_upto(lengths, b, lengths.len() as int)
    }
}

/// The first canonical code of length `b` (RFC 1951, section 3.2.2, step 2).
pub open spec fn first_code(lengths: Seq<u8>, b: nat) -> nat
    decreases b,
{
    if b == 0 {
        0
    } else {
        (first_code(lengths, (b - 1) as nat) + count_len(lengths, (b - 1) as nat)) * 2
    }
}

/// The canonical code of symbol `s`: codes of one length are consecutive in
/// symbol order (RFC 1951, section 3.2.2, step 3).
pub open spec fn code_of(lengths: Seq<u8>, s: int) -> nat {
    first_code(lengths, lengths[s] as nat) + count_upto(lengths, lengths[s] as nat, s)
}

/// The longest code length among the first `n` symbols.
pub open spec fn max_len_upto(lengths: Seq<u8>, n: int) -> nat
    decreases n,
{
    if n <= 0 {
        0
    } else {
        let m = max_len_upto(lengths, n - 1);
        if lengths[n - 1] as nat > m { lengths[n - 1] as nat } else { m }
    }
}

pub open spec fn max_len(lengths: Seq<u8>) -> nat {
    max_len_upto(lengths, lengths.len() as int)
}

/// Some symbol's canonical code does not fit in its length: the lengths do
/// not describe a prefix code.
pub open spec fn oversubscribed(lengths: Seq<u8>) -> bool {
    exists|s: int|
        0 <= s < lengths.len() && lengths[s] != 0 && #[trigger] code_of(lengths, s) >= pow2(
            lengths[s] as nat,
        )
}

/// Code lengths that the decoder accepts.
pub open spec fn valid_lengths(lengths: Seq<u8>) -> bool {
    max_len(lengths) <= 15 && !oversubscribed(lengths)
}

/// The codes of length `b` among the first `n` symbols, in symbol order, each
/// stored bit-reversed (as it appears in the stream) beside its symbol.
pub open spec fn table(lengths: Seq<u8>, b: nat, n: int) -> Seq<(u32, usize)>
    decreases n,
{
    if n <= 0 {
        seq![]
    } else {
        table(lengths, b, n - 1) + if lengths[n - 1] == b {
            seq![(rev_bits(code_of(lengths, n - 1), b) as u32, (n - 1) as usize)]
        } else {
            seq![]
        }
    }
}

/// The symbol of the first entry of `t`, from index `i` on, whose code is `code`.
pub open spec fn first_match_from(t: Seq<(u32, usize)>, code: nat, i: int) -> Option<usize>
    decreases t.len() - i,
{
    if i < 0 || i >= t.len() {
        None
    } else if t[i].0 == code {
        Some(t[i].1)
    } else {
        first_match_from(t, code, i + 1)
    }
}

/// Decoding one symbol, trying code lengths from `b` upwards: the symbol and
/// the number of bits it took.
pub open spec fn decode_from(lengths: Seq<u8>, data: Seq<u8>, pos: int, b: nat) -> Option<(nat, nat)>
    decreases 16 - b,
{
    if b >= 16 || b > max_len(lengths) || pos + b > 8 * data.len() {
        None
    } else {
        match first_match_from(
            table(lengths, b, lengths.len() as int),
            bits_le(data, pos, b),
            0,
        ) {
            Some(s) => Some((s as nat, b)),
            None => decode_from(lengths, data, pos, b + 1),
        }
    }
}

/// Decoding one Huffman-coded symbol at bit `pos`.
pub open spec fn decode_symbol(lengths: Seq<u8>, data: Seq<u8>, pos: int) -> Option<(nat, nat)> {
    if max_len(lengths) == 0 {
        None
    } else {
        decode_from(lengths, data, pos, 1)
    }
}

proof fn lemma_max_len_upto(lengths: Seq<u8>, n: int)
    requires
        0 <= n <= lengths.len(),
    ensures
        forall|j: int| 0 <= j < n ==> lengths[j] <= max_len_upto(lengths, n),
        max_len_upto(lengths, n) <= 255,
    decreases n,
{
    if n > 0 {
        lemma_max_len_upto(lengths, n - 1);
    }
}

proof fn lemma_count_upto_bound(lengths: Seq<u8>, b: nat, n: int)
    requires
        0 <= n,
    ensures
        count_upto(lengths, b, n) <= n,
    decreases n,
{
    if n > 0 {
        lemma_count_upto_bound(lengths, b, n - 1);
    }
}

/// A canonical Huffman decoding table built from code lengths.
pub struct Huffman {
    pub codes: Vec<Vec<(u32, usize)>>,
    pub max_len: usize,
    pub lengths: Ghost<Seq<u8>>,
}

impl Huffman {
    /// The table holds, for each code length, exactly the canonical codes of
    /// that length.
    pub open spec fn wf(&self) -> bool {
        &&& self.max_len == max_len(self.lengths@)
        &&& self.max_len <= 15
        &&& self.codes@.len() == self.max_len + 1
        &&& forall|b: int|
            1 <= b <= self.max_len ==> (#[trigger] self.codes@[b])@ == table(
                self.lengths@,
                b as nat,
                self.lengths@.len() as int,
            )
    }

    /// Builds the canonical code for `lengths`. Fails when a length exceeds 15
    /// bits or the lengths over-subscribe the code space.
    pub fn from_lengths(lengths: &[u8]) -> (r: Result<Huffman, DeflateError>)
        ensures
            r is Ok <==> valid_lengths(lengths@),
            r matches Ok(h) ==> h.wf() && h.lengths@ == lengths@,
    {
        let ghost l = lengths@;
        let n = lengths.len();
        let mut max: usize = 0;
        let mut i: usize = 0;
        while i < n
            invariant
                n == l.len(),
                l == lengths@,
                i <= n,
                max == max_len_upto(l, i as int),
            decreases n - i,
        {
            if lengths[i] as usize > max {
                max = lengths[i] as usize;
            }
            i = i + 1;
        }
        if max > 15 {
            return Err(DeflateError::Malformed);
        }
        proof {
            lemma_max_len_upto(l, n as int);
        }
        let mut codes: Vec<Vec<(u32, usize)>> = Vec::new();
        codes.push(Vec::new());
        let mut code: u32 = 0;
        let mut limit: u32 = 2;
        let mut bits: usize = 1;
        proof {
            vstd::arithmetic::power2::lemma2_to64();
            reveal_with_fuel(first_code, 2);
            assert(first_code(l, 1) == 0);
        }
        while bits <= max
            invariant
                n == l.len(),
                l == lengths@,
                max == max_len(l) <= 15,
                1 <= bits <= max + 1,
                codes@.len() == bits,
                forall|b: int| 1 <= b < bits ==> (#[trigger] codes@[b])@ == table(l, b as nat, n as int),
                code == first_code(l, bits as nat),
                code <= limit,
                limit == pow2(bits as nat),
                forall|s: int|
                    0 <= s < n && 1 <= l[s] < bits ==> #[trigger] code_of(l, s) < pow2(l[s] as nat),
            decreases max + 1 - bits,
        {
            proof {
                vstd::arithmetic::power2::lemma2_to64();
                if bits < 15 {
                    vstd::arithmetic::power2::lemma_pow2_strictly_increases(bits as nat, 15);
                }
            }
            let mut list: Vec<(u32, usize)> = Vec::new();
            let mut canonical = code;
            let mut s: usize = 0;
            while s < n
                invariant
                    n == l.len(),
                    l == lengths@,
                    max == max_len(l) <= 15,
                    1 <= bits <= max,
                    code == first_code(l, bits as nat),
                    limit == pow2(bits as nat),
                    limit <= 32768,
                    s <= n,
                    canonical == code + count_upto(l, bits as nat, s as int),
                    canonical <= limit,
                    list@ == table(l, bits as nat, s as int),
                    forall|t: int|
                        0 <= t < s && l[t] == bits ==> #[trigger] code_of(l, t) < pow2(bits as nat),
                decreases n - s,
            {
                if lengths[s] as usize == bits {
                    if canonical >= limit {
                        proof {
                            assert(code_of(l, s as int) >= pow2(l[s as int] as nat));
                        }
                        return Err(DeflateError::Malformed);
                    }
                    let reversed = reverse_low_bits(canonical, bits);
                    proof {
                        lemma_rev_bits_bound(canonical as nat, bits as nat);
                    }
                    list.push((reversed, s));
                    canonical = canonical + 1;
                }
                s = s + 1;
            }
            codes.push(list);
            proof {
                lemma_pow2_unfold((bits + 1) as nat);
                assert(canonical == code + count_len(l, bits as nat));
            }
            code = canonical * 2;
            limit = limit * 2;
            bits = bits + 1;
        }
        proof {
            assert forall|s: int| 0 <= s < l.len() && l[s] != 0 implies code_of(l, s) < pow2(
                l[s] as nat,
            ) by {
                lemma_max_len_upto(l, n as int);
            }
        }
        Ok(Huffman { codes, max_len: max, lengths: Ghost(l) })
    }

    /// Decodes one symbol, reading its code bit by bit.
    pub fn decode(&self, reader: &mut BitReader) -> (r: Result<usize, DeflateError>)
        requires
            self.wf(),
            old(reader).wf(),
        ensures
            final(reader).wf(),
            final(reader).bytes@ == old(reader).bytes@,
            r is Ok <==> decode_symbol(self.lengths@, old(reader).bytes@, old(reader).bit as int) is Some,
            r matches Ok(sym) ==> ({
                let d = decode_symbol(self.lengths@, old(reader).bytes@, old(reader).bit as int).unwrap();
                &&& sym == d.0
                &&& final(reader).bit == old(reader).bit + d.1
            }),
    {
        if self.max_len == 0 {
            return Err(DeflateError::Malformed);
        }
        let ghost data = reader.bytes@;
        let ghost pos = reader.bit as int;
        let ghost l = self.lengths@;
        let mut code: u32 = 0;
        let mut length: usize = 1;
        proof {
            vstd::arithmetic::power2::lemma2_to64();
        }
        while length <= self.max_len
            invariant
                self.wf(),
                l == self.lengths@,
                reader.wf(),
                reader.bytes@ == data,
                data == old(reader).bytes@,
                pos == old(reader).bit,
                1 <= length <= self.max_len + 1,
                self.max_len <= 15,
                reader.bit == pos + length - 1,
                code == bits_le(data, pos, (length - 1) as nat),
                decode_symbol(l, data, pos) == decode_from(l, data, pos, length as nat),
            decreases self.max_len + 1 - length,
        {
            let bit = reader.read_bits(1);
            let bit = match bit {
                Ok(v) => v,
                Err(e) => {
                    return Err(e);
                },
            };
            proof {
                vstd::arithmetic::power2::lemma2_to64();
                lemma_bits_le_bound(data, pos, (length - 1) as nat);
                lemma_bits_le_bound(data, pos + length - 1, 1);
                lemma_or_shift(code, bit, (length - 1) as u32);
                let q = pos + length - 1;
                assert(bits_le(data, q, 0) == 0);
                assert(bits_le(data, q, 1) == bits_le(data, q, 0) + bit_at(data, q) * pow2(0));
                assert(bits_le(data, q, 1) == bit_at(data, q));
                lemma_bit_at_le_1(data, pos + length - 1);
                lemma_pow2_unfold(length as nat);
            }
            code = code | (bit << ((length - 1) as u32));
            let entries = &self.codes[length];
            let ghost t = table(l, length as nat, l.len() as int);
            let mut k: usize = 0;
            while k < entries.len()
                invariant
                    entries@ == t,
                    t == table(l, length as nat, l.len() as int),
                    k <= entries@.len(),
                    code == bits_le(data, pos, length as nat),
                    1 <= length <= self.max_len <= 15,
                    l == self.lengths@,
                    self.max_len == max_len(l),
                    reader.bit == pos + length,
                    pos + length <= 8 * data.len(),
                    decode_symbol(l, data, pos) == decode_from(l, data, pos, length as nat),
                    pos == old(reader).bit,
                    reader.wf(),
                    reader.bytes@ == data,
                    data == old(reader).bytes@,
                    first_match_from(t, code as nat, 0) == first_match_from(t, code as nat, k as int),
                decreases entries@.len() - k,
            {
                if entries[k].0 == code {
                    return Ok(entries[k].1);
                }
                k = k + 1;
            }
            length = length + 1;
        }
        Err(DeflateError::Malformed)
    }
}

/// Decoding a symbol takes at least one bit and stays inside the stream.
pub proof fn lemma_decode_consumes(lengths: Seq<u8>, data: Seq<u8>, pos: int)
    ensures
        decode_symbol(lengths, data, pos) matches Some(d) ==> 1 <= d.1 <= 15 && pos + d.1 <= 8
            * data.len(),
{
    if max_len(lengths) != 0 {
        lemma_decode_from_consumes(lengths, data, pos, 1);
    }
}

proof fn lemma_decode_from_consumes(lengths: Seq<u8>, data: Seq<u8>, pos: int, b: nat)
    requires
        b >= 1,
    ensures
        decode_from(lengths, data, pos, b) matches Some(d) ==> b <= d.1 <= 15 && pos + d.1 <= 8
            * data.len(),
    decreases 16 - b,
{
    if !(b >= 16 || b > max_len(lengths) || pos + b > 8 * data.len()) {
        lemma_decode_from_consumes(lengths, data, pos, b + 1);
    }
}

/// Base lengths of the length symbols 257..285 (RFC 1951, section 3.2.5).
pub open spec fn length_base() -> Seq<nat> {
    seq![3, 4, 5, 6, 7, 8, 9, 10, 11, 13, 15, 17, 19, 23, 27, 31, 35, 43, 51, 59, 67, 83, 99, 115,
        131, 163, 195, 227, 258]
}

/// Extra bits of the length symbols 257..285.
pub open spec fn length_extra() -> Seq<nat> {
    seq![0, 0, 0, 0, 0, 0, 0, 0, 1, 1, 1, 1, 2, 2, 2, 2, 3, 3, 3, 3, 4, 4, 4, 4, 5, 5, 5, 5, 0]
}

/// Base distances of the distance symbols 0..29.
pub open spec fn distance_base() -> Seq<nat> {
    seq![1, 2, 3, 4, 5, 7, 9, 13, 17, 25, 33, 49, 65, 97, 129, 193, 257, 385, 513, 769, 1025,
        1537, 2049, 3073, 4097, 6145, 8193, 12289, 16385, 24577]
}

/// Extra bits of the distance symbols 0..29.
pub open spec fn distance_extra() -> Seq<nat> {
    seq![0, 0, 0, 0, 1, 1, 2, 2, 3, 3, 4, 4, 5, 5, 6, 6, 7, 7, 8, 8, 9, 9, 10, 10, 11, 11, 12,
        12, 13, 13]
}

/// Reads the extra bits of a length symbol and returns the match length.
pub fn decode_length(reader: &mut BitReader, symbol: usize) -> (r: Result<usize, DeflateError>)
    requires
        old(reader).wf(),
    ensures
        final(reader).wf(),
        final(reader).bytes@ == old(reader).bytes@,
        r is Ok <==> 257 <= symbol < 286 && old(reader).bit + length_extra()[symbol - 257] <= 8
            * old(reader).bytes@.len(),
        r matches Ok(v) ==> v == length_base()[symbol - 257] + bits_le(
            old(reader).bytes@,
            old(reader).bit as int,
            length_extra()[symbol - 257],
        ) && final(reader).bit == old(reader).bit + length_extra()[symbol - 257],
{
    let base: [usize; 29] = [
        3, 4, 5, 6, 7, 8, 9, 10, 11, 13, 15, 17, 19, 23, 27, 31, 35, 43, 51, 59, 67, 83, 99, 115,
        131, 163, 195, 227, 258,
    ];
    let extra: [usize; 29] = [
        0, 0, 0, 0, 0, 0, 0, 0, 1, 1, 1, 1, 2, 2, 2, 2, 3, 3, 3, 3, 4, 4, 4, 4, 5, 5, 5, 5, 0,
    ];
    assert(forall|i: int| 0 <= i < 29 ==> base@[i] == length_base()[i] && extra@[i] == length_extra()[i]);
    if symbol < 257 || symbol - 257 >= 29 {
        return Err(DeflateError::Malformed);
    }
    let index = symbol - 257;
    let value = reader.read_bits(extra[index])?;
    proof {
        lemma_bits_le_bound(old(reader).bytes@, old(reader).bit as int, extra[index as int] as nat);
        vstd::arithmetic::power2::lemma2_to64();
    }
    Ok(base[index] + value as usize)
}

/// Reads the extra bits of a distance symbol and returns the distance.
pub fn decode_distance(reader: &mut BitReader, symbol: usize) -> (r: Result<usize, DeflateError>)
    requires
        old(reader).wf(),
    ensures
        final(reader).wf(),
        final(reader).bytes@ == old(reader).bytes@,
        r is Ok <==> symbol < 30 && old(reader).bit + distance_extra()[symbol as int] <= 8
            * old(reader).bytes@.len(),
        r matches Ok(v) ==> v == distance_base()[symbol as int] + bits_le(
            old(reader).bytes@,
            old(reader).bit as int,
            distance_extra()[symbol as int],
        ) && final(reader).bit == old(reader).bit + distance_extra()[symbol as int],
{
    let base: [usize; 30] = [
        1, 2, 3, 4, 5, 7, 9, 13, 17, 25, 33, 49, 65, 97, 129, 193, 257, 385, 513, 769, 1025,
        1537, 2049, 3073, 4097, 6145, 8193, 12289, 16385, 24577,
    ];
    let extra: [usize; 30] = [
        0, 0, 0, 0, 1, 1, 2, 2, 3, 3, 4, 4, 5, 5, 6, 6, 7, 7, 8, 8, 9, 9, 10, 10, 11, 11, 12,
        12, 13, 13,
    ];
    assert(forall|i: int| 0 <= i < 30 ==> base@[i] == distance_base()[i] && extra@[i] == distance_extra()[i]);
    if symbol >= 30 {
        return Err(DeflateError::Malformed);
    }
    let value = reader.read_bits(extra[symbol])?;
    proof {
        lemma_bits_le_bound(old(reader).bytes@, old(reader).bit as int, extra[symbol as int] as nat);
        vstd::arithmetic::power2::lemma2_to64();
        vstd::arithmetic::power2::lemma_pow2_strictly_increases(extra[symbol as int] as nat, 14);
    }
    Ok(base[symbol] + value as usize)
}

/// Appends one literal byte unless the output is already `max_output` long.
pub fn push_output(output: &mut Vec<u8>, byte: u8, max_output: usize) -> (r: Result<(), DeflateError>)
    ensures
        r is Ok <==> old(output)@.len() < max_output,
        r is Ok ==> final(output)@ == old(output)@.push(byte),
        r is Err ==> final(output)@ == old(output)@,
{
    if output.len() >= max_output {
        return Err(DeflateError::Malformed);
    }
    output.push(byte);
    Ok(())
}

/// The output after copying `len` bytes from `dist` bytes back, one byte at a
/// time, so that a copy may overlap the bytes it produces.
pub open spec fn copy_back(out: Seq<u8>, dist: nat, len: nat) -> Seq<u8>
    decreases len,
{
    if len == 0 {
        out
    } else {
        copy_back(out.push(out[out.len() - dist]), dist, (len - 1) as nat)
    }
}

/// Little-endian 16-bit value at byte `off`.
pub open spec fn le16(data: Seq<u8>, off: int) -> nat {
    data[off] as nat + 256 * data[off + 1] as nat
}

/// Little-endian 32-bit value at byte `off`.
pub open spec fn le32(data: Seq<u8>, off: int) -> nat {
    data[off] as nat + 256 * data[off + 1] as nat + 65536 * data[off + 2] as nat + 16777216
        * data[off + 3] as nat
}

/// Reads a little-endian `u16` at `offset`.
pub fn read_u16(bytes: &[u8], offset: usize) -> (r: Result<u16, DeflateError>)
    ensures
        r is Ok <==> offset + 2 <= bytes@.len(),
        r matches Ok(v) ==> v == le16(bytes@, offset as int),
{
    if offset > bytes.len() || bytes.len() - offset < 2 {
        return Err(DeflateError::Malformed);
    }
    Ok(bytes[offset] as u16 + (bytes[offset + 1] as u16) * 256)
}

/// Reads a little-endian `u32` at `offset`.
pub fn read_u32(bytes: &[u8], offset: usize) -> (r: Result<u32, DeflateError>)
    ensures
        r is Ok <==> offset + 4 <= bytes@.len(),
        r matches Ok(v) ==> v == le32(bytes@, offset as int),
{
    if offset > bytes.len() || bytes.len() - offset < 4 {
        return Err(DeflateError::Malformed);
    }
    Ok(bytes[offset] as u32 + (bytes[offset + 1] as u32) * 256 + (bytes[offset + 2] as u32) * 65536
        + (bytes[offset + 3] as u32) * 16777216)
}

/// A stored (uncompressed) block whose header starts at bit `pos`: the bit
/// position after it and the output with its bytes appended.
pub open spec fn stored_block(data: Seq<u8>, pos: int, out: Seq<u8>, max_out: nat) -> Option<(int, Seq<u8>)> {
    let at = (pos + 7) / 8;
    if at + 4 > data.len() {
        None
    } else {
        let len = le16(data, at);
        let nlen = le16(data, at + 2);
        let end = at + 4 + len;
        if len + nlen != 65535 || end > data.len() || out.len() + len > max_out {
            None
        } else {
            Some((end * 8, out + data.subrange(at + 4, end)))
        }
    }
}

/// Copies a stored block to the output.
pub fn inflate_stored_block(reader: &mut BitReader, output: &mut Vec<u8>, max_output: usize) -> (r: Result<(), DeflateError>)
    requires
        old(reader).wf(),
        old(reader).bit >= 0,
    ensures
        final(reader).wf(),
        final(reader).bytes@ == old(reader).bytes@,
        r is Ok <==> stored_block(old(reader).bytes@, old(reader).bit as int, old(output)@, max_output as nat) is Some,
        r is Ok ==> ({
            let s = stored_block(old(reader).bytes@, old(reader).bit as int, old(output)@, max_output as nat).unwrap();
            final(reader).bit == s.0 && final(output)@ == s.1
        }),
{
    let ghost pos = reader.bit as int;
    reader.bit = (reader.bit + 7) / 8 * 8;
    let position = reader.bit / 8;
    assert(position == (pos + 7) / 8);
    let len = read_u16(reader.bytes, position)? as usize;
    if position + 2 > reader.bytes.len() {
        return Err(DeflateError::Malformed);
    }
    let nlen = read_u16(reader.bytes, position + 2)?;
    if len as u16 != 65535 - nlen {
        return Err(DeflateError::Malformed);
    }
    let start = position + 4;
    if len > reader.bytes.len() - start {
        return Err(DeflateError::Malformed);
    }
    let end = start + len;
    if output.len() > max_output || max_output - output.len() < len {
        return Err(DeflateError::Malformed);
    }
    let ghost before = output@;
    let mut i = start;
    while i < end
        invariant
            start <= i <= end <= reader.bytes@.len(),
            output@ == before + reader.bytes@.subrange(start as int, i as int),
        decreases end - i,
    {
        output.push(reader.bytes[i]);
        proof {
            assert(reader.bytes@.subrange(start as int, i + 1) == reader.bytes@.subrange(start as int, i as int).push(reader.bytes@[i as int]));
        }
        i = i + 1;
    }
    reader.bit = end * 8;
    Ok(())
}

/// Decoding a Huffman-compressed block body from bit `pos` (RFC 1951,
/// section 3.2.5) with literal/length code lengths `lit` and distance code
/// lengths `dist`: the bit position after the end-of-block symbol and the
/// output. Output may not grow beyond `max_out` bytes.
pub open spec fn huff_block(
    lit: Seq<u8>,
    dist: Seq<u8>,
    data: Seq<u8>,
    pos: int,
    out: Seq<u8>,
    max_out: nat,
) -> Option<(int, Seq<u8>)>
    decreases 8 * data.len() - pos,
{
    match decode_symbol(lit, data, pos) {
        None => None,
        Some(d) => {
            let sym = d.0;
            let p = pos + d.1;
            proof {
                lemma_decode_consumes(lit, data, pos);
            }
            if sym < 256 {
                if out.len() >= max_out {
                    None
                } else {
                    huff_block(lit, dist, data, p, out.push(sym as u8), max_out)
                }
            } else if sym == 256 {
                Some((p, out))
            } else if sym <= 285 {
                let i = sym - 257;
                let le = length_extra()[i];
                if p + le > 8 * data.len() {
                    None
                } else {
                    let length = length_base()[i] + bits_le(data, p, le);
                    let p2 = p + le;
                    match decode_symbol(dist, data, p2) {
                        None => None,
                        Some(e) => {
                            let ds = e.0;
                            let p3 = p2 + e.1;
                            proof {
                                lemma_decode_consumes(dist, data, p2);
                            }
                            if ds >= 30 || p3 + distance_extra()[ds as int] > 8 * data.len() {
                                None
                            } else {
                                let dd = distance_base()[ds as int] + bits_le(
                                    data,
                                    p3,
                                    distance_extra()[ds as int],
                                );
                                let p4 = p3 + distance_extra()[ds as int];
                                if dd == 0 || dd > out.len() || out.len() + length > max_out {
                                    None
                                } else {
                                    huff_block(
                                        lit,
                                        dist,
                                        data,
                                        p4,
                                        copy_back(out, dd, length),
                                        max_out,
                                    )
                                }
                            }
                        }
                    }
                }
            } else {
                None
            }
        }
    }
}

/// A finished block ends after its start and inside the stream.
pub proof fn lemma_huff_block_range(
    lit: Seq<u8>,
    dist: Seq<u8>,
    data: Seq<u8>,
    pos: int,
    out: Seq<u8>,
    max_out: nat,
)
    ensures
        huff_block(lit, dist, data, pos, out, max_out) matches Some(r) ==> pos < r.0 <= 8
            * data.len(),
    decreases 8 * data.len() - pos,
{
    lemma_decode_consumes(lit, data, pos);
    match decode_symbol(lit, data, pos) {
        None => {},
        Some(d) => {
            let sym = d.0;
            let p = pos + d.1;
            if sym < 256 {
                if out.len() < max_out {
                    lemma_huff_block_range(lit, dist, data, p, out.push(sym as u8), max_out);
                }
            } else if sym == 256 {
            } else if sym <= 285 {
                let i = sym - 257;
                let le = length_extra()[i];
                if p + le <= 8 * data.len() {
                    let length = length_base()[i] + bits_le(data, p, le);
                    let p2 = p + le;
                    lemma_decode_consumes(dist, data, p2);
                    match decode_symbol(dist, data, p2) {
                        None => {},
                        Some(e) => {
                            let ds = e.0;
                            let p3 = p2 + e.1;
                            if !(ds >= 30 || p3 + distance_extra()[ds as int] > 8 * data.len()) {
                                let dd = distance_base()[ds as int] + bits_le(
                                    data,
                                    p3,
                                    distance_extra()[ds as int],
                                );
                                let p4 = p3 + distance_extra()[ds as int];
                                if !(dd == 0 || dd > out.len() || out.len() + length > max_out) {
                                    lemma_huff_block_range(
                                        lit,
                                        dist,
                                        data,
                                        p4,
                                        copy_back(out, dd, length),
                                        max_out,
                                    );
                                }
                            }
                        }
                    }
                }
            }
        }
    }
}

/// Decodes a Huffman-compressed block body up to its end-of-block symbol.
pub fn inflate_huffman_block(
    reader: &mut BitReader,
    output: &mut Vec<u8>,
    max_output: usize,
    literal: &Huffman,
    distance: &Huffman,
) -> (r: Result<(), DeflateError>)
    requires
        old(reader).wf(),
        literal.wf(),
        distance.wf(),
    ensures
        final(reader).wf(),
        final(reader).bytes@ == old(reader).bytes@,
        r is Ok <==> huff_block(
            literal.lengths@,
            distance.lengths@,
            old(reader).bytes@,
            old(reader).bit as int,
            old(output)@,
            max_output as nat,
        ) is Some,
        r is Ok ==> ({
            let h = huff_block(
                literal.lengths@,
                distance.lengths@,
                old(reader).bytes@,
                old(reader).bit as int,
                old(output)@,
                max_output as nat,
            ).unwrap();
            final(reader).bit == h.0 && final(output)@ == h.1
        }),
{
    let ghost data = reader.bytes@;
    let ghost lit = literal.lengths@;
    let ghost dist = distance.lengths@;
    let ghost goal = huff_block(lit, dist, data, reader.bit as int, output@, max_output as nat);
    loop
        invariant
            reader.wf(),
            reader.bytes@ == data,
            data == old(reader).bytes@,
            literal.wf(),
            distance.wf(),
            lit == literal.lengths@,
            dist == distance.lengths@,
            goal == huff_block(lit, dist, data, old(reader).bit as int, old(output)@, max_output as nat),
            goal == huff_block(lit, dist, data, reader.bit as int, output@, max_output as nat),
        decreases 8 * data.len() - reader.bit,
    {
        let ghost pos = reader.bit as int;
        proof {
            lemma_decode_consumes(lit, data, pos);
        }
        let symbol = literal.decode(reader)?;
        if symbol < 256 {
            push_output(output, symbol as u8, max_output)?;
        } else if symbol == 256 {
            return Ok(());
        } else if symbol <= 285 {
            let length = decode_length(reader, symbol)?;
            let ghost p2 = reader.bit as int;
            proof {
                lemma_decode_consumes(dist, data, p2);
            }
            let distance_symbol = distance.decode(reader)?;
            let back = decode_distance(reader, distance_symbol)?;
            if back == 0 || back > output.len() {
                return Err(DeflateError::Malformed);
            }
            if output.len() > max_output || max_output - output.len() < length {
                return Err(DeflateError::Malformed);
            }
            let ghost before = output@;
            let mut copied: usize = 0;
            while copied < length
                invariant
                    copied <= length,
                    0 < back <= before.len(),
                    output@.len() == before.len() + copied,
                    before.len() + length <= max_output,
                    copy_back(before, back as nat, length as nat) == copy_back(
                        output@,
                        back as nat,
                        (length - copied) as nat,
                    ),
                decreases length - copied,
            {
                let byte = output[output.len() - back];
                output.push(byte);
                copied = copied + 1;
            }
        } else {
            return Err(DeflateError::Malformed);
        }
    }
}

/// `count` copies of `value`.
pub open spec fn repeat(value: u8, count: nat) -> Seq<u8> {
    Seq::new(count, |i: int| value)
}

/// Appends `count` copies of `value` to the code lengths read so far, unless
/// that would exceed the declared `total`.
pub fn extend_lengths(lengths: &mut Vec<u8>, total: usize, value: u8, count: usize) -> (r: Result<(), DeflateError>)
    ensures
        r is Ok <==> old(lengths)@.len() + count <= total,
        r is Ok ==> final(lengths)@ == old(lengths)@ + repeat(value, count as nat),
        r is Err ==> final(lengths)@ == old(lengths)@,
{
    if lengths.len() > total || total - lengths.len() < count {
        return Err(DeflateError::Malformed);
    }
    let ghost before = lengths@;
    let mut i: usize = 0;
    while i < count
        invariant
            i <= count,
            lengths@ == before + repeat(value, i as nat),
        decreases count - i,
    {
        lengths.push(value);
        proof {
            assert(before + repeat(value, (i + 1) as nat) == (before + repeat(value, i as nat)).push(value));
        }
        i = i + 1;
    }
    Ok(())
}

/// The order in which a dynamic block lists the code lengths of the
/// code-length alphabet (RFC 1951, section 3.2.7).
pub open spec fn code_length_order() -> Seq<nat> {
    seq![16, 17, 18, 0, 8, 7, 9, 6, 10, 5, 11, 4, 12, 3, 13, 2, 14, 1, 15]
}

/// The code-length code lengths after reading the first `k` 3-bit entries
/// from bit `pos`; entries not listed are 0.
pub open spec fn code_length_lengths(data: Seq<u8>, pos: int, k: nat) -> Seq<u8>
    decreases k,
{
    if k == 0 {
        Seq::new(19, |i: int| 0u8)
    } else {
        code_length_lengths(data, pos, (k - 1) as nat).update(
            code_length_order()[k - 1] as int,
            bits_le(data, pos + 3 * (k - 1), 3) as u8,
        )
    }
}

/// Reading the run-length coded literal/length and distance code lengths of
/// a dynamic block, from bit `pos`, until `total` lengths are known.
pub open spec fn read_lengths(
    cl: Seq<u8>,
    data: Seq<u8>,
    pos: int,
    lens: Seq<u8>,
    total: nat,
) -> Option<(int, Seq<u8>)>
    decreases 8 * data.len() - pos,
{
    if lens.len() >= total {
        Some((pos, lens))
    } else {
        match decode_symbol(cl, data, pos) {
            None => None,
            Some(d) => {
                let sym = d.0;
                let p = pos + d.1;
                proof {
                    lemma_decode_consumes(cl, data, pos);
                }
                if sym <= 15 {
                    read_lengths(cl, data, p, lens.push(sym as u8), total)
                } else if sym == 16 {
                    if lens.len() == 0 || p + 2 > 8 * data.len() {
                        None
                    } else {
                        let count = bits_le(data, p, 2) + 3;
                        if lens.len() + count > total {
                            None
                        } else {
                            read_lengths(cl, data, p + 2, lens + repeat(lens.last(), count), total)
                        }
                    }
                } else if sym == 17 {
                    if p + 3 > 8 * data.len() {
                        None
                    } else {
                        let count = bits_le(data, p, 3) + 3;
                        if lens.len() + count > total {
                            None
                        } else {
                            read_lengths(cl, data, p + 3, lens + repeat(0, count), total)
                        }
                    }
                } else if sym == 18 {
                    if p + 7 > 8 * data.len() {
                        None
                    } else {
                        let count = bits_le(data, p, 7) + 11;
                        if lens.len() + count > total {
                            None
                        } else {
                            read_lengths(cl, data, p + 7, lens + repeat(0, count), total)
                        }
                    }
                } else {
                    None
                }
            },
        }
    }
}

proof fn lemma_read_lengths_range(cl: Seq<u8>, data: Seq<u8>, pos: int, lens: Seq<u8>, total: nat)
    ensures
        read_lengths(cl, data, pos, lens, total) matches Some(r) ==> pos <= r.0 && (pos <= 8
            * data.len() ==> r.0 <= 8 * data.len()),
    decreases 8 * data.len() - pos,
{
    if lens.len() < total {
        lemma_decode_consumes(cl, data, pos);
        match decode_symbol(cl, data, pos) {
            None => {},
            Some(d) => {
                let sym = d.0;
                let p = pos + d.1;
                if sym <= 15 {
                    lemma_read_lengths_range(cl, data, p, lens.push(sym as u8), total);
                } else if sym == 16 {
                    if !(lens.len() == 0 || p + 2 > 8 * data.len()) {
                        let count = bits_le(data, p, 2) + 3;
                        lemma_read_lengths_range(cl, data, p + 2, lens + repeat(lens.last(), count), total);
                    }
                } else if sym == 17 {
                    if p + 3 <= 8 * data.len() {
                        let count = bits_le(data, p, 3) + 3;
                        lemma_read_lengths_range(cl, data, p + 3, lens + repeat(0, count), total);
                    }
                } else if sym == 18 {
                    if p + 7 <= 8 * data.len() {
                        let count = bits_le(data, p, 7) + 11;
                        lemma_read_lengths_range(cl, data, p + 7, lens + repeat(0, count), total);
                    }
                }
            },
        }
    }
}

/// The header of a dynamic Huffman block at bit `pos` (RFC 1951, section
/// 3.2.7): the bit position of the block body and the literal/length and
/// distance code lengths.
pub open spec fn dynamic_header(data: Seq<u8>, pos: int) -> Option<(int, Seq<u8>, Seq<u8>)> {
    if pos + 14 > 8 * data.len() {
        None
    } else {
        let hlit = bits_le(data, pos, 5) + 257;
        let hdist = bits_le(data, pos + 5, 5) + 1;
        let hclen = bits_le(data, pos + 10, 4) + 4;
        if hlit > 286 || hdist > 32 || pos + 14 + 3 * hclen > 8 * data.len() {
            None
        } else {
            let cl = code_length_lengths(data, pos + 14, hclen);
            if !valid_lengths(cl) {
                None
            } else {
                match read_lengths(cl, data, pos + 14 + 3 * hclen, seq![], (hlit + hdist) as nat) {
                    None => None,
                    Some(r) => {
                        let lit = r.1.subrange(0, hlit as int);
                        let dist = r.1.subrange(hlit as int, (hlit + hdist) as int);
                        if valid_lengths(lit) && valid_lengths(dist) {
                            Some((r.0, lit, dist))
                        } else {
                            None
                        }
                    },
                }
            }
        }
    }
}

proof fn lemma_code_length_lengths_len(data: Seq<u8>, pos: int, k: nat)
    requires
        k <= 19,
    ensures
        code_length_lengths(data, pos, k).len() == 19,
    decreases k,
{
    if k > 0 {
        lemma_code_length_lengths_len(data, pos, (k - 1) as nat);
    }
}

/// Reads `hclen` 3-bit code-length code lengths in the listed order.
fn read_code_length_lengths(reader: &mut BitReader, hclen: usize) -> (r: Result<Vec<u8>, DeflateError>)
    requires
        old(reader).wf(),
        hclen <= 19,
    ensures
        final(reader).wf(),
        final(reader).bytes@ == old(reader).bytes@,
        r is Ok <==> old(reader).bit + 3 * hclen <= 8 * old(reader).bytes@.len(),
        r matches Ok(v) ==> v@ == code_length_lengths(old(reader).bytes@, old(reader).bit as int, hclen as nat)
            && final(reader).bit == old(reader).bit + 3 * hclen && v@.len() == 19,
{
    let ghost data = reader.bytes@;
    let ghost p = reader.bit as int;
    let order: [usize; 19] = [16, 17, 18, 0, 8, 7, 9, 6, 10, 5, 11, 4, 12, 3, 13, 2, 14, 1, 15];
    assert(forall|i: int| 0 <= i < 19 ==> order@[i] == code_length_order()[i]);
    let mut code_lengths: Vec<u8> = Vec::new();
    let mut z: usize = 0;
    while z < 19
        invariant
            z <= 19,
            code_lengths@ == Seq::new(z as nat, |i: int| 0u8),
        decreases 19 - z,
    {
        code_lengths.push(0);
        z = z + 1;
    }
    assert(code_length_lengths(data, p, 0) == code_lengths@);
    let mut i: usize = 0;
    while i < hclen
        invariant
            reader.wf(),
            reader.bytes@ == data,
            data == old(reader).bytes@,
            p == old(reader).bit,
            hclen <= 19,
            i <= hclen,
            reader.bit == p + 3 * i,
            code_lengths@ == code_length_lengths(data, p, i as nat),
            forall|k: int| 0 <= k < 19 ==> order@[k] == code_length_order()[k],
        decreases hclen - i,
    {
        let value = match reader.read_bits(3) {
            Ok(v) => v,
            Err(e) => {
                return Err(e);
            },
        };
        proof {
            lemma_bits_le_bound(data, p + 3 * i, 3);
            vstd::arithmetic::power2::lemma2_to64();
            lemma_code_length_lengths_len(data, p, i as nat);
        }
        code_lengths.set(order[i], value as u8);
        i = i + 1;
    }
    proof {
        lemma_code_length_lengths_len(data, p, hclen as nat);
    }
    Ok(code_lengths)
}

/// Decodes one entry of the run-length coded code lengths.
fn read_one_length_code(
    reader: &mut BitReader,
    code_tree: &Huffman,
    lengths: &mut Vec<u8>,
    total: usize,
) -> (r: Result<(), DeflateError>)
    requires
        old(reader).wf(),
        code_tree.wf(),
        old(lengths)@.len() < total,
    ensures
        final(reader).wf(),
        final(reader).bytes@ == old(reader).bytes@,
        r is Err ==> read_lengths(code_tree.lengths@, old(reader).bytes@, old(reader).bit as int, old(lengths)@, total as nat) is None,
        r is Ok ==> read_lengths(code_tree.lengths@, old(reader).bytes@, old(reader).bit as int, old(lengths)@, total as nat)
            == read_lengths(code_tree.lengths@, old(reader).bytes@, final(reader).bit as int, final(lengths)@, total as nat)
            && final(reader).bit > old(reader).bit
            && final(lengths)@.len() <= total,
{
    let ghost data = reader.bytes@;
    let ghost here = reader.bit as int;
    let ghost cl = code_tree.lengths@;
    proof {
        lemma_decode_consumes(cl, data, here);
        vstd::arithmetic::power2::lemma2_to64();
    }
    let symbol = code_tree.decode(reader)?;
    let ghost p = reader.bit as int;
    if symbol <= 15 {
        lengths.push(symbol as u8);
        Ok(())
    } else if symbol == 16 {
        if lengths.len() == 0 {
            return Err(DeflateError::Malformed);
        }
        let previous = lengths[lengths.len() - 1];
        let extra = reader.read_bits(2)?;
        proof {
            lemma_bits_le_bound(data, p, 2);
        }
        let count = extra as usize + 3;
        extend_lengths(lengths, total, previous, count)
    } else if symbol == 17 {
        let extra = reader.read_bits(3)?;
        proof {
            lemma_bits_le_bound(data, p, 3);
        }
        let count = extra as usize + 3;
        extend_lengths(lengths, total, 0, count)
    } else if symbol == 18 {
        let extra = reader.read_bits(7)?;
        proof {
            lemma_bits_le_bound(data, p, 7);
        }
        let count = extra as usize + 11;
        extend_lengths(lengths, total, 0, count)
    } else {
        Err(DeflateError::Malformed)
    }
}

/// Decodes the run-length coded code lengths of a dynamic block.
fn read_code_lengths(reader: &mut BitReader, code_tree: &Huffman, total: usize) -> (r: Result<Vec<u8>, DeflateError>)
    requires
        old(reader).wf(),
        code_tree.wf(),
    ensures
        final(reader).wf(),
        final(reader).bytes@ == old(reader).bytes@,
        r is Ok <==> read_lengths(code_tree.lengths@, old(reader).bytes@, old(reader).bit as int, seq![], total as nat) is Some,
        r matches Ok(v) ==> ({
            let d = read_lengths(code_tree.lengths@, old(reader).bytes@, old(reader).bit as int, seq![], total as nat).unwrap();
            final(reader).bit == d.0 && v@ == d.1 && v@.len() == total
        }),
{
    let ghost data = reader.bytes@;
    let ghost cl = code_tree.lengths@;
    let ghost p0 = reader.bit as int;
    let mut lengths: Vec<u8> = Vec::new();
    while lengths.len() < total
        invariant
            reader.wf(),
            reader.bytes@ == data,
            data == old(reader).bytes@,
            p0 == old(reader).bit,
            code_tree.wf(),
            code_tree.lengths@ == cl,
            lengths@.len() <= total,
            read_lengths(cl, data, p0, seq![], total as nat) == read_lengths(
                cl,
                data,
                reader.bit as int,
                lengths@,
                total as nat,
            ),
        decreases 8 * data.len() - reader.bit,
    {
        read_one_length_code(reader, code_tree, &mut lengths, total)?;
    }
    Ok(lengths)
}

/// Splits the code lengths into the first `hlit` and the rest.
fn split_lengths(lengths: &Vec<u8>, hlit: usize) -> (r: (Vec<u8>, Vec<u8>))
    requires
        hlit <= lengths@.len(),
    ensures
        r.0@ == lengths@.subrange(0, hlit as int),
        r.1@ == lengths@.subrange(hlit as int, lengths@.len() as int),
{
    let mut first: Vec<u8> = Vec::new();
    let mut second: Vec<u8> = Vec::new();
    let mut k: usize = 0;
    while k < hlit
        invariant
            k <= hlit <= lengths@.len(),
            first@ == lengths@.subrange(0, k as int),
        decreases hlit - k,
    {
        first.push(lengths[k]);
        assert(lengths@.subrange(0, k + 1) == lengths@.subrange(0, k as int).push(lengths@[k as int]));
        k = k + 1;
    }
    while k < lengths.len()
        invariant
            hlit <= k <= lengths@.len(),
            second@ == lengths@.subrange(hlit as int, k as int),
        decreases lengths@.len() - k,
    {
        second.push(lengths[k]);
        assert(lengths@.subrange(hlit as int, k + 1) == lengths@.subrange(hlit as int, k as int).push(lengths@[k as int]));
        k = k + 1;
    }
    (first, second)
}

/// Reads the header of a dynamic Huffman block and builds its two codes.
pub fn dynamic_huffman(reader: &mut BitReader) -> (r: Result<(Huffman, Huffman), DeflateError>)
    requires
        old(reader).wf(),
    ensures
        final(reader).wf(),
        final(reader).bytes@ == old(reader).bytes@,
        r is Ok <==> dynamic_header(old(reader).bytes@, old(reader).bit as int) is Some,
        r matches Ok(h) ==> ({
            let d = dynamic_header(old(reader).bytes@, old(reader).bit as int).unwrap();
            &&& final(reader).bit == d.0
            &&& h.0.wf() && h.0.lengths@ == d.1
            &&& h.1.wf() && h.1.lengths@ == d.2
        }),
{
    let ghost data = reader.bytes@;
    let ghost pos = reader.bit as int;
    proof {
        vstd::arithmetic::power2::lemma2_to64();
        lemma_bits_le_bound(data, pos, 5);
        lemma_bits_le_bound(data, pos + 5, 5);
        lemma_bits_le_bound(data, pos + 10, 4);
    }
    let v = reader.read_bits(5)?;
    let hlit = v as usize + 257;
    let v = reader.read_bits(5)?;
    let hdist = v as usize + 1;
    let v = reader.read_bits(4)?;
    let hclen = v as usize + 4;
    if hlit > 286 || hdist > 32 {
        return Err(DeflateError::Malformed);
    }
    let code_lengths = read_code_length_lengths(reader, hclen)?;
    let code_tree = Huffman::from_lengths(code_lengths.as_slice())?;
    let total = hlit + hdist;
    let lengths = read_code_lengths(reader, &code_tree, total)?;
    let (literal_lengths, distance_lengths) = split_lengths(&lengths, hlit);
    let literal = Huffman::from_lengths(literal_lengths.as_slice())?;
    let distance = Huffman::from_lengths(distance_lengths.as_slice())?;
    Ok((literal, distance))
}

/// The fixed literal/length code lengths (RFC 1951, section 3.2.6).
pub open spec fn fixed_literal_lengths() -> Seq<u8> {
    Seq::new(
        288,
        |i: int|
            if i <= 143 {
                8u8
            } else if i <= 255 {
                9u8
            } else if i <= 279 {
                7u8
            } else {
                8u8
            },
    )
}

/// The fixed distance code lengths.
pub open spec fn fixed_distance_lengths() -> Seq<u8> {
    Seq::new(32, |i: int| 5u8)
}

/// Builds the two fixed Huffman codes.
pub fn fixed_huffman() -> (r: Result<(Huffman, Huffman), DeflateError>)
    ensures
        r is Ok <==> valid_lengths(fixed_literal_lengths()) && valid_lengths(fixed_distance_lengths()),
        r matches Ok(h) ==> h.0.wf() && h.0.lengths@ == fixed_literal_lengths() && h.1.wf()
            && h.1.lengths@ == fixed_distance_lengths(),
{
    let mut literal_lengths: Vec<u8> = Vec::new();
    let mut i: usize = 0;
    while i < 288
        invariant
            i <= 288,
            literal_lengths@ == fixed_literal_lengths().subrange(0, i as int),
        decreases 288 - i,
    {
        let value: u8 = if i <= 143 {
            8
        } else if i <= 255 {
            9
        } else if i <= 279 {
            7
        } else {
            8
        };
        literal_lengths.push(value);
        assert(fixed_literal_lengths().subrange(0, i + 1) == fixed_literal_lengths().subrange(0, i as int).push(value));
        i = i + 1;
    }
    let mut distance_lengths: Vec<u8> = Vec::new();
    let mut j: usize = 0;
    while j < 32
        invariant
            j <= 32,
            distance_lengths@ == fixed_distance_lengths().subrange(0, j as int),
        decreases 32 - j,
    {
        distance_lengths.push(5);
        assert(fixed_distance_lengths().subrange(0, j + 1) == fixed_distance_lengths().subrange(0, j as int).push(5u8));
        j = j + 1;
    }
    assert(literal_lengths@ == fixed_literal_lengths());
    assert(distance_lengths@ == fixed_distance_lengths());
    let literal = Huffman::from_lengths(literal_lengths.as_slice())?;
    let distance = Huffman::from_lengths(distance_lengths.as_slice())?;
    Ok((literal, distance))
}

proof fn lemma_stored_block_range(data: Seq<u8>, pos: int, out: Seq<u8>, max_out: nat)
    requires
        0 <= pos,
    ensures
        stored_block(data, pos, out, max_out) matches Some(r) ==> pos < r.0 <= 8 * data.len(),
{
    let at = (pos + 7) / 8;
    assert(at * 8 >= pos) by (nonlinear_arith)
        requires at == (pos + 7) / 8, pos >= 0;
}

proof fn lemma_dynamic_header_range(data: Seq<u8>, pos: int)
    requires
        0 <= pos,
    ensures
        dynamic_header(data, pos) matches Some(r) ==> pos < r.0 <= 8 * data.len(),
{
    if pos + 14 <= 8 * data.len() {
        let hlit = bits_le(data, pos, 5) + 257;
        let hdist = bits_le(data, pos + 5, 5) + 1;
        let hclen = bits_le(data, pos + 10, 4) + 4;
        if !(hlit > 286 || hdist > 32 || pos + 14 + 3 * hclen > 8 * data.len()) {
            let cl = code_length_lengths(data, pos + 14, hclen);
            lemma_read_lengths_range(cl, data, pos + 14 + 3 * hclen, seq![], (hlit + hdist) as nat);
        }
    }
}

/// Decoding one block whose 3-bit header is at `pos`: its last-block flag,
/// the bit position after it, and the output.
#[verifier::opaque]
pub open spec fn inflate_block(data: Seq<u8>, pos: int, out: Seq<u8>, max_out: nat) -> Option<(bool, int, Seq<u8>)> {
    if pos + 3 > 8 * data.len() {
        None
    } else {
        let last = bits_le(data, pos, 1) == 1;
        let btype = bits_le(data, pos + 1, 2);
        let p = pos + 3;
        let r = if btype == 0 {
            stored_block(data, p, out, max_out)
        } else if btype == 1 {
            if valid_lengths(fixed_literal_lengths()) && valid_lengths(fixed_distance_lengths()) {
                huff_block(fixed_literal_lengths(), fixed_distance_lengths(), data, p, out, max_out)
            } else {
                None
            }
        } else if btype == 2 {
            match dynamic_header(data, p) {
                None => None,
                Some(h) => huff_block(h.1, h.2, data, h.0, out, max_out),
            }
        } else {
            None
        };
        match r {
            None => None,
            Some(b) => Some((last, b.0, b.1)),
        }
    }
}

/// A block ends after its header and inside the stream.
pub proof fn lemma_inflate_block_range(data: Seq<u8>, pos: int, out: Seq<u8>, max_out: nat)
    requires
        0 <= pos,
    ensures
        inflate_block(data, pos, out, max_out) matches Some(r) ==> pos < r.1 <= 8 * data.len(),
{
    reveal(inflate_block);
    let p = pos + 3;
    lemma_stored_block_range(data, p, out, max_out);
    lemma_huff_block_range(fixed_literal_lengths(), fixed_distance_lengths(), data, p, out, max_out);
    lemma_dynamic_header_range(data, p);
    match dynamic_header(data, p) {
        None => {},
        Some(h) => {
            lemma_huff_block_range(h.1, h.2, data, h.0, out, max_out);
        },
    }
}

/// Decoding blocks from bit `pos` until the last block: the whole output.
pub open spec fn inflate_blocks(data: Seq<u8>, pos: int, out: Seq<u8>, max_out: nat) -> Option<Seq<u8>>
    decreases 8 * data.len() - pos,
{
    if pos < 0 {
        None
    } else {
        match inflate_block(data, pos, out, max_out) {
            None => None,
            Some(b) => {
                proof {
                    lemma_inflate_block_range(data, pos, out, max_out);
                }
                if b.0 {
                    Some(b.2)
                } else {
                    inflate_blocks(data, b.1, b.2, max_out)
                }
            },
        }
    }
}

/// The bytes a raw DEFLATE stream decodes to, when it decodes to exactly
/// `expected` bytes and `expected` is within `max_out`.
pub open spec fn inflate(data: Seq<u8>, expected: nat, max_out: nat) -> Option<Seq<u8>> {
    if expected > max_out {
        None
    } else {
        match inflate_blocks(data, 0, seq![], max_out) {
            Some(o) => if o.len() == expected {
                Some(o)
            } else {
                None
            },
            None => None,
        }
    }
}

/// Decodes one block of any type.
fn inflate_one_block(reader: &mut BitReader, output: &mut Vec<u8>, max_output: usize) -> (r: Result<bool, DeflateError>)
    requires
        old(reader).wf(),
    ensures
        final(reader).wf(),
        final(reader).bytes@ == old(reader).bytes@,
        r is Ok <==> inflate_block(old(reader).bytes@, old(reader).bit as int, old(output)@, max_output as nat) is Some,
        r matches Ok(last) ==> ({
            let b = inflate_block(old(reader).bytes@, old(reader).bit as int, old(output)@, max_output as nat).unwrap();
            last == b.0 && final(reader).bit == b.1 && final(output)@ == b.2
        }),
{
    let ghost data = reader.bytes@;
    let ghost pos = reader.bit as int;
    proof {
        reveal(inflate_block);
        vstd::arithmetic::power2::lemma2_to64();
        lemma_bits_le_bound(data, pos, 1);
    }
    if reader.bit > 8 * reader.bytes.len() || 8 * reader.bytes.len() - reader.bit < 3 {
        return Err(DeflateError::Malformed);
    }
    let final_block = reader.read_bits(1)? != 0;
    let block_type = reader.read_bits(2)?;
    if block_type == 0 {
        inflate_stored_block(reader, output, max_output)?;
    } else if block_type == 1 {
        let (literal, distance) = fixed_huffman()?;
        inflate_huffman_block(reader, output, max_output, &literal, &distance)?;
    } else if block_type == 2 {
        let (literal, distance) = dynamic_huffman(reader)?;
        inflate_huffman_block(reader, output, max_output, &literal, &distance)?;
    } else {
        return Err(DeflateError::Malformed);
    }
    Ok(final_block)
}

/// Decodes a raw DEFLATE stream that must expand to exactly `expected_size`
/// bytes, never producing more than `max_output` bytes.
pub fn inflate_raw(input: &[u8], expected_size: usize, max_output: usize) -> (r: Result<Vec<u8>, DeflateError>)
    requires
        input@.len() <= usize::MAX / 8,
    ensures
        r is Ok <==> inflate(input@, expected_size as nat, max_output as nat) is Some,
        r matches Ok(v) ==> v@ == inflate(input@, expected_size as nat, max_output as nat).unwrap(),
{
    if expected_size > max_output {
        return Err(DeflateError::Malformed);
    }
    let mut reader = BitReader::new(input);
    let mut output: Vec<u8> = Vec::new();
    let ghost data = input@;
    loop
        invariant_except_break
            inflate_blocks(data, 0, seq![], max_output as nat) == inflate_blocks(
                data,
                reader.bit as int,
                output@,
                max_output as nat,
            ),
        invariant
            reader.wf(),
            reader.bytes@ == data,
            data == input@,
            expected_size <= max_output,
        ensures
            inflate_blocks(data, 0, seq![], max_output as nat) == Some(output@),
        decreases 8 * data.len() - reader.bit,
    {
        let ghost pos = reader.bit as int;
        let ghost out = output@;
        proof {
            lemma_inflate_block_range(data, pos, out, max_output as nat);
        }
        let last = inflate_one_block(&mut reader, &mut output, max_output)?;
        proof {
            let b = inflate_block(data, pos, out, max_output as nat).unwrap();
            assert(inflate_blocks(data, pos, out, max_output as nat) == if b.0 {
                Some(b.2)
            } else {
                inflate_blocks(data, b.1, b.2, max_output as nat)
            });
        }
        if last {
            break;
        }
    }
    if output.len() != expected_size {
        return Err(DeflateError::Malformed);
    }
    Ok(output)
}

/// Why a DEFLATE stream was refused.
#[derive(Debug, Clone, Copy, PartialEq, Eq)]
pub enum DeflateError {
    /// The stream does not follow RFC 1951 or is truncated.
    Malformed,
    /// The stream would produce more output than allowed.
    TooLarge,
}


/// A stream never decodes to more than the limit: a size above it is refused
/// outright, and what is decoded has exactly the expected size.
pub proof fn lemma_inflate_output_bounded(data: Seq<u8>, expected: nat, max_out: nat)
    ensures
        expected > max_out ==> inflate(data, expected, max_out) is None,
        inflate(data, expected, max_out) matches Some(o) ==> o.len() == expected && expected <= max_out,
{
}

/// The codes of lengths 1 to `b` in units of a code of length `b`: the sum
/// over those codes of 2^(b - length). At `b` = 15, with no code longer than
/// 15, this is the Kraft sum scaled by 2^15.
pub open spec fn kraft_used(lengths: Seq<u8>, b: nat) -> nat
    decreases b,
{
    if b == 0 {
        0
    } else {
        2 * kraft_used(lengths, (b - 1) as nat) + count_len(lengths, b)
    }
}

proof fn lemma_first_code_used(lengths: Seq<u8>, b: nat)
    requires
        b >= 1,
    ensures
        first_code(lengths, b) == 2 * kraft_used(lengths, (b - 1) as nat),
    decreases b,
{
    reveal_with_fuel(first_code, 2);
    if b > 1 {
        lemma_first_code_used(lengths, (b - 1) as nat);
        assert(kraft_used(lengths, (b - 1) as nat) == 2 * kraft_used(lengths, (b - 2) as nat) + count_len(
            lengths,
            (b - 1) as nat,
        ));
    }
}

proof fn lemma_count_upto_grows(lengths: Seq<u8>, l: nat, s: int, n: int)
    requires
        0 <= s < n <= lengths.len(),
        lengths[s] == l,
    ensures
        count_upto(lengths, l, s) + 1 <= count_upto(lengths, l, n),
    decreases n,
{
    if n > s + 1 {
        lemma_count_upto_grows(lengths, l, s, n - 1);
    }
}

proof fn lemma_last_of_length(lengths: Seq<u8>, l: nat, n: int) -> (s: int)
    requires
        0 <= n <= lengths.len(),
        count_upto(lengths, l, n) > 0,
    ensures
        0 <= s < n,
        lengths[s] == l,
        count_upto(lengths, l, s) + 1 == count_upto(lengths, l, n),
    decreases n,
{
    if lengths[n - 1] == l {
        n - 1
    } else {
        lemma_last_of_length(lengths, l, n - 1)
    }
}

proof fn lemma_used_stays_over(lengths: Seq<u8>, a: nat, b: nat)
    requires
        a <= b,
        kraft_used(lengths, a) > pow2(a),
    ensures
        kraft_used(lengths, b) > pow2(b),
    decreases b - a,
{
    if a < b {
        lemma_used_stays_over(lengths, a, (b - 1) as nat);
        lemma_pow2_unfold(b);
    }
}

proof fn lemma_oversubscribed_over(lengths: Seq<u8>)
    requires
        max_len(lengths) <= 15,
        oversubscribed(lengths),
    ensures
        kraft_used(lengths, 15) > pow2(15),
{
    let s = choose|s: int|
        0 <= s < lengths.len() && lengths[s] != 0 && #[trigger] code_of(lengths, s) >= pow2(lengths[s] as nat);
    let l = lengths[s] as nat;
    lemma_max_len_upto(lengths, lengths.len() as int);
    lemma_first_code_used(lengths, l);
    lemma_count_upto_grows(lengths, l, s, lengths.len() as int);
    assert(kraft_used(lengths, l) > pow2(l));
    lemma_used_stays_over(lengths, l, 15);
}

proof fn lemma_over_oversubscribed(lengths: Seq<u8>, b: nat)
    requires
        b >= 1,
        kraft_used(lengths, b) > pow2(b),
    ensures
        oversubscribed(lengths),
    decreases b,
{
    if b > 1 && kraft_used(lengths, (b - 1) as nat) > pow2((b - 1) as nat) {
        lemma_over_oversubscribed(lengths, (b - 1) as nat);
    } else {
        vstd::arithmetic::power2::lemma2_to64();
        lemma_pow2_unfold(b);
        assert(kraft_used(lengths, (b - 1) as nat) <= pow2((b - 1) as nat));
        assert(count_len(lengths, b) > 0);
        let s = lemma_last_of_length(lengths, b, lengths.len() as int);
        lemma_first_code_used(lengths, b);
        assert(code_of(lengths, s) + 1 == kraft_used(lengths, b));
    }
}

/// Code lengths are accepted exactly when none is longer than 15 and they
/// satisfy Kraft's inequality: the sum over the used lengths `l` of
/// 2^(15 - l) is at most 2^15. Incomplete codes are accepted.
pub proof fn lemma_valid_lengths_kraft(lengths: Seq<u8>)
    ensures
        valid_lengths(lengths) <==> max_len(lengths) <= 15 && kraft_used(lengths, 15) <= pow2(15),
{
    if max_len(lengths) <= 15 {
        if oversubscribed(lengths) {
            lemma_oversubscribed_over(lengths);
        }
        if kraft_used(lengths, 15) > pow2(15) {
            lemma_over_oversubscribed(lengths, 15);
        }
    }
}


/// The header of a dynamic block lists the code lengths of the code-length
/// alphabet in the fixed order of RFC 1951, section 3.2.7: the `i`-th 3-bit
/// entry is the length of symbol 16, 17, 18, 0, 8, 7, 9, 6, 10, 5, 11, 4,
/// 12, 3, 13, 2, 14, 1, 15 (at position `i`), and the symbols left out of a
/// short list have length 0.
pub proof fn lemma_code_length_header_layout(data: Seq<u8>, pos: int, k: nat)
    requires
        k <= 19,
    ensures
        ({
            let rfc_order = seq![
                16int, 17int, 18int, 0int, 8int, 7int, 9int, 6int, 10int, 5int, 11int, 4int, 12int, 3int,
                13int, 2int, 14int, 1int, 15int,
            ];
            let l = code_length_lengths(data, pos, k);
            &&& l.len() == 19
            &&& forall|i: int| 0 <= i < k ==> l[#[trigger] rfc_order[i]] as nat == bits_le(data, pos + 3 * i, 3)
            &&& forall|i: int| k <= i < 19 ==> l[#[trigger] rfc_order[i]] == 0
        }),
    decreases k,
{
    let rfc_order = seq![
        16int, 17int, 18int, 0int, 8int, 7int, 9int, 6int, 10int, 5int, 11int, 4int, 12int, 3int,
        13int, 2int, 14int, 1int, 15int,
    ];
    assert(forall|i: int| 0 <= i < 19 ==> code_length_order()[i] as int == #[trigger] rfc_order[i]);
    assert(forall|i: int, j: int| 0 <= i < 19 && 0 <= j < 19 && i != j ==> #[trigger] rfc_order[i] != #[trigger] rfc_order[j]);
    assert(forall|i: int| 0 <= i < 19 ==> 0 <= #[trigger] rfc_order[i] < 19);
    if k > 0 {
        lemma_code_length_header_layout(data, pos, (k - 1) as nat);
        lemma_bits_le_bound(data, pos + 3 * (k - 1), 3);
        vstd::arithmetic::power2::lemma2_to64();
        let l = code_length_lengths(data, pos, k);
        let prev = code_length_lengths(data, pos, (k - 1) as nat);
        assert(l == prev.update(rfc_order[k - 1], bits_le(data, pos + 3 * (k - 1), 3) as u8));
        assert forall|i: int| 0 <= i < k implies l[#[trigger] rfc_order[i]] as nat == bits_le(data, pos + 3 * i, 3) by {
            if i < k - 1 {
                assert(rfc_order[i] != rfc_order[k - 1]);
            }
        }
        assert forall|i: int| k <= i < 19 implies l[#[trigger] rfc_order[i]] == 0 by {
            assert(rfc_order[i] != rfc_order[k - 1]);
        }
    } else {
        assert forall|i: int| k <= i < 19 implies code_length_lengths(data, pos, k)[#[trigger] rfc_order[i]] == 0 by {}
    }
}

/// The length symbols 257..284 cover the match lengths 3 to 258 without gap
/// or overlap: the first starts at 3, each starts where the one before it
/// ends (its base plus 2^extra values), their extra bits are 0 for the first
/// eight and one more every four after that, and the last of them ends at
/// 258, which symbol 285 stands for alone.
pub proof fn lemma_length_codes_cover_3_to_258()
    ensures
        length_base().len() == 29 && length_extra().len() == 29,
        length_base()[0] == 3,
        forall|i: int| 0 <= i < 28 ==> #[trigger] length_extra()[i] == if i < 8 { 0 } else { i / 4 - 1 },
        forall|i: int| 0 <= i < 27 ==> #[trigger] length_base()[i + 1] == length_base()[i] + pow2(length_extra()[i]),
        length_base()[27] + pow2(length_extra()[27]) == 259,
        length_base()[28] == 258 && length_extra()[28] == 0,
{
    vstd::arithmetic::power2::lemma2_to64();
    assert forall|i: int| 0 <= i < 27 implies #[trigger] length_base()[i + 1] == length_base()[i] + pow2(length_extra()[i]) by {
        vstd::arithmetic::power2::lemma2_to64();
    }
}

/// The distance symbols 0..29 cover the distances 1 to 32768 without gap or
/// overlap: the first starts at 1, each starts where the one before it ends,
/// their extra bits are 0 for the first four and one more every two after
/// that, and the last ends at 32768.
pub proof fn lemma_distance_codes_cover_1_to_32768()
    ensures
        distance_base().len() == 30 && distance_extra().len() == 30,
        distance_base()[0] == 1,
        forall|i: int| 0 <= i < 30 ==> #[trigger] distance_extra()[i] == if i < 4 { 0 } else { i / 2 - 1 },
        forall|i: int| 0 <= i < 29 ==> #[trigger] distance_base()[i + 1] == distance_base()[i] + pow2(distance_extra()[i]),
        distance_base()[29] + pow2(distance_extra()[29]) == 32769,
{
    vstd::arithmetic::power2::lemma2_to64();
    assert forall|i: int| 0 <= i < 29 implies #[trigger] distance_base()[i + 1] == distance_base()[i] + pow2(distance_extra()[i]) by {
        vstd::arithmetic::power2::lemma2_to64();
    }
}

/// Copying `len` bytes from `dist` back appends `len` bytes, each equal to
/// the byte `dist` places before it in the result: a copy may overlap the
/// bytes it produces, repeating them.
pub proof fn lemma_copy_back_repeats(out: Seq<u8>, dist: nat, len: nat)
    requires
        1 <= dist <= out.len(),
    ensures
        copy_back(out, dist, len).len() == out.len() + len,
        copy_back(out, dist, len).subrange(0, out.len() as int) == out,
        forall|k: int|
            out.len() <= k < out.len() + len ==> #[trigger] copy_back(out, dist, len)[k] == copy_back(out, dist, len)[k
                - dist],
    decreases len,
{
    if len > 0 {
        let next = out.push(out[out.len() - dist]);
        lemma_copy_back_repeats(next, dist, (len - 1) as nat);
        let r = copy_back(out, dist, len);
        assert(r == copy_back(next, dist, (len - 1) as nat));
        assert(r.subrange(0, next.len() as int) == next);
        assert(r.subrange(0, out.len() as int) =~= out) by {
            assert forall|k: int| 0 <= k < out.len() implies r.subrange(0, out.len() as int)[k] == out[k] by {
                assert(r.subrange(0, next.len() as int)[k] == next[k]);
            }
        }
        assert forall|k: int| out.len() <= k < out.len() + len implies #[trigger] r[k] == r[k - dist] by {
            if k == out.len() {
                assert(r.subrange(0, next.len() as int)[k] == next[k]);
                assert(r.subrange(0, next.len() as int)[k - dist] == next[k - dist]);
            }
        }
    } else {
        assert(out.subrange(0, out.len() as int) =~= out);
    }
}
}
