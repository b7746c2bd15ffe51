//! Fixed-width integers on the wire.
//!
//! A value of one, four or eight bytes travels either in the byte order of the
//! host or in the opposite one. The model is plain arithmetic: byte `i` of the
//! little-endian form of `v` is `(v / 256^i) % 256`, and the big-endian form is
//! the same bytes reversed.

use vstd::prelude::*;

verus! {

/// Arrangement of the bytes of a multi-byte integer.
#[derive(Clone, Copy, Debug, PartialEq, Eq, Structural)]
pub enum Endianness {
    /// Least significant byte first.
    Little,
    /// Most significant byte first.
    Big,
}

/// Byte order of a frame relative to the host.
#[derive(Clone, Copy, Debug, PartialEq, Eq, Structural)]
pub enum ByteOrder {
    /// The order in which the host keeps integers in memory.
    Native,
    /// The reverse of the host's order.
    Swapped,
}

/// Width of a fixed-width frame.
#[derive(Clone, Copy, Debug, PartialEq, Eq, Structural)]
pub enum Width {
    /// One byte.
    Byte,
    /// Four bytes.
    Dword,
    /// Eight bytes.
    Qword,
}

/// `256^width`: the number of values that `width` bytes can hold.
pub open spec fn radix_pow(width: nat) -> nat
    decreases width,
{
    if width == 0 {
        1
    } else {
        256 * radix_pow((width - 1) as nat)
    }
}

/// The low `width` bytes of `value`, least significant first.
pub open spec fn le_bytes(value: nat, width: nat) -> Seq<u8>
    decreases width,
{
    if width == 0 {
        Seq::empty()
    } else {
        seq![(value % 256) as u8] + le_bytes(value / 256, (width - 1) as nat)
    }
}

/// The number whose little-endian form is `bytes`.
pub open spec fn le_value(bytes: Seq<u8>) -> nat
    decreases bytes.len(),
{
    if bytes.len() == 0 {
        0
    } else {
        bytes[0] as nat + 256 * le_value(bytes.drop_first())
    }
}

/// The opposite arrangement.
pub open spec fn flipped(layout: Endianness) -> Endianness {
    match layout {
        Endianness::Little => Endianness::Big,
        Endianness::Big => Endianness::Little,
    }
}

/// The arrangement that a frame of the given order has on a host of the given
/// endianness.
pub open spec fn wire_layout(order: ByteOrder, host: Endianness) -> Endianness {
    match order {
        ByteOrder::Native => host,
        ByteOrder::Swapped => flipped(host),
    }
}

/// The bytes of a frame with their order reversed.
pub open spec fn swapped(bytes: Seq<u8>) -> Seq<u8> {
    bytes.reverse()
}

/// The frame that carries `value`, cut down to `width` bytes, in the given arrangement.
pub open spec fn encoded(value: nat, width: nat, layout: Endianness) -> Seq<u8> {
    match layout {
        Endianness::Little => le_bytes(value, width),
        Endianness::Big => swapped(le_bytes(value, width)),
    }
}

/// The value that a frame in the given arrangement carries.
pub open spec fn decoded(bytes: Seq<u8>, layout: Endianness) -> nat {
    match layout {
        Endianness::Little => le_value(bytes),
        Endianness::Big => le_value(swapped(bytes)),
    }
}

/// The two's-complement reading of the low `width` bytes of `value`.
pub open spec fn signed_value(value: nat, width: nat) -> int {
    let low = value % radix_pow(width);
    if 2 * low < radix_pow(width) {
        low as int
    } else {
        low - radix_pow(width)
    }
}

impl Width {
    /// Number of bytes in a frame of this width.
    pub open spec fn bytes(self) -> nat {
        match self {
            Width::Byte => 1,
            Width::Dword => 4,
            Width::Qword => 8,
        }
    }

    /// Number of bytes in a frame of this width.
    pub fn len(self) -> (n: usize)
        ensures
            n == self.bytes(),
    {
        match self {
            Width::Byte => 1,
            Width::Dword => 4,
            Width::Qword => 8,
        }
    }

    /// The width of a frame of `len` bytes, if there is one.
    pub fn from_len(len: usize) -> (w: Option<Width>)
        ensures
            w matches Some(width) ==> width.bytes() == len,
            w is None <==> len != 1 && len != 4 && len != 8,
    {
        if len == 1 {
            Some(Width::Byte)
        } else if len == 4 {
            Some(Width::Dword)
        } else if len == 8 {
            Some(Width::Qword)
        } else {
            None
        }
    }
}

impl Endianness {
    /// The opposite arrangement.
    pub fn flip(self) -> (other: Endianness)
        ensures
            other == flipped(self),
    {
        match self {
            Endianness::Little => Endianness::Big,
            Endianness::Big => Endianness::Little,
        }
    }
}

impl ByteOrder {
    /// The arrangement that a frame of this order has on a host of the given endianness.
    pub fn on_host(self, host: Endianness) -> (layout: Endianness)
        ensures
            layout == wire_layout(self, host),
    {
        match self {
            ByteOrder::Native => host,
            ByteOrder::Swapped => host.flip(),
        }
    }
}

/// `width` bytes hold `256^width` values, at least one.
pub proof fn lemma_radix_pow_positive(width: nat)
    ensures
        radix_pow(width) >= 1,
    decreases width,
{
    if width > 0 {
        lemma_radix_pow_positive((width - 1) as nat);
    }
}

/// The little-endian form of a value has exactly the width asked for.
pub proof fn lemma_le_bytes_len(value: nat, width: nat)
    ensures
        le_bytes(value, width).len() == width,
    decreases width,
{
    if width > 0 {
        lemma_le_bytes_len(value / 256, (width - 1) as nat);
    }
}

/// A frame of `n` bytes carries a value below `256^n`.
pub proof fn lemma_le_value_bound(bytes: Seq<u8>)
    ensures
        le_value(bytes) < radix_pow(bytes.len()),
    decreases bytes.len(),
{
    if bytes.len() > 0 {
        lemma_le_value_bound(bytes.drop_first());
    }
}

/// Reading back the little-endian form of a value gives the value cut down to
/// the width.
pub proof fn lemma_le_value_of_le_bytes(value: nat, width: nat)
    ensures
        le_value(le_bytes(value, width)) == value % radix_pow(width),
    decreases width,
{
    if width > 0 {
        let rest = (width - 1) as nat;
        let tail = le_bytes(value / 256, rest);
        lemma_le_value_of_le_bytes(value / 256, rest);
        lemma_radix_pow_positive(rest);
        assert(le_bytes(value, width).drop_first() =~= tail);
        assert(le_bytes(value, width)[0] == (value % 256) as u8);
        lemma_mod_split(value, radix_pow(rest));
    }
}

/// `v % (256 * m)` splits into its lowest byte and the rest.
proof fn lemma_mod_split(value: nat, m: nat)
    requires
        m >= 1,
    ensures
        value % (256 * m) == value % 256 + 256 * ((value / 256) % m),
{
    let q = value / 256;
    let r = value % 256;
    let qq = q / m;
    let qr = q % m;
    assert(value == 256 * q + r);
    assert(q == m * qq + qr) by (nonlinear_arith)
        requires
            qq == q / m,
            qr == q % m,
            m >= 1,
    ;
    assert(value == (256 * m) * qq + (256 * qr + r)) by (nonlinear_arith)
        requires
            value == 256 * q + r,
            q == m * qq + qr,
    ;
    assert(0 <= 256 * qr + r < 256 * m) by (nonlinear_arith)
        requires
            0 <= qr < m,
            0 <= r < 256,
    ;
    vstd::arithmetic::div_mod::lemma_fundamental_div_mod_converse(
        value as int,
        (256 * m) as int,
        qq as int,
        (256 * qr + r) as int,
    );
}

/// Writing out the value that a frame carries gives the frame back.
pub proof fn lemma_le_bytes_of_le_value(bytes: Seq<u8>)
    ensures
        le_bytes(le_value(bytes), bytes.len()) == bytes,
    decreases bytes.len(),
{
    if bytes.len() > 0 {
        let tail = bytes.drop_first();
        lemma_le_bytes_of_le_value(tail);
        let v = le_value(bytes);
        assert(v == bytes[0] as nat + 256 * le_value(tail));
        assert(v % 256 == bytes[0] as nat && v / 256 == le_value(tail)) by (nonlinear_arith)
            requires
                v == bytes[0] as nat + 256 * le_value(tail),
                0 <= bytes[0] < 256,
        ;
        assert(le_bytes(v, bytes.len()) =~= seq![bytes[0]] + tail);
        assert(seq![bytes[0]] + tail =~= bytes);
    } else {
        assert(le_bytes(le_value(bytes), 0) =~= bytes);
    }
}

/// Reversing the order of the bytes twice gives the frame back.
pub proof fn lemma_swap_involution(bytes: Seq<u8>)
    ensures
        swapped(swapped(bytes)) == bytes,
{
    assert(bytes.reverse().reverse() =~= bytes);
}

/// A frame in the opposite arrangement is the same frame with its bytes reversed.
pub proof fn lemma_flipped_is_swapped(value: nat, width: nat, layout: Endianness)
    ensures
        encoded(value, width, flipped(layout)) == swapped(encoded(value, width, layout)),
{
    lemma_swap_involution(le_bytes(value, width));
}

/// Swapping and flipping cancel: the reverse of a frame, read in the opposite
/// arrangement, carries what the frame carries. So a read in swapped order of
/// the reversed bytes gives what a read in native order gives of the bytes.
pub proof fn lemma_swapped_frame_in_flipped_layout(bytes: Seq<u8>, layout: Endianness)
    ensures
        decoded(swapped(bytes), flipped(layout)) == decoded(bytes, layout),
{
    lemma_swap_involution(bytes);
}

/// Every frame is as wide as asked, whatever the arrangement.
pub proof fn lemma_encoded_len(value: nat, width: nat, layout: Endianness)
    ensures
        encoded(value, width, layout).len() == width,
{
    lemma_le_bytes_len(value, width);
}

/// Round trip: what is decoded from the frame of a value, in the same
/// arrangement, is the value cut down to the width of the frame.
pub proof fn lemma_codec_round_trip(value: nat, width: nat, layout: Endianness)
    ensures
        decoded(encoded(value, width, layout), layout) == value % radix_pow(width),
{
    lemma_le_value_of_le_bytes(value, width);
    lemma_swap_involution(le_bytes(value, width));
}

/// Round trip of a value that fits the width: it comes back unchanged.
pub proof fn lemma_codec_round_trip_exact(value: nat, width: nat, layout: Endianness)
    requires
        value < radix_pow(width),
    ensures
        decoded(encoded(value, width, layout), layout) == value,
{
    lemma_codec_round_trip(value, width, layout);
    vstd::arithmetic::div_mod::lemma_small_mod(value, radix_pow(width));
}

/// Round trip the other way: encoding what a frame carries gives the frame back.
pub proof fn lemma_frame_round_trip(bytes: Seq<u8>, layout: Endianness)
    ensures
        encoded(decoded(bytes, layout), bytes.len(), layout) == bytes,
{
    match layout {
        Endianness::Little => {
            lemma_le_bytes_of_le_value(bytes);
        },
        Endianness::Big => {
            lemma_le_bytes_of_le_value(swapped(bytes));
            lemma_swap_involution(bytes);
        },
    }
}

/// More bytes hold at least as many values.
pub proof fn lemma_radix_pow_monotonic(narrow: nat, wide: nat)
    requires
        narrow <= wide,
    ensures
        radix_pow(narrow) <= radix_pow(wide),
    decreases wide,
{
    if narrow < wide {
        lemma_radix_pow_monotonic(narrow, (wide - 1) as nat);
    }
}

/// Eight bytes hold exactly the values of a `u64`, four those of a `u32`.
pub proof fn lemma_radix_pow_values()
    ensures
        radix_pow(1) == 0x100,
        radix_pow(4) == 0x1_0000_0000,
        radix_pow(7) == 0x100_0000_0000_0000,
        radix_pow(8) == 0x1_0000_0000_0000_0000,
{
    reveal_with_fuel(radix_pow, 9);
}

/// The bytes of a frame in the opposite order.
pub fn swap_bytes(bytes: &[u8]) -> (out: Vec<u8>)
    ensures
        out@ == swapped(bytes@),
{
    let n: usize = bytes.len();
    let mut out: Vec<u8> = Vec::with_capacity(n);
    let mut i: usize = n;
    while i > 0
        invariant
            n == bytes.len(),
            i <= n,
            out@.len() == n - i,
            forall|k: int| 0 <= k < out@.len() ==> out@[k] == bytes@[n - 1 - k],
        decreases i,
    {
        i = i - 1;
        out.push(bytes[i]);
    }
    assert(out@ =~= bytes@.reverse());
    out
}

/// Serialises `value`, cut down to `width` bytes, in the given arrangement.
pub fn encode_fixed(value: u64, width: Width, layout: Endianness) -> (frame: Vec<u8>)
    ensures
        frame@ == encoded(value as nat, width.bytes(), layout),
        frame@.len() == width.bytes(),
{
    let n: usize = width.len();
    let mut low_first: Vec<u8> = Vec::with_capacity(n);
    let mut rest: u64 = value;
    let mut i: usize = 0;
    while i < n
        invariant
            i <= n,
            n == width.bytes(),
            low_first@.len() == i,
            low_first@ + le_bytes(rest as nat, (n - i) as nat) == le_bytes(
                value as nat,
                n as nat,
            ),
        decreases n - i,
    {
        let low: u8 = (rest % 256) as u8;
        proof {
            let remaining = (n - i) as nat;
            assert(le_bytes(rest as nat, remaining) == seq![low] + le_bytes(
                (rest / 256) as nat,
                (remaining - 1) as nat,
            ));
            assert(low_first@.push(low) + le_bytes((rest / 256) as nat, (remaining - 1) as nat)
                =~= low_first@ + le_bytes(rest as nat, remaining));
        }
        low_first.push(low);
        rest = rest / 256;
        i = i + 1;
    }
    proof {
        assert(low_first@ + le_bytes(rest as nat, 0) =~= low_first@);
        lemma_le_bytes_len(value as nat, n as nat);
    }
    match layout {
        Endianness::Little => low_first,
        Endianness::Big => {
            let high_first = swap_bytes(low_first.as_slice());
            high_first
        },
    }
}

/// The value carried by a little-endian frame of at most eight bytes.
fn le_value_of(bytes: &[u8]) -> (value: u64)
    requires
        bytes.len() <= 8,
    ensures
        value == le_value(bytes@),
{
    let n: usize = bytes.len();
    let mut acc: u64 = 0;
    let mut i: usize = n;
    proof {
        assert(bytes@.skip(n as int) =~= Seq::<u8>::empty());
    }
    while i > 0
        invariant
            n == bytes.len(),
            n <= 8,
            i <= n,
            acc == le_value(bytes@.skip(i as int)),
        decreases i,
    {
        proof {
            let upper = bytes@.skip(i as int);
            let whole = bytes@.skip(i - 1);
            lemma_le_value_bound(upper);
            lemma_radix_pow_monotonic(upper.len(), 7);
            lemma_radix_pow_values();
            assert(whole.drop_first() =~= upper);
            assert(whole[0] == bytes@[i - 1]);
        }
        i = i - 1;
        acc = acc * 256 + bytes[i] as u64;
    }
    proof {
        assert(bytes@.skip(0) =~= bytes@);
    }
    acc
}

/// Reads the value out of a frame in the given arrangement.
///
/// A frame is one, four or eight bytes wide; for any other length there is no
/// value.
pub fn decode_fixed(bytes: &[u8], layout: Endianness) -> (value: Option<u64>)
    ensures
        value is Some <==> bytes@.len() == 1 || bytes@.len() == 4 || bytes@.len() == 8,
        value matches Some(v) ==> v == decoded(bytes@, layout),
{
    let n: usize = bytes.len();
    if n != 1 && n != 4 && n != 8 {
        return None;
    }
    match layout {
        Endianness::Little => Some(le_value_of(bytes)),
        Endianness::Big => {
            let low_first = swap_bytes(bytes);
            Some(le_value_of(low_first.as_slice()))
        },
    }
}

/// Reads the eight bytes of `bits` as a two's-complement number.
pub fn signed_qword(bits: u64) -> (value: i64)
    ensures
        value == signed_value(bits as nat, 8),
{
    proof {
        lemma_radix_pow_values();
    }
    if bits < 0x8000_0000_0000_0000 {
        bits as i64
    } else {
        let above: u64 = bits - 0x8000_0000_0000_0000;
        above as i64 + i64::MIN
    }
}

/// Reads the four bytes of `bits` as a two's-complement number.
pub fn signed_dword(bits: u32) -> (value: i32)
    ensures
        value == signed_value(bits as nat, 4),
{
    proof {
        lemma_radix_pow_values();
    }
    if bits < 0x8000_0000 {
        bits as i32
    } else {
        let above: u32 = bits - 0x8000_0000;
        above as i32 + i32::MIN
    }
}

/// The memory representation of a 16-bit value on this machine, through
/// `u16::to_ne_bytes` of the standard library.
///
/// Claimed without proof: the two bytes are those of the value, in one of the
/// two arrangements. Which one depends on the machine and is not stated.
#[verifier::external_body]
fn native_bytes(value: u16) -> (bytes: [u8; 2])
    ensures
        bytes@ == encoded(value as nat, 2, Endianness::Little) || bytes@ == encoded(
            value as nat,
            2,
            Endianness::Big,
        ),
{
    value.to_ne_bytes()
}

/// The arrangement in which this machine keeps integers in memory.
///
/// Nothing is stated of the answer: it is a property of the machine. It is
/// what [`layout_of_probe`] reads off the way the machine stores the number one.
pub fn host_endianness() -> Endianness {
    layout_of_probe(native_bytes(1))
}

/// The arrangement that the memory representation of the 16-bit number one
/// shows: little-endian where the one comes first.
pub open spec fn probed_layout(probe: Seq<u8>) -> Endianness {
    if probe[0] == 1 {
        Endianness::Little
    } else {
        Endianness::Big
    }
}

/// Reads the arrangement off the memory representation of the 16-bit number
/// one.
///
/// Where the two bytes are those of the number one in either arrangement,
/// the answer is that arrangement.
pub fn layout_of_probe(probe: [u8; 2]) -> (layout: Endianness)
    ensures
        layout == probed_layout(probe@),
        probe@ == encoded(1, 2, Endianness::Little) || probe@ == encoded(1, 2, Endianness::Big)
            ==> encoded(1, 2, layout) == probe@,
{
    proof {
        reveal_with_fuel(le_bytes, 3);
        assert(le_bytes(1, 2) =~= seq![1u8, 0u8]);
        assert(swapped(le_bytes(1, 2)) =~= seq![0u8, 1u8]);
    }
    if probe[0] == 1 {
        Endianness::Little
    } else {
        Endianness::Big
    }
}

/// The `width` bytes that stand for the number `value` in two's complement,
/// read as an unsigned number.
pub open spec fn unsigned_bits(value: int, width: nat) -> nat {
    if value >= 0 {
        value as nat
    } else {
        (value + radix_pow(width)) as nat
    }
}

/// The signed and the unsigned reading of the same bytes determine each other.
pub proof fn lemma_signed_round_trip(bits: nat, width: nat)
    requires
        bits < radix_pow(width),
    ensures
        unsigned_bits(signed_value(bits, width), width) == bits,
{
    vstd::arithmetic::div_mod::lemma_small_mod(bits, radix_pow(width));
}

/// The eight bytes that stand for `value` in two's complement.
pub fn qword_bits(value: i64) -> (bits: u64)
    ensures
        bits == unsigned_bits(value as int, 8),
{
    proof {
        lemma_radix_pow_values();
    }
    if value >= 0 {
        value as u64
    } else {
        let above: i64 = value - i64::MIN;
        above as u64 + 0x8000_0000_0000_0000
    }
}

/// The four bytes that stand for `value` in two's complement.
pub fn dword_bits(value: i32) -> (bits: u32)
    ensures
        bits == unsigned_bits(value as int, 4),
{
    proof {
        lemma_radix_pow_values();
    }
    if value >= 0 {
        value as u32
    } else {
        let above: i32 = value - i32::MIN;
        above as u32 + 0x8000_0000
    }
}

} // verus!
