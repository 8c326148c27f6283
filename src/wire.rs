//! The CDR wire engine: aligned primitives in either byte order, length-prefixed
//! text and sequences, and unprefixed fixed-size runs, all read at a cursor
//! that counts from the start of the buffer.
use vstd::prelude::*;

verus! {

/// Why a buffer could not be decoded.
#[derive(Debug, Clone, Copy, PartialEq, Eq)]
pub enum DecodeError {
    /// Some field, length prefix or element would end past the buffer's end.
    /// An advertised length far beyond the buffer is reported the same way.
    TruncatedInput,
}

/// The first offset at or after `p` that is a multiple of `w`.
pub open spec fn align_up(p: nat, w: nat) -> nat
    recommends
        w > 0,
{
    if p % w == 0 {
        p
    } else {
        p + (w - p % w) as nat
    }
}

/// The unsigned value of the `n` bytes at `at`, least significant first.
pub open spec fn le_uint(s: Seq<u8>, at: int, n: nat) -> nat
    decreases n,
{
    if n == 0 {
        0
    } else {
        s[at] as nat + 256 * le_uint(s, at + 1, (n - 1) as nat)
    }
}

/// The unsigned value of the `n` bytes at `at`, most significant first.
pub open spec fn be_uint(s: Seq<u8>, at: int, n: nat) -> nat
    decreases n,
{
    if n == 0 {
        0
    } else {
        s[at + n - 1] as nat + 256 * be_uint(s, at, (n - 1) as nat)
    }
}

/// The unsigned value of the `n` bytes at `at`, in the byte order that
/// `big` names (`true`: big-endian).
pub open spec fn uint_at(s: Seq<u8>, at: int, n: nat, big: bool) -> nat {
    if big {
        be_uint(s, at, n)
    } else {
        le_uint(s, at, n)
    }
}

/// `256` to the power `n`.
pub open spec fn byte_bound(n: nat) -> nat
    decreases n,
{
    if n == 0 {
        1
    } else {
        256 * byte_bound((n - 1) as nat)
    }
}

/// An unsigned primitive of `n` bytes read at the cursor `p`, in the byte
/// order that `big` names: it starts at `p` aligned to `n`, and the cursor
/// moves past it.
pub open spec fn raw_at(s: Seq<u8>, p: nat, n: nat, big: bool) -> Option<(nat, nat)> {
    let a = align_up(p, n);
    if a + n <= s.len() {
        Some((uint_at(s, a as int, n, big), a + n))
    } else {
        None
    }
}

proof fn lemma_byte_bounds()
    ensures
        byte_bound(0) == 1,
        byte_bound(1) == 0x100,
        byte_bound(2) == 0x1_0000,
        byte_bound(3) == 0x100_0000,
        byte_bound(4) == 0x1_0000_0000,
        byte_bound(5) == 0x100_0000_0000,
        byte_bound(6) == 0x1_0000_0000_0000,
        byte_bound(7) == 0x100_0000_0000_0000,
        byte_bound(8) == 0x1_0000_0000_0000_0000,
{
    reveal_with_fuel(byte_bound, 9);
}

/// Reads an unsigned primitive of `n` bytes at the cursor `p`.
fn read_raw(buf: &[u8], p: usize, n: usize, big: bool) -> (r: Result<(u64, usize), DecodeError>)
    requires
        n == 1 || n == 2 || n == 4 || n == 8,
    ensures
        match r {
            Ok((v, q)) => raw_at(buf@, p as nat, n as nat, big) == Some((v as nat, q as nat))
                && q <= buf@.len() && (v as nat) < byte_bound(n as nat),
            Err(_) => raw_at(buf@, p as nat, n as nat, big) is None,
        },
{
    let len = buf.len();
    if p > len {
        return Err(DecodeError::TruncatedInput);
    }
    let rem = p % n;
    let pad = if rem == 0 { 0 } else { n - rem };
    if pad > len - p || n > len - p - pad {
        return Err(DecodeError::TruncatedInput);
    }
    let a = p + pad;
    assert(a as nat == align_up(p as nat, n as nat));
    let v = if big { read_be(buf, a, n) } else { read_le(buf, a, n) };
    Ok((v, a + n))
}

/// The little-endian value of `buf[a..a + n]`.
fn read_le(buf: &[u8], a: usize, n: usize) -> (v: u64)
    requires
        n == 1 || n == 2 || n == 4 || n == 8,
        a + n <= buf@.len(),
    ensures
        v as nat == le_uint(buf@, a as int, n as nat),
        (v as nat) < byte_bound(n as nat),
{
    let len = buf.len();
    let mut v: u64 = 0;
    let mut k: usize = n;
    proof { lemma_byte_bounds(); }
    while k > 0
        invariant
            0 <= k <= n,
            n <= 8,
            a + n <= len,
            len == buf@.len(),
            v as nat == le_uint(buf@, a + k, (n - k) as nat),
            (v as nat) < byte_bound((n - k) as nat),
            byte_bound(7) == 0x100_0000_0000_0000,
        decreases k,
    {
        let b = buf[a + k - 1];
        let ghost bb = byte_bound((n - k) as nat);
        proof {
            if n - k < 7 {
                lemma_byte_bound_mono((n - k) as nat, 7);
            }
            assert(v * 256 + b < 256 * bb) by (nonlinear_arith)
                requires v < bb, b < 256;
        }
        v = v * 256 + b as u64;
        k = k - 1;
        assert(le_uint(buf@, a + k, (n - k) as nat) == buf@[a + k] as nat + 256 * le_uint(buf@, a + k + 1, (n - k - 1) as nat));
    }
    v
}

/// The big-endian value of `buf[a..a + n]`.
fn read_be(buf: &[u8], a: usize, n: usize) -> (v: u64)
    requires
        n == 1 || n == 2 || n == 4 || n == 8,
        a + n <= buf@.len(),
    ensures
        v as nat == be_uint(buf@, a as int, n as nat),
        (v as nat) < byte_bound(n as nat),
{
    let len = buf.len();
    let mut v: u64 = 0;
    let mut k: usize = 0;
    proof { lemma_byte_bounds(); }
    while k < n
        invariant
            0 <= k <= n,
            n <= 8,
            a + n <= len,
            len == buf@.len(),
            v as nat == be_uint(buf@, a as int, k as nat),
            (v as nat) < byte_bound(k as nat),
            byte_bound(7) == 0x100_0000_0000_0000,
        decreases n - k,
    {
        let b = buf[a + k];
        let ghost bb = byte_bound(k as nat);
        proof {
            if k < 7 {
                lemma_byte_bound_mono(k as nat, 7);
            }
            assert(v * 256 + b < 256 * bb) by (nonlinear_arith)
                requires v < bb, b < 256;
        }
        v = v * 256 + b as u64;
        k = k + 1;
        assert(be_uint(buf@, a as int, k as nat) == buf@[a + k - 1] as nat + 256 * be_uint(buf@, a as int, (k - 1) as nat));
    }
    v
}

proof fn lemma_byte_bound_mono(i: nat, j: nat)
    requires
        i <= j,
    ensures
        byte_bound(i) <= byte_bound(j),
    decreases j - i,
{
    if i < j {
        lemma_byte_bound_mono(i, (j - 1) as nat);
    }
}

/// A value with a CDR encoding: `decoded` says what a buffer holds at a
/// cursor (the value's model and the cursor after it, or `None` where the
/// buffer ends too early), and `decode_at` reads it.
pub trait Decode: View + Sized {
    /// What `s` holds at the cursor `p`: the value's model and the cursor
    /// after it, or `None` where the buffer ends too early.
    spec fn decoded(s: Seq<u8>, p: nat, big: bool) -> Option<(Self::V, nat)>;

    /// Reads the value at the cursor `p`, and the cursor after it.
    fn decode_at(buf: &[u8], p: usize, big: bool) -> (r: Result<(Self, usize), DecodeError>)
        ensures
            match r {
                Ok((v, q)) => Self::decoded(buf@, p as nat, big) == Some((v@, q as nat)) && q <= buf@.len(),
                Err(_) => Self::decoded(buf@, p as nat, big) is None,
            };

    /// `s` holds `v` as an encoder writes it at the cursor `p`: every
    /// primitive in the byte order `big` at its aligned offset (whatever the padding
    /// before it holds), every length prefix equal to the length it counts.
    spec fn written(s: Seq<u8>, p: nat, v: Self::V, big: bool) -> bool;

    /// Where the encoding of `v` written at `p` ends.
    spec fn written_end(p: nat, v: Self::V) -> nat;

    /// Round trip: what an encoder wrote decodes back to the same value,
    /// and decoding ends where the encoding does.
    proof fn lemma_round_trip(s: Seq<u8>, p: nat, v: Self::V, big: bool)
        requires
            Self::written(s, p, v, big),
        ensures
            Self::decoded(s, p, big) == Some((v, Self::written_end(p, v)));

    /// Decoding reads no byte past where it ends: where `s` is a prefix of
    /// `t` and `s` holds a value at `p`, the value ends within `s` and `t`
    /// holds the same one there.
    proof fn lemma_prefix(s: Seq<u8>, t: Seq<u8>, p: nat, big: bool)
        requires
            is_prefix(s, t),
        ensures
            Self::decoded(s, p, big) is Some ==> Self::decoded(s, p, big).unwrap().1 <= s.len()
                && Self::decoded(t, p, big) == Self::decoded(s, p, big);
}

/// The `n` bytes that encode `v`, least significant first.
pub open spec fn le_bytes(v: nat, n: nat) -> Seq<u8>
    decreases n,
{
    if n == 0 {
        Seq::empty()
    } else {
        seq![(v % 256) as u8] + le_bytes(v / 256, (n - 1) as nat)
    }
}

/// The `n` bytes that encode `v`, most significant first.
pub open spec fn be_bytes(v: nat, n: nat) -> Seq<u8>
    decreases n,
{
    if n == 0 {
        Seq::empty()
    } else {
        be_bytes(v / 256, (n - 1) as nat) + seq![(v % 256) as u8]
    }
}

/// The `n` bytes that encode `v` in the byte order that `big` names.
pub open spec fn bytes_of(v: nat, n: nat, big: bool) -> Seq<u8> {
    if big {
        be_bytes(v, n)
    } else {
        le_bytes(v, n)
    }
}

proof fn lemma_be_round_trip(s: Seq<u8>, at: int, n: nat, v: nat)
    requires
        0 <= at,
        at + n <= s.len(),
        v < byte_bound(n),
        s.subrange(at, at + n) == be_bytes(v, n),
    ensures
        be_uint(s, at, n) == v,
    decreases n,
{
    if n > 0 {
        let rest = be_bytes(v / 256, (n - 1) as nat);
        assert(s[at + n - 1] == s.subrange(at, at + n)[n - 1]);
        assert(s.subrange(at, at + n - 1) =~= s.subrange(at, at + n).subrange(0, n - 1));
        assert(s.subrange(at, at + n).subrange(0, n - 1) =~= rest);
        let bb = byte_bound((n - 1) as nat);
        assert(v / 256 < bb && (v % 256) + 256 * (v / 256) == v) by (nonlinear_arith)
            requires v < 256 * bb;
        lemma_be_round_trip(s, at, (n - 1) as nat, v / 256);
    }
}

proof fn lemma_le_round_trip(s: Seq<u8>, at: int, n: nat, v: nat)
    requires
        0 <= at,
        at + n <= s.len(),
        v < byte_bound(n),
        s.subrange(at, at + n) == le_bytes(v, n),
    ensures
        le_uint(s, at, n) == v,
    decreases n,
{
    if n > 0 {
        let rest = le_bytes(v / 256, (n - 1) as nat);
        assert(s[at] == s.subrange(at, at + n)[0]);
        assert(s.subrange(at + 1, at + n) =~= s.subrange(at, at + n).subrange(1, n as int));
        assert(s.subrange(at, at + n).subrange(1, n as int) =~= rest);
        let bb = byte_bound((n - 1) as nat);
        assert(v / 256 < bb && (v % 256) + 256 * (v / 256) == v) by (nonlinear_arith)
            requires v < 256 * bb;
        lemma_le_round_trip(s, at + 1, (n - 1) as nat, v / 256);
    }
}

/// `s` holds the `n`-byte value `v` as an encoder writes it at `p`.
pub open spec fn prim_written(s: Seq<u8>, p: nat, n: nat, v: nat, big: bool) -> bool {
    &&& v < byte_bound(n)
    &&& align_up(p, n) + n <= s.len()
    &&& s.subrange(align_up(p, n) as int, (align_up(p, n) + n) as int) == bytes_of(v, n, big)
}

/// Round trip and alignment of primitives: a value that an encoder wrote in
/// `n` bytes, in the byte order `big`, at the offset `p` aligned to `n` reads back as
/// written, whatever the padding bytes between `p` and that offset hold.
pub proof fn lemma_primitive_round_trip(s: Seq<u8>, p: nat, n: nat, v: nat, big: bool)
    requires
        n == 1 || n == 2 || n == 4 || n == 8,
        v < byte_bound(n),
        align_up(p, n) + n <= s.len(),
        s.subrange(align_up(p, n) as int, (align_up(p, n) + n) as int) == bytes_of(v, n, big),
    ensures
        raw_at(s, p, n, big) == Some((v, align_up(p, n) + n)),
{
    if big {
        lemma_be_round_trip(s, align_up(p, n) as int, n, v);
    } else {
        lemma_le_round_trip(s, align_up(p, n) as int, n, v);
    }
}

/// The bytes that encode the text `x` as a CDR string: its length counting
/// a terminator, the text, and the terminator.
pub open spec fn text_encoding(x: Seq<u8>, big: bool) -> Seq<u8> {
    bytes_of(x.len() + 1, 4, big) + x + seq![0u8]
}

/// Round trip of text: a string that an encoder wrote at the offset `p`
/// aligned to four reads back as the text it holds.
pub proof fn lemma_text_round_trip(s: Seq<u8>, p: nat, x: Seq<u8>, big: bool)
    requires
        x.len() + 1 < 0x1_0000_0000,
        align_up(p, 4) + 5 + x.len() <= s.len(),
        s.subrange(align_up(p, 4) as int, (align_up(p, 4) + 5 + x.len()) as int) == text_encoding(x, big),
    ensures
        Vec::<u8>::decoded(s, p, big) == Some((x, align_up(p, 4) + 5 + x.len())),
{
    let a = align_up(p, 4) as int;
    let enc = text_encoding(x, big);
    lemma_byte_bounds();
    assert(s.subrange(a, a + 4) =~= enc.subrange(0, 4));
    assert(enc.subrange(0, 4) =~= bytes_of(x.len() + 1, 4, big));
    lemma_primitive_round_trip(s, p, 4, x.len() + 1, big);
    let body = s.subrange(a + 4, a + 5 + x.len());
    assert(body =~= enc.subrange(4, 5 + x.len() as int));
    assert(text_of(body) =~= x);
}

/// `s` is the first `s.len()` bytes of `t`.
pub open spec fn is_prefix(s: Seq<u8>, t: Seq<u8>) -> bool {
    s.len() <= t.len() && s == t.subrange(0, s.len() as int)
}

proof fn lemma_le_uint_prefix(s: Seq<u8>, t: Seq<u8>, at: int, n: nat)
    requires
        is_prefix(s, t),
        0 <= at,
        at + n <= s.len(),
    ensures
        le_uint(s, at, n) == le_uint(t, at, n),
    decreases n,
{
    if n > 0 {
        assert(s[at] == t.subrange(0, s.len() as int)[at]);
        lemma_le_uint_prefix(s, t, at + 1, (n - 1) as nat);
    }
}

proof fn lemma_be_uint_prefix(s: Seq<u8>, t: Seq<u8>, at: int, n: nat)
    requires
        is_prefix(s, t),
        0 <= at,
        at + n <= s.len(),
    ensures
        be_uint(s, at, n) == be_uint(t, at, n),
    decreases n,
{
    if n > 0 {
        assert(s[at + n - 1] == t.subrange(0, s.len() as int)[at + n - 1]);
        lemma_be_uint_prefix(s, t, at, (n - 1) as nat);
    }
}

proof fn lemma_raw_prefix(s: Seq<u8>, t: Seq<u8>, p: nat, n: nat, big: bool)
    requires
        is_prefix(s, t),
    ensures
        raw_at(s, p, n, big) is Some ==> raw_at(s, p, n, big).unwrap().1 <= s.len() && raw_at(t, p, n, big) == raw_at(s, p, n, big),
{
    let a = align_up(p, n);
    if a + n <= s.len() {
        lemma_le_uint_prefix(s, t, a as int, n);
        lemma_be_uint_prefix(s, t, a as int, n);
    }
}

pub proof fn lemma_byte_run_prefix(s: Seq<u8>, t: Seq<u8>, p: nat, big: bool)
    requires
        is_prefix(s, t),
    ensures
        byte_run_at(s, p, big) is Some ==> byte_run_at(s, p, big).unwrap().1 <= s.len() && byte_run_at(t, p, big) == byte_run_at(s, p, big),
{
    lemma_raw_prefix(s, t, p, 4, big);
    if let Some((n, q)) = raw_at(s, p, 4, big) {
        if q + n <= s.len() {
            assert(s.subrange(q as int, (q + n) as int) =~= t.subrange(q as int, (q + n) as int));
        }
    }
}

impl Decode for u8 {
    open spec fn decoded(s: Seq<u8>, p: nat, big: bool) -> Option<(u8, nat)> {
        match raw_at(s, p, 1, big) {
            Some((v, q)) => Some((v as u8, q)),
            None => None,
        }
    }

    open spec fn written(s: Seq<u8>, p: nat, v: u8, big: bool) -> bool {
        prim_written(s, p, 1, v as nat, big)
    }

    open spec fn written_end(p: nat, v: u8) -> nat {
        align_up(p, 1) + 1
    }

    proof fn lemma_round_trip(s: Seq<u8>, p: nat, v: u8, big: bool) {
        lemma_primitive_round_trip(s, p, 1, v as nat, big);
    }

    proof fn lemma_prefix(s: Seq<u8>, t: Seq<u8>, p: nat, big: bool) {
        lemma_raw_prefix(s, t, p, 1, big);
    }

    fn decode_at(buf: &[u8], p: usize, big: bool) -> (r: Result<(u8, usize), DecodeError>) {
        let (v, q) = read_raw(buf, p, 1, big)?;
        Ok((v as u8, q))
    }
}

impl Decode for u16 {
    open spec fn decoded(s: Seq<u8>, p: nat, big: bool) -> Option<(u16, nat)> {
        match raw_at(s, p, 2, big) {
            Some((v, q)) => Some((v as u16, q)),
            None => None,
        }
    }

    open spec fn written(s: Seq<u8>, p: nat, v: u16, big: bool) -> bool {
        prim_written(s, p, 2, v as nat, big)
    }

    open spec fn written_end(p: nat, v: u16) -> nat {
        align_up(p, 2) + 2
    }

    proof fn lemma_round_trip(s: Seq<u8>, p: nat, v: u16, big: bool) {
        lemma_primitive_round_trip(s, p, 2, v as nat, big);
    }

    proof fn lemma_prefix(s: Seq<u8>, t: Seq<u8>, p: nat, big: bool) {
        lemma_raw_prefix(s, t, p, 2, big);
    }

    fn decode_at(buf: &[u8], p: usize, big: bool) -> (r: Result<(u16, usize), DecodeError>) {
        let (v, q) = read_raw(buf, p, 2, big)?;
        Ok((v as u16, q))
    }
}

impl Decode for u32 {
    open spec fn decoded(s: Seq<u8>, p: nat, big: bool) -> Option<(u32, nat)> {
        match raw_at(s, p, 4, big) {
            Some((v, q)) => Some((v as u32, q)),
            None => None,
        }
    }

    open spec fn written(s: Seq<u8>, p: nat, v: u32, big: bool) -> bool {
        prim_written(s, p, 4, v as nat, big)
    }

    open spec fn written_end(p: nat, v: u32) -> nat {
        align_up(p, 4) + 4
    }

    proof fn lemma_round_trip(s: Seq<u8>, p: nat, v: u32, big: bool) {
        lemma_primitive_round_trip(s, p, 4, v as nat, big);
    }

    proof fn lemma_prefix(s: Seq<u8>, t: Seq<u8>, p: nat, big: bool) {
        lemma_raw_prefix(s, t, p, 4, big);
    }

    fn decode_at(buf: &[u8], p: usize, big: bool) -> (r: Result<(u32, usize), DecodeError>) {
        let (v, q) = read_raw(buf, p, 4, big)?;
        Ok((v as u32, q))
    }
}

impl Decode for u64 {
    open spec fn decoded(s: Seq<u8>, p: nat, big: bool) -> Option<(u64, nat)> {
        match raw_at(s, p, 8, big) {
            Some((v, q)) => Some((v as u64, q)),
            None => None,
        }
    }

    open spec fn written(s: Seq<u8>, p: nat, v: u64, big: bool) -> bool {
        prim_written(s, p, 8, v as nat, big)
    }

    open spec fn written_end(p: nat, v: u64) -> nat {
        align_up(p, 8) + 8
    }

    proof fn lemma_round_trip(s: Seq<u8>, p: nat, v: u64, big: bool) {
        lemma_primitive_round_trip(s, p, 8, v as nat, big);
    }

    proof fn lemma_prefix(s: Seq<u8>, t: Seq<u8>, p: nat, big: bool) {
        lemma_raw_prefix(s, t, p, 8, big);
    }

    fn decode_at(buf: &[u8], p: usize, big: bool) -> (r: Result<(u64, usize), DecodeError>) {
        read_raw(buf, p, 8, big)
    }
}

impl Decode for i16 {
    open spec fn decoded(s: Seq<u8>, p: nat, big: bool) -> Option<(i16, nat)> {
        match raw_at(s, p, 2, big) {
            Some((v, q)) => Some((v as i16, q)),
            None => None,
        }
    }

    open spec fn written(s: Seq<u8>, p: nat, v: i16, big: bool) -> bool {
        prim_written(s, p, 2, (v as u16) as nat, big)
    }

    open spec fn written_end(p: nat, v: i16) -> nat {
        align_up(p, 2) + 2
    }

    proof fn lemma_round_trip(s: Seq<u8>, p: nat, v: i16, big: bool) {
        lemma_primitive_round_trip(s, p, 2, (v as u16) as nat, big);
        assert((v as u16) as i16 == v) by (bit_vector);
    }

    proof fn lemma_prefix(s: Seq<u8>, t: Seq<u8>, p: nat, big: bool) {
        lemma_raw_prefix(s, t, p, 2, big);
    }

    fn decode_at(buf: &[u8], p: usize, big: bool) -> (r: Result<(i16, usize), DecodeError>) {
        let (v, q) = read_raw(buf, p, 2, big)?;
        Ok((v as i16, q))
    }
}

impl Decode for i32 {
    open spec fn decoded(s: Seq<u8>, p: nat, big: bool) -> Option<(i32, nat)> {
        match raw_at(s, p, 4, big) {
            Some((v, q)) => Some((v as i32, q)),
            None => None,
        }
    }

    open spec fn written(s: Seq<u8>, p: nat, v: i32, big: bool) -> bool {
        prim_written(s, p, 4, (v as u32) as nat, big)
    }

    open spec fn written_end(p: nat, v: i32) -> nat {
        align_up(p, 4) + 4
    }

    proof fn lemma_round_trip(s: Seq<u8>, p: nat, v: i32, big: bool) {
        lemma_primitive_round_trip(s, p, 4, (v as u32) as nat, big);
        assert((v as u32) as i32 == v) by (bit_vector);
    }

    proof fn lemma_prefix(s: Seq<u8>, t: Seq<u8>, p: nat, big: bool) {
        lemma_raw_prefix(s, t, p, 4, big);
    }

    fn decode_at(buf: &[u8], p: usize, big: bool) -> (r: Result<(i32, usize), DecodeError>) {
        let (v, q) = read_raw(buf, p, 4, big)?;
        Ok((v as i32, q))
    }
}

/// A boolean is one byte: zero is false, anything else true.
impl Decode for bool {
    open spec fn decoded(s: Seq<u8>, p: nat, big: bool) -> Option<(bool, nat)> {
        match raw_at(s, p, 1, big) {
            Some((v, q)) => Some((v != 0, q)),
            None => None,
        }
    }

    open spec fn written(s: Seq<u8>, p: nat, v: bool, big: bool) -> bool {
        prim_written(s, p, 1, (if v { 1nat } else { 0nat }), big)
    }

    open spec fn written_end(p: nat, v: bool) -> nat {
        align_up(p, 1) + 1
    }

    proof fn lemma_round_trip(s: Seq<u8>, p: nat, v: bool, big: bool) {
        lemma_primitive_round_trip(s, p, 1, (if v { 1nat } else { 0nat }), big);
    }

    proof fn lemma_prefix(s: Seq<u8>, t: Seq<u8>, p: nat, big: bool) {
        lemma_raw_prefix(s, t, p, 1, big);
    }

    fn decode_at(buf: &[u8], p: usize, big: bool) -> (r: Result<(bool, usize), DecodeError>) {
        let (v, q) = read_raw(buf, p, 1, big)?;
        Ok((v != 0, q))
    }
}

/// The text that a CDR string's body holds: the body without its trailing
/// terminator byte.
pub open spec fn text_of(body: Seq<u8>) -> Seq<u8> {
    if body.len() == 0 {
        body
    } else {
        body.drop_last()
    }
}

/// A length-prefixed run of bytes: a `u32` count, then that many bytes.
pub open spec fn byte_run_at(s: Seq<u8>, p: nat, big: bool) -> Option<(Seq<u8>, nat)> {
    match raw_at(s, p, 4, big) {
        Some((n, q)) => if q + n <= s.len() {
            Some((s.subrange(q as int, (q + n) as int), q + n))
        } else {
            None
        },
        None => None,
    }
}

/// A copy of `buf[from..to]`.
pub(crate) fn copy_range(buf: &[u8], from: usize, to: usize) -> (r: Vec<u8>)
    requires
        from <= to <= buf@.len(),
    ensures
        r@ == buf@.subrange(from as int, to as int),
{
    let mut r: Vec<u8> = Vec::new();
    let mut i: usize = from;
    while i < to
        invariant
            from <= i <= to <= buf@.len(),
            r@ == buf@.subrange(from as int, i as int),
        decreases to - i,
    {
        r.push(buf[i]);
        i = i + 1;
        assert(r@ =~= buf@.subrange(from as int, i as int));
    }
    r
}

/// `s` holds the bytes `x` as an encoder writes a `sequence<uint8>` at `p`.
pub open spec fn run_written(s: Seq<u8>, p: nat, x: Seq<u8>, big: bool) -> bool {
    &&& x.len() < 0x1_0000_0000
    &&& prim_written(s, p, 4, x.len(), big)
    &&& align_up(p, 4) + 4 + x.len() <= s.len()
    &&& s.subrange((align_up(p, 4) + 4) as int, (align_up(p, 4) + 4 + x.len()) as int) == x
}

pub open spec fn run_end(p: nat, x: Seq<u8>) -> nat {
    align_up(p, 4) + 4 + x.len()
}

/// Round trip of byte sequences.
pub proof fn lemma_run_round_trip(s: Seq<u8>, p: nat, x: Seq<u8>, big: bool)
    requires
        run_written(s, p, x, big),
    ensures
        byte_run_at(s, p, big) == Some((x, run_end(p, x))),
{
    lemma_primitive_round_trip(s, p, 4, x.len(), big);
}

/// Reads a `sequence<uint8>`: a `u32` count, then that many bytes.
pub fn read_byte_run(buf: &[u8], p: usize, big: bool) -> (r: Result<(Vec<u8>, usize), DecodeError>)
    ensures
        match r {
            Ok((v, q)) => byte_run_at(buf@, p as nat, big) == Some((v@, q as nat)) && q <= buf@.len(),
            Err(_) => byte_run_at(buf@, p as nat, big) is None,
        },
{
    let (n, q) = read_raw(buf, p, 4, big)?;
    if n > (buf.len() - q) as u64 {
        return Err(DecodeError::TruncatedInput);
    }
    let end = q + n as usize;
    Ok((copy_range(buf, q, end), end))
}

/// A CDR string, held as its bytes: a `u32` length that counts the trailing
/// terminator, then the bytes. The terminator is consumed and dropped.
impl Decode for Vec<u8> {
    open spec fn decoded(s: Seq<u8>, p: nat, big: bool) -> Option<(Seq<u8>, nat)> {
        match byte_run_at(s, p, big) {
            Some((body, q)) => Some((text_of(body), q)),
            None => None,
        }
    }

    open spec fn written(s: Seq<u8>, p: nat, v: Seq<u8>, big: bool) -> bool {
        &&& v.len() + 1 < 0x1_0000_0000
        &&& align_up(p, 4) + 5 + v.len() <= s.len()
        &&& s.subrange(align_up(p, 4) as int, (align_up(p, 4) + 5 + v.len()) as int) == text_encoding(v, big)
    }

    open spec fn written_end(p: nat, v: Seq<u8>) -> nat {
        align_up(p, 4) + 5 + v.len()
    }

    proof fn lemma_round_trip(s: Seq<u8>, p: nat, v: Seq<u8>, big: bool) {
        lemma_text_round_trip(s, p, v, big);
    }

    proof fn lemma_prefix(s: Seq<u8>, t: Seq<u8>, p: nat, big: bool) {
        lemma_byte_run_prefix(s, t, p, big);
    }

    fn decode_at(buf: &[u8], p: usize, big: bool) -> (r: Result<(Vec<u8>, usize), DecodeError>) {
        let (mut body, q) = read_byte_run(buf, p, big)?;
        if body.len() > 0 {
            body.pop();
        }
        Ok((body, q))
    }
}

/// The models of the values in `v`.
pub open spec fn models<T: View>(v: Seq<T>) -> Seq<T::V> {
    v.map_values(|x: T| x@)
}

/// `n` values of `T` back to back from the cursor `p`, each aligned as its
/// own type asks: a fixed-size array, or a sequence's elements.
pub open spec fn items<T: Decode>(s: Seq<u8>, p: nat, n: nat, big: bool) -> Option<(Seq<T::V>, nat)>
    decreases n,
{
    if n == 0 {
        Some((Seq::empty(), p))
    } else {
        match items::<T>(s, p, (n - 1) as nat, big) {
            Some((xs, q)) => match T::decoded(s, q, big) {
                Some((x, r)) => Some((xs.push(x), r)),
                None => None,
            },
            None => None,
        }
    }
}

/// A sequence of `T`: a `u32` element count, then that many elements.
pub open spec fn seq_at<T: Decode>(s: Seq<u8>, p: nat, big: bool) -> Option<(Seq<T::V>, nat)> {
    match u32::decoded(s, p, big) {
        Some((n, q)) => items::<T>(s, q, n as nat, big),
        None => None,
    }
}

proof fn lemma_items_stay_failed<T: Decode>(s: Seq<u8>, p: nat, k: nat, m: nat, big: bool)
    requires
        k <= m,
        items::<T>(s, p, k, big) is None,
    ensures
        items::<T>(s, p, m, big) is None,
    decreases m - k,
{
    if k < m {
        lemma_items_stay_failed::<T>(s, p, k, (m - 1) as nat, big);
    }
}

/// `s` holds the values `xs` back to back as an encoder writes them from `p`.
pub open spec fn items_written<T: Decode>(s: Seq<u8>, p: nat, xs: Seq<T::V>, big: bool) -> bool
    decreases xs.len(),
{
    if xs.len() == 0 {
        true
    } else {
        items_written::<T>(s, p, xs.drop_last(), big) && T::written(s, items_end::<T>(p, xs.drop_last()), xs.last(), big)
    }
}

pub open spec fn items_end<T: Decode>(p: nat, xs: Seq<T::V>) -> nat
    decreases xs.len(),
{
    if xs.len() == 0 {
        p
    } else {
        T::written_end(items_end::<T>(p, xs.drop_last()), xs.last())
    }
}

/// Round trip of runs of values.
pub proof fn lemma_items_round_trip<T: Decode>(s: Seq<u8>, p: nat, xs: Seq<T::V>, big: bool)
    requires
        items_written::<T>(s, p, xs, big),
    ensures
        items::<T>(s, p, xs.len(), big) == Some((xs, items_end::<T>(p, xs))),
    decreases xs.len(),
{
    if xs.len() > 0 {
        let init = xs.drop_last();
        lemma_items_round_trip::<T>(s, p, init, big);
        T::lemma_round_trip(s, items_end::<T>(p, init), xs.last(), big);
        assert(init.push(xs.last()) =~= xs);
    } else {
        assert(xs =~= Seq::<T::V>::empty());
    }
}

/// `s` holds the sequence `xs` as an encoder writes it at `p`: its count,
/// then its elements.
pub open spec fn seq_written<T: Decode>(s: Seq<u8>, p: nat, xs: Seq<T::V>, big: bool) -> bool {
    &&& xs.len() < 0x1_0000_0000
    &&& u32::written(s, p, xs.len() as u32, big)
    &&& items_written::<T>(s, u32::written_end(p, xs.len() as u32), xs, big)
}

pub open spec fn seq_end<T: Decode>(p: nat, xs: Seq<T::V>) -> nat {
    items_end::<T>(u32::written_end(p, xs.len() as u32), xs)
}

/// Round trip of sequences.
pub proof fn lemma_seq_round_trip<T: Decode>(s: Seq<u8>, p: nat, xs: Seq<T::V>, big: bool)
    requires
        seq_written::<T>(s, p, xs, big),
    ensures
        seq_at::<T>(s, p, big) == Some((xs, seq_end::<T>(p, xs))),
{
    u32::lemma_round_trip(s, p, xs.len() as u32, big);
    lemma_items_round_trip::<T>(s, u32::written_end(p, xs.len() as u32), xs, big);
}

/// Runs of values read no byte past where they end.
pub proof fn lemma_items_prefix<T: Decode>(s: Seq<u8>, t: Seq<u8>, p: nat, n: nat, big: bool)
    requires
        is_prefix(s, t),
    ensures
        items::<T>(s, p, n, big) is Some ==> (n > 0 ==> items::<T>(s, p, n, big).unwrap().1 <= s.len())
            && items::<T>(t, p, n, big) == items::<T>(s, p, n, big),
    decreases n,
{
    if n > 0 {
        lemma_items_prefix::<T>(s, t, p, (n - 1) as nat, big);
        if let Some((xs, q)) = items::<T>(s, p, (n - 1) as nat, big) {
            T::lemma_prefix(s, t, q, big);
        }
    }
}

/// Sequences read no byte past where they end.
pub proof fn lemma_seq_prefix<T: Decode>(s: Seq<u8>, t: Seq<u8>, p: nat, big: bool)
    requires
        is_prefix(s, t),
    ensures
        seq_at::<T>(s, p, big) is Some ==> seq_at::<T>(s, p, big).unwrap().1 <= s.len()
            && seq_at::<T>(t, p, big) == seq_at::<T>(s, p, big),
{
    u32::lemma_prefix(s, t, p, big);
    if let Some((n, q)) = u32::decoded(s, p, big) {
        lemma_items_prefix::<T>(s, t, q, n as nat, big);
    }
}

/// Reads `n` values of `T` back to back from the cursor `p`.
pub fn decode_items<T: Decode>(buf: &[u8], p: usize, n: usize, big: bool) -> (r: Result<(Vec<T>, usize), DecodeError>)
    ensures
        match r {
            Ok((v, q)) => items::<T>(buf@, p as nat, n as nat, big) == Some((models(v@), q as nat))
                && v@.len() == n && (n == 0 ==> q == p) && (n > 0 ==> q <= buf@.len()),
            Err(_) => items::<T>(buf@, p as nat, n as nat, big) is None,
        },
{
    if n == 0 {
        let v: Vec<T> = Vec::new();
        assert(models(v@) =~= Seq::<T::V>::empty());
        return Ok((v, p));
    }
    let mut v: Vec<T> = Vec::new();
    let mut q: usize = p;
    let mut i: usize = 0;
    assert(models(v@) =~= Seq::<T::V>::empty());
    while i < n
        invariant
            i <= n,
            v@.len() == i,
            items::<T>(buf@, p as nat, i as nat, big) == Some((models(v@), q as nat)),
            i > 0 ==> q <= buf@.len(),
        decreases n - i,
    {
        match T::decode_at(buf, q, big) {
            Ok((x, q2)) => {
                let ghost before = models(v@);
                v.push(x);
                assert(models(v@) =~= before.push(x@));
                q = q2;
                i = i + 1;
            },
            Err(e) => {
                proof { lemma_items_stay_failed::<T>(buf@, p as nat, (i + 1) as nat, n as nat, big); }
                return Err(e);
            },
        }
    }
    Ok((v, q))
}

/// Reads `N` values of `u64` back to back from the cursor `p`, as a
/// fixed-size array.
pub fn decode_u64_array<const N: usize>(buf: &[u8], p: usize, big: bool) -> (r: Result<([u64; N], usize), DecodeError>)
    ensures
        match r {
            Ok((v, q)) => items::<u64>(buf@, p as nat, N as nat, big) == Some((v@, q as nat))
                && (N == 0 ==> q == p) && (N > 0 ==> q <= buf@.len()),
            Err(_) => items::<u64>(buf@, p as nat, N as nat, big) is None,
        },
{
    let (v, q) = decode_items::<u64>(buf, p, N, big)?;
    let mut r: [u64; N] = [0u64; N];
    let mut i: usize = 0;
    while i < N
        invariant
            i <= N,
            v@.len() == N,
            r@.len() == N,
            forall|j: int| 0 <= j < i ==> r@[j] == v@[j],
        decreases N - i,
    {
        r[i] = v[i];
        i = i + 1;
    }
    assert(r@ =~= models(v@));
    Ok((r, q))
}

/// Reads a sequence of `T`: a `u32` element count, then the elements.
pub fn decode_seq<T: Decode>(buf: &[u8], p: usize, big: bool) -> (r: Result<(Vec<T>, usize), DecodeError>)
    ensures
        match r {
            Ok((v, q)) => seq_at::<T>(buf@, p as nat, big) == Some((models(v@), q as nat)) && q <= buf@.len(),
            Err(_) => seq_at::<T>(buf@, p as nat, big) is None,
        },
{
    let (n, q) = u32::decode_at(buf, p, big)?;
    decode_items::<T>(buf, q, n as usize, big)
}

} // verus!
