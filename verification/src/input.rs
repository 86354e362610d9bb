//! The per-player, per-frame input record and its transport codec.
//!
//! An [`Input`] carries a movement flag, a fire flag, and the world-space
//! target the player aimed at. It is the only value the peers exchange: the
//! whole simulation is a deterministic function of these records, so the
//! encoding must round-trip byte-for-byte. Coordinates are fixed-point
//! integers; the host chooses how many units make one world unit.

use vstd::prelude::*;

verus! {

use vstd::arithmetic::div_mod::lemma_fundamental_div_mod;

/// Bound on representable world coordinates (positions and aim targets).
/// Keeping every coordinate within it keeps every squared distance the
/// simulation computes within a machine word.
pub const COORD_LIMIT: i32 = 1048576;

/// Flag bit for "move toward the target".
pub const INPUT_MOVE: u8 = 1;

/// Flag bit for "fire at the target".
pub const INPUT_FIRE: u8 = 2;

/// Number of bytes of an encoded input: one flag byte, then the target's
/// x and y as 4-byte little-endian two's-complement words.
pub const ENCODED_LEN: usize = 9;

/// One player's intent for one frame.
#[derive(Clone, Copy, PartialEq, Eq, Structural, Debug)]
pub struct Input {
    pub move_flag: bool,
    pub fire_flag: bool,
    pub target_x: i32,
    pub target_y: i32,
}

/// Why a byte packet was rejected instead of decoded.
#[derive(Clone, Copy, PartialEq, Eq, Structural, Debug)]
pub enum DecodeError {
    /// The packet is not exactly `ENCODED_LEN` bytes long.
    WrongLength,
    /// The flag byte carries bits outside the two known flags.
    UnknownFlags,
    /// A target coordinate lies outside the representable arena.
    TargetOutOfRange,
}

impl Input {
    /// A representable input: the aim target lies inside the arena bound.
    pub open spec fn wf(self) -> bool {
        &&& -COORD_LIMIT <= self.target_x <= COORD_LIMIT
        &&& -COORD_LIMIT <= self.target_y <= COORD_LIMIT
    }

    /// The neutral record: no flags, target at the origin. It is what
    /// prediction falls back to before anything is known of a player.
    pub fn idle() -> (r: Input)
        ensures
            r == spec_idle(),
    {
        Input { move_flag: false, fire_flag: false, target_x: 0, target_y: 0 }
    }
}

/// The neutral input record.
pub open spec fn spec_idle() -> Input {
    Input { move_flag: false, fire_flag: false, target_x: 0, target_y: 0 }
}

/// Whether this input requests a shot.
pub fn fire(input: &Input) -> (r: bool)
    ensures
        r == input.fire_flag,
{
    input.fire_flag
}

/// The flag byte of an input.
pub open spec fn spec_flags(i: Input) -> int {
    (if i.move_flag {
        1int
    } else {
        0int
    }) + (if i.fire_flag {
        2int
    } else {
        0int
    })
}

/// Two's-complement image of a signed 32-bit value.
pub open spec fn spec_to_u32(x: int) -> int {
    if x >= 0 {
        x
    } else {
        x + 0x1_0000_0000
    }
}

/// Signed value of a two's-complement 32-bit word.
pub open spec fn spec_from_u32(u: int) -> int {
    if u < 0x8000_0000 {
        u
    } else {
        u - 0x1_0000_0000
    }
}

/// Little-endian bytes of a 32-bit word.
pub open spec fn spec_le4(u: int) -> Seq<u8> {
    let q1 = u / 256;
    let q2 = q1 / 256;
    seq![(u % 256) as u8, (q1 % 256) as u8, (q2 % 256) as u8, (q2 / 256) as u8]
}

/// 32-bit word read from little-endian bytes.
pub open spec fn spec_from_le4(b: Seq<u8>) -> int {
    b[0] + 256 * (b[1] + 256 * (b[2] + 256 * b[3]))
}

/// The byte encoding of an input.
pub open spec fn spec_encode(i: Input) -> Seq<u8> {
    seq![spec_flags(i) as u8] + spec_le4(spec_to_u32(i.target_x as int)) + spec_le4(
        spec_to_u32(i.target_y as int),
    )
}

/// What decoding a packet yields: the input, or the exact reason it is
/// rejected. Wire corruption is a local defect; a rejected packet is simply
/// treated as a missing input by the session.
pub open spec fn spec_decode(b: Seq<u8>) -> Result<Input, DecodeError> {
    if b.len() != ENCODED_LEN {
        Err(DecodeError::WrongLength)
    } else if b[0] > 3 {
        Err(DecodeError::UnknownFlags)
    } else {
        let x = spec_from_u32(spec_from_le4(b.subrange(1, 5)));
        let y = spec_from_u32(spec_from_le4(b.subrange(5, 9)));
        if -COORD_LIMIT <= x <= COORD_LIMIT && -COORD_LIMIT <= y <= COORD_LIMIT {
            Ok(
                Input {
                    move_flag: b[0] % 2 == 1,
                    fire_flag: b[0] / 2 == 1,
                    target_x: x as i32,
                    target_y: y as i32,
                },
            )
        } else {
            Err(DecodeError::TargetOutOfRange)
        }
    }
}

/// Recomposing the four little-endian bytes of a 32-bit word gives the word
/// back.
pub proof fn lemma_le4_roundtrip(u: int)
    requires
        0 <= u < 0x1_0000_0000,
    ensures
        spec_from_le4(spec_le4(u)) == u,
{
    let q1 = u / 256;
    let q2 = q1 / 256;
    lemma_fundamental_div_mod(u, 256);
    lemma_fundamental_div_mod(q1, 256);
    lemma_fundamental_div_mod(q2, 256);
}

/// Encoding the word read from four bytes gives the bytes back.
pub proof fn lemma_le4_inverse(b: Seq<u8>)
    requires
        b.len() == 4,
    ensures
        0 <= spec_from_le4(b) < 0x1_0000_0000,
        spec_le4(spec_from_le4(b)) == b,
{
    let u = spec_from_le4(b);
    lemma_fundamental_div_mod(u, 256);
    lemma_fundamental_div_mod(u / 256, 256);
    lemma_fundamental_div_mod(u / 256 / 256, 256);
    assert(u % 256 == b[0] && u / 256 % 256 == b[1] && u / 256 / 256 % 256 == b[2] && u / 256
        / 256 / 256 == b[3]) by {
        vstd::arithmetic::div_mod::lemma_div_multiples_vanish_fancy(
            (b[1] + 256 * (b[2] + 256 * b[3])) as int,
            b[0] as int,
            256,
        );
        vstd::arithmetic::div_mod::lemma_div_multiples_vanish_fancy(
            (b[2] + 256 * b[3]) as int,
            b[1] as int,
            256,
        );
        vstd::arithmetic::div_mod::lemma_div_multiples_vanish_fancy(
            b[3] as int,
            b[2] as int,
            256,
        );
    }
    assert(spec_le4(u) =~= b);
}

/// Decoding an encoded representable input yields the input itself.
pub proof fn lemma_decode_encode(i: Input)
    requires
        i.wf(),
    ensures
        spec_decode(spec_encode(i)) == Ok::<Input, DecodeError>(i),
{
    let b = spec_encode(i);
    assert(b.len() == 9);
    let xu = spec_to_u32(i.target_x as int);
    let yu = spec_to_u32(i.target_y as int);
    assert(b.subrange(1, 5) =~= spec_le4(xu));
    assert(b.subrange(5, 9) =~= spec_le4(yu));
    lemma_le4_roundtrip(xu);
    lemma_le4_roundtrip(yu);
}

/// Every packet that decodes came from encoding: the codec is lossless in
/// both directions, so a decoded input can be re-sent byte-identically.
pub proof fn lemma_encode_decode(b: Seq<u8>, i: Input)
    requires
        spec_decode(b) == Ok::<Input, DecodeError>(i),
    ensures
        i.wf(),
        spec_encode(i) == b,
{
    lemma_le4_inverse(b.subrange(1, 5));
    lemma_le4_inverse(b.subrange(5, 9));
    assert(spec_encode(i) =~= b);
}

/// Packs an input for transport or frame hashing.
pub fn encode(i: &Input) -> (r: Vec<u8>)
    requires
        i.wf(),
    ensures
        r@ == spec_encode(*i),
        r@.len() == ENCODED_LEN,
{
    let mut out: Vec<u8> = Vec::new();
    let flags: u8 = (if i.move_flag {
        1u8
    } else {
        0u8
    }) + (if i.fire_flag {
        2u8
    } else {
        0u8
    });
    out.push(flags);
    push_le4(&mut out, i.target_x);
    push_le4(&mut out, i.target_y);
    proof {
        assert(out@ =~= spec_encode(*i));
    }
    out
}

/// Appends a signed coordinate as a little-endian two's-complement word.
fn push_le4(out: &mut Vec<u8>, x: i32)
    ensures
        final(out)@ == old(out)@ + spec_le4(spec_to_u32(x as int)),
{
    let xu: u32 = if x >= 0 {
        x as u32
    } else {
        ((x as i64) + 0x1_0000_0000i64) as u32
    };
    assert(xu == spec_to_u32(x as int));
    out.push((xu % 256) as u8);
    out.push(((xu / 256) % 256) as u8);
    out.push(((xu / 256 / 256) % 256) as u8);
    out.push((xu / 256 / 256 / 256) as u8);
    proof {
        assert(xu / 256 / 256 / 256 < 256);
        assert(out@ =~= old(out)@ + spec_le4(spec_to_u32(x as int)));
    }
}

/// Sum of a byte sequence: the accumulator of the desync diagnostic.
pub open spec fn spec_byte_sum(b: Seq<u8>) -> int
    decreases b.len(),
{
    if b.len() == 0 {
        0
    } else {
        spec_byte_sum(b.drop_last()) + b.last()
    }
}

/// Checksum of one frame's pair of inputs: the byte sum of both encodings.
/// Peers may exchange it per frame and compare, as a cheap diagnostic that
/// their simulations still consume identical data; it plays no part in
/// correctness.
pub fn frame_checksum(i0: &Input, i1: &Input) -> (r: u64)
    requires
        i0.wf(),
        i1.wf(),
    ensures
        r == spec_byte_sum(spec_encode(*i0)) + spec_byte_sum(spec_encode(*i1)),
{
    let a = encode(i0);
    let b = encode(i1);
    let mut sum: u64 = 0;
    let mut j: usize = 0;
    proof {
        assert(a@.take(0) =~= Seq::<u8>::empty());
    }
    while j < a.len()
        invariant
            j <= a@.len() == 9,
            sum == spec_byte_sum(a@.take(j as int)),
            sum <= 255 * j,
        decreases a@.len() - j,
    {
        proof {
            assert(a@.take(j + 1).drop_last() =~= a@.take(j as int));
        }
        sum = sum + a[j] as u64;
        j += 1;
    }
    proof {
        assert(a@.take(a@.len() as int) =~= a@);
        assert(b@.take(0) =~= Seq::<u8>::empty());
    }
    let base = sum;
    let mut k: usize = 0;
    while k < b.len()
        invariant
            k <= b@.len() == 9,
            base <= 255 * 9,
            sum == base + spec_byte_sum(b@.take(k as int)),
            sum <= base + 255 * k,
        decreases b@.len() - k,
    {
        proof {
            assert(b@.take(k + 1).drop_last() =~= b@.take(k as int));
        }
        sum = sum + b[k] as u64;
        k += 1;
    }
    proof {
        assert(b@.take(b@.len() as int) =~= b@);
    }
    sum
}

/// Unpacks a received packet, rejecting anything malformed; the session
/// then falls back to prediction for that frame.
pub fn decode(bytes: &Vec<u8>) -> (r: Result<Input, DecodeError>)
    ensures
        r == spec_decode(bytes@),
        r matches Ok(i) ==> i.wf(),
{
    if bytes.len() != ENCODED_LEN {
        return Err(DecodeError::WrongLength);
    }
    let flags = bytes[0];
    if flags > 3 {
        return Err(DecodeError::UnknownFlags);
    }
    let x = read_le4(bytes, 1);
    let y = read_le4(bytes, 5);
    proof {
        assert(bytes@.subrange(1, 5) =~= seq![bytes@[1], bytes@[2], bytes@[3], bytes@[4]]);
        assert(bytes@.subrange(5, 9) =~= seq![bytes@[5], bytes@[6], bytes@[7], bytes@[8]]);
    }
    if x < -COORD_LIMIT || x > COORD_LIMIT || y < -COORD_LIMIT || y > COORD_LIMIT {
        return Err(DecodeError::TargetOutOfRange);
    }
    Ok(Input { move_flag: flags % 2 == 1, fire_flag: flags / 2 == 1, target_x: x, target_y: y })
}

/// Reads the signed coordinate stored at `at..at + 4`.
fn read_le4(bytes: &Vec<u8>, at: usize) -> (r: i32)
    requires
        at + 4 <= bytes@.len(),
    ensures
        r == spec_from_u32(spec_from_le4(seq![
            bytes@[at as int],
            bytes@[at + 1],
            bytes@[at + 2],
            bytes@[at + 3],
        ])),
{
    let n = bytes.len();
    assert(at + 4 <= n);
    let u: u32 = bytes[at] as u32 + 256 * (bytes[at + 1] as u32 + 256 * (bytes[at + 2] as u32 + 256
        * (bytes[at + 3] as u32)));
    if u < 0x8000_0000 {
        u as i32
    } else {
        ((u as i64) - 0x1_0000_0000i64) as i32
    }
}

} // verus!
