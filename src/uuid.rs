//! Identifier service: creation and validation of version-4 UUID text.
use crate::clock::now_nanos;
use vstd::prelude::*;
use vstd::string::*;

verus! {

/// An ASCII hexadecimal digit, in either case.
pub open spec fn is_hex_char(c: char) -> bool {
    ||| ('0' as u32 <= c as u32 && c as u32 <= '9' as u32)
    ||| ('a' as u32 <= c as u32 && c as u32 <= 'f' as u32)
    ||| ('A' as u32 <= c as u32 && c as u32 <= 'F' as u32)
}

/// The positions of the four hyphens in the 36-character form.
pub open spec fn is_dash_position(i: int) -> bool {
    i == 8 || i == 13 || i == 18 || i == 23
}

/// The character that may stand at position 19: the variant nibble `10xx`.
pub open spec fn is_variant_char(c: char) -> bool {
    c == '8' || c == '9' || c == 'a' || c == 'A' || c == 'b' || c == 'B'
}

/// Hyphenated version-4 UUID text: 32 hex digits in groups of 8-4-4-4-12,
/// version nibble `4`, variant nibble one of `8 9 a b` (either case).
pub open spec fn is_valid_uuid(s: Seq<char>) -> bool {
    &&& s.len() == 36
    &&& forall|i: int|
        0 <= i < 36 ==> (if is_dash_position(i) {
            #[trigger] s[i] == '-'
        } else {
            is_hex_char(s[i])
        })
    &&& s[14] == '4'
    &&& is_variant_char(s[19])
}

/// One step of the xorshift generator (shifts 13, 7, 17).
pub open spec fn xorshift(x: u64) -> u64 {
    let a = x ^ (x << 13u64);
    let b = a ^ (a >> 7u64);
    b ^ (b << 17u64)
}

/// The generator state after `n` steps from `seed`.
pub open spec fn state_after(seed: u64, n: nat) -> u64
    decreases n,
{
    if n == 0 {
        seed
    } else {
        xorshift(state_after(seed, (n - 1) as nat))
    }
}

/// The low byte of the state after `i + 1` steps.
pub open spec fn raw_byte(seed: u64, i: int) -> u8 {
    (state_after(seed, (i + 1) as nat) & 0xffu64) as u8
}

/// The version nibble `4` over the low nibble of `b`.
pub open spec fn with_version(b: u8) -> u8 {
    (b & 0x0fu8) | 0x40u8
}

/// The variant bits `10` over the low six bits of `b`.
pub open spec fn with_variant(b: u8) -> u8 {
    (b & 0x3fu8) | 0x80u8
}

/// The sixteen bytes drawn from `seed`, with version and variant bits set.
pub open spec fn uuid_bytes(seed: u64) -> Seq<u8> {
    Seq::new(
        16,
        |i: int|
            if i == 6 {
                with_version(raw_byte(seed, i))
            } else if i == 8 {
                with_variant(raw_byte(seed, i))
            } else {
                raw_byte(seed, i)
            },
    )
}

/// The seed drawn from a clock reading: its two 64-bit halves combined.
pub open spec fn seed_of(nanos: u128) -> u64 {
    ((nanos as u64) ^ ((nanos >> 64u128) as u64)) as u64
}

/// The lower-case hex digit of a nibble.
pub open spec fn hex_digit(n: int) -> char {
    HEX_DIGITS@[n]
}

/// How many hyphens stand before position `p`.
pub open spec fn dashes_before(p: int) -> int {
    if p < 8 {
        0
    } else if p < 13 {
        1
    } else if p < 18 {
        2
    } else if p < 23 {
        3
    } else {
        4
    }
}

/// The character at position `p` of the text of `bytes`.
pub open spec fn uuid_char(bytes: Seq<u8>, p: int) -> char {
    if is_dash_position(p) {
        '-'
    } else {
        let d = p - dashes_before(p);
        let b = bytes[d / 2] as int;
        if d % 2 == 0 {
            hex_digit(b / 16)
        } else {
            hex_digit(b % 16)
        }
    }
}

/// Sixteen bytes as hyphenated lower-case hex text, in groups of 8-4-4-4-12 digits.
pub open spec fn uuid_text(bytes: Seq<u8>) -> Seq<char> {
    Seq::new(36, |p: int| uuid_char(bytes, p))
}

/// The lower-case hex digits, in order.
pub const HEX_DIGITS: &'static str = "0123456789abcdef";

proof fn lemma_hex_digits()
    ensures
        HEX_DIGITS@.len() == 16,
        forall|n: int| 0 <= n < 16 ==> is_hex_char(#[trigger] hex_digit(n)),
        hex_digit(4) == '4',
        forall|n: int| 8 <= n < 12 ==> is_variant_char(#[trigger] hex_digit(n)),
{
    reveal_strlit("0123456789abcdef");
}

/// Text built from bytes whose version and variant bits are set is valid.
proof fn lemma_text_valid(bytes: Seq<u8>)
    requires
        bytes.len() == 16,
        bytes[6] / 16 == 4,
        8 <= bytes[8] / 16 < 12,
    ensures
        is_valid_uuid(uuid_text(bytes)),
{
    lemma_hex_digits();
    let s = uuid_text(bytes);
    assert forall|i: int| 0 <= i < 36 implies (if is_dash_position(i) {
        #[trigger] s[i] == '-'
    } else {
        is_hex_char(s[i])
    }) by {
        if !is_dash_position(i) {
            let d = i - dashes_before(i);
            assert(0 <= d / 2 < 16);
            let b = bytes[d / 2] as int;
            assert(0 <= b / 16 < 16);
            assert(0 <= b % 16 < 16);
        }
    }
    assert(s[14] == hex_digit(bytes[6] as int / 16));
    assert(s[19] == hex_digit(bytes[8] as int / 16));
}

/// A lower-case ASCII hexadecimal digit.
pub open spec fn is_lower_hex_char(c: char) -> bool {
    ||| ('0' as u32 <= c as u32 && c as u32 <= '9' as u32)
    ||| ('a' as u32 <= c as u32 && c as u32 <= 'f' as u32)
}

/// The form that the service creates: a valid identifier whose digits are
/// all lower-case, so that the variant digit is one of `8 9 a b`.
pub open spec fn is_canonical_uuid(s: Seq<char>) -> bool {
    &&& is_valid_uuid(s)
    &&& forall|i: int| 0 <= i < 36 && !is_dash_position(i) ==> is_lower_hex_char(#[trigger] s[i])
    &&& (s[19] == '8' || s[19] == '9' || s[19] == 'a' || s[19] == 'b')
}

/// Text built from bytes whose version and variant bits are set is in the
/// canonical form.
proof fn lemma_text_canonical(bytes: Seq<u8>)
    requires
        bytes.len() == 16,
        bytes[6] / 16 == 4,
        8 <= bytes[8] / 16 < 12,
    ensures
        is_canonical_uuid(uuid_text(bytes)),
{
    lemma_text_valid(bytes);
    reveal_strlit("0123456789abcdef");
    let s = uuid_text(bytes);
    assert forall|i: int| 0 <= i < 36 && !is_dash_position(i) implies is_lower_hex_char(
        #[trigger] s[i],
    ) by {
        let d = i - dashes_before(i);
        let b = bytes[d / 2] as int;
        assert(0 <= b / 16 < 16);
        assert(0 <= b % 16 < 16);
    }
    assert(s[19] == hex_digit(bytes[8] as int / 16));
}

/// The error returned for text that is not a valid identifier.
pub struct UuidError {
    pub message: String,
}

/// The identifier service.
pub struct UUID;

impl UUID {
    /// A fresh identifier drawn from the system clock.
    pub fn create() -> (r: String)
        ensures
            is_valid_uuid(r@),
            is_canonical_uuid(r@),
            exists|n: u128| r@ == #[trigger] uuid_text(uuid_bytes(seed_of(n))),
    {
        Self::create_from_nanos(now_nanos())
    }

    /// The identifier drawn from the clock reading `nanos`: sixteen bytes of
    /// xorshift output seeded by the reading, with the version and variant
    /// bits set, as hyphenated lower-case hex.
    pub fn create_from_nanos(nanos: u128) -> (r: String)
        ensures
            r@ == uuid_text(uuid_bytes(seed_of(nanos))),
            is_valid_uuid(r@),
            is_canonical_uuid(r@),
    {
        let seed0: u64 = (nanos as u64) ^ ((nanos >> 64u128) as u64);
        let mut seed: u64 = seed0;
        let mut bytes: Vec<u8> = Vec::new();
        let mut i: usize = 0;
        while i < 16
            invariant
                0 <= i <= 16,
                seed0 == seed_of(nanos),
                seed == state_after(seed0, i as nat),
                bytes@ == Seq::new(i as nat, |j: int| raw_byte(seed0, j)),
            decreases 16 - i,
        {
            seed = seed ^ (seed << 13u64);
            seed = seed ^ (seed >> 7u64);
            seed = seed ^ (seed << 17u64);
            bytes.push((seed & 0xffu64) as u8);
            i = i + 1;
            assert(bytes@ =~= Seq::new(i as nat, |j: int| raw_byte(seed0, j)));
        }
        let b6 = bytes[6];
        let b8 = bytes[8];
        bytes.set(6, (b6 & 0x0fu8) | 0x40u8);
        bytes.set(8, (b8 & 0x3fu8) | 0x80u8);
        assert(bytes@ =~= uuid_bytes(seed0));
        assert(((b6 & 0x0fu8) | 0x40u8) / 16 == 4) by (bit_vector);
        assert(8 <= ((b8 & 0x3fu8) | 0x80u8) / 16 < 12) by (bit_vector);
        proof {
            lemma_text_valid(bytes@);
            lemma_text_canonical(bytes@);
            reveal_strlit("0123456789abcdef");
            reveal_strlit("-");
        }
        let mut out = String::new();
        let mut p: usize = 0;
        while p < 36
            invariant
                0 <= p <= 36,
                bytes@ == uuid_bytes(seed0),
                HEX_DIGITS@.len() == 16,
                "-"@ == seq!['-'],
                out@ == uuid_text(bytes@).subrange(0, p as int),
            decreases 36 - p,
        {
            if p == 8 || p == 13 || p == 18 || p == 23 {
                out.append("-");
            } else {
                let dashes: usize = if p < 8 {
                    0
                } else if p < 13 {
                    1
                } else if p < 18 {
                    2
                } else if p < 23 {
                    3
                } else {
                    4
                };
                let d = p - dashes;
                let b = bytes[d / 2];
                let n: usize = if d % 2 == 0 {
                    (b / 16) as usize
                } else {
                    (b % 16) as usize
                };
                out.append(HEX_DIGITS.substring_char(n, n + 1));
            }
            proof {
                assert(uuid_text(bytes@).subrange(0, p + 1) =~= uuid_text(bytes@).subrange(
                    0,
                    p as int,
                ).push(uuid_char(bytes@, p as int)));
            }
            p = p + 1;
        }
        assert(out@ =~= uuid_text(bytes@));
        out
    }

    /// Checks that `uuid` is a hyphenated version-4 UUID.
    pub fn validate(uuid: &str) -> (r: Result<(), UuidError>)
        ensures
            r.is_ok() <==> is_valid_uuid(uuid@),
            r matches Err(e) ==> e.message@ == invalid_message(uuid@),
    {
        if uuid.unicode_len() != 36 {
            return Err(Self::invalid(uuid));
        }
        let mut i: usize = 0;
        while i < 36
            invariant
                uuid@.len() == 36,
                0 <= i <= 36,
                forall|j: int|
                    0 <= j < i ==> (if is_dash_position(j) {
                        #[trigger] uuid@[j] == '-'
                    } else {
                        is_hex_char(uuid@[j])
                    }),
            decreases 36 - i,
        {
            let c = uuid.get_char(i);
            if i == 8 || i == 13 || i == 18 || i == 23 {
                if c != '-' {
                    return Err(Self::invalid(uuid));
                }
            } else {
                let hex = ('0' <= c && c <= '9') || ('a' <= c && c <= 'f') || ('A' <= c
                    && c <= 'F');
                if !hex {
                    return Err(Self::invalid(uuid));
                }
            }
            i = i + 1;
        }
        if uuid.get_char(14) != '4' {
            return Err(Self::invalid(uuid));
        }
        let v = uuid.get_char(19);
        if !(v == '8' || v == '9' || v == 'a' || v == 'A' || v == 'b' || v == 'B') {
            return Err(Self::invalid(uuid));
        }
        Ok(())
    }

    fn invalid(uuid: &str) -> (e: UuidError)
        ensures
            e.message@ == invalid_message(uuid@),
    {
        let mut message = String::from_str(uuid);
        message.append(INVALID_SUFFIX);
        UuidError { message }
    }
}

/// What follows the offending text in the message of a [`UuidError`].
pub const INVALID_SUFFIX: &'static str = " is not a valid UUID v4.\n\n- If you're the tool creator, you can take one from https://www.uuidgenerator.net/.\n\n- If you're using a platform tool, verify the uuid isn't misspelled or contact the tool creator.";

/// The message of the error for the text `s`.
pub open spec fn invalid_message(s: Seq<char>) -> Seq<char> {
    s + INVALID_SUFFIX@
}

} // verus!
