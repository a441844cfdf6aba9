use vstd::prelude::*;

use crate::commands::Matches;
use crate::secret::SecretBuffer;
use vstd::string::StringSliceAdditionalSpecFns;
use vstd::utf8::encode_utf8;

verus! {

/// Why no password was generated.
#[derive(Debug, PartialEq, Eq, Structural, Clone, Copy)]
pub enum GenError {
    /// A password must have at least one character.
    InvalidLength,
    /// The random bytes supplied ran out before the password was complete.
    EntropyUnavailable,
}

/// Number of characters a password may be drawn from.
pub open spec fn class_size(alnum: bool) -> int {
    if alnum {
        62
    } else {
        94
    }
}

/// Random bytes at or above this bound are discarded, so that every character
/// of the class is equally likely.
pub open spec fn accept_limit(alnum: bool) -> int {
    256int - 256int % class_size(alnum)
}

/// The `k`-th character of the class: lower-case letters, upper-case letters and
/// digits; or, when symbols are allowed, every printable ASCII character but space.
pub open spec fn class_char(alnum: bool, k: int) -> u8 {
    if alnum {
        if k < 26 {
            (97 + k) as u8
        } else if k < 52 {
            (65 + k - 26) as u8
        } else {
            (48 + k - 52) as u8
        }
    } else {
        (33 + k) as u8
    }
}

pub open spec fn is_alnum(b: u8) -> bool {
    (97 <= b <= 122) || (65 <= b <= 90) || (48 <= b <= 57)
}

/// Characters obtained from `bytes`, in order: each byte below the limit gives the
/// character at its remainder modulo the class size; the others are skipped.
pub open spec fn draws(alnum: bool, bytes: Seq<u8>) -> Seq<u8>
    decreases bytes.len(),
{
    if bytes.len() == 0 {
        Seq::empty()
    } else {
        let prev = draws(alnum, bytes.drop_last());
        if (bytes.last() as int) < accept_limit(alnum) {
            prev.push(class_char(alnum, bytes.last() as int % class_size(alnum)))
        } else {
            prev
        }
    }
}

proof fn lemma_draws_prefix(alnum: bool, bytes: Seq<u8>, i: int, j: int)
    requires
        0 <= i <= j <= bytes.len(),
    ensures
        draws(alnum, bytes.take(i)).len() <= draws(alnum, bytes.take(j)).len(),
        draws(alnum, bytes.take(j)).take(draws(alnum, bytes.take(i)).len() as int) == draws(
            alnum,
            bytes.take(i),
        ),
    decreases j - i,
{
    if i < j {
        lemma_draws_prefix(alnum, bytes, i, j - 1);
        assert(bytes.take(j).drop_last() == bytes.take(j - 1));
        let a = draws(alnum, bytes.take(i));
        let b = draws(alnum, bytes.take(j - 1));
        let c = draws(alnum, bytes.take(j));
        assert(c.take(a.len() as int) =~= b.take(a.len() as int));
    }
}

fn class_byte(alnum: bool, k: u8) -> (r: u8)
    requires
        (k as int) < class_size(alnum),
    ensures
        r == class_char(alnum, k as int),
        alnum ==> is_alnum(r),
{
    if alnum {
        if k < 26 {
            97 + k
        } else if k < 52 {
            65 + k - 26
        } else {
            48 + k - 52
        }
    } else {
        33 + k
    }
}

/// Builds a password of `length` characters of the class chosen by `alnum` from
/// the secure random bytes `random`, consumed from the front.
pub fn generate_password(alnum: bool, length: usize, random: &[u8]) -> (r: Result<
    SecretBuffer,
    GenError,
>)
    ensures
        length == 0 ==> r == Err::<SecretBuffer, GenError>(GenError::InvalidLength),
        length > 0 && draws(alnum, random@).len() < length ==> r == Err::<SecretBuffer, GenError>(
            GenError::EntropyUnavailable,
        ),
        length > 0 && draws(alnum, random@).len() >= length ==> r is Ok && r->Ok_0@ == draws(
            alnum,
            random@,
        ).take(length as int),
        r is Ok ==> r->Ok_0@.len() == length,
        r is Ok && alnum ==> forall|k: int| 0 <= k < length ==> is_alnum(#[trigger] r->Ok_0@[k]),
{
    if length == 0 {
        return Err(GenError::InvalidLength);
    }
    let size: u16 = if alnum {
        62
    } else {
        94
    };
    let limit: u16 = 256 - 256 % size;
    let mut out: Vec<u8> = Vec::new();
    let mut i: usize = 0;
    while i < random.len() && out.len() < length
        invariant
            i <= random@.len(),
            size as int == class_size(alnum),
            limit as int == accept_limit(alnum),
            out@ == draws(alnum, random@.take(i as int)),
            out@.len() <= length,
            alnum ==> forall|k: int| 0 <= k < out@.len() ==> is_alnum(#[trigger] out@[k]),
        decreases random@.len() - i,
    {
        let b = random[i];
        assert(random@.take(i + 1).drop_last() == random@.take(i as int));
        if (b as u16) < limit {
            let c = class_byte(alnum, ((b as u16) % size) as u8);
            out.push(c);
        }
        i = i + 1;
    }
    proof {
        lemma_draws_prefix(alnum, random@, i as int, random@.len() as int);
        assert(random@.take(random@.len() as int) == random@);
    }
    if out.len() < length {
        assert(i == random@.len());
        return Err(GenError::EntropyUnavailable);
    }
    Ok(SecretBuffer::new(out))
}

} // verus!

verus! {

/// Password length used when no `--length` is given.
pub const DEFAULT_PASSWORD_LEN: usize = 32;

/// What a generated password must look like.
pub struct PasswordSpec {
    pub alnum: bool,
    pub len: usize,
}

pub open spec fn is_digit(b: u8) -> bool {
    48 <= b <= 57
}

/// The number written in decimal by the digits `s`.
pub open spec fn decimal(s: Seq<u8>) -> int
    decreases s.len(),
{
    if s.len() == 0 {
        0
    } else {
        decimal(s.drop_last()) * 10 + (s.last() - 48)
    }
}

/// The value of a length option: a non-empty run of decimal digits whose value fits
/// in `usize`.
pub open spec fn length_value(s: Seq<u8>) -> Option<usize> {
    if s.len() > 0 && (forall|i: int| 0 <= i < s.len() ==> is_digit(#[trigger] s[i])) && decimal(s)
        <= usize::MAX {
        Some(decimal(s) as usize)
    } else {
        None
    }
}

/// The password spec that the options of `m` ask for: `--alnum`, and `--length`,
/// which defaults to `DEFAULT_PASSWORD_LEN`; none when the length is not a positive
/// decimal number.
pub open spec fn password_spec(m: &Matches) -> Option<PasswordSpec> {
    match m.length {
        None => Some(PasswordSpec { alnum: m.alnum, len: DEFAULT_PASSWORD_LEN }),
        Some(s) => match length_value(encode_utf8(s@)) {
            Some(n) => if n > 0 {
                Some(PasswordSpec { alnum: m.alnum, len: n })
            } else {
                None
            },
            None => None,
        },
    }
}

proof fn lemma_decimal_nonneg(s: Seq<u8>)
    requires
        forall|k: int| 0 <= k < s.len() ==> is_digit(#[trigger] s[k]),
    ensures
        0 <= decimal(s),
    decreases s.len(),
{
    if s.len() > 0 {
        lemma_decimal_nonneg(s.drop_last());
        assert(is_digit(s[s.len() - 1]));
    }
}

proof fn lemma_decimal_grows(s: Seq<u8>, i: int, j: int)
    requires
        0 <= i <= j <= s.len(),
        forall|k: int| 0 <= k < s.len() ==> is_digit(#[trigger] s[k]),
    ensures
        0 <= decimal(s.take(i)) <= decimal(s.take(j)),
    decreases j - i,
{
    if i < j {
        lemma_decimal_grows(s, i, j - 1);
        assert(s.take(j).drop_last() == s.take(j - 1));
        assert(is_digit(s[j - 1]));
    } else {
        lemma_decimal_nonneg(s.take(i));
    }
}

/// Reads a length option written in decimal.
pub fn parse_length(s: &str) -> (r: Option<usize>)
    ensures
        r == length_value(s.spec_bytes()),
{
    let b = s.as_bytes();
    if b.len() == 0 {
        return None;
    }
    let mut acc: usize = 0;
    let mut i: usize = 0;
    while i < b.len()
        invariant
            i <= b@.len(),
            b@ == s.spec_bytes(),
            forall|k: int| 0 <= k < i ==> is_digit(#[trigger] b@[k]),
            acc as int == decimal(b@.take(i as int)),
        decreases b@.len() - i,
    {
        let c = b[i];
        if c < 48 || c > 57 {
            assert(!is_digit(b@[i as int]));
            return None;
        }
        assert(b@.take(i + 1).drop_last() == b@.take(i as int));
        match acc.checked_mul(10) {
            None => {
                proof {
                    lemma_overflow_rejected(b@, i as int);
                }
                return None;
            },
            Some(m) => match m.checked_add((c - 48) as usize) {
                None => {
                    proof {
                        lemma_overflow_rejected(b@, i as int);
                    }
                    return None;
                },
                Some(v) => {
                    acc = v;
                },
            },
        }
        i = i + 1;
    }
    assert(b@.take(b@.len() as int) == b@);
    Some(acc)
}

/// A prefix whose value exceeds `usize::MAX` leaves no length to read.
proof fn lemma_overflow_rejected(s: Seq<u8>, i: int)
    requires
        0 <= i < s.len(),
        decimal(s.take(i + 1)) > usize::MAX,
    ensures
        length_value(s) is None,
{
    if forall|k: int| 0 <= k < s.len() ==> is_digit(#[trigger] s[k]) {
        lemma_decimal_grows(s, i + 1, s.len() as int);
        assert(s.take(s.len() as int) == s);
    }
}

impl PasswordSpec {
    /// The spec that the options of `m` ask for.
    pub fn from_matches(m: &Matches) -> (r: Option<PasswordSpec>)
        ensures
            r == password_spec(m),
    {
        match &m.length {
            None => Some(PasswordSpec { alnum: m.alnum, len: DEFAULT_PASSWORD_LEN }),
            Some(s) => match parse_length(s.as_str()) {
                Some(n) => if n > 0 {
                    Some(PasswordSpec { alnum: m.alnum, len: n })
                } else {
                    None
                },
                None => None,
            },
        }
    }
}

} // verus!
