use vstd::prelude::*;
use crate::message::ReadError;
use vstd::string::StringSliceAdditionalSpecFns;

verus! {

/// How many messages to wait for when the caller names no count.
pub const DEFAULT_COUNT: u32 = 1;

/// How the number of distinct messages to collect is chosen.
#[derive(Clone, Copy, Debug, PartialEq, Eq, Structural)]
pub enum CountMode {
    /// Exactly this many, whatever the size of the queue.
    Fixed(u32),
    /// As many as the queue's approximate size says it holds.
    All,
    /// The default count, capped by the backlog unless blocking is allowed.
    Unspecified,
}

/// The target that `resolve_target` computes.
pub open spec fn target_of(mode: CountMode, blocking: bool, size: Option<u32>) -> Result<u32, ReadError> {
    match mode {
        CountMode::Fixed(n) => Ok(n),
        CountMode::All => match size {
            Some(s) => Ok(s),
            None => Err(ReadError::SizeUnavailable),
        },
        CountMode::Unspecified => if blocking {
            Ok(DEFAULT_COUNT)
        } else {
            match size {
                Some(s) => Ok(if s < DEFAULT_COUNT { s } else { DEFAULT_COUNT }),
                None => Err(ReadError::SizeUnavailable),
            }
        },
    }
}

/// Computes the number of distinct messages to collect. `approximate_size`
/// is the queue's size estimate, `None` where it could not be had; it is
/// needed for `All`, and for `Unspecified` without blocking.
pub fn resolve_target(mode: CountMode, blocking: bool, approximate_size: Option<u32>) -> (r: Result<u32, ReadError>)
    ensures
        r == target_of(mode, blocking, approximate_size),
{
    match mode {
        CountMode::Fixed(n) => Ok(n),
        CountMode::All => match approximate_size {
            Some(s) => Ok(s),
            None => Err(ReadError::SizeUnavailable),
        },
        CountMode::Unspecified => {
            if blocking {
                Ok(DEFAULT_COUNT)
            } else {
                match approximate_size {
                    Some(s) => Ok(if s < DEFAULT_COUNT { s } else { DEFAULT_COUNT }),
                    None => Err(ReadError::SizeUnavailable),
                }
            }
        },
    }
}

pub open spec fn is_digit(b: u8) -> bool {
    48 <= b <= 57
}

/// The number that a run of decimal digits writes.
pub open spec fn digits_value(d: Seq<u8>) -> int
    decreases d.len(),
{
    if d.len() == 0 {
        0
    } else {
        digits_value(d.drop_last()) * 10 + (d.last() - 48)
    }
}

/// The digits of a decimal number: after an optional `+`.
pub open spec fn unsigned_digits(b: Seq<u8>) -> Seq<u8> {
    if b.len() > 0 && b[0] == 43 {
        b.drop_first()
    } else {
        b
    }
}

/// What reading `b` as an unsigned 32-bit decimal gives: an optional `+`,
/// then one or more digits, no other character, and a value that fits.
pub open spec fn decimal_u32(b: Seq<u8>) -> Option<u32> {
    let d = unsigned_digits(b);
    if d.len() > 0 && (forall|i: int| 0 <= i < d.len() ==> is_digit(#[trigger] d[i]))
        && digits_value(d) <= u32::MAX {
        Some(digits_value(d) as u32)
    } else {
        None
    }
}

proof fn lemma_digits_grow(d: Seq<u8>, k: int)
    requires
        0 <= k <= d.len(),
        forall|i: int| 0 <= i < d.len() ==> is_digit(#[trigger] d[i]),
    ensures
        digits_value(d.subrange(0, k)) <= digits_value(d),
        0 <= digits_value(d.subrange(0, k)),
    decreases d.len(),
{
    if k < d.len() {
        lemma_digits_grow(d.drop_last(), k);
        assert(d.drop_last().subrange(0, k) =~= d.subrange(0, k));
        assert(0 <= digits_value(d.drop_last()));
    } else {
        assert(d.subrange(0, k) =~= d);
        if d.len() > 0 {
            lemma_digits_grow(d.drop_last(), k - 1);
            assert(d.drop_last().subrange(0, k - 1) =~= d.drop_last());
        }
    }
}

/// Reads the queue's approximate size from the text of its size attribute:
/// the value where the text is an unsigned 32-bit decimal, else `None`.
pub fn parse_queue_size(text: &str) -> (r: Option<u32>)
    ensures
        r == decimal_u32(text.spec_bytes()),
{
    let b = text.as_bytes();
    let n = b.len();
    let mut i: usize = 0;
    if n > 0 && b[0] == 43u8 {
        i = 1;
    }
    let start = i;
    let ghost d = unsigned_digits(b@);
    assert(d =~= b@.subrange(start as int, n as int));
    if i == n {
        return None;
    }
    let mut acc: u64 = 0;
    while i < n
        invariant
            start <= i <= n,
            n == b@.len(),
            d == unsigned_digits(b@),
            b@ == text.spec_bytes(),
            d =~= b@.subrange(start as int, n as int),
            forall|j: int| 0 <= j < i - start ==> is_digit(#[trigger] d[j]),
            acc == digits_value(d.subrange(0, i - start)),
            acc <= u32::MAX,
        decreases n - i,
    {
        let c = b[i];
        if c < 48u8 || c > 57u8 {
            assert(!is_digit(d[i - start]));
            assert(decimal_u32(b@) is None);
            return None;
        }
        let next = acc * 10 + (c - 48u8) as u64;
        let ghost p = d.subrange(0, i - start + 1);
        assert(p.drop_last() =~= d.subrange(0, i - start));
        if next > u32::MAX as u64 {
            proof {
                if forall|j: int| 0 <= j < d.len() ==> is_digit(#[trigger] d[j]) {
                    lemma_digits_grow(d, i - start + 1);
                }
                assert(decimal_u32(b@) is None);
            }
            return None;
        }
        acc = next;
        i = i + 1;
    }
    assert(d.subrange(0, n - start) =~= d);
    Some(acc as u32)
}

} // verus!
