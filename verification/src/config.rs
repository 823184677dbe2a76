//! Engine configuration: a positive cache capacity and the content
//! categories ("attachment", "link") that are ignored entirely. An invalid
//! capacity is rejected here, at configuration time, so the engine itself
//! never runs with one.

use vstd::prelude::*;

verus! {

/// Why a configuration was rejected.
#[derive(Clone, Copy, Debug, PartialEq, Eq, Structural)]
pub enum ConfigError {
    /// The capacity was zero, or too large to address.
    InvalidCapacity,
}

/// Validated engine configuration.
#[derive(Clone, Copy, Debug, PartialEq, Eq, Structural)]
pub struct CacheConfig {
    pub capacity: usize,
    pub ignore_links: bool,
    pub ignore_attachments: bool,
}

impl CacheConfig {
    /// A configuration is valid only with a positive capacity.
    pub open spec fn valid(self) -> bool {
        1 <= self.capacity
    }

    /// Validate a raw capacity and ignore flags. Zero capacity (and one
    /// beyond the address space) is rejected, never treated as unbounded.
    pub fn new(capacity: u64, ignore_links: bool, ignore_attachments: bool) -> (r: Result<
        CacheConfig,
        ConfigError,
    >)
        ensures
            r is Ok <==> 1 <= capacity && capacity <= usize::MAX,
            r matches Ok(c) ==> c == (CacheConfig {
                capacity: capacity as usize,
                ignore_links,
                ignore_attachments,
            }) && c.valid(),
            r is Err ==> r == Result::<CacheConfig, ConfigError>::Err(ConfigError::InvalidCapacity),
    {
        if 1 <= capacity && capacity <= (usize::MAX as u64) {
            Ok(CacheConfig { capacity: capacity as usize, ignore_links, ignore_attachments })
        } else {
            Err(ConfigError::InvalidCapacity)
        }
    }

    /// Validate a raw capacity together with the names of the ignored
    /// source categories; names other than "attachment" and "link" are
    /// meaningless and ignored.
    pub fn from_names(capacity: u64, ignored: &Vec<String>) -> (r: Result<CacheConfig, ConfigError>)
        ensures
            r is Ok <==> 1 <= capacity && capacity <= usize::MAX,
            r matches Ok(c) ==> {
                &&& c.capacity == capacity as usize
                &&& c.valid()
                &&& c.ignore_links == (exists|i: int|
                    0 <= i < ignored@.len() && ignored@[i]@ == "link"@)
                &&& c.ignore_attachments == (exists|i: int|
                    0 <= i < ignored@.len() && ignored@[i]@ == "attachment"@)
            },
            r is Err ==> r == Result::<CacheConfig, ConfigError>::Err(ConfigError::InvalidCapacity),
    {
        let ignore_links = contains_name(ignored, "link");
        let ignore_attachments = contains_name(ignored, "attachment");
        CacheConfig::new(capacity, ignore_links, ignore_attachments)
    }
}

/// Whether one of `names` is exactly `name`.
fn contains_name(names: &Vec<String>, name: &str) -> (r: bool)
    ensures
        r == (exists|i: int| 0 <= i < names@.len() && names@[i]@ == name@),
{
    let w: String = name.to_owned();
    let n = names.len();
    let mut i: usize = 0;
    while i < n
        invariant
            n == names@.len(),
            i <= n,
            w@ == name@,
            forall|j: int| 0 <= j < i ==> names@[j]@ != name@,
        decreases n - i,
    {
        if names[i].eq(&w) {
            return true;
        }
        i = i + 1;
    }
    false
}

/// An ASCII decimal digit.
pub open spec fn is_digit(b: u8) -> bool {
    48 <= b <= 57
}

/// Whether every byte is an ASCII decimal digit.
pub open spec fn all_digits(s: Seq<u8>) -> bool {
    forall|i: int| 0 <= i < s.len() ==> is_digit(#[trigger] s[i])
}

/// The number the decimal digit string denotes.
pub open spec fn dec_value(s: Seq<u8>) -> int
    decreases s.len(),
{
    if s.len() == 0 {
        0
    } else {
        dec_value(s.drop_last()) * 10 + (s.last() - 48)
    }
}

/// A digit string's value only grows as digits are appended.
proof fn lemma_dec_value_prefix(s: Seq<u8>, i: int)
    requires
        0 <= i <= s.len(),
        all_digits(s),
        0 <= dec_value(s.take(i)),
    ensures
        dec_value(s.take(i)) <= dec_value(s),
    decreases s.len() - i,
{
    if i == s.len() {
        assert(s.take(i) =~= s);
    } else {
        assert(s.take(i + 1).drop_last() =~= s.take(i));
        assert(s.take(i + 1).last() == s[i]);
        lemma_dec_value_prefix(s, i + 1);
    }
}

/// Parse a capacity given as an ASCII decimal string: the denoted number,
/// or `None` when the string is empty, holds a non-digit, or denotes a
/// number too large for `u64`.
pub fn parse_capacity(digits: &[u8]) -> (r: Option<u64>)
    ensures
        r is Some <==> (digits@.len() > 0 && all_digits(digits@) && dec_value(digits@)
            <= u64::MAX),
        r matches Some(v) ==> v == dec_value(digits@),
{
    let n = digits.len();
    if n == 0 {
        return None;
    }
    let mut acc: u64 = 0;
    let mut i: usize = 0;
    while i < n
        invariant
            n == digits@.len(),
            i <= n,
            all_digits(digits@.take(i as int)),
            acc == dec_value(digits@.take(i as int)),
        decreases n - i,
    {
        let b = digits[i];
        if b < 48 || b > 57 {
            return None;
        }
        let d = (b - 48) as u64;
        proof {
            assert(digits@.take(i + 1).drop_last() =~= digits@.take(i as int));
            assert(digits@.take(i + 1).last() == digits@[i as int]);
        }
        let step = match acc.checked_mul(10) {
            Some(x) => x.checked_add(d),
            None => None,
        };
        match step {
            Some(y) => acc = y,
            None => {
                proof {
                    if all_digits(digits@) {
                        lemma_dec_value_prefix(digits@, i + 1);
                    }
                }
                return None;
            },
        }
        i = i + 1;
    }
    proof {
        assert(digits@.take(n as int) =~= digits@);
    }
    Some(acc)
}

} // verus!
