//! The resolved configuration of a search run, and the validators for the
//! numeric command-line options.

use vstd::prelude::*;
use vstd::string::StrSliceExecFns;

verus! {

/// Maximum depth used when none is given: effectively unbounded.
pub const DEFAULT_MAX_DEPTH: u8 = 255;

/// Result cap used when none is given: effectively unbounded.
pub const DEFAULT_MAX_ITEMS: u32 = 4294967295;

/// Worker count used when none is given.
pub const DEFAULT_NUM_THREADS: u8 = 16;

/// The immutable configuration of one search run, produced by the
/// command-line layer before the traversal starts and read-only afterwards.
pub struct Config {
    /// Report directories that could not be listed for lack of permission.
    pub verbose: bool,
    /// Print paths relative to the root directory instead of absolute ones.
    pub relative: bool,
    /// Traverse into hidden entries and the reserved `Library` directory.
    pub all: bool,
    /// Stop emitting matches once this many have been printed.
    pub max_items: u32,
    /// Nodes deeper than this below the root are not searched.
    pub max_depth: u8,
    /// The directory the search starts from.
    pub root_dir: String,
    /// The name searched for: a literal name, or a pattern source.
    pub match_expr: String,
    /// Interpret `match_expr` as a pattern anchored over the whole name.
    pub regex: bool,
    /// How many workers share the traversal.
    pub num_threads: u8,
}

/// True of a decimal digit.
pub open spec fn is_digit(c: char) -> bool {
    '0' <= c && c <= '9'
}

/// True when every character of `s` is a decimal digit.
pub open spec fn all_digits(s: Seq<char>) -> bool {
    forall|i: int| 0 <= i < s.len() ==> is_digit(s[i])
}

/// The value that `c` contributes as a decimal digit.
pub open spec fn digit_val(c: char) -> nat {
    (c as int - '0' as int) as nat
}

/// The number written by a sequence of decimal digits, most significant first.
pub open spec fn dec_val(s: Seq<char>) -> nat
    decreases s.len(),
{
    if s.len() == 0 {
        0
    } else {
        dec_val(s.drop_last()) * 10 + digit_val(s.last())
    }
}

/// The digits of an unsigned decimal literal: everything after an optional
/// leading plus sign.
pub open spec fn digits_part(s: Seq<char>) -> Seq<char> {
    if s.len() > 0 && s[0] == '+' {
        s.drop_first()
    } else {
        s
    }
}

/// True when `s` is an unsigned decimal literal (optional leading `+`,
/// then at least one digit) whose value is at most `cap`.  This is what
/// parsing `s` as an unsigned integer with that bound accepts.
pub open spec fn is_uint_string(s: Seq<char>, cap: nat) -> bool {
    digits_part(s).len() > 0 && all_digits(digits_part(s)) && dec_val(digits_part(s)) <= cap
}

/// A digit sequence is worth at least as much as any of its prefixes.
proof fn lemma_dec_val_prefix(s: Seq<char>, k: int)
    requires
        0 <= k <= s.len(),
    ensures
        dec_val(s.subrange(0, k)) <= dec_val(s),
    decreases s.len() - k,
{
    if k < s.len() {
        let t = s.subrange(0, k + 1);
        lemma_dec_val_prefix(s, k + 1);
        assert(t.drop_last() =~= s.subrange(0, k));
        assert(dec_val(s.subrange(0, k)) <= dec_val(t));
    } else {
        assert(s.subrange(0, k) =~= s);
    }
}

/// Decides whether `s` is an unsigned decimal literal whose value fits
/// below `cap`, exactly as `is_uint_string` says.
fn validate_uint(s: &str, cap: u64) -> (r: bool)
    requires
        cap <= u32::MAX as u64,
    ensures
        r == is_uint_string(s@, cap as nat),
{
    let n: usize = s.unicode_len();
    let start: usize = if n > 0 && s.get_char(0) == '+' {
        1
    } else {
        0
    };
    proof {
        assert(s@.subrange(start as int, n as int) =~= digits_part(s@));
    }
    if n == start {
        return false;
    }
    let mut i: usize = start;
    let mut acc: u64 = 0;
    while i < n
        invariant
            start <= i <= n,
            n == s@.len(),
            start == 1 ==> n > 0 && s@[0] == '+',
            start == 0 || start == 1,
            s@.subrange(start as int, n as int) =~= digits_part(s@),
            n > start,
            all_digits(s@.subrange(start as int, i as int)),
            acc == dec_val(s@.subrange(start as int, i as int)),
            acc <= cap,
            cap <= u32::MAX as u64,
        decreases n - i,
    {
        let c = s.get_char(i);
        let cv: u32 = c as u32;
        if cv < 48 || cv > 57 {
            proof {
                let d = digits_part(s@);
                assert(d[i - start] == s@[i as int]);
                assert(!is_digit(d[i - start]));
            }
            return false;
        }
        let dv: u64 = (cv - 48) as u64;
        let next: u64 = acc * 10 + dv;
        proof {
            let p = s@.subrange(start as int, i + 1);
            assert(p.drop_last() =~= s@.subrange(start as int, i as int));
            assert(p.last() == s@[i as int]);
            assert(dec_val(p) == acc * 10 + digit_val(s@[i as int]));
        }
        if next > cap {
            proof {
                let d = digits_part(s@);
                if all_digits(d) {
                    lemma_dec_val_prefix(d, i + 1 - start);
                    assert(d.subrange(0, i + 1 - start) =~= s@.subrange(start as int, i + 1));
                    assert(dec_val(d) >= next);
                }
            }
            return false;
        }
        acc = next;
        proof {
            let p = s@.subrange(start as int, i + 1);
            assert(forall|j: int| 0 <= j < p.len() ==> is_digit(#[trigger] p[j]));
        }
        i = i + 1;
    }
    proof {
        assert(s@.subrange(start as int, n as int) =~= digits_part(s@));
    }
    true
}

/// Accepts a string exactly when it reads as an unsigned decimal value that
/// fits in eight bits, as the `max_depth` and `threads` options require.
pub fn u8_validator(s: String) -> (r: Result<(), String>)
    ensures
        r is Ok <==> is_uint_string(s@, u8::MAX as nat),
        r matches Err(m) ==> m@ == "The value must be a positive integer"@,
{
    if validate_uint(s.as_str(), 255) {
        Ok(())
    } else {
        Err("The value must be a positive integer".to_owned())
    }
}

/// Accepts a string exactly when it reads as an unsigned decimal value that
/// fits in thirty-two bits, as the `max_items` option requires.
pub fn u32_validator(s: String) -> (r: Result<(), String>)
    ensures
        r is Ok <==> is_uint_string(s@, u32::MAX as nat),
        r matches Err(m) ==> m@ == "The value must be a positive integer"@,
{
    if validate_uint(s.as_str(), 4294967295) {
        Ok(())
    } else {
        Err("The value must be a positive integer".to_owned())
    }
}

} // verus!
