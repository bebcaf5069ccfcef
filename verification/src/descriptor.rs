//! The version descriptor that the remote manifest service answers with: the
//! available package versions, each exposing archive descriptors for the main
//! game and for every audio language.
//!
//! The pipeline consumes only `{url, size}` per chosen package.  Sizes arrive
//! as decimal strings; `parse_u64` is the verified reading of such a string.

use vstd::prelude::*;
use crate::bytes::{DIGIT_NINE, DIGIT_ZERO, PLUS};

verus! {

/// One downloadable archive of the main game: its location, checksum and
/// sizes.
#[derive(Debug, Clone)]
pub struct GamePkg {
    pub url: String,
    pub md5: String,
    pub size: u64,
    pub decompressed_size: u64,
}

/// One downloadable audio archive, tagged with its language.
#[derive(Debug, Clone)]
pub struct AudioPkg {
    pub language: String,
    pub url: String,
    pub md5: String,
    pub size: u64,
    pub decompressed_size: u64,
}

/// One version a package can be upgraded from, with its archives.
#[derive(Debug, Clone)]
pub struct Patch {
    pub version: String,
    pub game_pkgs: Vec<GamePkg>,
    pub audio_pkgs: Vec<AudioPkg>,
    pub res_list_url: String,
}

/// The current version and its full archives.
#[derive(Debug, Clone)]
pub struct Major {
    pub version: String,
    pub game_pkgs: Vec<GamePkg>,
    pub audio_pkgs: Vec<AudioPkg>,
    pub res_list_url: String,
}

/// The identity of one game in the answer.
#[derive(Debug, Clone)]
pub struct Game {
    pub id: String,
    pub biz: String,
}

/// The released line of one game: the current version and the versions it
/// can be upgraded from.
#[derive(Debug, Clone)]
pub struct Main {
    pub major: Major,
    pub patches: Vec<Patch>,
}

/// The pre-download line of one game, published ahead of a release.
#[derive(Debug, Clone)]
pub struct PreDownload {
    pub major: Option<Major>,
    pub patches: Vec<Patch>,
}

/// One game's packages in the answer.
#[derive(Debug, Clone)]
pub struct GamePackage {
    pub game: Game,
    pub main: Main,
    pub pre_download: PreDownload,
}

/// The payload of the answer.
#[derive(Debug, Clone)]
pub struct Data {
    pub game_packages: Vec<GamePackage>,
}

/// The whole answer of the manifest service.
#[derive(Debug, Clone)]
pub struct Response {
    pub retcode: i32,
    pub message: String,
    pub data: Data,
}

/// The value of a digit string, most significant first.
pub open spec fn spec_dec_val(s: Seq<u8>) -> int
    decreases s.len(),
{
    if s.len() == 0 {
        0
    } else {
        spec_dec_val(s.drop_last()) * 10 + (s.last() - DIGIT_ZERO)
    }
}

/// Every byte is a decimal digit.
pub open spec fn spec_all_digits(s: Seq<u8>) -> bool {
    forall|i: int| 0 <= i < s.len() ==> DIGIT_ZERO <= #[trigger] s[i] <= DIGIT_NINE
}

/// What reading a decimal string as a 64-bit size yields: the digits after
/// an optional leading plus sign, provided there is at least one, all bytes
/// are digits, and the value fits.
pub open spec fn spec_parse_u64(s: Seq<u8>) -> Option<u64> {
    let digits = if s.len() > 0 && s[0] == PLUS {
        s.skip(1)
    } else {
        s
    };
    if digits.len() > 0 && spec_all_digits(digits) && spec_dec_val(digits) <= u64::MAX {
        Some(spec_dec_val(digits) as u64)
    } else {
        None
    }
}

proof fn lemma_dec_val_nonneg(s: Seq<u8>)
    requires
        spec_all_digits(s),
    ensures
        spec_dec_val(s) >= 0,
    decreases s.len(),
{
    if s.len() > 0 {
        assert(spec_all_digits(s.drop_last())) by {
            assert(forall|i: int|
                0 <= i < s.drop_last().len() ==> s.drop_last()[i] == #[trigger] s[i]);
        }
        lemma_dec_val_nonneg(s.drop_last());
    }
}

/// A digit string is worth at least any of its prefixes.
proof fn lemma_dec_val_prefix(s: Seq<u8>, i: int)
    requires
        spec_all_digits(s),
        0 <= i <= s.len(),
    ensures
        spec_dec_val(s.take(i)) <= spec_dec_val(s),
    decreases s.len() - i,
{
    if i < s.len() {
        lemma_dec_val_prefix(s, i + 1);
        assert(s.take(i + 1).drop_last() =~= s.take(i));
        assert(spec_all_digits(s.take(i))) by {
            assert(forall|j: int| 0 <= j < i ==> s.take(i)[j] == #[trigger] s[j]);
        }
        lemma_dec_val_nonneg(s.take(i));
        assert(spec_dec_val(s.take(i + 1)) == spec_dec_val(s.take(i)) * 10 + (s[i]
            - DIGIT_ZERO));
    } else {
        assert(s.take(i) =~= s);
    }
}

/// Reads a decimal string — an optional leading plus sign, then digits — as
/// a 64-bit size; anything else, and any value that does not fit, yields
/// `None`.
pub fn parse_u64(s: &[u8]) -> (r: Option<u64>)
    ensures
        r == spec_parse_u64(s@),
{
    let n = s.len();
    let start: usize = if n > 0 && s[0] == PLUS {
        1
    } else {
        0
    };
    let ghost digits = if s@.len() > 0 && s@[0] == PLUS {
        s@.skip(1)
    } else {
        s@
    };
    proof {
        assert(digits.len() == n - start);
        assert(forall|j: int| 0 <= j < digits.len() ==> digits[j] == #[trigger] s@[j + start]);
    }
    if start >= n {
        return None;
    }
    let mut acc: u64 = 0;
    let mut i = start;
    while i < n
        invariant
            start <= i <= n,
            n == s@.len(),
            start <= 1,
            digits == (if s@.len() > 0 && s@[0] == PLUS {
                s@.skip(1)
            } else {
                s@
            }),
            digits.len() == n - start,
            forall|j: int| 0 <= j < digits.len() ==> digits[j] == #[trigger] s@[j + start],
            spec_all_digits(digits.take(i - start)),
            acc == spec_dec_val(digits.take(i - start)),
        decreases n - i,
    {
        let b = s[i];
        if b < DIGIT_ZERO || b > DIGIT_NINE {
            proof {
                assert(digits[i - start] == b);
                assert(!spec_all_digits(digits));
            }
            return None;
        }
        let ghost pre = digits.take(i - start);
        proof {
            assert(digits.take(i - start + 1).drop_last() =~= pre);
            assert(digits.take(i - start + 1).last() == digits[i - start]);
            assert(digits[i - start] == b);
            assert(spec_all_digits(digits.take(i - start + 1))) by {
                assert(forall|j: int|
                    0 <= j < i - start + 1 ==> digits.take(i - start + 1)[j]
                        == #[trigger] digits[j]);
            }
        }
        let d = (b - DIGIT_ZERO) as u64;
        let stepped = match acc.checked_mul(10) {
            Some(x) => x.checked_add(d),
            None => None,
        };
        match stepped {
            Some(y) => {
                acc = y;
            },
            None => {
                proof {
                    assert(spec_dec_val(digits.take(i - start + 1)) == acc * 10 + d);
                    assert(acc * 10 + d > u64::MAX);
                    if spec_all_digits(digits) {
                        lemma_dec_val_prefix(digits, i - start + 1);
                        assert(spec_dec_val(digits) > u64::MAX);
                    }
                }
                return None;
            },
        }
        i = i + 1;
    }
    proof {
        assert(digits.take(n - start) =~= digits);
        assert(digits.len() > 0);
    }
    Some(acc)
}

} // verus!
