//! Manifest reader: the two control files found inside an extracted archive.
//!
//! The patch list is JSON-per-line — each line is expected to be one small
//! JSON object carrying a `remoteName` string — and is parsed by a dedicated
//! line-oriented decoder, deliberately distinct from whole-document JSON
//! decoding: a malformed line is skipped, never fatal.  The decoder accepts
//! flat objects whose member values are strings or unquoted scalar literals
//! (numbers, `true`, `false`, `null`); string escapes other than the
//! single-character ones (such as `\uXXXX`) make the line malformed, hence
//! skipped.  The delete list is plain text, one relative path per line, blank
//! lines ignored.

use vstd::prelude::*;
use crate::bytes::{
    BACKSLASH, COLON, COMMA, CR, DIGIT_NINE, DIGIT_ZERO, DOT, LBRACE, LF, PLUS, QUOTE, RBRACE,
    SLASH, TAB, bytes_eq, is_ws, remote_name_key, spec_is_ws, spec_remote_name_key,
};

verus! {

pub const MINUS: u8 = 45;  // '-'
pub const UPPER_E: u8 = 69;  // 'E'
pub const LOWER_A: u8 = 97;  // 'a'
pub const LOWER_Z: u8 = 122;  // 'z'
pub const LOWER_B: u8 = 98;  // 'b'
pub const LOWER_F: u8 = 102;  // 'f'
pub const LOWER_N: u8 = 110;  // 'n'
pub const LOWER_R: u8 = 114;  // 'r'
pub const LOWER_T: u8 = 116;  // 't'
pub const BS: u8 = 8;  // backspace, for '\b'
pub const FF: u8 = 12;  // form feed, for '\f'

/// The first position at or after `i` holding a byte that is not ASCII
/// whitespace, or the length when none is.
pub open spec fn spec_skip_ws(s: Seq<u8>, i: int) -> int
    decreases s.len() - i,
{
    if i >= s.len() {
        s.len() as int
    } else if spec_is_ws(s[i]) {
        spec_skip_ws(s, i + 1)
    } else {
        i
    }
}

proof fn lemma_skip_ws_bounds(s: Seq<u8>, i: int)
    requires
        0 <= i <= s.len(),
    ensures
        i <= spec_skip_ws(s, i) <= s.len(),
    decreases s.len() - i,
{
    if i < s.len() && spec_is_ws(s[i]) {
        lemma_skip_ws_bounds(s, i + 1);
    }
}

fn skip_ws(s: &[u8], i: usize) -> (r: usize)
    requires
        i <= s@.len(),
    ensures
        r == spec_skip_ws(s@, i as int),
        i <= r <= s@.len(),
{
    let n = s.len();
    let mut j = i;
    while j < n && is_ws(s[j])
        invariant
            i <= j <= n,
            n == s@.len(),
            spec_skip_ws(s@, i as int) == spec_skip_ws(s@, j as int),
        decreases n - j,
    {
        j = j + 1;
    }
    j
}

/// The position of the first line feed at or after `i`, or the length.
pub open spec fn spec_find_nl(s: Seq<u8>, i: int) -> int
    decreases s.len() - i,
{
    if i >= s.len() {
        s.len() as int
    } else if s[i] == LF {
        i
    } else {
        spec_find_nl(s, i + 1)
    }
}

proof fn lemma_find_nl_bounds(s: Seq<u8>, i: int)
    requires
        0 <= i <= s.len(),
    ensures
        i <= spec_find_nl(s, i) <= s.len(),
    decreases s.len() - i,
{
    if i < s.len() && s[i] != LF {
        lemma_find_nl_bounds(s, i + 1);
    }
}

fn find_nl(s: &[u8], i: usize) -> (r: usize)
    requires
        i <= s@.len(),
    ensures
        r == spec_find_nl(s@, i as int),
        i <= r <= s@.len(),
{
    let n = s.len();
    let mut j = i;
    while j < n && s[j] != LF
        invariant
            i <= j <= n,
            n == s@.len(),
            spec_find_nl(s@, i as int) == spec_find_nl(s@, j as int),
        decreases n - j,
    {
        j = j + 1;
    }
    j
}

/// The byte denoted by a single-character string escape, if the escape is one
/// the decoder accepts.
pub open spec fn spec_unescape(b: u8) -> Option<u8> {
    if b == QUOTE {
        Some(QUOTE)
    } else if b == BACKSLASH {
        Some(BACKSLASH)
    } else if b == SLASH {
        Some(SLASH)
    } else if b == LOWER_B {
        Some(BS)
    } else if b == LOWER_F {
        Some(FF)
    } else if b == LOWER_N {
        Some(LF)
    } else if b == LOWER_R {
        Some(CR)
    } else if b == LOWER_T {
        Some(TAB)
    } else {
        None
    }
}

fn unescape(b: u8) -> (r: Option<u8>)
    ensures
        r == spec_unescape(b),
{
    if b == QUOTE {
        Some(QUOTE)
    } else if b == BACKSLASH {
        Some(BACKSLASH)
    } else if b == SLASH {
        Some(SLASH)
    } else if b == LOWER_B {
        Some(BS)
    } else if b == LOWER_F {
        Some(FF)
    } else if b == LOWER_N {
        Some(LF)
    } else if b == LOWER_R {
        Some(CR)
    } else if b == LOWER_T {
        Some(TAB)
    } else {
        None
    }
}

/// Scans a string body starting just after its opening quote.  Yields the
/// unescaped contents and the position just after the closing quote; an
/// unterminated string, a raw control byte, or an unsupported escape makes
/// the scan fail.
pub open spec fn spec_scan_string(s: Seq<u8>, i: int) -> Option<(Seq<u8>, int)>
    decreases s.len() - i,
{
    if i < 0 || i >= s.len() {
        None
    } else if s[i] == QUOTE {
        Some((Seq::empty(), i + 1))
    } else if s[i] == BACKSLASH {
        if i + 1 >= s.len() {
            None
        } else {
            match spec_unescape(s[i + 1]) {
                Some(c) => match spec_scan_string(s, i + 2) {
                    Some(te) => Some((seq![c] + te.0, te.1)),
                    None => None,
                },
                None => None,
            }
        }
    } else if s[i] < 32 {
        None
    } else {
        match spec_scan_string(s, i + 1) {
            Some(te) => Some((seq![s[i]] + te.0, te.1)),
            None => None,
        }
    }
}

proof fn lemma_scan_string_bounds(s: Seq<u8>, i: int)
    requires
        0 <= i,
    ensures
        spec_scan_string(s, i) matches Some(te) ==> i < te.1 <= s.len(),
    decreases s.len() - i,
{
    if i < s.len() {
        if s[i] == BACKSLASH {
            if i + 1 < s.len() {
                lemma_scan_string_bounds(s, i + 2);
            }
        } else {
            lemma_scan_string_bounds(s, i + 1);
        }
    }
}

fn scan_string(s: &[u8], i: usize) -> (r: Option<(Vec<u8>, usize)>)
    requires
        i <= s@.len(),
    ensures
        match r {
            Some(ve) => spec_scan_string(s@, i as int) == Some((ve.0@, ve.1 as int)) && i
                < ve.1 <= s@.len(),
            None => spec_scan_string(s@, i as int) is None,
        },
{
    let n = s.len();
    let mut j = i;
    let mut acc: Vec<u8> = Vec::new();
    loop
        invariant
            i <= j <= n,
            n == s@.len(),
            match spec_scan_string(s@, j as int) {
                Some(te) => spec_scan_string(s@, i as int) == Some((acc@ + te.0, te.1)),
                None => spec_scan_string(s@, i as int) is None,
            },
        decreases n - j,
    {
        if j >= n {
            return None;
        }
        let b = s[j];
        if b == QUOTE {
            proof {
                assert(spec_scan_string(s@, j as int) == Some((
                    Seq::<u8>::empty(),
                    j + 1 as int,
                )));
                assert(acc@ + Seq::<u8>::empty() =~= acc@);
            }
            return Some((acc, j + 1));
        }
        if b == BACKSLASH {
            if j + 1 >= n {
                return None;
            }
            match unescape(s[j + 1]) {
                Some(c) => {
                    let ghost old_acc = acc@;
                    acc.push(c);
                    proof {
                        if spec_scan_string(s@, j + 2) is Some {
                            let te = spec_scan_string(s@, j + 2).unwrap();
                            assert(spec_scan_string(s@, j as int) == Some((
                                seq![c] + te.0,
                                te.1,
                            )));
                            assert(old_acc + (seq![c] + te.0) =~= acc@ + te.0);
                        }
                    }
                    j = j + 2;
                },
                None => {
                    return None;
                },
            }
        } else if b < 32 {
            return None;
        } else {
            let ghost old_acc = acc@;
            acc.push(b);
            proof {
                if spec_scan_string(s@, j + 1) is Some {
                    let te = spec_scan_string(s@, j + 1).unwrap();
                    assert(spec_scan_string(s@, j as int) == Some((seq![b] + te.0, te.1)));
                    assert(old_acc + (seq![b] + te.0) =~= acc@ + te.0);
                }
            }
            j = j + 1;
        }
    }
}

/// Bytes that may form an unquoted scalar literal: digits, lowercase letters
/// (covering `true`, `false`, `null`), sign characters, the decimal point and
/// the exponent letter.
pub open spec fn spec_is_literal_byte(b: u8) -> bool {
    (DIGIT_ZERO <= b <= DIGIT_NINE) || (LOWER_A <= b <= LOWER_Z) || b == MINUS || b == PLUS
        || b == DOT || b == UPPER_E
}

fn is_literal_byte(b: u8) -> (r: bool)
    ensures
        r == spec_is_literal_byte(b),
{
    (DIGIT_ZERO <= b && b <= DIGIT_NINE) || (LOWER_A <= b && b <= LOWER_Z) || b == MINUS
        || b == PLUS || b == DOT || b == UPPER_E
}

/// The first position at or after `i` not holding a literal byte.
pub open spec fn spec_literal_end(s: Seq<u8>, i: int) -> int
    decreases s.len() - i,
{
    if i >= s.len() {
        s.len() as int
    } else if spec_is_literal_byte(s[i]) {
        spec_literal_end(s, i + 1)
    } else {
        i
    }
}

proof fn lemma_literal_end_bounds(s: Seq<u8>, i: int)
    requires
        0 <= i <= s.len(),
    ensures
        i <= spec_literal_end(s, i) <= s.len(),
    decreases s.len() - i,
{
    if i < s.len() && spec_is_literal_byte(s[i]) {
        lemma_literal_end_bounds(s, i + 1);
    }
}

fn literal_end(s: &[u8], i: usize) -> (r: usize)
    requires
        i <= s@.len(),
    ensures
        r == spec_literal_end(s@, i as int),
        i <= r <= s@.len(),
{
    let n = s.len();
    let mut j = i;
    while j < n && is_literal_byte(s[j])
        invariant
            i <= j <= n,
            n == s@.len(),
            spec_literal_end(s@, i as int) == spec_literal_end(s@, j as int),
        decreases n - j,
    {
        j = j + 1;
    }
    j
}

/// A member value at position `i`: a string (whose contents are yielded) or a
/// scalar literal (yielded as `None`); the second component is the position
/// just after the value.
pub open spec fn spec_value(s: Seq<u8>, i: int) -> Option<(Option<Seq<u8>>, int)> {
    if i < 0 || i >= s.len() {
        None
    } else if s[i] == QUOTE {
        match spec_scan_string(s, i + 1) {
            Some(te) => Some((Some(te.0), te.1)),
            None => None,
        }
    } else if spec_is_literal_byte(s[i]) {
        Some((None, spec_literal_end(s, i)))
    } else {
        None
    }
}

proof fn lemma_value_bounds(s: Seq<u8>, i: int)
    requires
        0 <= i,
    ensures
        spec_value(s, i) matches Some(ve) ==> i < ve.1 <= s.len(),
{
    if 0 <= i < s.len() {
        if s[i] == QUOTE {
            lemma_scan_string_bounds(s, i + 1);
        } else if spec_is_literal_byte(s[i]) {
            lemma_literal_end_bounds(s, i);
            assert(spec_literal_end(s, i) == spec_literal_end(s, i + 1));
            lemma_literal_end_bounds(s, i + 1);
        }
    }
}

fn parse_value(s: &[u8], i: usize) -> (r: Option<(Option<Vec<u8>>, usize)>)
    requires
        i <= s@.len(),
    ensures
        match r {
            Some(ve) => {
                &&& spec_value(s@, i as int) matches Some(sve) && sve.1 == ve.1 as int
                    && (match ve.0 {
                    Some(v) => sve.0 == Some(v@),
                    None => sve.0 is None,
                })
                &&& i < ve.1 <= s@.len()
            },
            None => spec_value(s@, i as int) is None,
        },
{
    let n = s.len();
    if i >= n {
        return None;
    }
    if s[i] == QUOTE {
        match scan_string(s, i + 1) {
            Some((v, e)) => Some((Some(v), e)),
            None => None,
        }
    } else if is_literal_byte(s[i]) {
        let e = literal_end(s, i);
        proof {
            assert(spec_literal_end(s@, i as int) == spec_literal_end(s@, i + 1));
            lemma_literal_end_bounds(s@, i + 1);
        }
        Some((None, e))
    } else {
        None
    }
}

/// The view of an optional byte buffer.
pub open spec fn opt_bytes_view(o: Option<Vec<u8>>) -> Option<Seq<u8>> {
    match o {
        Some(v) => Some(v@),
        None => None,
    }
}

/// Parses the member list of a one-line object from position `i` (just after
/// `{` or `,`), carrying the `remoteName` value seen so far.  The outer
/// `None` means the line is malformed; otherwise the final `remoteName`
/// value, if any, is yielded.  The member list must end with `}` followed
/// only by whitespace.
pub open spec fn spec_members(s: Seq<u8>, i: int, found: Option<Seq<u8>>) -> Option<
    Option<Seq<u8>>,
>
    decreases s.len() - i,
    via spec_members_decreases
{
    if i < 0 {
        None
    } else {
        let k0 = spec_skip_ws(s, i);
        if k0 >= s.len() || s[k0] != QUOTE {
            None
        } else {
            match spec_scan_string(s, k0 + 1) {
                None => None,
                Some(key_end) => {
                    let c = spec_skip_ws(s, key_end.1);
                    if c >= s.len() || s[c] != COLON {
                        None
                    } else {
                        match spec_value(s, spec_skip_ws(s, c + 1)) {
                            None => None,
                            Some(val_end) => {
                                let found2 = if key_end.0 == spec_remote_name_key()
                                    && val_end.0 is Some {
                                    val_end.0
                                } else {
                                    found
                                };
                                let t = spec_skip_ws(s, val_end.1);
                                if t < s.len() && s[t] == COMMA {
                                    spec_members(s, t + 1, found2)
                                } else if t < s.len() && s[t] == RBRACE {
                                    if spec_skip_ws(s, t + 1) == s.len() {
                                        Some(found2)
                                    } else {
                                        None
                                    }
                                } else {
                                    None
                                }
                            },
                        }
                    }
                },
            }
        }
    }
}

#[via_fn]
proof fn spec_members_decreases(s: Seq<u8>, i: int, found: Option<Seq<u8>>) {
    if i >= 0 {
        let k0 = spec_skip_ws(s, i);
        if i <= s.len() {
            lemma_skip_ws_bounds(s, i);
        }
        if k0 < s.len() && s[k0] == QUOTE {
            // When the recursion is reached, every intermediate position lies
            // within the line, each strictly after `i`.
            assert(i <= k0);
            lemma_scan_string_bounds(s, k0 + 1);
            if spec_scan_string(s, k0 + 1) is Some {
                let key_end = spec_scan_string(s, k0 + 1).unwrap();
                lemma_skip_ws_bounds(s, key_end.1);
                let c = spec_skip_ws(s, key_end.1);
                if c < s.len() && s[c] == COLON {
                    lemma_skip_ws_bounds(s, c + 1);
                    let v0 = spec_skip_ws(s, c + 1);
                    lemma_value_bounds(s, v0);
                    if spec_value(s, v0) is Some {
                        let val_end = spec_value(s, v0).unwrap();
                        lemma_skip_ws_bounds(s, val_end.1);
                    }
                }
            }
        }
    }
}

/// The `remoteName` carried by one patch-list line, when the line is a
/// well-formed one-line object that has one; `None` otherwise — the line is
/// then skipped.
pub open spec fn spec_parse_patch_line(s: Seq<u8>) -> Option<Seq<u8>> {
    let i0 = spec_skip_ws(s, 0);
    if i0 >= s.len() || s[i0] != LBRACE {
        None
    } else {
        match spec_members(s, i0 + 1, None) {
            None => None,
            Some(found) => found,
        }
    }
}

/// Parses one patch-list line, yielding the `remoteName` of a well-formed
/// line and `None` for a malformed one or one without a `remoteName`.
pub fn parse_patch_line(line: &[u8]) -> (r: Option<Vec<u8>>)
    ensures
        match r {
            Some(v) => spec_parse_patch_line(line@) == Some(v@),
            None => spec_parse_patch_line(line@) is None,
        },
{
    let n = line.len();
    let i0 = skip_ws(line, 0);
    if i0 >= n {
        return None;
    }
    if line[i0] != LBRACE {
        return None;
    }
    let key_name = remote_name_key();
    let mut pos: usize = i0 + 1;
    let mut found: Option<Vec<u8>> = None;
    loop
        invariant
            pos <= n,
            n == line@.len(),
            i0 == spec_skip_ws(line@, 0),
            i0 < n && line@[i0 as int] == LBRACE,
            key_name@ == spec_remote_name_key(),
            spec_members(line@, i0 + 1, None) == spec_members(
                line@,
                pos as int,
                opt_bytes_view(found),
            ),
        decreases n - pos,
    {
        let k0 = skip_ws(line, pos);
        if k0 >= n {
            return None;
        }
        if line[k0] != QUOTE {
            return None;
        }
        let (key, e1) = match scan_string(line, k0 + 1) {
            Some(p) => p,
            None => {
                return None;
            },
        };
        let c = skip_ws(line, e1);
        if c >= n {
            return None;
        }
        if line[c] != COLON {
            return None;
        }
        let v0 = skip_ws(line, c + 1);
        let (val, e2) = match parse_value(line, v0) {
            Some(p) => p,
            None => {
                return None;
            },
        };
        let is_name = bytes_eq(key.as_slice(), key_name.as_slice());
        let new_found: Option<Vec<u8>> = if is_name {
            match val {
                Some(v) => Some(v),
                None => found,
            }
        } else {
            found
        };
        found = new_found;
        let t = skip_ws(line, e2);
        if t < n && line[t] == COMMA {
            pos = t + 1;
        } else if t < n && line[t] == RBRACE {
            if skip_ws(line, t + 1) == n {
                return found;
            } else {
                return None;
            }
        } else {
            return None;
        }
    }
}

/// The names yielded by the patch-list lines from position `i` onward.
pub open spec fn spec_patch_names_from(s: Seq<u8>, i: int) -> Seq<Seq<u8>>
    decreases s.len() + 1 - i,
    via spec_patch_names_decreases
{
    if i < 0 || i >= s.len() {
        Seq::empty()
    } else {
        let j = spec_find_nl(s, i);
        let rest = spec_patch_names_from(s, j + 1);
        match spec_parse_patch_line(s.subrange(i, j)) {
            Some(name) => seq![name] + rest,
            None => rest,
        }
    }
}

#[via_fn]
proof fn spec_patch_names_decreases(s: Seq<u8>, i: int) {
    if 0 <= i < s.len() {
        lemma_find_nl_bounds(s, i);
    }
}

/// The names of the files to patch, as the whole patch-list file yields them:
/// one name per well-formed line, malformed lines skipped.
pub open spec fn spec_patch_names(s: Seq<u8>) -> Seq<Seq<u8>> {
    spec_patch_names_from(s, 0)
}

/// Reads a patch list: one JSON object per line, each expected to carry a
/// `remoteName`; malformed lines are skipped with no failure.
pub fn read_patch_list(data: &[u8]) -> (r: Vec<Vec<u8>>)
    ensures
        r@.map_values(|v: Vec<u8>| v@) == spec_patch_names(data@),
{
    let n = data.len();
    let mut out: Vec<Vec<u8>> = Vec::new();
    let mut i: usize = 0;
    while i < n
        invariant
            i <= n,
            n == data@.len(),
            out@.map_values(|v: Vec<u8>| v@) + spec_patch_names_from(data@, i as int)
                == spec_patch_names(data@),
        decreases n + 1 - i,
    {
        let j = find_nl(data, i);
        let line = vstd::slice::slice_subrange(data, i, j);
        let ghost pre_out = out@;
        match parse_patch_line(line) {
            Some(name) => {
                out.push(name);
            },
            None => {},
        }
        proof {
            assert(out@.map_values(|v: Vec<u8>| v@) + spec_patch_names_from(data@, j + 1)
                =~= pre_out.map_values(|v: Vec<u8>| v@) + spec_patch_names_from(
                data@,
                i as int,
            ));
        }
        i = if j < n {
            j + 1
        } else {
            n
        };
    }
    proof {
        assert(spec_patch_names_from(data@, i as int) =~= Seq::<Seq<u8>>::empty());
        assert(out@.map_values(|v: Vec<u8>| v@) + Seq::<Seq<u8>>::empty() =~= out@.map_values(
            |v: Vec<u8>| v@,
        ));
    }
    out
}

/// The first position from the right, at or before `i`, after which only
/// ASCII whitespace follows.
pub open spec fn spec_rskip_ws(s: Seq<u8>, i: int) -> int
    decreases i,
{
    if i <= 0 {
        0
    } else if spec_is_ws(s[i - 1]) {
        spec_rskip_ws(s, i - 1)
    } else {
        i
    }
}

fn rskip_ws(s: &[u8], i: usize) -> (r: usize)
    requires
        i <= s@.len(),
    ensures
        r == spec_rskip_ws(s@, i as int),
        r <= i,
{
    let mut j = i;
    while j > 0 && is_ws(s[j - 1])
        invariant
            j <= i <= s@.len(),
            spec_rskip_ws(s@, i as int) == spec_rskip_ws(s@, j as int),
        decreases j,
    {
        j = j - 1;
    }
    j
}

/// The line with its leading and trailing ASCII whitespace removed.
pub open spec fn spec_trim(s: Seq<u8>) -> Seq<u8> {
    let a = spec_skip_ws(s, 0);
    let b = spec_rskip_ws(s, s.len() as int);
    if b <= a {
        Seq::empty()
    } else {
        s.subrange(a, b)
    }
}

/// Trims a line.
pub fn trim_line(line: &[u8]) -> (r: Vec<u8>)
    ensures
        r@ == spec_trim(line@),
{
    let a = skip_ws(line, 0);
    let b = rskip_ws(line, line.len());
    if b <= a {
        Vec::new()
    } else {
        vstd::slice::slice_to_vec(vstd::slice::slice_subrange(line, a, b))
    }
}

/// The paths yielded by the delete-list lines from position `i` onward:
/// each line trimmed, blank lines skipped.
pub open spec fn spec_delete_names_from(s: Seq<u8>, i: int) -> Seq<Seq<u8>>
    decreases s.len() + 1 - i,
    via spec_delete_names_decreases
{
    if i < 0 || i >= s.len() {
        Seq::empty()
    } else {
        let j = spec_find_nl(s, i);
        let rest = spec_delete_names_from(s, j + 1);
        let t = spec_trim(s.subrange(i, j));
        if t.len() == 0 {
            rest
        } else {
            seq![t] + rest
        }
    }
}

#[via_fn]
proof fn spec_delete_names_decreases(s: Seq<u8>, i: int) {
    if 0 <= i < s.len() {
        lemma_find_nl_bounds(s, i);
    }
}

/// The paths of the files to delete, as the whole delete-list file yields
/// them: one trimmed path per line, blank lines skipped.
pub open spec fn spec_delete_names(s: Seq<u8>) -> Seq<Seq<u8>> {
    spec_delete_names_from(s, 0)
}

/// Reads a delete list: plain text, one relative path per line; blank lines
/// are skipped and no escaping or quoting is applied.
pub fn read_delete_list(data: &[u8]) -> (r: Vec<Vec<u8>>)
    ensures
        r@.map_values(|v: Vec<u8>| v@) == spec_delete_names(data@),
{
    let n = data.len();
    let mut out: Vec<Vec<u8>> = Vec::new();
    let mut i: usize = 0;
    while i < n
        invariant
            i <= n,
            n == data@.len(),
            out@.map_values(|v: Vec<u8>| v@) + spec_delete_names_from(data@, i as int)
                == spec_delete_names(data@),
        decreases n + 1 - i,
    {
        let j = find_nl(data, i);
        let line = vstd::slice::slice_subrange(data, i, j);
        let t = trim_line(line);
        let ghost pre_out = out@;
        if t.len() > 0 {
            out.push(t);
        }
        proof {
            assert(out@.map_values(|v: Vec<u8>| v@) + spec_delete_names_from(data@, j + 1)
                =~= pre_out.map_values(|v: Vec<u8>| v@) + spec_delete_names_from(
                data@,
                i as int,
            ));
        }
        i = if j < n {
            j + 1
        } else {
            n
        };
    }
    proof {
        assert(spec_delete_names_from(data@, i as int) =~= Seq::<Seq<u8>>::empty());
        assert(out@.map_values(|v: Vec<u8>| v@) + Seq::<Seq<u8>>::empty() =~= out@.map_values(
            |v: Vec<u8>| v@,
        ));
    }
    out
}

} // verus!
