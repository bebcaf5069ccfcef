//! Byte-level vocabulary shared by the parsing and path modules: named ASCII
//! codes, the control-file names, and small comparison helpers.

use vstd::prelude::*;

verus! {

// ASCII codes, named because byte literals cannot be written directly.
pub const TAB: u8 = 9;  // '\t'
pub const LF: u8 = 10;  // '\n'
pub const CR: u8 = 13;  // '\r'
pub const SPACE: u8 = 32;  // ' '
pub const QUOTE: u8 = 34;  // '"'
pub const PLUS: u8 = 43;  // '+'
pub const COMMA: u8 = 44;  // ','
pub const DOT: u8 = 46;  // '.'
pub const SLASH: u8 = 47;  // '/'
pub const DIGIT_ZERO: u8 = 48;  // '0'
pub const DIGIT_NINE: u8 = 57;  // '9'
pub const COLON: u8 = 58;  // ':'
pub const BACKSLASH: u8 = 92;  // '\\'
pub const LBRACE: u8 = 123;  // '{'
pub const RBRACE: u8 = 125;  // '}'

/// The control-file name `hdifffiles.txt`, listing the files to patch.
pub open spec fn spec_patch_list_name() -> Seq<u8> {
    seq![104u8, 100u8, 105u8, 102u8, 102u8, 102u8, 105u8, 108u8, 101u8, 115u8, 46u8, 116u8, 120u8, 116u8]
}

/// The control-file name `deletefiles.txt`, listing the files to delete.
pub open spec fn spec_delete_list_name() -> Seq<u8> {
    seq![100u8, 101u8, 108u8, 101u8, 116u8, 101u8, 102u8, 105u8, 108u8, 101u8, 115u8, 46u8, 116u8, 120u8, 116u8]
}

/// The suffix `.hdiff` that names a binary diff blob beside its target path.
pub open spec fn spec_hdiff_suffix() -> Seq<u8> {
    seq![46u8, 104u8, 100u8, 105u8, 102u8, 102u8]
}

/// The JSON key `remoteName` carried by each well-formed patch-list line.
pub open spec fn spec_remote_name_key() -> Seq<u8> {
    seq![114u8, 101u8, 109u8, 111u8, 116u8, 101u8, 78u8, 97u8, 109u8, 101u8]
}

/// Builds `hdifffiles.txt` as bytes.
pub fn patch_list_name() -> (r: Vec<u8>)
    ensures
        r@ == spec_patch_list_name(),
{
    let codes: [u8; 14] = [104, 100, 105, 102, 102, 102, 105, 108, 101, 115, 46, 116, 120, 116];
    let r = vstd::slice::slice_to_vec(codes.as_slice());
    proof {
        assert(r@ =~= spec_patch_list_name());
    }
    r
}

/// Builds `deletefiles.txt` as bytes.
pub fn delete_list_name() -> (r: Vec<u8>)
    ensures
        r@ == spec_delete_list_name(),
{
    let codes: [u8; 15] = [100, 101, 108, 101, 116, 101, 102, 105, 108, 101, 115, 46, 116, 120, 116];
    let r = vstd::slice::slice_to_vec(codes.as_slice());
    proof {
        assert(r@ =~= spec_delete_list_name());
    }
    r
}

/// Builds `.hdiff` as bytes.
pub fn hdiff_suffix() -> (r: Vec<u8>)
    ensures
        r@ == spec_hdiff_suffix(),
{
    let codes: [u8; 6] = [46, 104, 100, 105, 102, 102];
    let r = vstd::slice::slice_to_vec(codes.as_slice());
    proof {
        assert(r@ =~= spec_hdiff_suffix());
    }
    r
}

/// Builds `remoteName` as bytes.
pub fn remote_name_key() -> (r: Vec<u8>)
    ensures
        r@ == spec_remote_name_key(),
{
    let codes: [u8; 10] = [114, 101, 109, 111, 116, 101, 78, 97, 109, 101];
    let r = vstd::slice::slice_to_vec(codes.as_slice());
    proof {
        assert(r@ =~= spec_remote_name_key());
    }
    r
}

/// Compares two byte strings for equality.
pub fn bytes_eq(a: &[u8], b: &[u8]) -> (r: bool)
    ensures
        r == (a@ == b@),
{
    if a.len() != b.len() {
        proof {
            assert(a@ != b@);
        }
        return false;
    }
    let mut i: usize = 0;
    while i < a.len()
        invariant
            a@.len() == b@.len(),
            i <= a.len(),
            forall|j: int| 0 <= j < i ==> a@[j] == b@[j],
        decreases a.len() - i,
    {
        if a[i] != b[i] {
            return false;
        }
        i = i + 1;
    }
    proof {
        assert(a@ =~= b@);
    }
    true
}

/// True when `b` is an ASCII whitespace byte: space, tab, carriage return or line feed.
pub open spec fn spec_is_ws(b: u8) -> bool {
    b == SPACE || b == TAB || b == CR || b == LF
}

/// Tests a byte for ASCII whitespace.
pub fn is_ws(b: u8) -> (r: bool)
    ensures
        r == spec_is_ws(b),
{
    b == SPACE || b == TAB || b == CR || b == LF
}

} // verus!
