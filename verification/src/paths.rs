//! Splitting database names: the file tail of a path, and the `HOST:` prefix
//! of a remote database name.

use vstd::prelude::*;
use vstd::utf8::*;
use vstd::string::StringSliceAdditionalSpecFns;
use crate::text::{lemma_ascii_byte_is_char, BACKSLASH, COLON, SLASH};
use crate::shell::Platform;

verus! {

broadcast use vstd::utf8::group_utf8_lib;

/// The index just past the last `/` in `b`, or 0 where `b` holds none.
pub open spec fn tail_start(b: Seq<u8>) -> int
    decreases b.len(),
{
    if b.len() == 0 {
        0
    } else if b.last() == SLASH {
        b.len() as int
    } else {
        tail_start(b.drop_last())
    }
}

pub proof fn lemma_tail_start(b: Seq<u8>)
    ensures
        0 <= tail_start(b) <= b.len(),
        tail_start(b) > 0 ==> b[tail_start(b) - 1] == SLASH,
        forall|j: int| tail_start(b) <= j < b.len() ==> b[j] != SLASH,
    decreases b.len(),
{
    if b.len() > 0 && b.last() != SLASH {
        let prefix = b.drop_last();
        lemma_tail_start(prefix);
        assert forall|j: int| tail_start(b) <= j < b.len() implies b[j] != SLASH by {
            if j < b.len() - 1 {
                assert(b[j] == prefix[j]);
            }
        }
    }
}

/// The last component of a path: everything after its last `/`, or the whole
/// path where it holds no `/`.
pub fn file_tail(path: &str) -> (r: &str)
    ensures
        r.spec_bytes() == path.spec_bytes().subrange(
            tail_start(path.spec_bytes()),
            path.spec_bytes().len() as int,
        ),
{
    let b = path.as_bytes();
    let ghost bs = path.spec_bytes();
    let mut k: usize = b.len();
    assert(bs.subrange(0, bs.len() as int) =~= bs);
    while k > 0 && b[k - 1] != SLASH
        invariant
            b@ == bs,
            k <= bs.len(),
            tail_start(bs) == tail_start(bs.subrange(0, k as int)),
        decreases k,
    {
        assert(bs.subrange(0, k - 1) =~= bs.subrange(0, k as int).drop_last());
        k = k - 1;
    }
    proof {
        assert(bs.subrange(0, bs.len() as int) =~= bs);
        if k == 0 {
            assert(bs.subrange(0, 0) =~= Seq::<u8>::empty());
            is_char_boundary_start_end_of_seq(bs);
        } else {
            assert(bs.subrange(0, k as int).last() == bs[k - 1]);
            lemma_ascii_byte_is_char(bs, k - 1);
        }
    }
    let (_, tail) = path.split_at(k);
    tail
}

/// `p` is the separator of a `HOST:PATH` name: the first `:`, with no `/` or
/// `\` before it.
pub open spec fn is_host_separator(b: Seq<u8>, p: int) -> bool {
    &&& 0 <= p < b.len()
    &&& b[p] == COLON
    &&& forall|j: int| 0 <= j < p ==> b[j] != COLON && b[j] != SLASH && b[j] != BACKSLASH
}

/// Where `z` is `HOST:PATH` or `USER@HOST:PATH`, the byte index of the `:`;
/// `None` for a local path.  This is the rule on a POSIX system; see
/// `host_separator_on` for Windows.
pub fn host_separator(z: &str) -> (r: Option<usize>)
    ensures
        match r {
            Some(p) => is_host_separator(z.spec_bytes(), p as int),
            None => forall|p: int| !is_host_separator(z.spec_bytes(), p),
        },
{
    let b = z.as_bytes();
    let mut i: usize = 0;
    while i < b.len()
        invariant
            b@ == z.spec_bytes(),
            i <= b@.len(),
            forall|j: int| 0 <= j < i ==> b@[j] != COLON && b@[j] != SLASH && b@[j] != BACKSLASH,
        decreases b@.len() - i,
    {
        let c = b[i];
        if c == COLON {
            return Some(i);
        }
        if c == SLASH || c == BACKSLASH {
            assert forall|p: int| !is_host_separator(z.spec_bytes(), p) by {
                if is_host_separator(z.spec_bytes(), p) && p > i {
                    assert(b@[i as int] == c);
                }
            }
            return None;
        }
        i = i + 1;
    }
    None
}

/// `b` is an ASCII letter.
pub open spec fn is_ascii_letter(b: u8) -> bool {
    (0x41 <= b <= 0x5a) || (0x61 <= b <= 0x7a)
}

/// `b` begins with a Windows drive letter, a `:` and a path separator, as in
/// `C:/data/db.sqlite` or `C:\data\db.sqlite`.
pub open spec fn is_drive_path(b: Seq<u8>) -> bool {
    &&& b.len() >= 3
    &&& is_ascii_letter(b[0])
    &&& b[1] == COLON
    &&& (b[2] == SLASH || b[2] == BACKSLASH)
}

/// On `platform`, `b` names a local database whatever its `:`: a drive path
/// on Windows.
pub open spec fn is_local_path_on(b: Seq<u8>, platform: Platform) -> bool {
    platform == Platform::Windows && is_drive_path(b)
}

/// Where `z` is `HOST:PATH` or `USER@HOST:PATH` on `platform`, the byte index
/// of the `:`; `None` for a local path, a Windows drive path among them.
pub fn host_separator_on(z: &str, platform: Platform) -> (r: Option<usize>)
    ensures
        match r {
            Some(p) => !is_local_path_on(z.spec_bytes(), platform) && is_host_separator(
                z.spec_bytes(),
                p as int,
            ),
            None => is_local_path_on(z.spec_bytes(), platform) || forall|p: int|
                !is_host_separator(z.spec_bytes(), p),
        },
{
    let b = z.as_bytes();
    if platform == Platform::Windows && b.len() >= 3 && ((0x41 <= b[0] && b[0] <= 0x5a) || (0x61
        <= b[0] && b[0] <= 0x7a)) && b[1] == COLON && (b[2] == SLASH || b[2] == BACKSLASH) {
        return None;
    }
    host_separator(z)
}

} // verus!
