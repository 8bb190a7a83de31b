//! The screen a filesystem manifest must pass before its bytes are handed
//! to the manifest parser: a tame manifest keeps to the line shapes and
//! keyword grammar on which the parser is known to answer, so that parsing
//! it always succeeds and depends on the bytes alone.
//!
//! A manifest line is words separated by spaces.  A tame line is blank, a
//! comment, the `..` directive, a `/set` directive, or an entry whose path
//! contains a slash without starting with one; `/unset` lines, other
//! special commands and bare relative paths are refused (the parser
//! resolves a bare name against the process working directory, which no
//! pure contract could describe).  Every keyword of a directive or entry
//! must belong to the keyword table below with a well-formed value.

use vstd::prelude::*;
use vstd::slice::{slice_index_get, slice_subrange};

verus! {

/// The index of the first occurrence of a byte.
pub open spec fn first_byte(s: Seq<u8>, x: u8) -> Option<int>
    decreases s.len(),
{
    if s.len() == 0 {
        None
    } else if s[0] == x {
        Some(0)
    } else {
        match first_byte(s.drop_first(), x) {
            Some(i) => Some(i + 1),
            None => None,
        }
    }
}

/// What `first_byte` finds: the byte at the index, and nowhere before.
pub proof fn lemma_first_byte(s: Seq<u8>, x: u8)
    ensures
        match first_byte(s, x) {
            Some(i) => 0 <= i < s.len() && s[i] == x && forall|j: int| 0 <= j < i ==> s[j] != x,
            None => forall|j: int| 0 <= j < s.len() ==> s[j] != x,
        },
    decreases s.len(),
{
    if s.len() > 0 && s[0] != x {
        lemma_first_byte(s.drop_first(), x);
        let d = s.drop_first();
        match first_byte(d, x) {
            Some(i) => {
                assert(d[i] == s[i + 1]);
                assert forall|j: int| 0 <= j < i + 1 implies s[j] != x by {
                    if j > 0 {
                        assert(d[j - 1] == s[j]);
                    }
                }
            },
            None => {
                assert forall|j: int| 0 <= j < s.len() implies s[j] != x by {
                    if j > 0 {
                        assert(d[j - 1] == s[j]);
                    }
                }
            },
        }
    }
}

/// `first_byte` is pinned down by its characteristic properties.
pub proof fn lemma_first_byte_is(s: Seq<u8>, x: u8, r: Option<int>)
    requires
        match r {
            Some(i) => 0 <= i < s.len() && s[i] == x && forall|j: int| 0 <= j < i ==> s[j] != x,
            None => forall|j: int| 0 <= j < s.len() ==> s[j] != x,
        },
    ensures
        first_byte(s, x) == r,
    decreases s.len(),
{
    if s.len() > 0 && s[0] != x {
        let d = s.drop_first();
        match r {
            Some(i) => {
                assert(d[i - 1] == s[i]);
                assert forall|j: int| 0 <= j < i - 1 implies d[j] != x by {
                    assert(d[j] == s[j + 1]);
                }
                lemma_first_byte_is(d, x, Some(i - 1));
            },
            None => {
                assert forall|j: int| 0 <= j < d.len() implies d[j] != x by {
                    assert(d[j] == s[j + 1]);
                }
                lemma_first_byte_is(d, x, None);
            },
        }
    }
}

/// The lines of a manifest: the segments between newline bytes.
pub open spec fn lines_of(b: Seq<u8>) -> Seq<Seq<u8>>
    decreases b.len(),
{
    if b.len() == 0 {
        Seq::empty()
    } else {
        match first_byte(b, 10u8) {
            Some(i) => {
                proof {
                    lemma_first_byte(b, 10u8);
                }
                seq![b.take(i)] + lines_of(b.skip(i + 1))
            },
            None => seq![b],
        }
    }
}

/// The words of a line: the nonempty segments between space bytes.
pub open spec fn words_of(l: Seq<u8>) -> Seq<Seq<u8>>
    decreases l.len(),
{
    if l.len() == 0 {
        Seq::empty()
    } else if l[0] == 32u8 {
        words_of(l.drop_first())
    } else {
        match first_byte(l, 32u8) {
            Some(i) => {
                proof {
                    lemma_first_byte(l, 32u8);
                }
                seq![l.take(i)] + words_of(l.skip(i))
            },
            None => seq![l],
        }
    }
}

/// An ASCII decimal digit.
pub open spec fn is_dec_u8(b: u8) -> bool {
    48 <= b <= 57
}

/// An ASCII hexadecimal digit.
pub open spec fn is_hex_u8(b: u8) -> bool {
    (48 <= b <= 57) || (97 <= b <= 102) || (65 <= b <= 70)
}

/// An ASCII octal digit.
pub open spec fn is_oct_u8(b: u8) -> bool {
    48 <= b <= 55
}

/// A decimal run short enough that its value surely fits the parser's
/// integer type.
pub open spec fn dec_tame(v: Seq<u8>) -> bool {
    v.len() <= 18 && forall|i: int| 0 <= i < v.len() ==> is_dec_u8(#[trigger] v[i])
}

/// Exactly `n` hexadecimal digits.
pub open spec fn hex_tame(v: Seq<u8>, n: int) -> bool {
    v.len() == n && forall|i: int| 0 <= i < v.len() ==> is_hex_u8(#[trigger] v[i])
}

/// Three or four octal digits.
pub open spec fn mode_tame(v: Seq<u8>) -> bool {
    (v.len() == 3 || v.len() == 4) && forall|i: int| 0 <= i < v.len() ==> is_oct_u8(
        #[trigger] v[i],
    )
}

/// Seconds, a dot, and nanoseconds, each a short digit run.
pub open spec fn time_tame(v: Seq<u8>) -> bool {
    match first_byte(v, 46u8) {
        None => false,
        Some(d) => {
            let sec = v.take(d);
            let nano = v.skip(d + 1);
            dec_tame(sec) && nano.len() <= 9 && forall|i: int|
                0 <= i < nano.len() ==> is_dec_u8(#[trigger] nano[i])
        },
    }
}

/// One of the parser's file type names.
pub open spec fn type_tame(v: Seq<u8>) -> bool {
    ||| v == seq![98u8, 108u8, 111u8, 99u8, 107u8]  // "block"
    ||| v == seq![99u8, 104u8, 97u8, 114u8]  // "char"
    ||| v == seq![100u8, 105u8, 114u8]  // "dir"
    ||| v == seq![102u8, 105u8, 102u8, 111u8]  // "fifo"
    ||| v == seq![102u8, 105u8, 108u8, 101u8]  // "file"
    ||| v == seq![108u8, 105u8, 110u8, 107u8]  // "link"
    ||| v == seq![115u8, 111u8, 99u8, 107u8, 101u8, 116u8]  // "socket"
}

/// A keyword that stands alone, with or without a value.
pub open spec fn is_flag_key(k: Seq<u8>) -> bool {
    ||| k == seq![105u8, 103u8, 110u8, 111u8, 114u8, 101u8]  // "ignore"
    ||| k == seq![110u8, 111u8, 99u8, 104u8, 97u8, 110u8, 103u8, 101u8]  // "nochange"
    ||| k == seq![111u8, 112u8, 116u8, 105u8, 111u8, 110u8, 97u8, 108u8]  // "optional"
}

/// A keyword whose value is taken as it stands.
pub open spec fn is_raw_key(k: Seq<u8>) -> bool {
    ||| k == seq![99u8, 111u8, 110u8, 116u8, 101u8, 110u8, 116u8, 115u8]  // "contents"
    ||| k == seq![102u8, 108u8, 97u8, 103u8, 115u8]  // "flags"
    ||| k == seq![103u8, 110u8, 97u8, 109u8, 101u8]  // "gname"
    ||| k == seq![108u8, 105u8, 110u8, 107u8]  // "link"
    ||| k == seq![117u8, 110u8, 97u8, 109u8, 101u8]  // "uname"
}

/// A keyword whose value is a decimal number.
pub open spec fn is_dec_key(k: Seq<u8>) -> bool {
    ||| k == seq![99u8, 107u8, 115u8, 117u8, 109u8]  // "cksum"
    ||| k == seq![103u8, 105u8, 100u8]  // "gid"
    ||| k == seq![105u8, 110u8, 111u8, 100u8, 101u8]  // "inode"
    ||| k == seq![110u8, 108u8, 105u8, 110u8, 107u8]  // "nlink"
    ||| k == seq![115u8, 105u8, 122u8, 101u8]  // "size"
    ||| k == seq![117u8, 105u8, 100u8]  // "uid"
}

/// The number of hexadecimal digits a digest keyword demands, or nothing.
pub open spec fn hex_key_len(k: Seq<u8>) -> Option<int> {
    let md5 = seq![109u8, 100u8, 53u8];  // "md5"
    let md5d = seq![109u8, 100u8, 53u8, 100u8, 105u8, 103u8, 101u8, 115u8, 116u8];  // "md5digest"
    let rmd = seq![114u8, 109u8, 100u8, 49u8, 54u8, 48u8];  // "rmd160"
    let rmdd = seq![114u8, 109u8, 100u8, 49u8, 54u8, 48u8, 100u8, 105u8, 103u8, 101u8, 115u8, 116u8];  // "rmd160digest"
    let ripemdd = seq![114u8, 105u8, 112u8, 101u8, 109u8, 100u8, 49u8, 54u8, 48u8, 100u8, 105u8, 103u8, 101u8, 115u8, 116u8];  // "ripemd160digest"
    let sha1 = seq![115u8, 104u8, 97u8, 49u8];  // "sha1"
    let sha1d = seq![115u8, 104u8, 97u8, 49u8, 100u8, 105u8, 103u8, 101u8, 115u8, 116u8];  // "sha1digest"
    let sha256 = seq![115u8, 104u8, 97u8, 50u8, 53u8, 54u8];  // "sha256"
    let sha256d = seq![115u8, 104u8, 97u8, 50u8, 53u8, 54u8, 100u8, 105u8, 103u8, 101u8, 115u8, 116u8];  // "sha256digest"
    let sha384 = seq![115u8, 104u8, 97u8, 51u8, 56u8, 52u8];  // "sha384"
    let sha384d = seq![115u8, 104u8, 97u8, 51u8, 56u8, 52u8, 100u8, 105u8, 103u8, 101u8, 115u8, 116u8];  // "sha384digest"
    let sha512 = seq![115u8, 104u8, 97u8, 53u8, 49u8, 50u8];  // "sha512"
    let sha512d = seq![115u8, 104u8, 97u8, 53u8, 49u8, 50u8, 100u8, 105u8, 103u8, 101u8, 115u8, 116u8];  // "sha512digest"
    if k == md5 || k == md5d {
        Some(32)
    } else if k == rmd || k == rmdd || k == ripemdd {
        Some(40)
    } else if k == sha1 || k == sha1d {
        Some(40)
    } else if k == sha256 || k == sha256d {
        Some(64)
    } else if k == sha384 || k == sha384d {
        Some(96)
    } else if k == sha512 || k == sha512d {
        Some(128)
    } else {
        None
    }
}

/// A keyword with its value: the key must be known and the value must keep
/// to that key's grammar.
pub open spec fn keyword_val_tame(key: Seq<u8>, val: Seq<u8>) -> bool {
    if is_flag_key(key) || is_raw_key(key) {
        true
    } else if is_dec_key(key) {
        dec_tame(val)
    } else if hex_key_len(key) is Some {
        hex_tame(val, hex_key_len(key)->0)
    } else if key == seq![109u8, 111u8, 100u8, 101u8] {  // "mode"
        mode_tame(val)
    } else if key == seq![116u8, 105u8, 109u8, 101u8] {  // "time"
        time_tame(val)
    } else if key == seq![116u8, 121u8, 112u8, 101u8] {  // "type"
        type_tame(val)
    } else {
        false
    }
}

/// One word of a directive or entry line.
pub open spec fn keyword_tame(w: Seq<u8>) -> bool {
    match first_byte(w, 61u8) {
        None => is_flag_key(w),
        Some(e) => keyword_val_tame(w.take(e), w.skip(e + 1)),
    }
}

/// A tame manifest line.
pub open spec fn line_tame(l: Seq<u8>) -> bool {
    let ws = words_of(l);
    if ws.len() == 0 {
        true
    } else {
        let w0 = ws[0];
        if w0.len() > 0 && w0[0] == 35u8 {
            true
        } else if w0 == seq![46u8, 46u8] {  // ".."
            true
        } else {
            let shape_ok = w0 == seq![47u8, 115u8, 101u8, 116u8] || (w0.len() > 0 && w0[0] != 47u8  // "/set"
                && first_byte(w0, 47u8) is Some);
            shape_ok && forall|k: int| 1 <= k < ws.len() ==> keyword_tame(#[trigger] ws[k])
        }
    }
}

/// A tame manifest: every line is tame.
pub open spec fn spec_mtree_tame(b: Seq<u8>) -> bool {
    forall|i: int| 0 <= i < lines_of(b).len() ==> line_tame(#[trigger] lines_of(b)[i])
}

/// Exec equality of two byte slices.
fn bytes_match(a: &[u8], b: &[u8]) -> (r: bool)
    ensures
        r == (a@ == b@),
{
    if a.len() != b.len() {
        return false;
    }
    let n = a.len();
    let mut k: usize = 0;
    while k < n
        invariant
            n == a@.len() == b@.len(),
            k <= n,
            forall|j: int| 0 <= j < k ==> a@[j] == b@[j],
        decreases n - k,
    {
        if *slice_index_get(a, k) != *slice_index_get(b, k) {
            return false;
        }
        k += 1;
    }
    proof {
        assert(a@ =~= b@);
    }
    true
}

/// Find the first occurrence of a byte, as `first_byte` names it.
fn find_byte(s: &[u8], x: u8) -> (r: Option<usize>)
    ensures
        match first_byte(s@, x) {
            Some(i) => r is Some && r->0 as int == i,
            None => r is None,
        },
{
    let n = s.len();
    let mut k: usize = 0;
    while k < n
        invariant
            n == s@.len(),
            k <= n,
            forall|j: int| 0 <= j < k ==> s@[j] != x,
        decreases n - k,
    {
        if *slice_index_get(s, k) == x {
            proof {
                lemma_first_byte_is(s@, x, Some(k as int));
            }
            return Some(k);
        }
        k += 1;
    }
    proof {
        lemma_first_byte_is(s@, x, None);
    }
    None
}

/// Are all bytes decimal digits, in a run short enough to be tame?
fn dec_tame_exec(v: &[u8]) -> (r: bool)
    ensures
        r == dec_tame(v@),
{
    if v.len() > 18 {
        return false;
    }
    let n = v.len();
    let mut k: usize = 0;
    while k < n
        invariant
            n == v@.len() <= 18,
            k <= n,
            forall|j: int| 0 <= j < k ==> is_dec_u8(#[trigger] v@[j]),
        decreases n - k,
    {
        let b = *slice_index_get(v, k);
        if !(48 <= b && b <= 57) {
            return false;
        }
        k += 1;
    }
    true
}

/// Exactly `n` hexadecimal digits?
fn hex_tame_exec(v: &[u8], n: usize) -> (r: bool)
    ensures
        r == hex_tame(v@, n as int),
{
    if v.len() != n {
        return false;
    }
    let mut k: usize = 0;
    while k < n
        invariant
            n == v@.len(),
            k <= n,
            forall|j: int| 0 <= j < k ==> is_hex_u8(#[trigger] v@[j]),
        decreases n - k,
    {
        let b = *slice_index_get(v, k);
        if !((48 <= b && b <= 57) || (97 <= b && b <= 102) || (65 <= b && b <= 70)) {
            return false;
        }
        k += 1;
    }
    true
}

/// Three or four octal digits?
fn mode_tame_exec(v: &[u8]) -> (r: bool)
    ensures
        r == mode_tame(v@),
{
    if v.len() != 3 && v.len() != 4 {
        return false;
    }
    let n = v.len();
    let mut k: usize = 0;
    while k < n
        invariant
            n == v@.len(),
            v@.len() == 3 || v@.len() == 4,
            k <= n,
            forall|j: int| 0 <= j < k ==> is_oct_u8(#[trigger] v@[j]),
        decreases n - k,
    {
        let b = *slice_index_get(v, k);
        if !(48 <= b && b <= 55) {
            return false;
        }
        k += 1;
    }
    true
}

/// Seconds, a dot, and nanoseconds?
fn time_tame_exec(v: &[u8]) -> (r: bool)
    ensures
        r == time_tame(v@),
{
    match find_byte(v, 46u8) {
        None => false,
        Some(d) => {
            let vn = v.len();
            proof {
                lemma_first_byte(v@, 46u8);
                assert(d < vn);
            }
            let sec = slice_subrange(v, 0, d);
            let nano = slice_subrange(v, d + 1, vn);
            proof {
                assert(sec@ =~= v@.take(d as int));
                assert(nano@ =~= v@.skip(d as int + 1));
            }
            proof {
                assert(first_byte(v@, 46u8) == Some(d as int));
            }
            if !dec_tame_exec(sec) {
                return false;
            }
            if nano.len() > 9 {
                proof {
                    assert(nano@.len() > 9);
                    assert(!time_tame(v@));
                }
                return false;
            }
            let n = nano.len();
            let mut k: usize = 0;
            while k < n
                invariant
                    first_byte(v@, 46u8) == Some(d as int),
                    nano@ == v@.skip(d as int + 1),
                    n == nano@.len() <= 9,
                    k <= n,
                    forall|j: int| 0 <= j < k ==> is_dec_u8(#[trigger] nano@[j]),
                decreases n - k,
            {
                let b = *slice_index_get(nano, k);
                if !(48 <= b && b <= 57) {
                    proof {
                        assert(!is_dec_u8(nano@[k as int]));
                        assert(!time_tame(v@));
                    }
                    return false;
                }
                k += 1;
            }
            true
        },
    }
}

/// One of the file type names?
fn type_tame_exec(v: &[u8]) -> (r: bool)
    ensures
        r == type_tame(v@),
{
    let block: Vec<u8> = vec![98u8, 108u8, 111u8, 99u8, 107u8];  // "block"
    let ch: Vec<u8> = vec![99u8, 104u8, 97u8, 114u8];  // "char"
    let dir: Vec<u8> = vec![100u8, 105u8, 114u8];  // "dir"
    let fifo: Vec<u8> = vec![102u8, 105u8, 102u8, 111u8];  // "fifo"
    let file: Vec<u8> = vec![102u8, 105u8, 108u8, 101u8];  // "file"
    let link: Vec<u8> = vec![108u8, 105u8, 110u8, 107u8];  // "link"
    let socket: Vec<u8> = vec![115u8, 111u8, 99u8, 107u8, 101u8, 116u8];  // "socket"
    proof {
        assert(block@ =~= seq![98u8, 108u8, 111u8, 99u8, 107u8]);  // "block"
        assert(ch@ =~= seq![99u8, 104u8, 97u8, 114u8]);  // "char"
        assert(dir@ =~= seq![100u8, 105u8, 114u8]);  // "dir"
        assert(fifo@ =~= seq![102u8, 105u8, 102u8, 111u8]);  // "fifo"
        assert(file@ =~= seq![102u8, 105u8, 108u8, 101u8]);  // "file"
        assert(link@ =~= seq![108u8, 105u8, 110u8, 107u8]);  // "link"
        assert(socket@ =~= seq![115u8, 111u8, 99u8, 107u8, 101u8, 116u8]);  // "socket"
    }
    bytes_match(v, block.as_slice()) || bytes_match(v, ch.as_slice()) || bytes_match(
        v,
        dir.as_slice(),
    ) || bytes_match(v, fifo.as_slice()) || bytes_match(v, file.as_slice()) || bytes_match(
        v,
        link.as_slice(),
    ) || bytes_match(v, socket.as_slice())
}

/// A keyword that stands alone?
fn is_flag_key_exec(k: &[u8]) -> (r: bool)
    ensures
        r == is_flag_key(k@),
{
    let ignore: Vec<u8> = vec![105u8, 103u8, 110u8, 111u8, 114u8, 101u8];  // "ignore"
    let nochange: Vec<u8> = vec![110u8, 111u8, 99u8, 104u8, 97u8, 110u8, 103u8, 101u8];  // "nochange"
    let optional: Vec<u8> = vec![111u8, 112u8, 116u8, 105u8, 111u8, 110u8, 97u8, 108u8];  // "optional"
    proof {
        assert(ignore@ =~= seq![105u8, 103u8, 110u8, 111u8, 114u8, 101u8]);  // "ignore"
        assert(nochange@ =~= seq![110u8, 111u8, 99u8, 104u8, 97u8, 110u8, 103u8, 101u8]);  // "nochange"
        assert(optional@ =~= seq![111u8, 112u8, 116u8, 105u8, 111u8, 110u8, 97u8, 108u8]);  // "optional"
    }
    bytes_match(k, ignore.as_slice()) || bytes_match(k, nochange.as_slice()) || bytes_match(
        k,
        optional.as_slice(),
    )
}

/// A keyword whose value passes through untouched?
fn is_raw_key_exec(k: &[u8]) -> (r: bool)
    ensures
        r == is_raw_key(k@),
{
    let contents: Vec<u8> = vec![99u8, 111u8, 110u8, 116u8, 101u8, 110u8, 116u8, 115u8];  // "contents"
    let flags: Vec<u8> = vec![102u8, 108u8, 97u8, 103u8, 115u8];  // "flags"
    let gname: Vec<u8> = vec![103u8, 110u8, 97u8, 109u8, 101u8];  // "gname"
    let link: Vec<u8> = vec![108u8, 105u8, 110u8, 107u8];  // "link"
    let uname: Vec<u8> = vec![117u8, 110u8, 97u8, 109u8, 101u8];  // "uname"
    proof {
        assert(contents@ =~= seq![99u8, 111u8, 110u8, 116u8, 101u8, 110u8, 116u8, 115u8]);  // "contents"
        assert(flags@ =~= seq![102u8, 108u8, 97u8, 103u8, 115u8]);  // "flags"
        assert(gname@ =~= seq![103u8, 110u8, 97u8, 109u8, 101u8]);  // "gname"
        assert(link@ =~= seq![108u8, 105u8, 110u8, 107u8]);  // "link"
        assert(uname@ =~= seq![117u8, 110u8, 97u8, 109u8, 101u8]);  // "uname"
    }
    bytes_match(k, contents.as_slice()) || bytes_match(k, flags.as_slice()) || bytes_match(
        k,
        gname.as_slice(),
    ) || bytes_match(k, link.as_slice()) || bytes_match(k, uname.as_slice())
}

/// A keyword whose value is decimal?
fn is_dec_key_exec(k: &[u8]) -> (r: bool)
    ensures
        r == is_dec_key(k@),
{
    let cksum: Vec<u8> = vec![99u8, 107u8, 115u8, 117u8, 109u8];  // "cksum"
    let gid: Vec<u8> = vec![103u8, 105u8, 100u8];  // "gid"
    let inode: Vec<u8> = vec![105u8, 110u8, 111u8, 100u8, 101u8];  // "inode"
    let nlink: Vec<u8> = vec![110u8, 108u8, 105u8, 110u8, 107u8];  // "nlink"
    let size: Vec<u8> = vec![115u8, 105u8, 122u8, 101u8];  // "size"
    let uid: Vec<u8> = vec![117u8, 105u8, 100u8];  // "uid"
    proof {
        assert(cksum@ =~= seq![99u8, 107u8, 115u8, 117u8, 109u8]);  // "cksum"
        assert(gid@ =~= seq![103u8, 105u8, 100u8]);  // "gid"
        assert(inode@ =~= seq![105u8, 110u8, 111u8, 100u8, 101u8]);  // "inode"
        assert(nlink@ =~= seq![110u8, 108u8, 105u8, 110u8, 107u8]);  // "nlink"
        assert(size@ =~= seq![115u8, 105u8, 122u8, 101u8]);  // "size"
        assert(uid@ =~= seq![117u8, 105u8, 100u8]);  // "uid"
    }
    bytes_match(k, cksum.as_slice()) || bytes_match(k, gid.as_slice()) || bytes_match(
        k,
        inode.as_slice(),
    ) || bytes_match(k, nlink.as_slice()) || bytes_match(k, size.as_slice()) || bytes_match(
        k,
        uid.as_slice(),
    )
}

/// The digest length a hex keyword demands, as `hex_key_len` names it.
fn hex_key_len_exec(k: &[u8]) -> (r: Option<usize>)
    ensures
        match hex_key_len(k@) {
            Some(n) => r is Some && r->0 as int == n,
            None => r is None,
        },
{
    let md5: Vec<u8> = vec![109u8, 100u8, 53u8];  // "md5"
    let md5d: Vec<u8> = vec![109u8, 100u8, 53u8, 100u8, 105u8, 103u8, 101u8, 115u8, 116u8];  // "md5digest"
    let rmd: Vec<u8> = vec![114u8, 109u8, 100u8, 49u8, 54u8, 48u8];  // "rmd160"
    let rmdd: Vec<u8> = vec![114u8, 109u8, 100u8, 49u8, 54u8, 48u8, 100u8, 105u8, 103u8, 101u8, 115u8,  // "rmd160diges"
        116u8];  // "t"
    let ripemdd: Vec<u8> = vec![114u8, 105u8, 112u8, 101u8, 109u8, 100u8, 49u8, 54u8, 48u8, 100u8, 105u8,  // "ripemd160di"
        103u8, 101u8, 115u8, 116u8];  // "gest"
    let sha1: Vec<u8> = vec![115u8, 104u8, 97u8, 49u8];  // "sha1"
    let sha1d: Vec<u8> = vec![115u8, 104u8, 97u8, 49u8, 100u8, 105u8, 103u8, 101u8, 115u8, 116u8];  // "sha1digest"
    let sha256: Vec<u8> = vec![115u8, 104u8, 97u8, 50u8, 53u8, 54u8];  // "sha256"
    let sha256d: Vec<u8> = vec![115u8, 104u8, 97u8, 50u8, 53u8, 54u8, 100u8, 105u8, 103u8, 101u8, 115u8,  // "sha256diges"
        116u8];  // "t"
    let sha384: Vec<u8> = vec![115u8, 104u8, 97u8, 51u8, 56u8, 52u8];  // "sha384"
    let sha384d: Vec<u8> = vec![115u8, 104u8, 97u8, 51u8, 56u8, 52u8, 100u8, 105u8, 103u8, 101u8, 115u8,  // "sha384diges"
        116u8];  // "t"
    let sha512: Vec<u8> = vec![115u8, 104u8, 97u8, 53u8, 49u8, 50u8];  // "sha512"
    let sha512d: Vec<u8> = vec![115u8, 104u8, 97u8, 53u8, 49u8, 50u8, 100u8, 105u8, 103u8, 101u8, 115u8,  // "sha512diges"
        116u8];  // "t"
    proof {
        assert(md5@ =~= seq![109u8, 100u8, 53u8]);  // "md5"
        assert(md5d@ =~= seq![109u8, 100u8, 53u8, 100u8, 105u8, 103u8, 101u8, 115u8, 116u8]);  // "md5digest"
        assert(rmd@ =~= seq![114u8, 109u8, 100u8, 49u8, 54u8, 48u8]);  // "rmd160"
        assert(rmdd@ =~= seq![114u8, 109u8, 100u8, 49u8, 54u8, 48u8, 100u8, 105u8, 103u8, 101u8, 115u8,  // "rmd160diges"
            116u8]);  // "t"
        assert(ripemdd@ =~= seq![114u8, 105u8, 112u8, 101u8, 109u8, 100u8, 49u8, 54u8, 48u8, 100u8, 105u8,  // "ripemd160di"
            103u8, 101u8, 115u8, 116u8]);  // "gest"
        assert(sha1@ =~= seq![115u8, 104u8, 97u8, 49u8]);  // "sha1"
        assert(sha1d@ =~= seq![115u8, 104u8, 97u8, 49u8, 100u8, 105u8, 103u8, 101u8, 115u8, 116u8]);  // "sha1digest"
        assert(sha256@ =~= seq![115u8, 104u8, 97u8, 50u8, 53u8, 54u8]);  // "sha256"
        assert(sha256d@ =~= seq![115u8, 104u8, 97u8, 50u8, 53u8, 54u8, 100u8, 105u8, 103u8, 101u8, 115u8,  // "sha256diges"
            116u8]);  // "t"
        assert(sha384@ =~= seq![115u8, 104u8, 97u8, 51u8, 56u8, 52u8]);  // "sha384"
        assert(sha384d@ =~= seq![115u8, 104u8, 97u8, 51u8, 56u8, 52u8, 100u8, 105u8, 103u8, 101u8, 115u8,  // "sha384diges"
            116u8]);  // "t"
        assert(sha512@ =~= seq![115u8, 104u8, 97u8, 53u8, 49u8, 50u8]);  // "sha512"
        assert(sha512d@ =~= seq![115u8, 104u8, 97u8, 53u8, 49u8, 50u8, 100u8, 105u8, 103u8, 101u8, 115u8,  // "sha512diges"
            116u8]);  // "t"
    }
    if bytes_match(k, md5.as_slice()) || bytes_match(k, md5d.as_slice()) {
        Some(32)
    } else if bytes_match(k, rmd.as_slice()) || bytes_match(k, rmdd.as_slice()) || bytes_match(
        k,
        ripemdd.as_slice(),
    ) {
        Some(40)
    } else if bytes_match(k, sha1.as_slice()) || bytes_match(k, sha1d.as_slice()) {
        Some(40)
    } else if bytes_match(k, sha256.as_slice()) || bytes_match(k, sha256d.as_slice()) {
        Some(64)
    } else if bytes_match(k, sha384.as_slice()) || bytes_match(k, sha384d.as_slice()) {
        Some(96)
    } else if bytes_match(k, sha512.as_slice()) || bytes_match(k, sha512d.as_slice()) {
        Some(128)
    } else {
        None
    }
}

/// Is this word a tame keyword?
fn keyword_tame_exec(w: &[u8]) -> (r: bool)
    ensures
        r == keyword_tame(w@),
{
    match find_byte(w, 61u8) {
        None => is_flag_key_exec(w),
        Some(e) => {
            let wn = w.len();
            proof {
                lemma_first_byte(w@, 61u8);
                assert(e < wn);
            }
            let key = slice_subrange(w, 0, e);
            let val = slice_subrange(w, e + 1, wn);
            proof {
                assert(key@ =~= w@.take(e as int));
                assert(val@ =~= w@.skip(e as int + 1));
            }
            if is_flag_key_exec(key) || is_raw_key_exec(key) {
                true
            } else if is_dec_key_exec(key) {
                dec_tame_exec(val)
            } else {
                match hex_key_len_exec(key) {
                    Some(n) => hex_tame_exec(val, n),
                    None => {
                        let mode: Vec<u8> = vec![109u8, 111u8, 100u8, 101u8];  // "mode"
                        let time: Vec<u8> = vec![116u8, 105u8, 109u8, 101u8];  // "time"
                        let ty: Vec<u8> = vec![116u8, 121u8, 112u8, 101u8];  // "type"
                        proof {
                            assert(mode@ =~= seq![109u8, 111u8, 100u8, 101u8]);  // "mode"
                            assert(time@ =~= seq![116u8, 105u8, 109u8, 101u8]);  // "time"
                            assert(ty@ =~= seq![116u8, 121u8, 112u8, 101u8]);  // "type"
                        }
                        if bytes_match(key, mode.as_slice()) {
                            mode_tame_exec(val)
                        } else if bytes_match(key, time.as_slice()) {
                            time_tame_exec(val)
                        } else if bytes_match(key, ty.as_slice()) {
                            type_tame_exec(val)
                        } else {
                            false
                        }
                    },
                }
            }
        },
    }
}

/// Is this line tame?
fn line_tame_exec(l: &[u8]) -> (r: bool)
    ensures
        r == line_tame(l@),
{
    // skip leading spaces, following the recursion of `words_of`
    let n = l.len();
    let mut p: usize = 0;
    proof {
        assert(l@.skip(0) =~= l@);
    }
    while p < n && *slice_index_get(l, p) == 32
        invariant
            n == l@.len(),
            p <= n,
            words_of(l@) == words_of(l@.skip(p as int)),
        decreases n - p,
    {
        proof {
            assert(l@.skip(p as int).drop_first() =~= l@.skip(p as int + 1));
        }
        p += 1;
    }
    let ghost s0 = l@.skip(p as int);
    if p == n {
        proof {
            assert(s0.len() == 0);
        }
        return true;
    }
    // the first word runs to the next space or the end of the line
    proof {
        assert(s0[0] == l@[p as int]);
        assert(s0[0] != 32u8);
    }
    let rest0 = slice_subrange(l, p, n);
    proof {
        assert(rest0@ =~= s0);
    }
    let wlen: usize = match find_byte(rest0, 32u8) {
        Some(i) => i,
        None => rest0.len(),
    };
    proof {
        lemma_first_byte(rest0@, 32u8);
        assert(wlen <= rest0@.len());
    }
    let w0 = slice_subrange(rest0, 0, wlen);
    let tail = slice_subrange(rest0, wlen, rest0.len());
    let ghost ws = words_of(l@);
    proof {
        match first_byte(s0, 32u8) {
            Some(i) => {
                lemma_first_byte(s0, 32u8);
                assert(words_of(s0) =~= seq![s0.take(i)] + words_of(s0.skip(i)));
            },
            None => {
                assert(words_of(s0) =~= seq![s0]);
                assert(s0.take(s0.len() as int) =~= s0);
                assert(tail@.len() == 0);
                assert(words_of(tail@) =~= Seq::<Seq<u8>>::empty());
                assert(words_of(s0) =~= seq![s0.take(wlen as int)] + words_of(tail@));
            },
        }
        assert(w0@ =~= s0.take(wlen as int));
        assert(tail@ =~= s0.skip(wlen as int));
        assert(ws == words_of(s0));
        assert(ws.len() >= 1);
        assert(ws[0] == w0@);
        assert(ws.drop_first() =~= words_of(tail@));
        assert(w0@.len() >= 1);
    }
    if *slice_index_get(w0, 0) == 35 {
        return true;
    }
    let dotdot: Vec<u8> = vec![46u8, 46u8];  // ".."
    let set: Vec<u8> = vec![47u8, 115u8, 101u8, 116u8];  // "/set"
    proof {
        assert(dotdot@ =~= seq![46u8, 46u8]);  // ".."
        assert(set@ =~= seq![47u8, 115u8, 101u8, 116u8]);  // "/set"
    }
    if bytes_match(w0, dotdot.as_slice()) {
        return true;
    }
    let shape_ok: bool = if bytes_match(w0, set.as_slice()) {
        true
    } else if *slice_index_get(w0, 0) != 47 {
        match find_byte(w0, 47u8) {
            Some(_) => true,
            None => false,
        }
    } else {
        false
    };
    proof {
        lemma_first_byte(w0@, 47u8);
    }
    if !shape_ok {
        return false;
    }
    // every further word must be a tame keyword
    let mut rest: &[u8] = tail;
    let ghost mut checked: int = 1;
    proof {
        assert(ws.skip(1) =~= ws.drop_first());
    }
    loop
        invariant
            ws == words_of(l@),
            line_tame(l@) == (forall|k: int| 1 <= k < ws.len() ==> keyword_tame(
                #[trigger] ws[k],
            )),
            1 <= checked <= ws.len(),
            ws.skip(checked) == words_of(rest@),
            forall|k: int| 1 <= k < checked ==> keyword_tame(#[trigger] ws[k]),
        decreases rest@.len(),
    {
        // skip spaces before the next word
        let rn = rest.len();
        let mut q: usize = 0;
        proof {
            assert(rest@.skip(0) =~= rest@);
        }
        while q < rn && *slice_index_get(rest, q) == 32
            invariant
                rn == rest@.len(),
                q <= rn,
                words_of(rest@) == words_of(rest@.skip(q as int)),
            decreases rn - q,
        {
            proof {
                assert(rest@.skip(q as int).drop_first() =~= rest@.skip(q as int + 1));
            }
            q += 1;
        }
        let ghost sq = rest@.skip(q as int);
        if q == rn {
            proof {
                assert(sq.len() == 0);
                assert(words_of(rest@) =~= Seq::<Seq<u8>>::empty());
                assert(ws.skip(checked) =~= Seq::<Seq<u8>>::empty());
                assert(checked == ws.len());
            }
            return true;
        }
        proof {
            assert(sq[0] == rest@[q as int]);
            assert(sq[0] != 32u8);
        }
        let restq = slice_subrange(rest, q, rn);
        proof {
            assert(restq@ =~= sq);
        }
        let klen: usize = match find_byte(restq, 32u8) {
            Some(i) => i,
            None => restq.len(),
        };
        proof {
            lemma_first_byte(restq@, 32u8);
            assert(klen <= restq@.len());
        }
        let w = slice_subrange(restq, 0, klen);
        let next = slice_subrange(restq, klen, restq.len());
        proof {
            match first_byte(sq, 32u8) {
                Some(i) => {
                    lemma_first_byte(sq, 32u8);
                    assert(words_of(sq) =~= seq![sq.take(i)] + words_of(sq.skip(i)));
                },
                None => {
                    assert(words_of(sq) =~= seq![sq]);
                    assert(sq.take(sq.len() as int) =~= sq);
                    assert(next@.len() == 0);
                    assert(words_of(next@) =~= Seq::<Seq<u8>>::empty());
                    assert(words_of(sq) =~= seq![sq.take(klen as int)] + words_of(next@));
                },
            }
            assert(w@ =~= sq.take(klen as int));
            assert(next@ =~= sq.skip(klen as int));
            assert(words_of(rest@) == words_of(sq));
            assert(ws.skip(checked).len() >= 1);
            assert(checked < ws.len());
            assert(ws.skip(checked)[0] == w@);
            assert(ws[checked] == w@);
            assert(ws.skip(checked).drop_first() =~= ws.skip(checked + 1));
            assert(words_of(sq).drop_first() =~= words_of(next@));
            assert(w@.len() >= 1);
            assert(next@.len() < rest@.len());
        }
        if !keyword_tame_exec(w) {
            proof {
                assert(!keyword_tame(ws[checked]));
            }
            return false;
        }
        rest = next;
        proof {
            checked = checked + 1;
        }
    }
}

/// Every line of the list is tame.
pub open spec fn all_lines_tame(ls: Seq<Seq<u8>>) -> bool {
    forall|i: int| 0 <= i < ls.len() ==> line_tame(#[trigger] ls[i])
}

/// Tameness of a cons is tameness of the head and of the tail.
proof fn lemma_all_lines_cons(head: Seq<u8>, tail: Seq<Seq<u8>>)
    ensures
        all_lines_tame(seq![head] + tail) == (line_tame(head) && all_lines_tame(tail)),
{
    let c = seq![head] + tail;
    if line_tame(head) && all_lines_tame(tail) {
        assert forall|i: int| 0 <= i < c.len() implies line_tame(#[trigger] c[i]) by {
            if i > 0 {
                assert(c[i] == tail[i - 1]);
            }
        }
    }
    if all_lines_tame(c) {
        assert(c[0] == head);
        assert forall|i: int| 0 <= i < tail.len() implies line_tame(#[trigger] tail[i]) by {
            assert(c[i + 1] == tail[i]);
        }
    }
}

/// Is this manifest tame, so that parsing it is known to succeed?
pub fn mtree_input_tame(bytes: &[u8]) -> (r: bool)
    ensures
        r == spec_mtree_tame(bytes@),
{
    let n = bytes.len();
    let mut p: usize = 0;
    proof {
        assert(bytes@.skip(0) =~= bytes@);
    }
    loop
        invariant
            n == bytes@.len(),
            p <= n,
            spec_mtree_tame(bytes@) == all_lines_tame(lines_of(bytes@.skip(p as int))),
        decreases n - p,
    {
        let ghost s = bytes@.skip(p as int);
        if p == n {
            proof {
                assert(s.len() == 0);
                assert(lines_of(s) =~= Seq::<Seq<u8>>::empty());
            }
            return true;
        }
        let restp = slice_subrange(bytes, p, n);
        proof {
            assert(restp@ =~= s);
        }
        let llen: usize = match find_byte(restp, 10u8) {
            Some(i) => i,
            None => restp.len(),
        };
        proof {
            lemma_first_byte(restp@, 10u8);
            assert(llen <= restp@.len());
            assert(restp@.len() == n - p);
        }
        let line = slice_subrange(restp, 0, llen);
        let nextp: usize = if llen == restp.len() {
            n
        } else {
            p + llen + 1
        };
        proof {
            match first_byte(s, 10u8) {
                Some(i) => {
                    lemma_first_byte(s, 10u8);
                    assert(i < s.len());
                    assert(lines_of(s) =~= seq![s.take(i)] + lines_of(s.skip(i + 1)));
                    assert(s.skip(i + 1) =~= bytes@.skip(nextp as int));
                },
                None => {
                    assert(s.len() > 0);
                    assert(lines_of(s) =~= seq![s]);
                    assert(s.take(s.len() as int) =~= s);
                    assert(bytes@.skip(nextp as int).len() == 0);
                    assert(lines_of(bytes@.skip(nextp as int)) =~= Seq::<Seq<u8>>::empty());
                    assert(lines_of(s) =~= seq![s.take(llen as int)] + lines_of(
                        bytes@.skip(nextp as int),
                    ));
                },
            }
            assert(line@ =~= s.take(llen as int));
            lemma_all_lines_cons(line@, lines_of(bytes@.skip(nextp as int)));
        }
        if !line_tame_exec(line) {
            return false;
        }
        p = nextp;
    }
}

} // verus!
