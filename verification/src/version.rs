//! Parsing and comparing of package versions.
//!
//! A version string is a triple `epoch:version-release`.  Ordering of each
//! part follows the legacy block algorithm: the byte string is cut into
//! maximal runs of separator (non-alphanumeric), alphabetic and numeric
//! bytes, and the runs are compared pairwise in sequence.

use vstd::prelude::*;
use vstd::slice::{slice_index_get, slice_subrange, slice_to_vec};
use vstd::string::StringSliceAdditionalSpecFns;
use vstd::string::StrSliceExecFns;
use core::cmp::Ordering;

verus! {

/// Is this byte an ASCII digit?
pub open spec fn is_digit_byte(b: u8) -> bool {
    48 <= b && b <= 57
}

/// Is this byte an ASCII letter?
pub open spec fn is_alpha_byte(b: u8) -> bool {
    (65 <= b && b <= 90) || (97 <= b && b <= 122)
}

/// The three classes a byte of a version string can fall into.
pub enum CharClass {
    Separator,
    Alpha,
    Numeric,
}

/// Classify one byte.
pub open spec fn class_of(b: u8) -> CharClass {
    if is_digit_byte(b) {
        CharClass::Numeric
    } else if is_alpha_byte(b) {
        CharClass::Alpha
    } else {
        CharClass::Separator
    }
}

/// One block of a version string: a run of separators is kept only as its
/// length, a numeric run is kept with its leading zeros stripped.
pub enum Block {
    Separator(nat),
    Alpha(Seq<u8>),
    Numeric(Seq<u8>),
}

/// The class a block was built from.
pub open spec fn block_class(b: Block) -> CharClass {
    match b {
        Block::Separator(_) => CharClass::Separator,
        Block::Alpha(_) => CharClass::Alpha,
        Block::Numeric(_) => CharClass::Numeric,
    }
}

/// Length of the maximal prefix of `s` whose bytes are all of class `c`.
pub open spec fn run_len(s: Seq<u8>, c: CharClass) -> nat
    decreases s.len(),
{
    if s.len() == 0 || class_of(s[0]) != c {
        0
    } else {
        (run_len(s.drop_first(), c) + 1) as nat
    }
}

pub proof fn lemma_run_len(s: Seq<u8>, c: CharClass)
    ensures
        run_len(s, c) <= s.len(),
        s.len() > 0 && class_of(s[0]) == c ==> run_len(s, c) >= 1,
        forall|j: int| 0 <= j < run_len(s, c) ==> class_of(s[j]) == c,
        run_len(s, c) < s.len() ==> class_of(s[run_len(s, c) as int]) != c,
    decreases s.len(),
{
    if s.len() > 0 && class_of(s[0]) == c {
        let rest = s.drop_first();
        lemma_run_len(rest, c);
        assert forall|j: int| 0 <= j < run_len(s, c) implies class_of(s[j]) == c by {
            if j > 0 {
                assert(rest[j - 1] == s[j]);
            }
        }
        if run_len(s, c) < s.len() {
            assert(rest[run_len(s, c) - 1] == s[run_len(s, c) as int]);
        }
    }
}

/// `run_len` is pinned down by its characteristic properties.
pub proof fn lemma_run_len_is(s: Seq<u8>, c: CharClass, n: int)
    requires
        0 <= n <= s.len(),
        forall|j: int| 0 <= j < n ==> class_of(s[j]) == c,
        n < s.len() ==> class_of(s[n]) != c,
    ensures
        run_len(s, c) == n,
    decreases s.len(),
{
    if s.len() == 0 || class_of(s[0]) != c {
        assert(n == 0);
    } else {
        let rest = s.drop_first();
        assert(forall|j: int| 0 <= j < n - 1 ==> #[trigger] class_of(rest[j]) == class_of(s[j + 1]));
        if n - 1 < rest.len() {
            assert(class_of(rest[n - 1]) == class_of(s[n]));
        }
        lemma_run_len_is(rest, c, n - 1);
    }
}

/// Remove leading `0` bytes.
pub open spec fn strip_zeros(s: Seq<u8>) -> Seq<u8>
    decreases s.len(),
{
    if s.len() > 0 && s[0] == 48u8 {
        strip_zeros(s.drop_first())
    } else {
        s
    }
}

/// `strip_zeros` is pinned down by the number of leading zeros.
pub proof fn lemma_strip_zeros_is(s: Seq<u8>, m: int)
    requires
        0 <= m <= s.len(),
        forall|j: int| 0 <= j < m ==> s[j] == 48u8,
        m < s.len() ==> s[m] != 48u8,
    ensures
        strip_zeros(s) =~= s.subrange(m, s.len() as int),
    decreases s.len(),
{
    if s.len() > 0 && s[0] == 48u8 {
        let rest = s.drop_first();
        assert(forall|j: int| 0 <= j < m - 1 ==> rest[j] == s[j + 1]);
        if m - 1 < rest.len() {
            assert(rest[m - 1] == s[m]);
        }
        lemma_strip_zeros_is(rest, m - 1);
    } else {
        assert(m == 0);
    }
}

/// Cut a byte string into its sequence of blocks.
pub open spec fn blocks(s: Seq<u8>) -> Seq<Block>
    decreases s.len(),
{
    if s.len() == 0 {
        Seq::empty()
    } else {
        let c = class_of(s[0]);
        let n = run_len(s, c) as int;
        proof {
            lemma_run_len(s, c);
        }
        let head = match c {
            CharClass::Numeric => Block::Numeric(strip_zeros(s.subrange(0, n))),
            CharClass::Alpha => Block::Alpha(s.subrange(0, n)),
            CharClass::Separator => Block::Separator(n as nat),
        };
        seq![head] + blocks(s.subrange(n, s.len() as int))
    }
}

/// Runtime representation of a block.
pub enum RtBlock {
    Separator(usize),
    Alpha(Vec<u8>),
    Numeric(Vec<u8>),
}

impl View for RtBlock {
    type V = Block;

    open spec fn view(&self) -> Block {
        match self {
            RtBlock::Separator(n) => Block::Separator(*n as nat),
            RtBlock::Alpha(v) => Block::Alpha(v@),
            RtBlock::Numeric(v) => Block::Numeric(v@),
        }
    }
}

/// The block sequence a runtime block vector stands for.
pub open spec fn view_blocks(v: Seq<RtBlock>) -> Seq<Block> {
    v.map_values(|b: RtBlock| b@)
}

/// Exec check for an ASCII digit.
pub fn is_digit_b(b: u8) -> (r: bool)
    ensures
        r == is_digit_byte(b),
{
    b >= 48 && b <= 57
}

/// Exec check for an ASCII letter.
pub fn is_alpha_b(b: u8) -> (r: bool)
    ensures
        r == is_alpha_byte(b),
{
    (b >= 65 && b <= 90) || (b >= 97 && b <= 122)
}

/// Do two bytes fall into the same class?
fn same_class(a: u8, b: u8) -> (r: bool)
    ensures
        r == (class_of(a) == class_of(b)),
{
    if is_digit_b(a) {
        is_digit_b(b)
    } else if is_alpha_b(a) {
        is_alpha_b(b)
    } else {
        !is_digit_b(b) && !is_alpha_b(b)
    }
}

/// The end of the run of bytes that share the class of `s[i]`.
fn run_end(s: &[u8], i: usize) -> (j: usize)
    requires
        i < s@.len(),
    ensures
        i < j <= s@.len(),
        forall|k: int| i <= k < j ==> class_of(s@[k]) == class_of(s@[i as int]),
        j < s@.len() ==> class_of(s@[j as int]) != class_of(s@[i as int]),
{
    let n = s.len();
    let b0 = *slice_index_get(s, i);
    let mut j = i + 1;
    while j < n
        invariant
            n == s@.len(),
            i < j <= s@.len(),
            b0 == s@[i as int],
            forall|k: int| i <= k < j ==> class_of(s@[k]) == class_of(s@[i as int]),
        ensures
            i < j <= s@.len(),
            forall|k: int| i <= k < j ==> class_of(s@[k]) == class_of(s@[i as int]),
            j < s@.len() ==> class_of(s@[j as int]) != class_of(s@[i as int]),
        decreases s@.len() - j,
    {
        let c = *slice_index_get(s, j);
        if !same_class(b0, c) {
            break;
        }
        j += 1;
    }
    j
}

/// The first index in `[i, j)` holding something other than a `0` byte.
fn first_nonzero(s: &[u8], i: usize, j: usize) -> (z: usize)
    requires
        i <= j <= s@.len(),
    ensures
        i <= z <= j,
        forall|k: int| i <= k < z ==> s@[k] == 48u8,
        z < j ==> s@[z as int] != 48u8,
{
    let mut z = i;
    while z < j
        invariant
            i <= z <= j <= s@.len(),
            forall|k: int| i <= k < z ==> s@[k] == 48u8,
        ensures
            i <= z <= j,
            forall|k: int| i <= k < z ==> s@[k] == 48u8,
            z < j ==> s@[z as int] != 48u8,
        decreases j - z,
    {
        if *slice_index_get(s, z) != 48 {
            break;
        }
        z += 1;
    }
    z
}

/// Cut a byte slice into its blocks.
pub fn scan_blocks(s: &[u8]) -> (r: Vec<RtBlock>)
    ensures
        view_blocks(r@) =~= blocks(s@),
{
    let mut out: Vec<RtBlock> = Vec::new();
    let mut i: usize = 0;
    proof {
        assert(s@.subrange(0, s@.len() as int) =~= s@);
        assert(view_blocks(Seq::<RtBlock>::empty()) =~= Seq::<Block>::empty());
    }
    while i < s.len()
        invariant
            i <= s@.len(),
            blocks(s@) =~= view_blocks(out@) + blocks(s@.subrange(i as int, s@.len() as int)),
        decreases s@.len() - i,
    {
        let ghost suffix = s@.subrange(i as int, s@.len() as int);
        let b0 = *slice_index_get(s, i);
        let j = run_end(s, i);
        proof {
            assert(forall|k: int| 0 <= k < suffix.len() ==> suffix[k] == s@[i + k]);
            lemma_run_len_is(suffix, class_of(b0), j - i);
        }
        let block: RtBlock;
        if is_digit_b(b0) {
            let z = first_nonzero(s, i, j);
            block = RtBlock::Numeric(slice_to_vec(slice_subrange(s, z, j)));
            proof {
                lemma_strip_zeros_is(suffix.subrange(0, j - i), z - i);
                assert(suffix.subrange(0, j - i).subrange(z - i, j - i) =~= s@.subrange(
                    z as int,
                    j as int,
                ));
            }
        } else if is_alpha_b(b0) {
            block = RtBlock::Alpha(slice_to_vec(slice_subrange(s, i, j)));
            proof {
                assert(suffix.subrange(0, j - i) =~= s@.subrange(i as int, j as int));
            }
        } else {
            block = RtBlock::Separator(j - i);
        }
        proof {
            assert(suffix.subrange(j - i, suffix.len() as int) =~= s@.subrange(
                j as int,
                s@.len() as int,
            ));
            assert(view_blocks(out@.push(block)) =~= view_blocks(out@) + seq![block@]);
        }
        out.push(block);
        i = j;
    }
    proof {
        assert(s@.subrange(i as int, s@.len() as int) =~= Seq::<u8>::empty());
    }
    out
}


/// Lexicographic byte comparison.
pub open spec fn lex_cmp(a: Seq<u8>, b: Seq<u8>) -> Ordering
    decreases a.len(),
{
    if a.len() == 0 && b.len() == 0 {
        Ordering::Equal
    } else if a.len() == 0 {
        Ordering::Less
    } else if b.len() == 0 {
        Ordering::Greater
    } else if a[0] < b[0] {
        Ordering::Less
    } else if a[0] > b[0] {
        Ordering::Greater
    } else {
        lex_cmp(a.drop_first(), b.drop_first())
    }
}

/// Numeric comparison of two digit runs whose leading zeros are stripped:
/// the longer run is greater, equal lengths compare lexicographically.
pub open spec fn num_cmp(a: Seq<u8>, b: Seq<u8>) -> Ordering {
    if a.len() < b.len() {
        Ordering::Less
    } else if a.len() > b.len() {
        Ordering::Greater
    } else {
        lex_cmp(a, b)
    }
}

/// Compare two block sequences in lockstep.
///
/// A separator block beats a numeric block, which beats an alphabetic one.
/// When one side has run out, a remaining numeric block makes its side
/// greater, a remaining alphabetic block makes its side less, and remaining
/// separators are skipped.  A pair of separator blocks that ends both sides
/// compares equal whatever the lengths.
pub open spec fn cmp_blocks(a: Seq<Block>, b: Seq<Block>) -> Ordering
    decreases a.len() + b.len(),
{
    if a.len() == 0 && b.len() == 0 {
        Ordering::Equal
    } else if a.len() == 0 {
        match b[0] {
            Block::Separator(_) => cmp_blocks(a, b.drop_first()),
            Block::Alpha(_) => Ordering::Greater,
            Block::Numeric(_) => Ordering::Less,
        }
    } else if b.len() == 0 {
        match a[0] {
            Block::Separator(_) => cmp_blocks(a.drop_first(), b),
            Block::Alpha(_) => Ordering::Less,
            Block::Numeric(_) => Ordering::Greater,
        }
    } else {
        match (a[0], b[0]) {
            (Block::Separator(x), Block::Separator(y)) => {
                if a.len() == 1 && b.len() == 1 {
                    Ordering::Equal
                } else if x == y {
                    cmp_blocks(a.drop_first(), b.drop_first())
                } else if x < y {
                    Ordering::Less
                } else {
                    Ordering::Greater
                }
            },
            (Block::Separator(_), _) => Ordering::Greater,
            (_, Block::Separator(_)) => Ordering::Less,
            (Block::Numeric(x), Block::Numeric(y)) => {
                if num_cmp(x, y) == Ordering::Equal {
                    cmp_blocks(a.drop_first(), b.drop_first())
                } else {
                    num_cmp(x, y)
                }
            },
            (Block::Numeric(_), Block::Alpha(_)) => Ordering::Greater,
            (Block::Alpha(_), Block::Numeric(_)) => Ordering::Less,
            (Block::Alpha(x), Block::Alpha(y)) => {
                if lex_cmp(x, y) == Ordering::Equal {
                    cmp_blocks(a.drop_first(), b.drop_first())
                } else {
                    lex_cmp(x, y)
                }
            },
        }
    }
}

/// What `version_cmp` returns on two byte strings.
pub open spec fn spec_version_cmp(a: Seq<u8>, b: Seq<u8>) -> Ordering {
    cmp_blocks(blocks(a), blocks(b))
}

/// Exec lexicographic comparison.
fn lex_cmp_exec(a: &Vec<u8>, b: &Vec<u8>) -> (r: Ordering)
    ensures
        r == lex_cmp(a@, b@),
{
    let mut k: usize = 0;
    proof {
        assert(a@.skip(0) =~= a@);
        assert(b@.skip(0) =~= b@);
    }
    loop
        invariant
            k <= a@.len(),
            k <= b@.len(),
            lex_cmp(a@, b@) == lex_cmp(a@.skip(k as int), b@.skip(k as int)),
        decreases a@.len() - k,
    {
        let ghost sa = a@.skip(k as int);
        let ghost sb = b@.skip(k as int);
        if k == a.len() && k == b.len() {
            return Ordering::Equal;
        } else if k == a.len() {
            return Ordering::Less;
        } else if k == b.len() {
            return Ordering::Greater;
        }
        let x = a[k];
        let y = b[k];
        if x < y {
            return Ordering::Less;
        } else if x > y {
            return Ordering::Greater;
        }
        proof {
            assert(sa.drop_first() =~= a@.skip(k + 1));
            assert(sb.drop_first() =~= b@.skip(k + 1));
        }
        k += 1;
    }
}

/// Exec numeric comparison.
fn num_cmp_exec(a: &Vec<u8>, b: &Vec<u8>) -> (r: Ordering)
    ensures
        r == num_cmp(a@, b@),
{
    if a.len() < b.len() {
        Ordering::Less
    } else if a.len() > b.len() {
        Ordering::Greater
    } else {
        lex_cmp_exec(a, b)
    }
}

/// Exec comparison of two block vectors.
pub fn cmp_rt_blocks(x: &Vec<RtBlock>, y: &Vec<RtBlock>) -> (r: Ordering)
    ensures
        r == cmp_blocks(view_blocks(x@), view_blocks(y@)),
{
    let mut ia: usize = 0;
    let mut ib: usize = 0;
    proof {
        assert(view_blocks(x@).skip(0) =~= view_blocks(x@));
        assert(view_blocks(y@).skip(0) =~= view_blocks(y@));
    }
    loop
        invariant
            ia <= x@.len(),
            ib <= y@.len(),
            cmp_blocks(view_blocks(x@), view_blocks(y@)) == cmp_blocks(
                view_blocks(x@).skip(ia as int),
                view_blocks(y@).skip(ib as int),
            ),
        decreases x@.len() - ia + y@.len() - ib,
    {
        let ghost av = view_blocks(x@).skip(ia as int);
        let ghost bv = view_blocks(y@).skip(ib as int);
        proof {
            if ia < x@.len() {
                assert(av[0] == x@[ia as int]@);
                assert(av.drop_first() =~= view_blocks(x@).skip(ia + 1));
            }
            if ib < y@.len() {
                assert(bv[0] == y@[ib as int]@);
                assert(bv.drop_first() =~= view_blocks(y@).skip(ib + 1));
            }
        }
        if ia == x.len() && ib == y.len() {
            return Ordering::Equal;
        } else if ia == x.len() {
            match &y[ib] {
                RtBlock::Separator(_) => {
                    ib += 1;
                },
                RtBlock::Alpha(_) => {
                    return Ordering::Greater;
                },
                RtBlock::Numeric(_) => {
                    return Ordering::Less;
                },
            }
        } else if ib == y.len() {
            match &x[ia] {
                RtBlock::Separator(_) => {
                    ia += 1;
                },
                RtBlock::Alpha(_) => {
                    return Ordering::Less;
                },
                RtBlock::Numeric(_) => {
                    return Ordering::Greater;
                },
            }
        } else {
            match (&x[ia], &y[ib]) {
                (RtBlock::Separator(xl), RtBlock::Separator(yl)) => {
                    if ia + 1 == x.len() && ib + 1 == y.len() {
                        return Ordering::Equal;
                    } else if *xl == *yl {
                        ia += 1;
                        ib += 1;
                    } else if *xl < *yl {
                        return Ordering::Less;
                    } else {
                        return Ordering::Greater;
                    }
                },
                (RtBlock::Separator(_), _) => {
                    return Ordering::Greater;
                },
                (_, RtBlock::Separator(_)) => {
                    return Ordering::Less;
                },
                (RtBlock::Numeric(xv), RtBlock::Numeric(yv)) => {
                    let c = num_cmp_exec(xv, yv);
                    match c {
                        Ordering::Equal => {
                            ia += 1;
                            ib += 1;
                        },
                        _ => {
                            return c;
                        },
                    }
                },
                (RtBlock::Numeric(_), RtBlock::Alpha(_)) => {
                    return Ordering::Greater;
                },
                (RtBlock::Alpha(_), RtBlock::Numeric(_)) => {
                    return Ordering::Less;
                },
                (RtBlock::Alpha(xv), RtBlock::Alpha(yv)) => {
                    let c = lex_cmp_exec(xv, yv);
                    match c {
                        Ordering::Equal => {
                            ia += 1;
                            ib += 1;
                        },
                        _ => {
                            return c;
                        },
                    }
                },
            }
        }
    }
}

/// Find which version section is newer, or whether they are equal.
pub fn version_cmp(left: &str, right: &str) -> (r: Ordering)
    ensures
        r == spec_version_cmp(left.spec_bytes(), right.spec_bytes()),
{
    let lb = scan_blocks(left.as_bytes());
    let rb = scan_blocks(right.as_bytes());
    cmp_rt_blocks(&lb, &rb)
}


/// The index of the last occurrence of `b` in `s`.
pub open spec fn last_index_of(s: Seq<u8>, b: u8) -> Option<int>
    decreases s.len(),
{
    if s.len() == 0 {
        None
    } else if s[s.len() - 1] == b {
        Some(s.len() - 1)
    } else {
        last_index_of(s.drop_last(), b)
    }
}

/// `last_index_of` is pinned down by its characteristic properties.
pub proof fn lemma_last_index_of_is(s: Seq<u8>, b: u8, r: Option<int>)
    requires
        match r {
            Some(i) => 0 <= i < s.len() && s[i] == b && forall|j: int| i < j < s.len() ==> s[j] != b,
            None => forall|j: int| 0 <= j < s.len() ==> s[j] != b,
        },
    ensures
        last_index_of(s, b) == r,
    decreases s.len(),
{
    if s.len() > 0 && s[s.len() - 1] != b {
        let rest = s.drop_last();
        assert(forall|j: int| 0 <= j < rest.len() ==> rest[j] == s[j]);
        lemma_last_index_of_is(rest, b, r);
    }
}

/// The mathematical value of a `Version`.
pub struct VersionView {
    pub epoch: Seq<u8>,
    pub version: Seq<u8>,
    pub release: Option<Seq<u8>>,
}

/// What `Version::parse` builds from a byte string: the epoch is the leading
/// digit run when a `:` follows it (else `"0"`), the release is whatever
/// follows the last `-` of the remainder, and the version is the rest.
pub open spec fn spec_parse(s: Seq<u8>) -> VersionView {
    let d = run_len(s, CharClass::Numeric) as int;
    let has_epoch = d < s.len() && s[d] == 58u8;
    let epoch = if has_epoch {
        s.subrange(0, d)
    } else {
        seq![48u8]
    };
    let rest = if has_epoch {
        s.subrange(d + 1, s.len() as int)
    } else {
        s
    };
    match last_index_of(rest, 45u8) {
        Some(i) => VersionView {
            epoch,
            version: rest.subrange(0, i),
            release: Some(rest.subrange(i + 1, rest.len() as int)),
        },
        None => VersionView { epoch, version: rest, release: None },
    }
}

/// An alpm version: an epoch (defaulting to `"0"`), a version, and an
/// optional release, each kept as the bytes it was written with.
#[derive(Debug, Clone)]
pub struct Version {
    /// The epoch.
    pub epoch: Vec<u8>,
    /// The version proper.
    pub version: Vec<u8>,
    /// The release, when one was given.
    pub release: Option<Vec<u8>>,
}

impl View for Version {
    type V = VersionView;

    open spec fn view(&self) -> VersionView {
        VersionView {
            epoch: self.epoch@,
            version: self.version@,
            release: match self.release {
                Some(r) => Some(r@),
                None => None,
            },
        }
    }
}

/// The length of the leading run of ASCII digits.
fn leading_digit_run(s: &[u8]) -> (d: usize)
    ensures
        d <= s@.len(),
        forall|k: int| 0 <= k < d ==> is_digit_byte(s@[k]),
        d < s@.len() ==> !is_digit_byte(s@[d as int]),
{
    let n = s.len();
    let mut d: usize = 0;
    while d < n
        invariant
            n == s@.len(),
            d <= n,
            forall|k: int| 0 <= k < d ==> is_digit_byte(s@[k]),
        ensures
            d <= n,
            forall|k: int| 0 <= k < d ==> is_digit_byte(s@[k]),
            d < n ==> !is_digit_byte(s@[d as int]),
        decreases n - d,
    {
        if !is_digit_b(*slice_index_get(s, d)) {
            break;
        }
        d += 1;
    }
    d
}

/// The index of the last `-` byte, if any.
fn last_hyphen(s: &[u8]) -> (r: Option<usize>)
    ensures
        match r {
            Some(i) => i < s@.len() && s@[i as int] == 45u8 && forall|j: int|
                i < j < s@.len() ==> s@[j] != 45u8,
            None => forall|j: int| 0 <= j < s@.len() ==> s@[j] != 45u8,
        },
{
    let mut k = s.len();
    while k > 0
        invariant
            k <= s@.len(),
            forall|j: int| k <= j < s@.len() ==> s@[j] != 45u8,
        decreases k,
    {
        k -= 1;
        if *slice_index_get(s, k) == 45 {
            return Some(k);
        }
    }
    None
}

impl Version {
    /// Build a version out of its three parts.
    pub fn new(epoch: &str, version: &str, release: Option<&str>) -> (v: Version)
        ensures
            v@.epoch == epoch.spec_bytes(),
            v@.version == version.spec_bytes(),
            match release {
                Some(r) => v@.release == Some(r.spec_bytes()),
                None => v@.release is None,
            },
    {
        Version {
            epoch: epoch.as_bytes_vec(),
            version: version.as_bytes_vec(),
            release: match release {
                Some(r) => Some(r.as_bytes_vec()),
                None => None,
            },
        }
    }

    /// Parse a string into a version, matching the legacy algorithm.
    pub fn parse(input: &str) -> (v: Version)
        ensures
            v@ == spec_parse(input.spec_bytes()),
    {
        let s = input.as_bytes();
        let ghost sv = s@;
        let n = s.len();
        let d = leading_digit_run(s);
        proof {
            lemma_run_len_is(sv, CharClass::Numeric, d as int);
        }
        let epoch: Vec<u8>;
        let rest: &[u8];
        if d < n && *slice_index_get(s, d) == 58 {
            epoch = slice_to_vec(slice_subrange(s, 0, d));
            rest = slice_subrange(s, d + 1, n);
        } else {
            epoch = vec![48u8];
            rest = s;
            proof {
                assert(epoch@ =~= seq![48u8]);
            }
        }
        let rn = rest.len();
        match last_hyphen(rest) {
            Some(i) => {
                proof {
                    lemma_last_index_of_is(rest@, 45u8, Some(i as int));
                }
                Version {
                    epoch,
                    version: slice_to_vec(slice_subrange(rest, 0, i)),
                    release: Some(slice_to_vec(slice_subrange(rest, i + 1, rn))),
                }
            },
            None => {
                proof {
                    lemma_last_index_of_is(rest@, 45u8, None);
                    assert(rest@.subrange(0, rest@.len() as int) =~= rest@);
                }
                Version { epoch, version: slice_to_vec(rest), release: None }
            },
        }
    }

    /// Give up the borrowed form for an owned one.  The parts are already
    /// owned here, so this returns the version unchanged.
    pub fn into_owned(self) -> (v: Version)
        ensures
            v@ == self@,
    {
        self
    }

    /// Byte equality of the three parts: the same version written the same
    /// way, as opposed to the equality that `cmp` induces.
    pub fn byte_eq(&self, other: &Version) -> (r: bool)
        ensures
            r <==> (self@.epoch == other@.epoch && self@.version == other@.version
                && self@.release == other@.release),
    {
        let rel_eq = match (&self.release, &other.release) {
            (Some(a), Some(b)) => bytes_eq(a, b),
            (None, None) => true,
            _ => false,
        };
        rel_eq && bytes_eq(&self.epoch, &other.epoch) && bytes_eq(&self.version, &other.version)
    }

    /// Compare two versions: first epochs, then versions, then releases;
    /// when either release is missing the releases compare equal.
    pub fn cmp(&self, other: &Version) -> (r: Ordering)
        ensures
            r == spec_cmp(self@, other@),
    {
        let e = vcmp_bytes(self.epoch.as_slice(), other.epoch.as_slice());
        match e {
            Ordering::Equal => {},
            _ => {
                return e;
            },
        }
        let v = vcmp_bytes(self.version.as_slice(), other.version.as_slice());
        match v {
            Ordering::Equal => {},
            _ => {
                return v;
            },
        }
        match (&self.release, &other.release) {
            (Some(a), Some(b)) => vcmp_bytes(a.as_slice(), b.as_slice()),
            _ => Ordering::Equal,
        }
    }
}

/// The ordering `Version::cmp` returns.
pub open spec fn spec_cmp(a: VersionView, b: VersionView) -> Ordering {
    if spec_version_cmp(a.epoch, b.epoch) != Ordering::Equal {
        spec_version_cmp(a.epoch, b.epoch)
    } else if spec_version_cmp(a.version, b.version) != Ordering::Equal {
        spec_version_cmp(a.version, b.version)
    } else if a.release is Some && b.release is Some {
        spec_version_cmp(a.release->0, b.release->0)
    } else {
        Ordering::Equal
    }
}

/// Exec equality of two byte vectors.
fn bytes_eq(a: &Vec<u8>, b: &Vec<u8>) -> (r: bool)
    ensures
        r <==> a@ == b@,
{
    if a.len() != b.len() {
        proof {
            assert(a@ != b@);
        }
        return false;
    }
    let n = a.len();
    let mut k: usize = 0;
    while k < n
        invariant
            n == a@.len() == b@.len(),
            k <= n,
            forall|j: int| 0 <= j < k ==> a@[j] == b@[j],
        decreases n - k,
    {
        if a[k] != b[k] {
            return false;
        }
        k += 1;
    }
    proof {
        assert(a@ =~= b@);
    }
    true
}

/// Exec version-section comparison over bytes.
fn vcmp_bytes(a: &[u8], b: &[u8]) -> (r: Ordering)
    ensures
        r == spec_version_cmp(a@, b@),
{
    let ab = scan_blocks(a);
    let bb = scan_blocks(b);
    cmp_rt_blocks(&ab, &bb)
}

impl PartialEq for Version {
    /// Versions are equal exactly when `cmp` says so.
    fn eq(&self, other: &Version) -> (r: bool) {
        matches!(self.cmp(other), Ordering::Equal)
    }
}

impl vstd::std_specs::cmp::PartialEqSpecImpl for Version {
    open spec fn obeys_eq_spec() -> bool {
        true
    }

    open spec fn eq_spec(&self, other: &Version) -> bool {
        spec_cmp(self@, other@) == Ordering::Equal
    }
}


/// One FNV-1a style mixing step.
pub open spec fn mix(h: u64, b: u64) -> u64 {
    (((h ^ b) as nat * 1099511628211) % 0x10000000000000000) as u64
}

/// Fold a byte run into the hash.
pub open spec fn hash_bytes_spec(s: Seq<u8>, h: u64) -> u64
    decreases s.len(),
{
    if s.len() == 0 {
        h
    } else {
        hash_bytes_spec(s.drop_first(), mix(h, s[0] as u64))
    }
}

/// Fold one block into the hash: letter and digit runs feed their bytes,
/// separator runs feed their length.
pub open spec fn hash_block(b: Block, h: u64) -> u64 {
    match b {
        Block::Separator(n) => mix(h, n as u64),
        Block::Alpha(s) => hash_bytes_spec(s, h),
        Block::Numeric(s) => hash_bytes_spec(s, h),
    }
}

/// Fold a block sequence into the hash.
pub open spec fn hash_blocks(bs: Seq<Block>, h: u64) -> u64
    decreases bs.len(),
{
    if bs.len() == 0 {
        h
    } else {
        hash_blocks(bs.drop_first(), hash_block(bs[0], h))
    }
}

/// Drop a trailing separator block: it never separates anything, so two
/// strings that differ only there compare equal.
pub open spec fn strip_tail_sep(bs: Seq<Block>) -> Seq<Block> {
    if bs.len() > 0 && bs.last() is Separator {
        bs.drop_last()
    } else {
        bs
    }
}

/// The blocks that decide ordering: all of them but a trailing separator.
pub open spec fn canon(s: Seq<u8>) -> Seq<Block> {
    strip_tail_sep(blocks(s))
}

/// What hashing one version section yields.
pub open spec fn spec_section_hash(s: Seq<u8>, h: u64) -> u64 {
    hash_blocks(canon(s), h)
}

/// The offset basis the hash folds start from.
pub open spec fn spec_hash_offset() -> u64 {
    14695981039346656037u64
}

/// The hash of a whole version.
///
/// The release is left out on purpose: a version with a release and one
/// without compare equal, so a hash feeding the release would break the
/// `a == b ==> hash(a) == hash(b)` law.
pub open spec fn spec_hash_value(v: VersionView) -> u64 {
    spec_section_hash(v.version, spec_section_hash(v.epoch, spec_hash_offset()))
}

/// Exec mixing step.
fn mix_exec(h: u64, b: u64) -> (r: u64)
    ensures
        r == mix(h, b),
{
    let x = h ^ b;
    x.wrapping_mul(1099511628211u64)
}

/// Exec byte-run fold.
fn hash_bytes_exec(s: &Vec<u8>, h0: u64) -> (r: u64)
    ensures
        r == hash_bytes_spec(s@, h0),
{
    let mut h = h0;
    let mut k: usize = 0;
    proof {
        assert(s@.skip(0) =~= s@);
    }
    while k < s.len()
        invariant
            k <= s@.len(),
            hash_bytes_spec(s@, h0) == hash_bytes_spec(s@.skip(k as int), h),
        decreases s@.len() - k,
    {
        let ghost tail = s@.skip(k as int);
        h = mix_exec(h, s[k] as u64);
        proof {
            assert(tail.drop_first() =~= s@.skip(k + 1));
        }
        k += 1;
    }
    h
}

/// Exec block fold.
fn hash_block_exec(b: &RtBlock, h: u64) -> (r: u64)
    ensures
        r == hash_block(b@, h),
{
    match b {
        RtBlock::Separator(n) => mix_exec(h, *n as u64),
        RtBlock::Alpha(s) => hash_bytes_exec(s, h),
        RtBlock::Numeric(s) => hash_bytes_exec(s, h),
    }
}

/// Hash one version section: feed every block of it but a trailing
/// separator, which does not take part in ordering either.
fn hash_section(s: &[u8], h0: u64) -> (r: u64)
    ensures
        r == spec_section_hash(s@, h0),
{
    let mut bs = scan_blocks(s);
    let mut drop_last = false;
    if bs.len() > 0 {
        match &bs[bs.len() - 1] {
            RtBlock::Separator(_) => {
                drop_last = true;
            },
            _ => {},
        }
    }
    proof {
        if bs@.len() > 0 {
            assert(view_blocks(bs@).last() == bs@.last()@);
        }
    }
    if drop_last {
        bs.pop();
        proof {
            assert(view_blocks(bs@) =~= strip_tail_sep(blocks(s@)));
        }
    } else {
        proof {
            assert(view_blocks(bs@) =~= strip_tail_sep(blocks(s@)));
        }
    }
    let ghost target = view_blocks(bs@);
    let mut h = h0;
    let mut k: usize = 0;
    proof {
        assert(target.skip(0) =~= target);
    }
    while k < bs.len()
        invariant
            k <= bs@.len(),
            target == view_blocks(bs@),
            hash_blocks(target, h0) == hash_blocks(target.skip(k as int), h),
        decreases bs@.len() - k,
    {
        let ghost tail = target.skip(k as int);
        proof {
            assert(tail[0] == bs@[k as int]@);
        }
        h = hash_block_exec(&bs[k], h);
        proof {
            assert(tail.drop_first() =~= target.skip(k + 1));
        }
        k += 1;
    }
    h
}

/// Hash a version section string, excluding a trailing separator run, so
/// that sections that compare equal hash alike.
pub fn version_hash(input: &str) -> (r: u64)
    ensures
        r == spec_section_hash(input.spec_bytes(), spec_hash_offset()),
{
    hash_section(input.as_bytes(), 14695981039346656037u64)
}

impl Version {
    /// A hash consistent with `cmp`-equality: equal versions hash equal.
    pub fn hash_value(&self) -> (r: u64)
        ensures
            r == spec_hash_value(self@),
    {
        let h = hash_section(self.epoch.as_slice(), 14695981039346656037u64);
        hash_section(self.version.as_slice(), h)
    }
}


/// No two separator blocks stand next to each other.
pub open spec fn no_adjacent_seps(bs: Seq<Block>) -> bool {
    forall|i: int| 0 <= i < bs.len() - 1 ==> !((#[trigger] bs[i] is Separator) && (bs[i + 1] is Separator))
}

/// The first block of a nonempty string has the class of its first byte.
proof fn lemma_blocks_first_class(s: Seq<u8>)
    requires
        s.len() > 0,
    ensures
        blocks(s).len() > 0,
        block_class(blocks(s)[0]) == class_of(s[0]),
{
    let c = class_of(s[0]);
    let n = run_len(s, c) as int;
    lemma_run_len(s, c);
    let head = match c {
        CharClass::Numeric => Block::Numeric(strip_zeros(s.subrange(0, n))),
        CharClass::Alpha => Block::Alpha(s.subrange(0, n)),
        CharClass::Separator => Block::Separator(n as nat),
    };
    assert(blocks(s) =~= seq![head] + blocks(s.subrange(n, s.len() as int)));
    assert(blocks(s)[0] == head);
}

/// Blocks cut from a string alternate in class, so in particular no two
/// separator blocks are adjacent.
proof fn lemma_blocks_alternate(s: Seq<u8>)
    ensures
        no_adjacent_seps(blocks(s)),
    decreases s.len(),
{
    if s.len() > 0 {
        let c = class_of(s[0]);
        let n = run_len(s, c) as int;
        lemma_run_len(s, c);
        let rest = s.subrange(n, s.len() as int);
        lemma_blocks_alternate(rest);
        let head = match c {
            CharClass::Numeric => Block::Numeric(strip_zeros(s.subrange(0, n))),
            CharClass::Alpha => Block::Alpha(s.subrange(0, n)),
            CharClass::Separator => Block::Separator(n as nat),
        };
        assert(blocks(s) =~= seq![head] + blocks(rest));
        assert(block_class(head) == c);
        let bs = blocks(s);
        let br = blocks(rest);
        assert forall|i: int| 0 <= i < bs.len() - 1 implies !((#[trigger] bs[i] is Separator) && (
        bs[i + 1] is Separator)) by {
            if i == 0 {
                if bs.len() >= 2 {
                    assert(br.len() > 0);
                    assert(rest.len() > 0);
                    lemma_blocks_first_class(rest);
                    assert(bs[1] == br[0]);
                    assert(class_of(rest[0]) != c);
                }
            } else {
                assert(bs[i] == br[i - 1]);
                assert(bs[i + 1] == br[i]);
            }
        }
    }
}

/// Lexicographic comparison returns `Equal` exactly on equal strings.
proof fn lemma_lex_eq_iff(x: Seq<u8>, y: Seq<u8>)
    ensures
        (lex_cmp(x, y) == Ordering::Equal) <==> (x == y),
    decreases x.len() + y.len(),
{
    if x.len() > 0 && y.len() > 0 && x[0] == y[0] {
        lemma_lex_eq_iff(x.drop_first(), y.drop_first());
        if x.drop_first() == y.drop_first() {
            assert forall|i: int| 0 <= i < x.len() implies x[i] == y[i] by {
                if i > 0 {
                    assert(x.drop_first()[i - 1] == x[i]);
                    assert(y.drop_first()[i - 1] == y[i]);
                }
            }
            assert(x =~= y);
        }
        if x == y {
            assert(x.drop_first() =~= y.drop_first());
        }
    } else if x.len() == 0 && y.len() == 0 {
        assert(x =~= y);
    }
}

/// Numeric comparison returns `Equal` exactly on equal digit runs.
proof fn lemma_num_eq_iff(x: Seq<u8>, y: Seq<u8>)
    ensures
        (num_cmp(x, y) == Ordering::Equal) <==> (x == y),
{
    lemma_lex_eq_iff(x, y);
}

/// Peeling the first block off commutes with dropping a trailing separator,
/// as long as the remainder cannot be the trailing separator itself.
proof fn lemma_strip_decomp(a: Seq<Block>)
    requires
        a.len() >= 1,
        a.len() >= 2 || !(a[0] is Separator),
    ensures
        strip_tail_sep(a) =~= seq![a[0]] + strip_tail_sep(a.drop_first()),
{
    if a.len() == 1 {
        assert(strip_tail_sep(a) =~= seq![a[0]]);
    } else {
        let d = a.drop_first();
        assert(a.last() == d.last());
        if a.last() is Separator {
            assert(strip_tail_sep(a) =~= a.drop_last());
            assert(a.drop_last() =~= seq![a[0]] + d.drop_last());
        } else {
            assert(a =~= seq![a[0]] + d);
        }
    }
}

/// A nonempty block sequence that does not consist of a single separator
/// keeps its first element under `strip_tail_sep`.
proof fn lemma_strip_head(a: Seq<Block>)
    requires
        a.len() >= 1,
        a.len() >= 2 || !(a[0] is Separator),
    ensures
        strip_tail_sep(a).len() >= 1,
        strip_tail_sep(a)[0] == a[0],
{
}

/// `no_adjacent_seps` passes to the tail.
proof fn lemma_no_adjacent_drop_first(a: Seq<Block>)
    requires
        a.len() >= 1,
        no_adjacent_seps(a),
    ensures
        no_adjacent_seps(a.drop_first()),
{
    let d = a.drop_first();
    assert forall|i: int| 0 <= i < d.len() - 1 implies !((#[trigger] d[i] is Separator) && (
    d[i + 1] is Separator)) by {
        assert(d[i] == a[i + 1]);
        assert(d[i + 1] == a[i + 2]);
    }
}

/// With equal first blocks, dropping trailing separators on both sides
/// agrees exactly when it does on the tails.
proof fn lemma_cons_strip_iff(a: Seq<Block>, b: Seq<Block>)
    requires
        a.len() >= 1,
        b.len() >= 1,
        a[0] == b[0],
        a.len() >= 2 || !(a[0] is Separator),
        b.len() >= 2 || !(b[0] is Separator),
    ensures
        (strip_tail_sep(a) == strip_tail_sep(b)) <==> (strip_tail_sep(a.drop_first())
            == strip_tail_sep(b.drop_first())),
{
    lemma_strip_decomp(a);
    lemma_strip_decomp(b);
    let sa = strip_tail_sep(a);
    let sb = strip_tail_sep(b);
    let ta = strip_tail_sep(a.drop_first());
    let tb = strip_tail_sep(b.drop_first());
    if ta == tb {
        assert(sa =~= sb);
    }
    if sa == sb {
        assert forall|i: int| 0 <= i < ta.len() implies ta[i] == tb[i] by {
            assert(sa[i + 1] == ta[i]);
            assert(sb[i + 1] == tb[i]);
        }
        assert(ta =~= tb);
    }
}

/// Comparing an empty side against `b`: the result is `Equal` exactly when
/// `b` is empty or one trailing separator.
proof fn lemma_one_sided(b: Seq<Block>)
    requires
        b.len() >= 1,
        no_adjacent_seps(b),
    ensures
        (cmp_blocks(Seq::<Block>::empty(), b) == Ordering::Equal) <==> (strip_tail_sep(b)
            == Seq::<Block>::empty()),
        (cmp_blocks(b, Seq::<Block>::empty()) == Ordering::Equal) <==> (strip_tail_sep(b)
            == Seq::<Block>::empty()),
{
    let e = Seq::<Block>::empty();
    let b1 = b.drop_first();
    if b[0] is Separator {
        if b.len() == 1 {
            assert(b1 =~= e);
            assert(cmp_blocks(e, b) == cmp_blocks(e, b1));
            assert(cmp_blocks(b, e) == cmp_blocks(b1, e));
            assert(cmp_blocks(e, e) == Ordering::Equal);
            assert(strip_tail_sep(b) =~= e);
        } else {
            assert(b1[0] == b[1]);
            assert(!(b1[0] is Separator));
            assert(cmp_blocks(e, b) == cmp_blocks(e, b1));
            assert(cmp_blocks(b, e) == cmp_blocks(b1, e));
            assert(cmp_blocks(e, b1) != Ordering::Equal);
            assert(cmp_blocks(b1, e) != Ordering::Equal);
            lemma_strip_head(b);
            assert(strip_tail_sep(b).len() >= 1);
        }
    } else {
        assert(cmp_blocks(e, b) != Ordering::Equal);
        assert(cmp_blocks(b, e) != Ordering::Equal);
        lemma_strip_head(b);
        assert(strip_tail_sep(b).len() >= 1);
    }
}

/// The central equivalence: two block sequences compare `Equal` exactly when
/// they agree after dropping a trailing separator.
proof fn lemma_cmp_equal_iff_strip(a: Seq<Block>, b: Seq<Block>)
    requires
        no_adjacent_seps(a),
        no_adjacent_seps(b),
    ensures
        (cmp_blocks(a, b) == Ordering::Equal) <==> (strip_tail_sep(a) == strip_tail_sep(b)),
    decreases a.len() + b.len(),
{
    let sa = strip_tail_sep(a);
    let sb = strip_tail_sep(b);
    if a.len() == 0 && b.len() == 0 {
        assert(sa =~= sb);
    } else if a.len() == 0 {
        lemma_one_sided(b);
        assert(sa =~= Seq::<Block>::empty());
    } else if b.len() == 0 {
        lemma_one_sided(a);
        assert(sb =~= Seq::<Block>::empty());
    } else {
        lemma_no_adjacent_drop_first(a);
        lemma_no_adjacent_drop_first(b);
        let a1 = a.drop_first();
        let b1 = b.drop_first();
        match (a[0], b[0]) {
            (Block::Separator(x), Block::Separator(y)) => {
                if a.len() == 1 && b.len() == 1 {
                    assert(sa =~= Seq::<Block>::empty());
                    assert(sb =~= Seq::<Block>::empty());
                } else if x == y {
                    lemma_cmp_equal_iff_strip(a1, b1);
                    if a.len() == 1 {
                        // the tails decide: a1 is empty while b1 keeps a
                        // non-separator block, so neither side agrees
                        assert(b1[0] == b[1]);
                        lemma_strip_head(b1);
                        assert(strip_tail_sep(a1) =~= Seq::<Block>::empty());
                        assert(sa =~= Seq::<Block>::empty());
                        lemma_strip_head(b);
                    } else if b.len() == 1 {
                        assert(a1[0] == a[1]);
                        lemma_strip_head(a1);
                        assert(strip_tail_sep(b1) =~= Seq::<Block>::empty());
                        assert(sb =~= Seq::<Block>::empty());
                        lemma_strip_head(a);
                    } else {
                        lemma_cons_strip_iff(a, b);
                    }
                } else {
                    if a.len() == 1 {
                        lemma_strip_head(b);
                        assert(sa =~= Seq::<Block>::empty());
                    } else if b.len() == 1 {
                        lemma_strip_head(a);
                        assert(sb =~= Seq::<Block>::empty());
                    } else {
                        lemma_strip_head(a);
                        lemma_strip_head(b);
                        assert(sa[0] != sb[0]);
                    }
                }
            },
            (Block::Separator(x), _) => {
                lemma_strip_head(b);
                if a.len() == 1 {
                    assert(sa =~= Seq::<Block>::empty());
                } else {
                    lemma_strip_head(a);
                    assert(sa[0] != sb[0]);
                }
            },
            (_, Block::Separator(y)) => {
                lemma_strip_head(a);
                if b.len() == 1 {
                    assert(sb =~= Seq::<Block>::empty());
                } else {
                    lemma_strip_head(b);
                    assert(sa[0] != sb[0]);
                }
            },
            (Block::Numeric(x), Block::Numeric(y)) => {
                lemma_num_eq_iff(x, y);
                lemma_strip_head(a);
                lemma_strip_head(b);
                if num_cmp(x, y) == Ordering::Equal {
                    lemma_cmp_equal_iff_strip(a1, b1);
                    lemma_cons_strip_iff(a, b);
                } else {
                    assert(sa[0] != sb[0]);
                }
            },
            (Block::Numeric(_), Block::Alpha(_)) => {
                lemma_strip_head(a);
                lemma_strip_head(b);
                assert(sa[0] != sb[0]);
            },
            (Block::Alpha(_), Block::Numeric(_)) => {
                lemma_strip_head(a);
                lemma_strip_head(b);
                assert(sa[0] != sb[0]);
            },
            (Block::Alpha(x), Block::Alpha(y)) => {
                lemma_lex_eq_iff(x, y);
                lemma_strip_head(a);
                lemma_strip_head(b);
                if lex_cmp(x, y) == Ordering::Equal {
                    lemma_cmp_equal_iff_strip(a1, b1);
                    lemma_cons_strip_iff(a, b);
                } else {
                    assert(sa[0] != sb[0]);
                }
            },
        }
    }
}

/// Law: two version sections compare `Equal` exactly when their canonical
/// block sequences agree.
pub proof fn lemma_version_cmp_equal_iff_canon(x: Seq<u8>, y: Seq<u8>)
    ensures
        (spec_version_cmp(x, y) == Ordering::Equal) <==> (canon(x) == canon(y)),
{
    lemma_blocks_alternate(x);
    lemma_blocks_alternate(y);
    lemma_cmp_equal_iff_strip(blocks(x), blocks(y));
}

/// The opposite ordering.
pub open spec fn ord_flip(o: Ordering) -> Ordering {
    match o {
        Ordering::Less => Ordering::Greater,
        Ordering::Equal => Ordering::Equal,
        Ordering::Greater => Ordering::Less,
    }
}

/// Swapping the sides of a lexicographic comparison flips it.
proof fn lemma_lex_flip(a: Seq<u8>, b: Seq<u8>)
    ensures
        lex_cmp(b, a) == ord_flip(lex_cmp(a, b)),
    decreases a.len() + b.len(),
{
    if a.len() > 0 && b.len() > 0 && a[0] == b[0] {
        lemma_lex_flip(a.drop_first(), b.drop_first());
    }
}

/// Lexicographic comparison is transitive in its strict case.
proof fn lemma_lex_trans(a: Seq<u8>, b: Seq<u8>, c: Seq<u8>)
    requires
        lex_cmp(a, b) == Ordering::Less,
        lex_cmp(b, c) == Ordering::Less,
    ensures
        lex_cmp(a, c) == Ordering::Less,
    decreases a.len() + b.len() + c.len(),
{
    if a.len() > 0 && b.len() > 0 && c.len() > 0 && a[0] == b[0] && b[0] == c[0] {
        lemma_lex_trans(a.drop_first(), b.drop_first(), c.drop_first());
    }
}

/// Swapping the sides of a numeric comparison flips it.
proof fn lemma_num_flip(a: Seq<u8>, b: Seq<u8>)
    ensures
        num_cmp(b, a) == ord_flip(num_cmp(a, b)),
{
    lemma_lex_flip(a, b);
}

/// Numeric comparison is transitive in its strict case.
proof fn lemma_num_trans(a: Seq<u8>, b: Seq<u8>, c: Seq<u8>)
    requires
        num_cmp(a, b) == Ordering::Less,
        num_cmp(b, c) == Ordering::Less,
    ensures
        num_cmp(a, c) == Ordering::Less,
{
    if a.len() == b.len() && b.len() == c.len() {
        lemma_lex_trans(a, b, c);
    }
}

/// Swapping the sides of a block comparison flips it.
proof fn lemma_cmp_blocks_flip(a: Seq<Block>, b: Seq<Block>)
    ensures
        cmp_blocks(b, a) == ord_flip(cmp_blocks(a, b)),
    decreases a.len() + b.len(),
{
    if a.len() == 0 && b.len() == 0 {
    } else if a.len() == 0 {
        match b[0] {
            Block::Separator(_) => {
                lemma_cmp_blocks_flip(a, b.drop_first());
            },
            _ => {},
        }
    } else if b.len() == 0 {
        match a[0] {
            Block::Separator(_) => {
                lemma_cmp_blocks_flip(a.drop_first(), b);
            },
            _ => {},
        }
    } else {
        match (a[0], b[0]) {
            (Block::Separator(x), Block::Separator(y)) => {
                if !(a.len() == 1 && b.len() == 1) && x == y {
                    lemma_cmp_blocks_flip(a.drop_first(), b.drop_first());
                }
            },
            (Block::Numeric(x), Block::Numeric(y)) => {
                lemma_num_flip(x, y);
                if num_cmp(x, y) == Ordering::Equal {
                    lemma_cmp_blocks_flip(a.drop_first(), b.drop_first());
                }
            },
            (Block::Alpha(x), Block::Alpha(y)) => {
                lemma_lex_flip(x, y);
                if lex_cmp(x, y) == Ordering::Equal {
                    lemma_cmp_blocks_flip(a.drop_first(), b.drop_first());
                }
            },
            _ => {},
        }
    }
}

/// Every separator block is followed by a numeric block; in particular no
/// block sequence shaped like this ends in a separator.  Comparison is a
/// genuine strict order on such sequences; in general it is not (a lone
/// trailing separator compares equal to any other, and a bare name after
/// a separator outranks the end of the shorter side).
pub open spec fn sep_ok_blocks(bs: Seq<Block>) -> bool {
    forall|i: int|
        0 <= i < bs.len() && (#[trigger] bs[i]) is Separator ==> i + 1 < bs.len() && bs[i + 1]
            is Numeric
}

/// The shape passes to the tail.
proof fn lemma_sep_ok_drop_first(bs: Seq<Block>)
    requires
        bs.len() >= 1,
        sep_ok_blocks(bs),
    ensures
        sep_ok_blocks(bs.drop_first()),
{
    let d = bs.drop_first();
    assert forall|i: int|
        0 <= i < d.len() && (#[trigger] d[i]) is Separator implies i + 1 < d.len() && d[i + 1]
        is Numeric by {
        assert(d[i] == bs[i + 1]);
        assert(bs[i + 2] == d[i + 1]);
    }
}

/// The rank of a sequence's head in the comparison: an alphabetic run is
/// oldest, then the end of the sequence, then a numeric run, then a
/// separator run.
pub open spec fn head_rank(x: Seq<Block>) -> int {
    if x.len() == 0 {
        1
    } else {
        match x[0] {
            Block::Alpha(_) => 0,
            Block::Numeric(_) => 2,
            Block::Separator(_) => 3,
        }
    }
}

/// On well-shaped sequences the comparison first compares head ranks.
proof fn lemma_cmp_head(a: Seq<Block>, b: Seq<Block>)
    requires
        sep_ok_blocks(a),
        sep_ok_blocks(b),
    ensures
        head_rank(a) < head_rank(b) ==> cmp_blocks(a, b) == Ordering::Less,
        head_rank(a) > head_rank(b) ==> cmp_blocks(a, b) == Ordering::Greater,
{
    if a.len() == 0 && b.len() == 0 {
    } else if a.len() == 0 {
        match b[0] {
            Block::Separator(_) => {
                // the separator is skipped and a numeric run follows
                assert(b.len() >= 2 && b[1] is Numeric);
                assert(b.drop_first()[0] == b[1]);
                assert(cmp_blocks(a, b) == cmp_blocks(a, b.drop_first()));
            },
            _ => {},
        }
    } else if b.len() == 0 {
        match a[0] {
            Block::Separator(_) => {
                assert(a.len() >= 2 && a[1] is Numeric);
                assert(a.drop_first()[0] == a[1]);
                assert(cmp_blocks(a, b) == cmp_blocks(a.drop_first(), b));
            },
            _ => {},
        }
    } else {
        match (a[0], b[0]) {
            (Block::Separator(_), Block::Separator(_)) => {
                assert(a.len() >= 2);
            },
            _ => {},
        }
    }
}

/// On well-shaped sequences the comparison is transitive in its strict
/// case.
proof fn lemma_cmp_blocks_trans(a: Seq<Block>, b: Seq<Block>, c: Seq<Block>)
    requires
        sep_ok_blocks(a),
        sep_ok_blocks(b),
        sep_ok_blocks(c),
        cmp_blocks(a, b) == Ordering::Less,
        cmp_blocks(b, c) == Ordering::Less,
    ensures
        cmp_blocks(a, c) == Ordering::Less,
    decreases a.len() + b.len() + c.len(),
{
    lemma_cmp_head(a, b);
    lemma_cmp_head(b, c);
    lemma_cmp_head(a, c);
    let ra = head_rank(a);
    let rb = head_rank(b);
    let rc = head_rank(c);
    // a strictly smaller rank decides on its own
    if ra < rb && rb <= rc {
    } else if ra <= rb && rb < rc {
        if ra == rb && rb < rc {
            assert(ra < rc);
        }
    } else {
        // Less was decided inside equal ranks on both hops
        assert(ra == rb && rb == rc);
        assert(a.len() > 0 || b.len() > 0 || c.len() > 0);
        if a.len() == 0 {
            // rank 1 on all three: both hops compare two ended sequences
            assert(b.len() == 0);
            assert(cmp_blocks(a, b) == Ordering::Equal);
        } else {
            match (a[0], b[0], c[0]) {
                (Block::Alpha(x), Block::Alpha(y), Block::Alpha(z)) => {
                    lemma_lex_eq_iff(x, y);
                    lemma_lex_eq_iff(y, z);
                    lemma_lex_eq_iff(x, z);
                    if lex_cmp(x, y) == Ordering::Less && lex_cmp(y, z) == Ordering::Less {
                        lemma_lex_trans(x, y, z);
                    } else if lex_cmp(x, y) == Ordering::Less {
                        assert(y == z);
                    } else {
                        assert(x == y);
                        if lex_cmp(y, z) == Ordering::Equal {
                            assert(y == z);
                            lemma_sep_ok_drop_first(a);
                            lemma_sep_ok_drop_first(b);
                            lemma_sep_ok_drop_first(c);
                            lemma_cmp_blocks_trans(
                                a.drop_first(),
                                b.drop_first(),
                                c.drop_first(),
                            );
                        }
                    }
                },
                (Block::Numeric(x), Block::Numeric(y), Block::Numeric(z)) => {
                    lemma_num_eq_iff(x, y);
                    lemma_num_eq_iff(y, z);
                    lemma_num_eq_iff(x, z);
                    if num_cmp(x, y) == Ordering::Less && num_cmp(y, z) == Ordering::Less {
                        lemma_num_trans(x, y, z);
                    } else if num_cmp(x, y) == Ordering::Less {
                        assert(y == z);
                    } else {
                        assert(x == y);
                        if num_cmp(y, z) == Ordering::Equal {
                            assert(y == z);
                            lemma_sep_ok_drop_first(a);
                            lemma_sep_ok_drop_first(b);
                            lemma_sep_ok_drop_first(c);
                            lemma_cmp_blocks_trans(
                                a.drop_first(),
                                b.drop_first(),
                                c.drop_first(),
                            );
                        }
                    }
                },
                (Block::Separator(x), Block::Separator(y), Block::Separator(z)) => {
                    assert(a.len() >= 2 && b.len() >= 2 && c.len() >= 2);
                    if x == y && y == z {
                        lemma_sep_ok_drop_first(a);
                        lemma_sep_ok_drop_first(b);
                        lemma_sep_ok_drop_first(c);
                        lemma_cmp_blocks_trans(a.drop_first(), b.drop_first(), c.drop_first());
                    }
                },
                _ => {
                    assert(false);
                },
            }
        }
    }
}

/// On well-shaped sequences the comparison answers `Equal` exactly on
/// equal sequences.
proof fn lemma_cmp_blocks_eq_iff(a: Seq<Block>, b: Seq<Block>)
    requires
        sep_ok_blocks(a),
        sep_ok_blocks(b),
    ensures
        (cmp_blocks(a, b) == Ordering::Equal) <==> (a == b),
{
    assert(no_adjacent_seps(a));
    assert(no_adjacent_seps(b));
    lemma_cmp_equal_iff_strip(a, b);
    if a.len() > 0 && a.last() is Separator {
        assert(a[a.len() - 1] is Separator);
        assert(false);
    }
    if b.len() > 0 && b.last() is Separator {
        assert(b[b.len() - 1] is Separator);
        assert(false);
    }
    assert(strip_tail_sep(a) == a);
    assert(strip_tail_sep(b) == b);
}

/// A version section whose separator runs each give way to a digit and
/// which does not end in one.
pub open spec fn bytes_sep_ok(s: Seq<u8>) -> bool {
    &&& (s.len() > 0 ==> class_of(s[s.len() - 1]) != CharClass::Separator)
    &&& (forall|i: int|
        0 <= i < s.len() - 1 && class_of(#[trigger] s[i]) == CharClass::Separator && class_of(
            s[i + 1],
        ) != CharClass::Separator ==> class_of(s[i + 1]) == CharClass::Numeric)
}

/// A section shaped as `bytes_sep_ok` asks cuts into well-shaped blocks.
#[verifier::rlimit(100)]
#[verifier::spinoff_prover]
proof fn lemma_bytes_sep_ok_blocks(s: Seq<u8>)
    requires
        bytes_sep_ok(s),
    ensures
        sep_ok_blocks(blocks(s)),
    decreases s.len(),
{
    if s.len() > 0 {
        let c = class_of(s[0]);
        let n = run_len(s, c) as int;
        lemma_run_len(s, c);
        let rest = s.subrange(n, s.len() as int);
        assert(bytes_sep_ok(rest)) by {
            if rest.len() > 0 {
                assert(rest[rest.len() - 1] == s[s.len() - 1]);
            }
            assert forall|i: int|
                0 <= i < rest.len() - 1 && class_of(#[trigger] rest[i]) == CharClass::Separator
                    && class_of(rest[i + 1]) != CharClass::Separator implies class_of(rest[i + 1])
                == CharClass::Numeric by {
                assert(rest[i] == s[n + i]);
                assert(rest[i + 1] == s[n + i + 1]);
            }
        }
        lemma_bytes_sep_ok_blocks(rest);
        let head = match c {
            CharClass::Numeric => Block::Numeric(strip_zeros(s.subrange(0, n))),
            CharClass::Alpha => Block::Alpha(s.subrange(0, n)),
            CharClass::Separator => Block::Separator(n as nat),
        };
        assert(blocks(s) =~= seq![head] + blocks(rest));
        let bs = blocks(s);
        assert forall|i: int|
            0 <= i < bs.len() && (#[trigger] bs[i]) is Separator implies i + 1 < bs.len() && bs[i
            + 1] is Numeric by {
            if i == 0 {
                assert(c == CharClass::Separator);
                // the run cannot reach the end of the section
                assert(n < s.len()) by {
                    if n == s.len() {
                        assert(class_of(s[s.len() - 1]) == c);
                    }
                }
                assert(rest.len() > 0);
                assert(class_of(rest[0]) != c);
                assert(rest[0] == s[n]);
                assert(class_of(s[n - 1]) == CharClass::Separator);
                assert(class_of(s[n]) == CharClass::Numeric);
                lemma_blocks_first_class(rest);
                assert(bs[1] == blocks(rest)[0]);
            } else {
                assert(bs[i] == blocks(rest)[i - 1]);
                assert(bs[i + 1 - 1] == blocks(rest)[i - 1]);
                if i + 1 < bs.len() {
                    assert(bs[i + 1] == blocks(rest)[i]);
                }
                assert(i - 1 + 1 < blocks(rest).len());
            }
        }
    }
}

/// A version whose three sections are each well shaped; the comparator
/// orders such versions transitively.
pub open spec fn view_tame(v: VersionView) -> bool {
    &&& bytes_sep_ok(v.epoch)
    &&& bytes_sep_ok(v.version)
    &&& (v.release is Some ==> bytes_sep_ok(v.release->0))
}

/// Swapping the sides of the version comparison flips it.
pub proof fn lemma_spec_cmp_flip(a: VersionView, b: VersionView)
    ensures
        spec_cmp(b, a) == ord_flip(spec_cmp(a, b)),
{
    lemma_cmp_blocks_flip(blocks(a.epoch), blocks(b.epoch));
    lemma_cmp_blocks_flip(blocks(a.version), blocks(b.version));
    if a.release is Some && b.release is Some {
        lemma_cmp_blocks_flip(blocks(a.release->0), blocks(b.release->0));
    }
}

/// On tame versions that agree on having a release, the comparison is
/// transitive in its strict case.
#[verifier::rlimit(100)]
#[verifier::spinoff_prover]
pub proof fn lemma_spec_cmp_trans(a: VersionView, b: VersionView, c: VersionView)
    requires
        view_tame(a),
        view_tame(b),
        view_tame(c),
        (a.release is Some) == (b.release is Some),
        (b.release is Some) == (c.release is Some),
        spec_cmp(a, b) == Ordering::Less,
        spec_cmp(b, c) == Ordering::Less,
    ensures
        spec_cmp(a, c) == Ordering::Less,
{
    lemma_bytes_sep_ok_blocks(a.epoch);
    lemma_bytes_sep_ok_blocks(b.epoch);
    lemma_bytes_sep_ok_blocks(c.epoch);
    lemma_bytes_sep_ok_blocks(a.version);
    lemma_bytes_sep_ok_blocks(b.version);
    lemma_bytes_sep_ok_blocks(c.version);
    lemma_cmp_blocks_eq_iff(blocks(a.epoch), blocks(b.epoch));
    lemma_cmp_blocks_eq_iff(blocks(b.epoch), blocks(c.epoch));
    lemma_cmp_blocks_eq_iff(blocks(a.epoch), blocks(c.epoch));
    lemma_cmp_blocks_eq_iff(blocks(a.version), blocks(b.version));
    lemma_cmp_blocks_eq_iff(blocks(b.version), blocks(c.version));
    lemma_cmp_blocks_eq_iff(blocks(a.version), blocks(c.version));
    if spec_version_cmp(a.epoch, b.epoch) == Ordering::Less && spec_version_cmp(b.epoch, c.epoch)
        == Ordering::Less {
        lemma_cmp_blocks_trans(blocks(a.epoch), blocks(b.epoch), blocks(c.epoch));
    } else if spec_version_cmp(a.epoch, b.epoch) == Ordering::Less || spec_version_cmp(
        b.epoch,
        c.epoch,
    ) == Ordering::Less {
        // one hop was decided on the epoch, the other left it equal
    } else {
        // epochs all compare equal: the blocks agree
        assert(blocks(a.epoch) == blocks(b.epoch));
        assert(blocks(b.epoch) == blocks(c.epoch));
        if spec_version_cmp(a.version, b.version) == Ordering::Less && spec_version_cmp(
            b.version,
            c.version,
        ) == Ordering::Less {
            lemma_cmp_blocks_trans(blocks(a.version), blocks(b.version), blocks(c.version));
        } else if spec_version_cmp(a.version, b.version) == Ordering::Less || spec_version_cmp(
            b.version,
            c.version,
        ) == Ordering::Less {
        } else {
            assert(blocks(a.version) == blocks(b.version));
            assert(blocks(b.version) == blocks(c.version));
            assert(a.release is Some && b.release is Some && c.release is Some);
            let x = a.release->0;
            let y = b.release->0;
            let z = c.release->0;
            lemma_bytes_sep_ok_blocks(x);
            lemma_bytes_sep_ok_blocks(y);
            lemma_bytes_sep_ok_blocks(z);
            lemma_cmp_blocks_trans(blocks(x), blocks(y), blocks(z));
        }
    }
}

/// A challenger that beats the running best also beats everything the
/// best had already beaten, when the versions involved are tame and agree
/// on having a release.
#[verifier::rlimit(100)]
#[verifier::spinoff_prover]
pub proof fn lemma_beats_all(vj: VersionView, vb: VersionView, vk: VersionView)
    requires
        view_tame(vj),
        view_tame(vb),
        view_tame(vk),
        (vj.release is Some) == (vb.release is Some),
        (vb.release is Some) == (vk.release is Some),
        spec_cmp(vj, vb) != Ordering::Greater,
        spec_cmp(vk, vb) == Ordering::Greater,
    ensures
        spec_cmp(vj, vk) != Ordering::Greater,
{
    lemma_spec_cmp_flip(vk, vb);
    if spec_cmp(vj, vk) == Ordering::Greater {
        lemma_spec_cmp_flip(vj, vk);
        lemma_spec_cmp_trans(vb, vk, vj);
        lemma_spec_cmp_flip(vb, vj);
    }
}

/// A version compares equal to itself.
pub proof fn lemma_spec_cmp_refl(v: VersionView)
    ensures
        spec_cmp(v, v) == Ordering::Equal,
{
    lemma_version_cmp_equal_iff_canon(v.epoch, v.epoch);
    lemma_version_cmp_equal_iff_canon(v.version, v.version);
    if v.release is Some {
        lemma_version_cmp_equal_iff_canon(v.release->0, v.release->0);
    }
}

/// The parsed view of a version text.
#[verifier::opaque]
pub open spec fn spec_version_of(s: Seq<char>) -> VersionView {
    spec_parse(vstd::utf8::encode_utf8(s))
}

/// The comparator's "not newer than" relation on version texts.
pub open spec fn spec_version_le(a: Seq<char>, b: Seq<char>) -> bool {
    spec_cmp(spec_version_of(a), spec_version_of(b)) != Ordering::Greater
}

/// Does the comparator rank version text `a` strictly newer than `b`?
pub fn version_newer(a: &str, b: &str) -> (r: bool)
    ensures
        r == (spec_cmp(spec_version_of(a@), spec_version_of(b@)) == Ordering::Greater),
{
    proof {
        reveal(spec_version_of);
    }
    let va = Version::parse(a);
    let vb = Version::parse(b);
    matches!(va.cmp(&vb), Ordering::Greater)
}

/// Law: versions that compare equal hash equal.
pub proof fn lemma_equal_versions_hash_equal(a: VersionView, b: VersionView)
    requires
        spec_cmp(a, b) == Ordering::Equal,
    ensures
        spec_hash_value(a) == spec_hash_value(b),
{
    lemma_version_cmp_equal_iff_canon(a.epoch, b.epoch);
    lemma_version_cmp_equal_iff_canon(a.version, b.version);
}

} // verus!
