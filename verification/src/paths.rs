//! Byte-string file paths: case folding, case-insensitive lexical order,
//! splitting a path into directory and file name, and extension matching.
//!
//! Paths are plain byte strings (`Vec<u8>`), with `/` as the directory
//! separator. Ordering folds ASCII letters to lower case and then compares
//! byte-wise, which realizes the case-insensitive file-name order of the
//! directory listing.

use vstd::prelude::*;

verus! {

/// Folds one ASCII upper-case letter to lower case; other bytes unchanged.
pub open spec fn fold_byte(b: u8) -> u8 {
    if 65 <= b && b <= 90 {
        (b + 32) as u8
    } else {
        b
    }
}

/// Case-folded view of a byte string.
pub open spec fn fold(s: Seq<u8>) -> Seq<u8> {
    s.map_values(|b: u8| fold_byte(b))
}

/// Lexicographic less-or-equal on the case-folded bytes, starting the
/// comparison at position `i`.
pub open spec fn ci_le_from(a: Seq<u8>, b: Seq<u8>, i: int) -> bool
    decreases a.len() - i,
{
    if i >= a.len() {
        true
    } else if i >= b.len() {
        false
    } else if fold_byte(a[i]) < fold_byte(b[i]) {
        true
    } else if fold_byte(a[i]) > fold_byte(b[i]) {
        false
    } else {
        ci_le_from(a, b, i + 1)
    }
}

/// Case-insensitive lexicographic order on byte strings: a total preorder.
pub open spec fn ci_le(a: Seq<u8>, b: Seq<u8>) -> bool {
    ci_le_from(a, b, 0)
}

/// The order is total: any two byte strings are comparable.
pub proof fn lemma_ci_le_total(a: Seq<u8>, b: Seq<u8>)
    ensures
        ci_le(a, b) || ci_le(b, a),
{
    lemma_ci_le_from_total(a, b, 0);
}

proof fn lemma_ci_le_from_total(a: Seq<u8>, b: Seq<u8>, i: int)
    requires
        0 <= i,
    ensures
        ci_le_from(a, b, i) || ci_le_from(b, a, i),
    decreases a.len() + b.len() - 2 * i,
{
    if i >= a.len() || i >= b.len() {
    } else if fold_byte(a[i]) == fold_byte(b[i]) {
        lemma_ci_le_from_total(a, b, i + 1);
    }
}

/// The order is transitive.
pub proof fn lemma_ci_le_trans(a: Seq<u8>, b: Seq<u8>, c: Seq<u8>)
    requires
        ci_le(a, b),
        ci_le(b, c),
    ensures
        ci_le(a, c),
{
    lemma_ci_le_from_trans(a, b, c, 0);
}

proof fn lemma_ci_le_from_trans(a: Seq<u8>, b: Seq<u8>, c: Seq<u8>, i: int)
    requires
        0 <= i,
        ci_le_from(a, b, i),
        ci_le_from(b, c, i),
    ensures
        ci_le_from(a, c, i),
    decreases a.len() - i,
{
    if i >= a.len() {
    } else if i >= b.len() {
    } else if i >= c.len() {
    } else if fold_byte(a[i]) == fold_byte(b[i]) && fold_byte(b[i]) == fold_byte(c[i]) {
        lemma_ci_le_from_trans(a, b, c, i + 1);
    }
}

/// Decides `ci_le` on two byte strings.
pub fn ci_le_bytes(a: &Vec<u8>, b: &Vec<u8>) -> (r: bool)
    ensures
        r == ci_le(a@, b@),
{
    let mut i: usize = 0;
    loop
        invariant
            0 <= i <= a.len(),
            i <= b.len(),
            ci_le(a@, b@) == ci_le_from(a@, b@, i as int),
        decreases a.len() - i,
    {
        if i >= a.len() {
            return true;
        }
        if i >= b.len() {
            return false;
        }
        let fa = fold_ascii(a[i]);
        let fb = fold_ascii(b[i]);
        if fa < fb {
            return true;
        }
        if fa > fb {
            return false;
        }
        i = i + 1;
    }
}

/// Folds one byte to ASCII lower case.
pub fn fold_ascii(b: u8) -> (r: u8)
    ensures
        r == fold_byte(b),
{
    if 65 <= b && b <= 90 {
        b + 32
    } else {
        b
    }
}

/// Byte-string equality.
pub fn bytes_eq(a: &Vec<u8>, b: &Vec<u8>) -> (r: bool)
    ensures
        r == (a@ == b@),
{
    if a.len() != b.len() {
        assert(a@ != b@) by {
            assert(a@.len() != b@.len());
        }
        return false;
    }
    let mut i: usize = 0;
    while i < a.len()
        invariant
            0 <= i <= a.len(),
            a.len() == b.len(),
            forall|j: int| 0 <= j < i ==> a@[j] == b@[j],
        decreases a.len() - i,
    {
        if a[i] != b[i] {
            return false;
        }
        i = i + 1;
    }
    proof {
        assert(a@ =~= b@);
    }
    true
}

/// Position of the last `/` in `p`, or `-1` when there is none.
pub open spec fn last_sep(p: Seq<u8>) -> int
    decreases p.len(),
{
    if p.len() == 0 {
        -1
    } else if p[p.len() - 1] == 47 {
        p.len() - 1
    } else {
        last_sep(p.drop_last())
    }
}

/// Directory part of a path: everything before the last `/`, empty when the
/// path holds no separator.
pub open spec fn dir_of(p: Seq<u8>) -> Seq<u8> {
    if last_sep(p) < 0 {
        Seq::empty()
    } else {
        p.take(last_sep(p))
    }
}

/// Joins a directory and a file name; an empty directory adds no separator.
pub open spec fn join(d: Seq<u8>, n: Seq<u8>) -> Seq<u8> {
    if d.len() == 0 {
        n
    } else {
        d + seq![47u8] + n
    }
}

proof fn lemma_last_sep_bounds(p: Seq<u8>)
    ensures
        -1 <= last_sep(p) < p.len(),
        last_sep(p) >= 0 ==> p[last_sep(p)] == 47,
        forall|j: int| last_sep(p) < j < p.len() ==> p[j] != 47,
    decreases p.len(),
{
    if p.len() == 0 {
    } else if p[p.len() - 1] == 47 {
    } else {
        lemma_last_sep_bounds(p.drop_last());
        assert forall|j: int| last_sep(p) < j < p.len() implies p[j] != 47 by {
            if j < p.len() - 1 {
                assert(p.drop_last()[j] == p[j]);
            }
        }
    }
}

/// Computes the directory part of a path.
pub fn dir_of_bytes(p: &Vec<u8>) -> (r: Vec<u8>)
    ensures
        r@ == dir_of(p@),
{
    proof {
        lemma_last_sep_bounds(p@);
    }
    let mut i: usize = p.len();
    loop
        invariant
            0 <= i <= p.len(),
            forall|j: int| i <= j < p@.len() ==> p@[j] != 47,
        ensures
            0 <= i <= p.len(),
            forall|j: int| i <= j < p@.len() ==> p@[j] != 47,
            i > 0 ==> p@[i - 1] == 47,
        decreases i,
    {
        if i == 0 {
            break;
        }
        if p[i - 1] == 47 {
            break;
        }
        i = i - 1;
    }
    if i == 0 {
        proof {
            assert(last_sep(p@) < 0) by {
                if last_sep(p@) >= 0 {
                    assert(p@[last_sep(p@)] == 47);
                }
            }
        }
        Vec::new()
    } else {
        proof {
            assert(p@[i - 1] == 47);
            assert(last_sep(p@) == i - 1) by {
                if last_sep(p@) > i - 1 {
                    assert(p@[last_sep(p@)] != 47);
                }
                if last_sep(p@) < i - 1 {
                    assert(p@[i - 1] != 47);
                }
            }
        }
        let mut r: Vec<u8> = Vec::new();
        let mut j: usize = 0;
        while j < i - 1
            invariant
                0 < i <= p.len(),
                0 <= j <= i - 1,
                r@ =~= p@.take(j as int),
            decreases i - j,
        {
            r.push(p[j]);
            j = j + 1;
        }
        proof {
            assert(r@ =~= dir_of(p@));
        }
        r
    }
}

/// Joins a directory and a file name into a path.
pub fn join_bytes(d: &Vec<u8>, n: &Vec<u8>) -> (r: Vec<u8>)
    ensures
        r@ == join(d@, n@),
{
    if d.len() == 0 {
        let mut r: Vec<u8> = Vec::new();
        let mut j: usize = 0;
        while j < n.len()
            invariant
                0 <= j <= n.len(),
                r@ =~= n@.take(j as int),
            decreases n.len() - j,
        {
            r.push(n[j]);
            j = j + 1;
        }
        proof {
            assert(r@ =~= n@);
        }
        r
    } else {
        let mut r: Vec<u8> = Vec::new();
        let mut j: usize = 0;
        while j < d.len()
            invariant
                0 <= j <= d.len(),
                r@ =~= d@.take(j as int),
            decreases d.len() - j,
        {
            r.push(d[j]);
            j = j + 1;
        }
        r.push(47);
        let mut k: usize = 0;
        while k < n.len()
            invariant
                0 <= k <= n.len(),
                r@ =~= d@ + seq![47u8] + n@.take(k as int),
            decreases n.len() - k,
        {
            r.push(n[k]);
            k = k + 1;
        }
        proof {
            assert(r@ =~= join(d@, n@));
        }
        r
    }
}

/// Position of the last `.` in a file name, or `-1` when there is none.
pub open spec fn last_dot(n: Seq<u8>) -> int
    decreases n.len(),
{
    if n.len() == 0 {
        -1
    } else if n[n.len() - 1] == 46 {
        n.len() - 1
    } else {
        last_dot(n.drop_last())
    }
}

/// Extension of a file name: the bytes after the last `.`; empty when the
/// name holds no dot.
pub open spec fn ext_of(n: Seq<u8>) -> Seq<u8> {
    if last_dot(n) < 0 {
        Seq::empty()
    } else {
        n.skip(last_dot(n) + 1)
    }
}

/// Whether a file name carries one of the allowed extensions, compared with
/// ASCII case folded.
pub open spec fn has_allowed_ext(n: Seq<u8>, exts: Seq<Seq<u8>>) -> bool {
    last_dot(n) >= 0 && exists|k: int| 0 <= k < exts.len() && fold(ext_of(n)) == fold(exts[k])
}

proof fn lemma_last_dot_bounds(n: Seq<u8>)
    ensures
        -1 <= last_dot(n) < n.len(),
        last_dot(n) >= 0 ==> n[last_dot(n)] == 46,
        forall|j: int| last_dot(n) < j < n.len() ==> n[j] != 46,
    decreases n.len(),
{
    if n.len() == 0 {
    } else if n[n.len() - 1] == 46 {
    } else {
        lemma_last_dot_bounds(n.drop_last());
        assert forall|j: int| last_dot(n) < j < n.len() implies n[j] != 46 by {
            if j < n.len() - 1 {
                assert(n.drop_last()[j] == n[j]);
            }
        }
    }
}

/// Case-folded equality of two byte strings.
fn fold_eq(a: &Vec<u8>, b: &Vec<u8>) -> (r: bool)
    ensures
        r == (fold(a@) == fold(b@)),
{
    if a.len() != b.len() {
        assert(fold(a@).len() != fold(b@).len());
        return false;
    }
    let mut i: usize = 0;
    while i < a.len()
        invariant
            0 <= i <= a.len(),
            a.len() == b.len(),
            forall|j: int| 0 <= j < i ==> fold_byte(a@[j]) == fold_byte(b@[j]),
        decreases a.len() - i,
    {
        if fold_ascii(a[i]) != fold_ascii(b[i]) {
            assert(fold(a@)[i as int] != fold(b@)[i as int]);
            return false;
        }
        i = i + 1;
    }
    proof {
        assert(fold(a@) =~= fold(b@));
    }
    true
}

/// Decides whether a file name carries one of the allowed extensions.
pub fn name_has_allowed_ext(n: &Vec<u8>, exts: &Vec<Vec<u8>>) -> (r: bool)
    ensures
        r == has_allowed_ext(n@, exts@.map_values(|e: Vec<u8>| e@)),
{
    proof {
        lemma_last_dot_bounds(n@);
    }
    let mut i: usize = n.len();
    loop
        invariant
            0 <= i <= n.len(),
            forall|j: int| i <= j < n@.len() ==> n@[j] != 46,
        ensures
            0 <= i <= n.len(),
            forall|j: int| i <= j < n@.len() ==> n@[j] != 46,
            i > 0 ==> n@[i - 1] == 46,
        decreases i,
    {
        if i == 0 {
            break;
        }
        if n[i - 1] == 46 {
            break;
        }
        i = i - 1;
    }
    if i == 0 {
        proof {
            assert(last_dot(n@) < 0) by {
                if last_dot(n@) >= 0 {
                    assert(n@[last_dot(n@)] == 46);
                }
            }
        }
        return false;
    }
    proof {
        assert(n@[i - 1] == 46);
        assert(last_dot(n@) == i - 1) by {
            if last_dot(n@) > i - 1 {
                assert(n@[last_dot(n@)] != 46);
            }
            if last_dot(n@) < i - 1 {
                assert(n@[i - 1] != 46);
            }
        }
    }
    let mut ext: Vec<u8> = Vec::new();
    let mut j: usize = i;
    while j < n.len()
        invariant
            0 < i <= j <= n.len(),
            ext@ =~= n@.subrange(i as int, j as int),
        decreases n.len() - j,
    {
        ext.push(n[j]);
        j = j + 1;
    }
    proof {
        assert(ext@ =~= ext_of(n@));
    }
    let ghost extsv = exts@.map_values(|e: Vec<u8>| e@);
    let mut k: usize = 0;
    while k < exts.len()
        invariant
            0 <= k <= exts.len(),
            ext@ == ext_of(n@),
            last_dot(n@) >= 0,
            extsv == exts@.map_values(|e: Vec<u8>| e@),
            forall|m: int| 0 <= m < k ==> fold(ext_of(n@)) != fold(extsv[m]),
        decreases exts.len() - k,
    {
        if fold_eq(&ext, &exts[k]) {
            assert(fold(ext_of(n@)) == fold(extsv[k as int]));
            return true;
        }
        k = k + 1;
    }
    false
}

} // verus!
