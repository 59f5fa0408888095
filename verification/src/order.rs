//! Three-way comparison of pre-release identifiers, following semantic
//! versioning precedence: identifiers made only of digits compare
//! numerically and order below every other identifier; the rest compare
//! in byte (ASCII) order.
//!
//! Each comparison returns a negative, zero or positive value; zero is
//! proved to coincide with equality, and the order is proved total and
//! transitive, which the maxima tracked by the analyzer rely on.

use vstd::prelude::*;

verus! {

pub const DIGIT_LO: u8 = 48;

pub const DIGIT_HI: u8 = 57;

/// Lexicographic three-way comparison of byte sequences.
pub open spec fn bytes_cmp(a: Seq<u8>, b: Seq<u8>) -> int
    decreases a.len(),
{
    if a.len() == 0 && b.len() == 0 {
        0
    } else if a.len() == 0 {
        -1
    } else if b.len() == 0 {
        1
    } else if a[0] < b[0] {
        -1
    } else if a[0] > b[0] {
        1
    } else {
        bytes_cmp(a.drop_first(), b.drop_first())
    }
}

/// An identifier is numeric when it is non-empty and all digits.
pub open spec fn seg_numeric(s: Seq<u8>) -> bool {
    s.len() > 0 && forall|i: int| 0 <= i < s.len() ==> DIGIT_LO <= #[trigger] s[i] <= DIGIT_HI
}

/// Numeric identifiers (no leading zeros) compare numerically: first by
/// length, then lexicographically.
pub open spec fn num_cmp(a: Seq<u8>, b: Seq<u8>) -> int {
    if a.len() < b.len() {
        -1
    } else if a.len() > b.len() {
        1
    } else {
        bytes_cmp(a, b)
    }
}

/// Three-way comparison of one pre-release identifier against another.
pub open spec fn seg_cmp(a: Seq<u8>, b: Seq<u8>) -> int {
    if seg_numeric(a) && seg_numeric(b) {
        num_cmp(a, b)
    } else if seg_numeric(a) {
        -1
    } else if seg_numeric(b) {
        1
    } else {
        bytes_cmp(a, b)
    }
}

/// Lexicographic comparison of dot-separated identifier lists; a strict
/// prefix orders below the longer list.
pub open spec fn segs_cmp(a: Seq<Seq<u8>>, b: Seq<Seq<u8>>) -> int
    decreases a.len(),
{
    if a.len() == 0 && b.len() == 0 {
        0
    } else if a.len() == 0 {
        -1
    } else if b.len() == 0 {
        1
    } else if seg_cmp(a[0], b[0]) != 0 {
        seg_cmp(a[0], b[0])
    } else {
        segs_cmp(a.drop_first(), b.drop_first())
    }
}

pub proof fn lemma_bytes_cmp_zero(a: Seq<u8>, b: Seq<u8>)
    requires
        bytes_cmp(a, b) == 0,
    ensures
        a == b,
    decreases a.len(),
{
    if a.len() == 0 && b.len() == 0 {
        assert(a =~= b);
    } else {
        lemma_bytes_cmp_zero(a.drop_first(), b.drop_first());
        assert forall|i: int| 0 <= i < a.len() implies a[i] == b[i] by {
            if i > 0 {
                assert(a[i] == a.drop_first()[i - 1]);
                assert(b[i] == b.drop_first()[i - 1]);
            }
        }
        assert(a =~= b);
    }
}

pub proof fn lemma_bytes_cmp_antisym(a: Seq<u8>, b: Seq<u8>)
    ensures
        bytes_cmp(a, b) == -bytes_cmp(b, a),
    decreases a.len(),
{
    if a.len() > 0 && b.len() > 0 && a[0] == b[0] {
        lemma_bytes_cmp_antisym(a.drop_first(), b.drop_first());
    }
}

pub proof fn lemma_bytes_cmp_trans(a: Seq<u8>, b: Seq<u8>, c: Seq<u8>)
    requires
        bytes_cmp(a, b) < 0,
        bytes_cmp(b, c) < 0,
    ensures
        bytes_cmp(a, c) < 0,
    decreases a.len(),
{
    if a.len() == 0 {
    } else if a.len() > 0 && b.len() > 0 && c.len() > 0 && a[0] == b[0] && b[0] == c[0] {
        lemma_bytes_cmp_trans(a.drop_first(), b.drop_first(), c.drop_first());
    }
}

pub proof fn lemma_seg_cmp_zero(a: Seq<u8>, b: Seq<u8>)
    requires
        seg_cmp(a, b) == 0,
    ensures
        a == b,
{
    lemma_bytes_cmp_zero(a, b);
}

pub proof fn lemma_seg_cmp_antisym(a: Seq<u8>, b: Seq<u8>)
    ensures
        seg_cmp(a, b) == -seg_cmp(b, a),
{
    lemma_bytes_cmp_antisym(a, b);
}

pub proof fn lemma_seg_cmp_trans(a: Seq<u8>, b: Seq<u8>, c: Seq<u8>)
    requires
        seg_cmp(a, b) < 0,
        seg_cmp(b, c) < 0,
    ensures
        seg_cmp(a, c) < 0,
{
    if seg_numeric(a) && seg_numeric(b) && seg_numeric(c) {
        if a.len() == b.len() && b.len() == c.len() {
            lemma_bytes_cmp_trans(a, b, c);
        }
    } else if !seg_numeric(a) && !seg_numeric(b) && !seg_numeric(c) {
        lemma_bytes_cmp_trans(a, b, c);
    }
}

pub proof fn lemma_segs_cmp_zero(a: Seq<Seq<u8>>, b: Seq<Seq<u8>>)
    requires
        segs_cmp(a, b) == 0,
    ensures
        a == b,
    decreases a.len(),
{
    if a.len() == 0 && b.len() == 0 {
        assert(a =~= b);
    } else {
        lemma_seg_cmp_zero(a[0], b[0]);
        lemma_segs_cmp_zero(a.drop_first(), b.drop_first());
        assert forall|i: int| 0 <= i < a.len() implies a[i] == b[i] by {
            if i > 0 {
                assert(a[i] == a.drop_first()[i - 1]);
                assert(b[i] == b.drop_first()[i - 1]);
            }
        }
        assert(a =~= b);
    }
}

pub proof fn lemma_segs_cmp_antisym(a: Seq<Seq<u8>>, b: Seq<Seq<u8>>)
    ensures
        segs_cmp(a, b) == -segs_cmp(b, a),
    decreases a.len(),
{
    if a.len() > 0 && b.len() > 0 {
        lemma_seg_cmp_antisym(a[0], b[0]);
        if seg_cmp(a[0], b[0]) == 0 {
            lemma_segs_cmp_antisym(a.drop_first(), b.drop_first());
        }
    }
}

pub proof fn lemma_segs_cmp_trans(a: Seq<Seq<u8>>, b: Seq<Seq<u8>>, c: Seq<Seq<u8>>)
    requires
        segs_cmp(a, b) < 0,
        segs_cmp(b, c) < 0,
    ensures
        segs_cmp(a, c) < 0,
    decreases a.len(),
{
    if a.len() == 0 {
    } else if a.len() > 0 && b.len() > 0 && c.len() > 0 {
        let ab = seg_cmp(a[0], b[0]);
        let bc = seg_cmp(b[0], c[0]);
        if ab == 0 {
            lemma_seg_cmp_zero(a[0], b[0]);
            if bc == 0 {
                lemma_seg_cmp_zero(b[0], c[0]);
                lemma_segs_cmp_trans(a.drop_first(), b.drop_first(), c.drop_first());
            }
        } else if bc == 0 {
            lemma_seg_cmp_zero(b[0], c[0]);
        } else {
            lemma_seg_cmp_trans(a[0], b[0], c[0]);
        }
    }
}

/// Exec lexicographic comparison of two byte vectors.
pub fn bytes_cmp_exec(a: &Vec<u8>, b: &Vec<u8>) -> (r: i8)
    ensures
        r as int == bytes_cmp(a@, b@),
{
    let mut i: usize = 0;
    proof {
        assert(a@.skip(0) =~= a@);
        assert(b@.skip(0) =~= b@);
    }
    loop
        invariant
            0 <= i <= a.len(),
            i <= b.len(),
            bytes_cmp(a@, b@) == bytes_cmp(a@.skip(i as int), b@.skip(i as int)),
        decreases a.len() - i,
    {
        if i == a.len() && i == b.len() {
            return 0;
        } else if i == a.len() {
            return -1;
        } else if i == b.len() {
            return 1;
        } else if a[i] < b[i] {
            return -1;
        } else if a[i] > b[i] {
            return 1;
        }
        proof {
            assert(a@.skip(i as int).drop_first() =~= a@.skip(i as int + 1));
            assert(b@.skip(i as int).drop_first() =~= b@.skip(i as int + 1));
        }
        i = i + 1;
    }
}

/// Exec check that an identifier is numeric (non-empty, all digits).
pub fn seg_numeric_exec(s: &Vec<u8>) -> (r: bool)
    ensures
        r == seg_numeric(s@),
{
    if s.len() == 0 {
        return false;
    }
    let mut i: usize = 0;
    while i < s.len()
        invariant
            0 <= i <= s.len(),
            forall|j: int| 0 <= j < i ==> DIGIT_LO <= #[trigger] s@[j] <= DIGIT_HI,
        decreases s.len() - i,
    {
        if s[i] < DIGIT_LO || s[i] > DIGIT_HI {
            return false;
        }
        i = i + 1;
    }
    true
}

/// Exec three-way comparison of two identifiers.
pub fn seg_cmp_exec(a: &Vec<u8>, b: &Vec<u8>) -> (r: i8)
    ensures
        r as int == seg_cmp(a@, b@),
{
    let a_num = seg_numeric_exec(a);
    let b_num = seg_numeric_exec(b);
    if a_num && b_num {
        if a.len() < b.len() {
            -1
        } else if a.len() > b.len() {
            1
        } else {
            bytes_cmp_exec(a, b)
        }
    } else if a_num {
        -1
    } else if b_num {
        1
    } else {
        bytes_cmp_exec(a, b)
    }
}

/// Exec comparison of two identifier lists.
pub fn segs_cmp_exec(a: &Vec<Vec<u8>>, b: &Vec<Vec<u8>>) -> (r: i8)
    ensures
        r as int == segs_cmp(a.deep_view(), b.deep_view()),
{
    let mut i: usize = 0;
    proof {
        assert(a.deep_view().skip(0) =~= a.deep_view());
        assert(b.deep_view().skip(0) =~= b.deep_view());
    }
    loop
        invariant
            0 <= i <= a.len(),
            i <= b.len(),
            a.deep_view().len() == a@.len(),
            b.deep_view().len() == b@.len(),
            forall|j: int| 0 <= j < a@.len() ==> a.deep_view()[j] == #[trigger] a@[j]@,
            forall|j: int| 0 <= j < b@.len() ==> b.deep_view()[j] == #[trigger] b@[j]@,
            segs_cmp(a.deep_view(), b.deep_view()) == segs_cmp(
                a.deep_view().skip(i as int),
                b.deep_view().skip(i as int),
            ),
        decreases a.len() - i,
    {
        if i == a.len() && i == b.len() {
            return 0;
        } else if i == a.len() {
            return -1;
        } else if i == b.len() {
            return 1;
        }
        let c = seg_cmp_exec(&a[i], &b[i]);
        if c != 0 {
            return c;
        }
        proof {
            assert(a.deep_view().skip(i as int).drop_first() =~= a.deep_view().skip(i as int + 1));
            assert(b.deep_view().skip(i as int).drop_first() =~= b.deep_view().skip(i as int + 1));
        }
        i = i + 1;
    }
}

} // verus!
