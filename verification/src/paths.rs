//! Deterministic, collision-free storage paths.
//!
//! A path is a slash-segmented sequence of ASCII bytes. A list lives at
//! `<root>/<list_id>`, an item at `<root>/<list_id>/<item_id>`, where the
//! numeric segments are the decimal digits of the identifiers.

use vstd::prelude::*;

verus! {

/// The byte for `/`, the segment separator.
pub const SLASH: u8 = 47;

/// The byte for the digit `0`.
pub const DIGIT_ZERO: u8 = 48;

/// Decimal digits of `n`, most significant first, as ASCII bytes.
pub open spec fn dec_digits(n: nat) -> Seq<u8>
    decreases n,
{
    if n < 10 {
        seq![(DIGIT_ZERO + n) as u8]
    } else {
        dec_digits(n / 10).push((DIGIT_ZERO + n % 10) as u8)
    }
}

/// The path of the list `list_id` under `root`.
pub open spec fn spec_list_path(root: Seq<u8>, list_id: u64) -> Seq<u8> {
    root + seq![SLASH] + dec_digits(list_id as nat)
}

/// The path of the item `item_id` of the list `list_id` under `root`.
pub open spec fn spec_item_path(root: Seq<u8>, list_id: u64, item_id: u64) -> Seq<u8> {
    spec_list_path(root, list_id) + seq![SLASH] + dec_digits(item_id as nat)
}

/// Every byte of a decimal segment is an ASCII digit.
pub proof fn lemma_dec_digits_are_digits(n: nat)
    ensures
        dec_digits(n).len() >= 1,
        forall|i: int|
            0 <= i < dec_digits(n).len() ==> DIGIT_ZERO <= #[trigger] dec_digits(n)[i]
                <= DIGIT_ZERO + 9,
    decreases n,
{
    if n >= 10 {
        lemma_dec_digits_are_digits(n / 10);
    }
}

/// Distinct numbers have distinct decimal digit sequences.
pub proof fn lemma_dec_digits_injective(a: nat, b: nat)
    requires
        dec_digits(a) == dec_digits(b),
    ensures
        a == b,
    decreases a,
{
    lemma_dec_digits_are_digits(a);
    lemma_dec_digits_are_digits(b);
    if a < 10 && b < 10 {
        assert(dec_digits(a)[0] == dec_digits(b)[0]);
        assert((DIGIT_ZERO + a) as u8 == DIGIT_ZERO + a);
        assert((DIGIT_ZERO + b) as u8 == DIGIT_ZERO + b);
    } else if a < 10 {
        assert(dec_digits(b).len() == dec_digits(b / 10).len() + 1);
        lemma_dec_digits_are_digits(b / 10);
    } else if b < 10 {
        assert(dec_digits(a).len() == dec_digits(a / 10).len() + 1);
        lemma_dec_digits_are_digits(a / 10);
    } else {
        assert(dec_digits(a).last() == dec_digits(b).last());
        assert(dec_digits(a).last() == (DIGIT_ZERO + a % 10) as u8);
        assert(dec_digits(b).last() == (DIGIT_ZERO + b % 10) as u8);
        assert((DIGIT_ZERO + a % 10) as u8 == DIGIT_ZERO + a % 10);
        assert((DIGIT_ZERO + b % 10) as u8 == DIGIT_ZERO + b % 10);
        assert(a % 10 == b % 10);
        assert(dec_digits(a).drop_last() =~= dec_digits(a / 10));
        assert(dec_digits(b).drop_last() =~= dec_digits(b / 10));
        lemma_dec_digits_injective(a / 10, b / 10);
        assert(a == 10 * (a / 10) + a % 10) by (nonlinear_arith);
        assert(b == 10 * (b / 10) + b % 10) by (nonlinear_arith);
    }
}

/// A decimal segment never contains the separator byte.
pub proof fn lemma_dec_digits_no_slash(n: nat)
    ensures
        forall|i: int| 0 <= i < dec_digits(n).len() ==> #[trigger] dec_digits(n)[i] != SLASH,
{
    lemma_dec_digits_are_digits(n);
}

/// Distinct list ids give distinct list paths.
pub proof fn lemma_list_path_injective(root: Seq<u8>, a: u64, b: u64)
    requires
        spec_list_path(root, a) == spec_list_path(root, b),
    ensures
        a == b,
{
    let pa = spec_list_path(root, a);
    let pb = spec_list_path(root, b);
    assert(pa.len() == pb.len());
    assert(dec_digits(a as nat).len() == dec_digits(b as nat).len());
    assert(dec_digits(a as nat) =~= pa.skip(root.len() as int + 1));
    assert(dec_digits(b as nat) =~= pb.skip(root.len() as int + 1));
    lemma_dec_digits_injective(a as nat, b as nat);
}

/// If two sequences, each made of a slash-free part, a slash, and a rest,
/// are equal, then the parts agree pairwise.
proof fn lemma_slash_split_unique(s1: Seq<u8>, s2: Seq<u8>, t1: Seq<u8>, t2: Seq<u8>)
    requires
        s1 + seq![SLASH] + s2 == t1 + seq![SLASH] + t2,
        forall|i: int| 0 <= i < s1.len() ==> #[trigger] s1[i] != SLASH,
        forall|i: int| 0 <= i < t1.len() ==> #[trigger] t1[i] != SLASH,
    ensures
        s1 == t1,
        s2 == t2,
{
    let u = s1 + seq![SLASH] + s2;
    let v = t1 + seq![SLASH] + t2;
    assert(u[s1.len() as int] == SLASH);
    assert(v[t1.len() as int] == SLASH);
    if s1.len() < t1.len() {
        assert(v[s1.len() as int] == t1[s1.len() as int]);
        assert(false);
    }
    if t1.len() < s1.len() {
        assert(u[t1.len() as int] == s1[t1.len() as int]);
        assert(false);
    }
    assert(s1 =~= u.take(s1.len() as int));
    assert(t1 =~= v.take(t1.len() as int));
    assert(s2 =~= u.skip(s1.len() as int + 1));
    assert(t2 =~= v.skip(t1.len() as int + 1));
}

/// Distinct (list id, item id) pairs give distinct item paths.
pub proof fn lemma_item_path_injective(root: Seq<u8>, a: u64, j: u64, b: u64, k: u64)
    requires
        spec_item_path(root, a, j) == spec_item_path(root, b, k),
    ensures
        a == b,
        j == k,
{
    lemma_dec_digits_no_slash(a as nat);
    lemma_dec_digits_no_slash(b as nat);
    assert((root + seq![SLASH] + dec_digits(a as nat)) + seq![SLASH] + dec_digits(j as nat) =~= (
    root + seq![SLASH]) + (dec_digits(a as nat) + seq![SLASH] + dec_digits(j as nat)));
    assert((root + seq![SLASH] + dec_digits(b as nat)) + seq![SLASH] + dec_digits(k as nat) =~= (
    root + seq![SLASH]) + (dec_digits(b as nat) + seq![SLASH] + dec_digits(k as nat)));
    let sa = dec_digits(a as nat) + seq![SLASH] + dec_digits(j as nat);
    let sb = dec_digits(b as nat) + seq![SLASH] + dec_digits(k as nat);
    assert(sa =~= ((root + seq![SLASH]) + sa).skip(root.len() as int + 1));
    assert(sb =~= ((root + seq![SLASH]) + sb).skip(root.len() as int + 1));
    lemma_slash_split_unique(
        dec_digits(a as nat),
        dec_digits(j as nat),
        dec_digits(b as nat),
        dec_digits(k as nat),
    );
    lemma_dec_digits_injective(a as nat, b as nat);
    lemma_dec_digits_injective(j as nat, k as nat);
}

/// A list path is never an item path: the part of an item path after the
/// root holds a separator where a list path holds a digit.
pub proof fn lemma_list_item_paths_distinct(root: Seq<u8>, a: u64, b: u64, k: u64)
    ensures
        spec_list_path(root, a) != spec_item_path(root, b, k),
{
    lemma_dec_digits_are_digits(a as nat);
    lemma_dec_digits_are_digits(b as nat);
    lemma_dec_digits_are_digits(k as nat);
    lemma_dec_digits_no_slash(a as nat);
    let pa = spec_list_path(root, a);
    let pb = spec_item_path(root, b, k);
    if pa == pb {
        assert(pa.len() == root.len() + 1 + dec_digits(a as nat).len());
        assert(pb.len() == root.len() + 1 + dec_digits(b as nat).len() + 1 + dec_digits(
            k as nat,
        ).len());
        let mid = root.len() + 1 + dec_digits(b as nat).len();
        assert(pb[mid as int] == SLASH);
        assert(pa[mid as int] == dec_digits(a as nat)[mid - root.len() - 1]);
        assert(false);
    }
}

/// Appends the decimal digits of `n`, most significant first, to `out`.
pub fn push_decimal(out: &mut Vec<u8>, n: u64)
    ensures
        final(out)@ == old(out)@ + dec_digits(n as nat),
    decreases n,
{
    if n < 10 {
        out.push(DIGIT_ZERO + (n as u8));
        assert(out@ =~= old(out)@ + dec_digits(n as nat));
    } else {
        push_decimal(out, n / 10);
        out.push(DIGIT_ZERO + ((n % 10) as u8));
        assert(out@ =~= old(out)@ + dec_digits(n as nat));
    }
}

} // verus!
