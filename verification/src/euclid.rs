//! Euclidean rhythm generation: the Bjorklund construction distributes a
//! number of pulses over a number of steps as evenly as possible.

use vstd::prelude::*;

use crate::SeqError;

verus! {

/// Every element of the sequence is 0 or 1.
pub open spec fn is_binary(s: Seq<u8>) -> bool {
    forall|i: int| 0 <= i < s.len() ==> s[i] == 0 || s[i] == 1
}

/// Number of elements equal to 1.
pub open spec fn count_ones(s: Seq<u8>) -> int
    decreases s.len(),
{
    if s.len() == 0 {
        0
    } else {
        count_ones(s.drop_last()) + if s.last() == 1 { 1int } else { 0int }
    }
}

/// `n` copies of a pattern, concatenated.
pub open spec fn repeat_pat(p: Seq<u8>, n: nat) -> Seq<u8>
    decreases n,
{
    if n == 0 {
        Seq::empty()
    } else {
        p + repeat_pat(p, (n - 1) as nat)
    }
}

/// The Bjorklund recurrence over runs: the state is `a` copies of the head
/// pattern `pa` followed by `b` copies of the tail pattern `pb` (the groups
/// of one run are always identical). Each round concatenates a head group
/// with a tail group as long as both runs have groups; the leftover run
/// becomes the new tail, and the recurrence stops when it holds at most one
/// group, which is then appended.
pub open spec fn bjork(a: nat, pa: Seq<u8>, b: nat, pb: Seq<u8>) -> Seq<u8>
    decreases a + b,
{
    if a == 0 {
        repeat_pat(pb, b)
    } else if b == 0 {
        repeat_pat(pa, a)
    } else if a > b {
        if a - b <= 1 {
            repeat_pat(pa + pb, b) + repeat_pat(pa, (a - b) as nat)
        } else {
            bjork(b, pa + pb, (a - b) as nat, pa)
        }
    } else if a < b {
        if b - a <= 1 {
            repeat_pat(pa + pb, a) + repeat_pat(pb, (b - a) as nat)
        } else {
            bjork(a, pa + pb, (b - a) as nat, pb)
        }
    } else {
        repeat_pat(pa + pb, a)
    }
}

/// The Euclidean pattern of `pulses` over `steps`: the Bjorklund recurrence
/// started from `pulses` one-groups and `steps - pulses` zero-groups.
pub open spec fn euclid_pattern(pulses: u32, steps: u32) -> Seq<u8>
    recommends
        pulses <= steps,
{
    bjork(pulses as nat, seq![1u8], (steps - pulses) as nat, seq![0u8])
}

proof fn lemma_count_ones_concat(a: Seq<u8>, b: Seq<u8>)
    ensures
        count_ones(a + b) == count_ones(a) + count_ones(b),
    decreases b.len(),
{
    if b.len() == 0 {
        assert(a + b =~= a);
    } else {
        assert((a + b).drop_last() =~= a + b.drop_last());
        lemma_count_ones_concat(a, b.drop_last());
    }
}

proof fn lemma_count_ones_le_len(s: Seq<u8>)
    ensures
        count_ones(s) <= s.len(),
        is_binary(s) ==> count_ones(s) >= 0,
    decreases s.len(),
{
    if s.len() > 0 {
        lemma_count_ones_le_len(s.drop_last());
    }
}

/// A binary sequence without ones is all zeros.
pub proof fn lemma_euclid_all_zeros(s: Seq<u8>)
    requires
        is_binary(s),
        count_ones(s) == 0,
    ensures
        forall|i: int| 0 <= i < s.len() ==> s[i] == 0,
    decreases s.len(),
{
    if s.len() > 0 {
        lemma_count_ones_le_len(s.drop_last());
        assert(s.drop_last().len() == s.len() - 1);
        lemma_euclid_all_zeros(s.drop_last());
        assert(forall|i: int| 0 <= i < s.len() - 1 ==> s[i] == s.drop_last()[i]);
    }
}

/// A binary sequence with as many ones as elements is all ones.
pub proof fn lemma_euclid_all_ones(s: Seq<u8>)
    requires
        is_binary(s),
        count_ones(s) == s.len(),
    ensures
        forall|i: int| 0 <= i < s.len() ==> s[i] == 1,
    decreases s.len(),
{
    if s.len() > 0 {
        lemma_count_ones_le_len(s.drop_last());
        lemma_euclid_all_ones(s.drop_last());
        assert(forall|i: int| 0 <= i < s.len() - 1 ==> s[i] == s.drop_last()[i]);
    }
}

proof fn lemma_binary_concat(x: Seq<u8>, y: Seq<u8>)
    requires
        is_binary(x),
        is_binary(y),
    ensures
        is_binary(x + y),
{
    assert forall|i: int| 0 <= i < (x + y).len() implies (x + y)[i] == 0 || (x + y)[i] == 1 by {
        if i < x.len() {
            assert((x + y)[i] == x[i]);
        } else {
            assert((x + y)[i] == y[i - x.len()]);
        }
    };
}

/// Repeating once more appends one copy at the end.
proof fn lemma_repeat_snoc(p: Seq<u8>, n: nat)
    ensures
        repeat_pat(p, n + 1) == repeat_pat(p, n) + p,
    decreases n,
{
    if n == 0 {
        assert(repeat_pat(p, 1) =~= repeat_pat(p, 0) + p);
    } else {
        lemma_repeat_snoc(p, (n - 1) as nat);
        assert(repeat_pat(p, n + 1) =~= repeat_pat(p, n) + p);
    }
}

/// Length, pulse count and binariness of a repeated pattern.
proof fn lemma_repeat_props(p: Seq<u8>, n: nat)
    ensures
        repeat_pat(p, n).len() == n * p.len(),
        count_ones(repeat_pat(p, n)) == n * count_ones(p),
        is_binary(p) ==> is_binary(repeat_pat(p, n)),
    decreases n,
{
    if n == 0 {
        assert(count_ones(Seq::<u8>::empty()) == 0);
        assert((0 as nat) * p.len() == 0) by (nonlinear_arith);
        assert(0int * count_ones(p) == 0) by (nonlinear_arith);
    } else {
        lemma_repeat_props(p, (n - 1) as nat);
        lemma_count_ones_concat(p, repeat_pat(p, (n - 1) as nat));
        assert(p.len() + ((n - 1) as nat) * p.len() == n * p.len()) by (nonlinear_arith)
            requires
                n >= 1,
        ;
        assert(count_ones(p) + ((n - 1) as nat) * count_ones(p) == n * count_ones(p))
            by (nonlinear_arith)
            requires
                n >= 1,
        ;
        if is_binary(p) {
            lemma_binary_concat(p, repeat_pat(p, (n - 1) as nat));
        }
    }
}

/// Length, pulse count and binariness of the Bjorklund recurrence: the runs'
/// totals are conserved by every round.
proof fn lemma_bjork_props(a: nat, pa: Seq<u8>, b: nat, pb: Seq<u8>)
    requires
        is_binary(pa),
        is_binary(pb),
    ensures
        bjork(a, pa, b, pb).len() == a * pa.len() + b * pb.len(),
        count_ones(bjork(a, pa, b, pb)) == a * count_ones(pa) + b * count_ones(pb),
        is_binary(bjork(a, pa, b, pb)),
    decreases a + b,
{
    lemma_binary_concat(pa, pb);
    if a == 0 {
        lemma_repeat_props(pb, b);
        assert((0 as nat) * pa.len() == 0 && 0int * count_ones(pa) == 0) by (nonlinear_arith);
    } else if b == 0 {
        lemma_repeat_props(pa, a);
        assert((0 as nat) * pb.len() == 0 && 0int * count_ones(pb) == 0) by (nonlinear_arith);
    } else if a > b {
        if a - b <= 1 {
            lemma_repeat_props(pa + pb, b);
            lemma_repeat_props(pa, (a - b) as nat);
            lemma_count_ones_concat(
                repeat_pat(pa + pb, b),
                repeat_pat(pa, (a - b) as nat),
            );
            lemma_count_ones_concat(pa, pb);
            lemma_binary_concat(repeat_pat(pa + pb, b), repeat_pat(pa, (a - b) as nat));
            assert(b * (pa.len() + pb.len()) + ((a - b) as nat) * pa.len() == a * pa.len() + b
                * pb.len()) by (nonlinear_arith)
                requires
                    a > b,
            ;
            assert(b * (count_ones(pa) + count_ones(pb)) + ((a - b) as nat) * count_ones(pa) == a
                * count_ones(pa) + b * count_ones(pb)) by (nonlinear_arith)
                requires
                    a > b,
            ;
        } else {
            lemma_bjork_props(b, pa + pb, (a - b) as nat, pa);
            lemma_count_ones_concat(pa, pb);
            assert(b * (pa.len() + pb.len()) + ((a - b) as nat) * pa.len() == a * pa.len() + b
                * pb.len()) by (nonlinear_arith)
                requires
                    a > b,
            ;
            assert(b * (count_ones(pa) + count_ones(pb)) + ((a - b) as nat) * count_ones(pa) == a
                * count_ones(pa) + b * count_ones(pb)) by (nonlinear_arith)
                requires
                    a > b,
            ;
        }
    } else if a < b {
        if b - a <= 1 {
            lemma_repeat_props(pa + pb, a);
            lemma_repeat_props(pb, (b - a) as nat);
            lemma_count_ones_concat(
                repeat_pat(pa + pb, a),
                repeat_pat(pb, (b - a) as nat),
            );
            lemma_count_ones_concat(pa, pb);
            lemma_binary_concat(repeat_pat(pa + pb, a), repeat_pat(pb, (b - a) as nat));
            assert(a * (pa.len() + pb.len()) + ((b - a) as nat) * pb.len() == a * pa.len() + b
                * pb.len()) by (nonlinear_arith)
                requires
                    a < b,
            ;
            assert(a * (count_ones(pa) + count_ones(pb)) + ((b - a) as nat) * count_ones(pb) == a
                * count_ones(pa) + b * count_ones(pb)) by (nonlinear_arith)
                requires
                    a < b,
            ;
        } else {
            lemma_bjork_props(a, pa + pb, (b - a) as nat, pb);
            lemma_count_ones_concat(pa, pb);
            assert(a * (pa.len() + pb.len()) + ((b - a) as nat) * pb.len() == a * pa.len() + b
                * pb.len()) by (nonlinear_arith)
                requires
                    a < b,
            ;
            assert(a * (count_ones(pa) + count_ones(pb)) + ((b - a) as nat) * count_ones(pb) == a
                * count_ones(pa) + b * count_ones(pb)) by (nonlinear_arith)
                requires
                    a < b,
            ;
        }
    } else {
        lemma_repeat_props(pa + pb, a);
        lemma_count_ones_concat(pa, pb);
        assert(a * (pa.len() + pb.len()) == a * pa.len() + a * pb.len()) by (nonlinear_arith);
        assert(a * (count_ones(pa) + count_ones(pb)) == a * count_ones(pa) + a * count_ones(pb))
            by (nonlinear_arith);
    }
}

/// The `euclid_pattern` of `pulses <= steps` is a binary sequence of length
/// `steps` holding exactly `pulses` ones.
pub proof fn lemma_euclid_pattern_props(pulses: u32, steps: u32)
    requires
        pulses <= steps,
    ensures
        euclid_pattern(pulses, steps).len() == steps,
        count_ones(euclid_pattern(pulses, steps)) == pulses,
        is_binary(euclid_pattern(pulses, steps)),
{
    let one = seq![1u8];
    let zero = seq![0u8];
    assert(one.drop_last() =~= Seq::<u8>::empty());
    assert(zero.drop_last() =~= Seq::<u8>::empty());
    assert(count_ones(Seq::<u8>::empty()) == 0);
    assert(count_ones(one) == 1);
    assert(count_ones(zero) == 0);
    lemma_bjork_props(pulses as nat, one, (steps - pulses) as nat, zero);
    assert((pulses as nat) * 1 == pulses && ((steps - pulses) as nat) * 1 == steps - pulses
        && (pulses as nat) * 1int == pulses && ((steps - pulses) as nat) * 0int == 0)
        by (nonlinear_arith)
        requires
            pulses <= steps,
    ;
}

/// Append the bytes of `b` to `a`.
fn append_bytes(a: &mut Vec<u8>, b: &Vec<u8>)
    ensures
        final(a)@ == old(a)@ + b@,
{
    let mut j: usize = 0;
    while j < b.len()
        invariant
            j <= b@.len(),
            a@ == old(a)@ + b@.take(j as int),
        decreases b@.len() - j,
    {
        a.push(b[j]);
        assert(old(a)@ + b@.take(j + 1) =~= (old(a)@ + b@.take(j as int)).push(b@[j as int]));
        j = j + 1;
    }
    assert(b@.take(b@.len() as int) =~= b@);
}

/// The bytes of `a` followed by the bytes of `b`.
fn cat_bytes(a: &Vec<u8>, b: &Vec<u8>) -> (r: Vec<u8>)
    ensures
        r@ == a@ + b@,
{
    let mut r: Vec<u8> = Vec::new();
    append_bytes(&mut r, a);
    append_bytes(&mut r, b);
    proof {
        assert(r@ =~= a@ + b@);
    }
    r
}

/// `n` copies of the pattern, concatenated.
fn repeat_bytes(p: &Vec<u8>, n: u32) -> (r: Vec<u8>)
    ensures
        r@ == repeat_pat(p@, n as nat),
{
    let mut r: Vec<u8> = Vec::new();
    proof {
        assert(r@ =~= repeat_pat(p@, 0));
    }
    let mut k: u32 = 0;
    while k < n
        invariant
            k <= n,
            r@ == repeat_pat(p@, k as nat),
        decreases n - k,
    {
        proof {
            lemma_repeat_snoc(p@, k as nat);
        }
        append_bytes(&mut r, p);
        k = k + 1;
    }
    r
}

/// A group holding the single step value `b`.
fn one_group(b: u8) -> (r: Vec<u8>)
    ensures
        r@ == seq![b],
{
    let mut g: Vec<u8> = Vec::new();
    g.push(b);
    proof {
        assert(g@ =~= seq![b]);
    }
    g
}

/// The Euclidean (Bjorklund) rhythm: `pulses` ones distributed as evenly as
/// possible over `steps` positions, exactly the sequence `euclid_pattern`
/// lays out. Refused when `pulses > steps`.
pub fn gen_euclid(pulses: u32, steps: u32) -> (r: Result<Vec<u8>, SeqError>)
    ensures
        r is Ok <==> pulses <= steps,
        pulses > steps ==> r == Err::<Vec<u8>, SeqError>(SeqError::GenerationRefused),
        r is Ok ==> r.unwrap()@ == euclid_pattern(pulses, steps),
        r is Ok ==> r.unwrap()@.len() == steps,
        r is Ok ==> count_ones(r.unwrap()@) == pulses,
        r is Ok ==> is_binary(r.unwrap()@),
{
    if steps < pulses {
        return Err(SeqError::GenerationRefused);
    }
    proof {
        lemma_euclid_pattern_props(pulses, steps);
    }
    // The run-length form of the Bjorklund recurrence: `a` identical head
    // groups of pattern `pa`, `b` identical tail groups of pattern `pb`.
    let mut a: u32 = pulses;
    let mut b: u32 = steps - pulses;
    let mut pa = one_group(1);
    let mut pb = one_group(0);
    loop
        invariant
            pulses <= steps,
            euclid_pattern(pulses, steps).len() == steps,
            count_ones(euclid_pattern(pulses, steps)) == pulses,
            is_binary(euclid_pattern(pulses, steps)),
            euclid_pattern(pulses, steps) == bjork(a as nat, pa@, b as nat, pb@),
        decreases a + b,
    {
        if a == 0 {
            return Ok(repeat_bytes(&pb, b));
        }
        if b == 0 {
            return Ok(repeat_bytes(&pa, a));
        }
        if a > b {
            if a - b <= 1 {
                let pab = cat_bytes(&pa, &pb);
                let mut out = repeat_bytes(&pab, b);
                let rest = repeat_bytes(&pa, a - b);
                append_bytes(&mut out, &rest);
                return Ok(out);
            }
            let pab = cat_bytes(&pa, &pb);
            let new_a = b;
            b = a - b;
            a = new_a;
            pb = pa;
            pa = pab;
        } else if a < b {
            if b - a <= 1 {
                let pab = cat_bytes(&pa, &pb);
                let mut out = repeat_bytes(&pab, a);
                let rest = repeat_bytes(&pb, b - a);
                append_bytes(&mut out, &rest);
                return Ok(out);
            }
            let pab = cat_bytes(&pa, &pb);
            b = b - a;
            pa = pab;
        } else {
            let pab = cat_bytes(&pa, &pb);
            return Ok(repeat_bytes(&pab, a));
        }
    }
}

} // verus!
