//! The coordinate remap at the heart of the read engine.
//!
//! A data unit holds one 32-bit sample per (baseline, fine channel,
//! polarization, real/imag) coordinate. On disk the samples are either
//! baseline-major or frequency-major, depending on the hardware
//! generation; consumers ask for one of the same two orderings. This
//! module re-orders a raw block element by element. Samples are carried
//! as their raw 32-bit patterns: this layer only moves values.

use vstd::arithmetic::div_mod::lemma_div_pos_is_pos;
use vstd::arithmetic::div_mod::lemma_fundamental_div_mod;
use vstd::arithmetic::div_mod::lemma_fundamental_div_mod_converse;
use vstd::arithmetic::div_mod::lemma_mod_pos_bound;
use vstd::prelude::*;

verus! {

/// Linear offset of the sample at (`major`, `minor`, `pol`, `reim`) in a
/// block whose fastest axes are (polarization, real/imag) nested inside
/// the minor axis, with `minor_count` entries on the minor axis.
pub open spec fn spec_sample_index(
    minor_count: int,
    num_pols: int,
    major: int,
    minor: int,
    pol: int,
    reim: int,
) -> int {
    ((major * minor_count + minor) * num_pols + pol) * 2 + reim
}

/// Where output position `j` of a transposed block reads from: `j` names
/// (x, y, pol, reim) in x-major order over `x_count * y_count` cells, and
/// the source is the same coordinate in y-major order.
pub open spec fn spec_transpose_src(x_count: int, y_count: int, num_pols: int, j: int) -> int {
    spec_sample_index(
        x_count,
        num_pols,
        (j / 2 / num_pols) % y_count,
        j / 2 / num_pols / y_count,
        (j / 2) % num_pols,
        j % 2,
    )
}

/// The output offset of (x, y, pol, reim) is in range, and the transpose
/// reads it from the matching y-major source offset, which is in range
/// too.
pub(crate) proof fn lemma_transpose_index(
    x_count: int,
    y_count: int,
    num_pols: int,
    x: int,
    y: int,
    pol: int,
    reim: int,
)
    requires
        0 <= x < x_count,
        0 <= y < y_count,
        0 <= pol < num_pols,
        0 <= reim < 2,
    ensures
        0 <= x * y_count + y < x_count * y_count,
        0 <= (x * y_count + y) * num_pols + pol < x_count * y_count * num_pols,
        0 <= spec_sample_index(y_count, num_pols, x, y, pol, reim) < x_count * y_count * num_pols
            * 2,
        0 <= y * x_count + x < x_count * y_count,
        0 <= (y * x_count + x) * num_pols + pol < x_count * y_count * num_pols,
        0 <= spec_sample_index(x_count, num_pols, y, x, pol, reim) < x_count * y_count * num_pols
            * 2,
        x_count * y_count <= x_count * y_count * num_pols * 2,
        x_count * y_count * num_pols <= x_count * y_count * num_pols * 2,
        spec_transpose_src(x_count, y_count, num_pols, spec_sample_index(
            y_count,
            num_pols,
            x,
            y,
            pol,
            reim,
        )) == spec_sample_index(x_count, num_pols, y, x, pol, reim),
{
    let cell = x * y_count + y;
    let slot = cell * num_pols + pol;
    let j = slot * 2 + reim;
    assert(0 <= cell < x_count * y_count && 0 <= slot < x_count * y_count * num_pols && 0 <= j
        < x_count * y_count * num_pols * 2 && 0 <= y * x_count + x < x_count * y_count && 0 <= (y
        * x_count + x) * num_pols + pol < x_count * y_count * num_pols && 0 <= ((y * x_count + x)
        * num_pols + pol) * 2 + reim < x_count * y_count * num_pols * 2 && x_count * y_count
        <= x_count * y_count * num_pols * 2 && x_count * y_count * num_pols <= x_count * y_count
        * num_pols * 2) by (nonlinear_arith)
        requires
            0 <= x < x_count,
            0 <= y < y_count,
            0 <= pol < num_pols,
            0 <= reim < 2,
            cell == x * y_count + y,
            slot == cell * num_pols + pol,
            j == slot * 2 + reim,
    ;
    lemma_fundamental_div_mod_converse(j, 2, slot, reim);
    lemma_fundamental_div_mod_converse(slot, num_pols, cell, pol);
    lemma_fundamental_div_mod_converse(cell, y_count, x, y);
}

/// Copy `raw` into `buffer` with its (x, y) cell axes transposed: output
/// position (x, y, pol, reim) in x-major order takes the sample at the
/// same coordinate of the y-major input.
pub fn transpose_into(
    raw: &Vec<u32>,
    x_count: usize,
    y_count: usize,
    num_pols: usize,
    buffer: &mut Vec<u32>,
)
    requires
        num_pols >= 1,
        x_count * y_count * num_pols * 2 <= usize::MAX,
        raw@.len() == x_count * y_count * num_pols * 2,
        old(buffer)@.len() == raw@.len(),
    ensures
        final(buffer)@.len() == old(buffer)@.len(),
        forall|x: int, y: int, pol: int, reim: int|
            0 <= x < x_count && 0 <= y < y_count && 0 <= pol < num_pols && 0 <= reim < 2
                ==> #[trigger] final(buffer)@[spec_sample_index(
                y_count as int,
                num_pols as int,
                x,
                y,
                pol,
                reim,
            )] == raw@[spec_sample_index(x_count as int, num_pols as int, y, x, pol, reim)],
{
    let ghost total = x_count * y_count * num_pols * 2;
    let mut x: usize = 0;
    while x < x_count
        invariant
            0 <= x <= x_count,
            num_pols >= 1,
            total == x_count * y_count * num_pols * 2,
            total <= usize::MAX,
            raw@.len() == total,
            buffer@.len() == total,
            forall|j: int|
                0 <= j < x * y_count * num_pols * 2 ==> #[trigger] buffer@[j] == raw@[
                    spec_transpose_src(x_count as int, y_count as int, num_pols as int, j)],
        decreases x_count - x,
    {
        let mut y: usize = 0;
        while y < y_count
            invariant
                0 <= x < x_count,
                0 <= y <= y_count,
                num_pols >= 1,
                total == x_count * y_count * num_pols * 2,
                total <= usize::MAX,
                raw@.len() == total,
                buffer@.len() == total,
                forall|j: int|
                    0 <= j < (x * y_count + y) * num_pols * 2 ==> #[trigger] buffer@[j] == raw@[
                        spec_transpose_src(x_count as int, y_count as int, num_pols as int, j)],
            decreases y_count - y,
        {
            let mut pol: usize = 0;
            while pol < num_pols
                invariant
                    0 <= x < x_count,
                    0 <= y < y_count,
                    0 <= pol <= num_pols,
                    num_pols >= 1,
                    total == x_count * y_count * num_pols * 2,
                    total <= usize::MAX,
                    raw@.len() == total,
                    buffer@.len() == total,
                    forall|j: int|
                        0 <= j < ((x * y_count + y) * num_pols + pol) * 2 ==> #[trigger] buffer@[j]
                            == raw@[spec_transpose_src(
                            x_count as int,
                            y_count as int,
                            num_pols as int,
                            j,
                        )],
                decreases num_pols - pol,
            {
                proof {
                    lemma_transpose_index(
                        x_count as int,
                        y_count as int,
                        num_pols as int,
                        x as int,
                        y as int,
                        pol as int,
                        0,
                    );
                    lemma_transpose_index(
                        x_count as int,
                        y_count as int,
                        num_pols as int,
                        x as int,
                        y as int,
                        pol as int,
                        1,
                    );
                }
                let dst: usize = ((x * y_count + y) * num_pols + pol) * 2;
                let src: usize = ((y * x_count + x) * num_pols + pol) * 2;
                let v0: u32 = raw[src];
                let v1: u32 = raw[src + 1];
                buffer[dst] = v0;
                buffer[dst + 1] = v1;
                proof {
                    assert(((x * y_count + y) * num_pols + pol) * 2 + 2 == ((x * y_count + y)
                        * num_pols + (pol + 1)) * 2) by (nonlinear_arith);
                }
                pol = pol + 1;
            }
            proof {
                assert(((x * y_count + y) * num_pols + num_pols) * 2 == ((x * y_count + (y + 1))
                    * num_pols) * 2) by (nonlinear_arith);
            }
            y = y + 1;
        }
        proof {
            assert((x * y_count + y_count) * num_pols * 2 == ((x + 1) * y_count) * num_pols
                * 2) by (nonlinear_arith);
        }
        x = x + 1;
    }
    proof {
        assert forall|xx: int, yy: int, pp: int, rr: int|
            0 <= xx < x_count && 0 <= yy < y_count && 0 <= pp < num_pols && 0 <= rr < 2 implies
            #[trigger] buffer@[spec_sample_index(
            y_count as int,
            num_pols as int,
            xx,
            yy,
            pp,
            rr,
        )] == raw@[spec_sample_index(x_count as int, num_pols as int, yy, xx, pp, rr)] by {
            lemma_transpose_index(
                x_count as int,
                y_count as int,
                num_pols as int,
                xx,
                yy,
                pp,
                rr,
            );
        }
    }
}

/// Every offset of a sample block names exactly one coordinate: the
/// decomposition by place value inverts `spec_sample_index`.
pub proof fn lemma_sample_index_surjective(
    major_count: int,
    minor_count: int,
    num_pols: int,
    j: int,
)
    requires
        major_count >= 0,
        minor_count >= 1,
        num_pols >= 1,
        0 <= j < major_count * minor_count * num_pols * 2,
    ensures
        0 <= j / 2 / num_pols / minor_count < major_count,
        0 <= (j / 2 / num_pols) % minor_count < minor_count,
        0 <= (j / 2) % num_pols < num_pols,
        0 <= j % 2 < 2,
        spec_sample_index(
            minor_count,
            num_pols,
            j / 2 / num_pols / minor_count,
            (j / 2 / num_pols) % minor_count,
            (j / 2) % num_pols,
            j % 2,
        ) == j,
{
    lemma_fundamental_div_mod(j, 2);
    lemma_mod_pos_bound(j, 2);
    lemma_div_pos_is_pos(j, 2);
    let q1 = j / 2;
    lemma_fundamental_div_mod(q1, num_pols);
    lemma_mod_pos_bound(q1, num_pols);
    lemma_div_pos_is_pos(q1, num_pols);
    let q2 = q1 / num_pols;
    lemma_fundamental_div_mod(q2, minor_count);
    lemma_mod_pos_bound(q2, minor_count);
    lemma_div_pos_is_pos(q2, minor_count);
    let q3 = q2 / minor_count;
    let mi = q2 % minor_count;
    let pl = q1 % num_pols;
    let rm = j % 2;
    assert(j == ((q3 * minor_count + mi) * num_pols + pl) * 2 + rm) by (nonlinear_arith)
        requires
            j == 2 * q1 + rm,
            q1 == num_pols * q2 + pl,
            q2 == minor_count * q3 + mi,
    ;
    assert(q3 < major_count) by (nonlinear_arith)
        requires
            j == ((q3 * minor_count + mi) * num_pols + pl) * 2 + rm,
            j < major_count * minor_count * num_pols * 2,
            q3 >= 0,
            0 <= mi < minor_count,
            0 <= pl < num_pols,
            0 <= rm < 2,
            minor_count >= 1,
            num_pols >= 1,
    ;
}

/// The decomposition by place value recovers the coordinate that an
/// offset was built from.
pub proof fn lemma_sample_index_inverts(
    minor_count: int,
    num_pols: int,
    major: int,
    minor: int,
    pol: int,
    reim: int,
)
    requires
        minor_count >= 1,
        num_pols >= 1,
        major >= 0,
        0 <= minor < minor_count,
        0 <= pol < num_pols,
        0 <= reim < 2,
    ensures
        ({
            let j = spec_sample_index(minor_count, num_pols, major, minor, pol, reim);
            &&& j % 2 == reim
            &&& (j / 2) % num_pols == pol
            &&& (j / 2 / num_pols) % minor_count == minor
            &&& j / 2 / num_pols / minor_count == major
        }),
{
    let cell = major * minor_count + minor;
    let slot = cell * num_pols + pol;
    let j = slot * 2 + reim;
    assert(cell >= 0 && slot >= 0 && j >= 0) by (nonlinear_arith)
        requires
            major >= 0,
            0 <= minor < minor_count,
            0 <= pol < num_pols,
            0 <= reim < 2,
            cell == major * minor_count + minor,
            slot == cell * num_pols + pol,
            j == slot * 2 + reim,
    ;
    lemma_fundamental_div_mod_converse(j, 2, slot, reim);
    lemma_fundamental_div_mod_converse(slot, num_pols, cell, pol);
    lemma_fundamental_div_mod_converse(cell, minor_count, major, minor);
}

/// A sequence and any re-indexing of it through a bijection hold the
/// same elements with the same multiplicities.
pub proof fn lemma_permutation_multiset<A>(a: Seq<A>, b: Seq<A>, perm: Seq<int>)
    requires
        b.len() == a.len(),
        perm.len() == a.len(),
        forall|i: int| 0 <= i < perm.len() ==> 0 <= #[trigger] perm[i] < a.len(),
        forall|i: int, j: int| 0 <= i < j < perm.len() ==> perm[i] != perm[j],
        forall|i: int| 0 <= i < b.len() ==> #[trigger] b[i] == a[perm[i]],
    ensures
        a.to_multiset() == b.to_multiset(),
    decreases a.len(),
{
    broadcast use vstd::seq_lib::group_to_multiset_ensures;

    if a.len() == 0 {
        assert(a.to_multiset() =~= b.to_multiset()) by {
            assert forall|x: A| a.to_multiset().count(x) == b.to_multiset().count(x) by {
                if a.to_multiset().count(x) > 0 {
                    assert(a.contains(x));
                }
                if b.to_multiset().count(x) > 0 {
                    assert(b.contains(x));
                }
            }
        }
    } else {
        let n = a.len() as int;
        let k = perm[n - 1];
        let a2 = a.remove(k);
        let b2 = b.drop_last();
        let perm2 = Seq::new(
            (n - 1) as nat,
            |i: int|
                if perm[i] < k {
                    perm[i]
                } else {
                    perm[i] - 1
                },
        );
        assert forall|i: int| 0 <= i < perm2.len() implies 0 <= #[trigger] perm2[i] < a2.len() by {
            assert(perm[i] != k);
        }
        assert forall|i: int, j: int| 0 <= i < j < perm2.len() implies perm2[i] != perm2[j] by {
            assert(perm[i] != k && perm[j] != k && perm[i] != perm[j]);
        }
        assert forall|i: int| 0 <= i < b2.len() implies #[trigger] b2[i] == a2[perm2[i]] by {
            assert(perm[i] != k);
            assert(b2[i] == b[i] && b[i] == a[perm[i]]);
            if perm[i] < k {
                assert(a2[perm[i]] == a[perm[i]]);
            } else {
                assert(a2[perm[i] - 1] == a[perm[i]]);
            }
        }
        lemma_permutation_multiset(a2, b2, perm2);
        assert(a2.to_multiset() =~= a.to_multiset().remove(a[k]));
        assert(a.to_multiset().count(a[k]) > 0) by {
            assert(a.contains(a[k]));
        }
        assert(a.to_multiset() =~= a2.to_multiset().insert(a[k]));
        assert(b =~= b2.push(b[n - 1]));
        assert(b.to_multiset() =~= b2.to_multiset().insert(b[n - 1]));
        assert(b[n - 1] == a[k]);
        assert(a.to_multiset() =~= b.to_multiset());
    }
}

/// Copy `raw` into `buffer` unchanged, element by element.
pub fn copy_into(raw: &Vec<u32>, buffer: &mut Vec<u32>)
    requires
        old(buffer)@.len() == raw@.len(),
    ensures
        final(buffer)@.len() == old(buffer)@.len(),
        final(buffer)@ == raw@,
{
    let n: usize = raw.len();
    let mut i: usize = 0;
    while i < n
        invariant
            0 <= i <= n,
            n == raw@.len(),
            buffer@.len() == n,
            forall|j: int| 0 <= j < i ==> #[trigger] buffer@[j] == raw@[j],
        decreases n - i,
    {
        let v: u32 = raw[i];
        buffer[i] = v;
        i = i + 1;
    }
    proof {
        assert(buffer@ =~= raw@);
    }
}

} // verus!
