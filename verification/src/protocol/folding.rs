//! How commitments and folding interact: committing to the folded witness is
//! folding the commitments.
use vstd::prelude::*;
use crate::common::algebra::{lemma_seq_laws, sadd, smul};
use crate::common::structured_row::{lemma_consts_wf, lemma_rops_wf, rwf, rzero};
use crate::common::matrix::{vec_view, vec_wf, VerticallyAlignedMatrix};
use crate::common::ring_arithmetic::RingElement;
use crate::protocol::commitment::{commitment_entry, inner_product};
use crate::protocol::crs_standard::CK;
use crate::protocol::fold::folded_entry;

verus! {

/// Every entry of a sequence of ring values is canonical.
pub open spec fn all_rwf(v: Seq<Seq<(int, int)>>) -> bool {
    forall|i: int| 0 <= i < v.len() ==> #[trigger] rwf(v[i])
}

/// Inner products are canonical.
proof fn lemma_inner_product_wf(a: Seq<Seq<(int, int)>>, b: Seq<Seq<(int, int)>>, off: int, n: nat)
    requires
        n <= a.len(),
        0 <= off,
        off + n <= b.len(),
        all_rwf(a),
        all_rwf(b),
    ensures
        rwf(inner_product(a, b, off, n)),
    decreases n,
{
    lemma_consts_wf();
    if n > 0 {
        lemma_inner_product_wf(a, b, off, (n - 1) as nat);
        assert(rwf(a[n - 1]) && rwf(b[off + n - 1]));
        lemma_rops_wf(a[n - 1], b[off + n - 1]);
        lemma_rops_wf(inner_product(a, b, off, (n - 1) as nat), smul(a[n - 1], b[off + n - 1]));
    }
}

/// `(a + b) + (c + d) = (a + c) + (b + d)`.
proof fn lemma_add_interchange(
    a: Seq<(int, int)>,
    b: Seq<(int, int)>,
    c: Seq<(int, int)>,
    d: Seq<(int, int)>,
)
    requires
        rwf(a),
        rwf(b),
        rwf(c),
        rwf(d),
    ensures
        sadd(sadd(a, b), sadd(c, d)) == sadd(sadd(a, c), sadd(b, d)),
{
    lemma_rops_wf(a, b);
    lemma_rops_wf(c, d);
    lemma_rops_wf(a, c);
    lemma_rops_wf(b, c);
    lemma_seq_laws(a, b, sadd(c, d));
    lemma_seq_laws(b, c, d);
    lemma_seq_laws(b, c, d);
    lemma_seq_laws(c, b, d);
    lemma_seq_laws(a, c, sadd(b, d));
    lemma_seq_laws(b, c, c);
}

/// The inner product is additive in its second argument.
proof fn lemma_inner_product_add(
    key: Seq<Seq<(int, int)>>,
    v1: Seq<Seq<(int, int)>>,
    v2: Seq<Seq<(int, int)>>,
    n: nat,
)
    requires
        n <= key.len(),
        n <= v1.len(),
        v1.len() == v2.len(),
        all_rwf(key),
        all_rwf(v1),
        all_rwf(v2),
    ensures
        inner_product(key, Seq::new(v1.len(), |i: int| sadd(v1[i], v2[i])), 0, n) == sadd(
            inner_product(key, v1, 0, n),
            inner_product(key, v2, 0, n),
        ),
    decreases n,
{
    let s = Seq::new(v1.len(), |i: int| sadd(v1[i], v2[i]));
    lemma_consts_wf();
    if n == 0 {
        lemma_seq_laws(rzero(), rzero(), rzero());
    } else {
        lemma_inner_product_add(key, v1, v2, (n - 1) as nat);
        let k = key[n - 1];
        let x = v1[n - 1];
        let y = v2[n - 1];
        assert(rwf(k) && rwf(x) && rwf(y));
        assert(s[n - 1] == sadd(x, y));
        lemma_seq_laws(k, x, y);
        lemma_inner_product_wf(key, v1, 0, (n - 1) as nat);
        lemma_inner_product_wf(key, v2, 0, (n - 1) as nat);
        lemma_rops_wf(k, x);
        lemma_rops_wf(k, y);
        lemma_add_interchange(
            inner_product(key, v1, 0, (n - 1) as nat),
            inner_product(key, v2, 0, (n - 1) as nat),
            smul(k, x),
            smul(k, y),
        );
    }
}

/// Scaling the second argument scales the inner product.
proof fn lemma_inner_product_scale(
    key: Seq<Seq<(int, int)>>,
    c: Seq<(int, int)>,
    v: Seq<Seq<(int, int)>>,
    n: nat,
)
    requires
        n <= key.len(),
        n <= v.len(),
        all_rwf(key),
        all_rwf(v),
        rwf(c),
    ensures
        inner_product(key, Seq::new(v.len(), |i: int| smul(c, v[i])), 0, n) == smul(
            c,
            inner_product(key, v, 0, n),
        ),
    decreases n,
{
    lemma_consts_wf();
    if n == 0 {
        lemma_seq_laws(c, rzero(), rzero());
    } else {
        lemma_inner_product_scale(key, c, v, (n - 1) as nat);
        let k = key[n - 1];
        let x = v[n - 1];
        assert(rwf(k) && rwf(x));
        let prev = inner_product(key, v, 0, (n - 1) as nat);
        lemma_inner_product_wf(key, v, 0, (n - 1) as nat);
        lemma_rops_wf(k, x);
        lemma_seq_laws(c, prev, smul(k, x));
        lemma_seq_laws(k, c, x);
        lemma_seq_laws(c, k, x);
    }
}

/// Reading the second argument from an offset is reading a shifted copy.
proof fn lemma_inner_product_shift(
    key: Seq<Seq<(int, int)>>,
    data: Seq<Seq<(int, int)>>,
    off: int,
    len: nat,
    n: nat,
)
    requires
        n <= len,
        0 <= off,
        off + len <= data.len(),
    ensures
        inner_product(key, data, off, n) == inner_product(
            key,
            Seq::new(len, |r: int| data[off + r]),
            0,
            n,
        ),
    decreases n,
{
    if n > 0 {
        lemma_inner_product_shift(key, data, off, len, (n - 1) as nat);
    }
}

/// `sum_{col < u} <key, column col> * c[col]`: the combination of a row's
/// commitments by the folding challenge.
pub open spec fn folded_commitments(
    key: Seq<Seq<(int, int)>>,
    data: Seq<Seq<(int, int)>>,
    c: Seq<Seq<(int, int)>>,
    height: int,
    n: nat,
    u: nat,
) -> Seq<(int, int)>
    decreases u,
{
    if u == 0 {
        rzero()
    } else {
        sadd(
            folded_commitments(key, data, c, height, n, (u - 1) as nat),
            smul(inner_product(key, data, (u - 1) * height, n), c[u - 1]),
        )
    }
}

/// The folded column, entry by entry.
pub open spec fn folded_column(
    c: Seq<Seq<(int, int)>>,
    data: Seq<Seq<(int, int)>>,
    height: int,
    u: nat,
) -> Seq<Seq<(int, int)>> {
    Seq::new(height as nat, |row: int| folded_entry(c, data, height, row, u))
}

proof fn lemma_folded_entry_wf(
    c: Seq<Seq<(int, int)>>,
    data: Seq<Seq<(int, int)>>,
    height: int,
    row: int,
    u: nat,
)
    requires
        all_rwf(c),
        all_rwf(data),
        u <= c.len(),
        0 <= row < height,
        u * height <= data.len(),
    ensures
        rwf(folded_entry(c, data, height, row, u)),
    decreases u,
{
    lemma_consts_wf();
    if u > 0 {
        assert((u - 1) * height <= u * height) by (nonlinear_arith)
            requires
                u >= 1,
                height > 0,
        ;
        lemma_folded_entry_wf(c, data, height, row, (u - 1) as nat);
        assert((u - 1) * height + row < u * height) by (nonlinear_arith)
            requires
                row < height,
                u >= 1,
        ;
        assert(0 <= (u - 1) * height + row) by (nonlinear_arith)
            requires
                row >= 0,
                u >= 1,
                height > 0,
        ;
        assert(rwf(c[u - 1]) && rwf(data[(u - 1) * height + row]));
        lemma_rops_wf(c[u - 1], data[(u - 1) * height + row]);
        lemma_rops_wf(folded_entry(c, data, height, row, (u - 1) as nat), smul(
            c[u - 1],
            data[(u - 1) * height + row],
        ));
    }
}

/// Committing to the folded witness is folding the commitments: for every key
/// row, `<key, W c> = sum_col <key, W[:, col]> c[col]` (the commitment check
/// `CK . folded_witness = commitment . fold_challenge`).
pub proof fn lemma_commit_fold(
    key: Seq<Seq<(int, int)>>,
    data: Seq<Seq<(int, int)>>,
    c: Seq<Seq<(int, int)>>,
    height: int,
    n: nat,
    u: nat,
)
    requires
        all_rwf(key),
        all_rwf(data),
        all_rwf(c),
        height > 0,
        n <= key.len(),
        n <= height,
        u <= c.len(),
        u * height <= data.len(),
    ensures
        inner_product(key, folded_column(c, data, height, u), 0, n) == folded_commitments(
            key,
            data,
            c,
            height,
            n,
            u,
        ),
    decreases u,
{
    lemma_consts_wf();
    let col = folded_column(c, data, height, u);
    assert forall|row: int| 0 <= row < col.len() implies #[trigger] rwf(col[row]) by {
        lemma_folded_entry_wf(c, data, height, row, u);
    }
    if u == 0 {
        lemma_inner_product_zero(key, col, n);
    } else {
        assert((u - 1) * height <= u * height) by (nonlinear_arith)
            requires
                u >= 1,
                height > 0,
        ;
        lemma_commit_fold(key, data, c, height, n, (u - 1) as nat);
        let prev = folded_column(c, data, height, (u - 1) as nat);
        assert forall|row: int| 0 <= row < prev.len() implies #[trigger] rwf(prev[row]) by {
            lemma_folded_entry_wf(c, data, height, row, (u - 1) as nat);
        }
        let off = (u - 1) * height;
        assert(off + height <= data.len()) by (nonlinear_arith)
            requires
                u * height <= data.len(),
                off == (u - 1) * height,
        ;
        assert(off >= 0) by (nonlinear_arith)
            requires
                u >= 1,
                height > 0,
                off == (u - 1) * height,
        ;
        let shifted = Seq::new(height as nat, |r: int| data[off + r]);
        assert forall|r: int| 0 <= r < shifted.len() implies #[trigger] rwf(shifted[r]) by {
            assert(rwf(data[off + r]));
        }
        let scaled = Seq::new(shifted.len(), |i: int| smul(c[u - 1], shifted[i]));
        assert(rwf(c[u - 1]));
        assert forall|r: int| 0 <= r < scaled.len() implies #[trigger] rwf(scaled[r]) by {
            lemma_rops_wf(c[u - 1], shifted[r]);
        }
        assert(col =~= Seq::new(prev.len(), |i: int| sadd(prev[i], scaled[i])));
        lemma_inner_product_add(key, prev, scaled, n);
        lemma_inner_product_scale(key, c[u - 1], shifted, n);
        lemma_inner_product_shift(key, data, off, height as nat, n);
        lemma_inner_product_wf(key, shifted, 0, n);
        lemma_seq_laws(c[u - 1], inner_product(key, shifted, 0, n), rzero());
    }
}

/// The inner product with an all-zero vector is zero.
proof fn lemma_inner_product_zero(key: Seq<Seq<(int, int)>>, v: Seq<Seq<(int, int)>>, n: nat)
    requires
        n <= key.len(),
        n <= v.len(),
        all_rwf(key),
        forall|i: int| 0 <= i < v.len() ==> #[trigger] v[i] == rzero(),
    ensures
        inner_product(key, v, 0, n) == rzero(),
    decreases n,
{
    lemma_consts_wf();
    if n > 0 {
        lemma_inner_product_zero(key, v, (n - 1) as nat);
        assert(rwf(key[n - 1]));
        lemma_seq_laws(key[n - 1], rzero(), rzero());
        lemma_seq_laws(rzero(), rzero(), rzero());
    }
}


/// The commitment law on matrices: for a witness `W`, its fold `W c` (as
/// `fold` returns it) and any key, the commitment of key row `i` to `W c` is
/// `sum_col commitment(W)[i, col] * c[col]` over the used columns.
pub proof fn lemma_commit_of_fold(
    ck: CK,
    witness: VerticallyAlignedMatrix<RingElement>,
    challenge: Seq<RingElement>,
    folded: VerticallyAlignedMatrix<RingElement>,
    i: int,
)
    requires
        witness.wf(),
        witness.height > 0,
        challenge.len() == witness.width,
        vec_wf(challenge),
        0 <= i < ck@.len(),
        vec_wf(ck@[i].preprocessed_row@),
        folded.height == witness.height,
        folded.data@.len() == witness.height,
        forall|row: int|
            0 <= row < folded.height ==> #[trigger] folded.data@[row]@ == folded_entry(
                vec_view(challenge),
                vec_view(witness.data@),
                witness.height as int,
                row,
                witness.used_cols as nat,
            ),
    ensures
        commitment_entry(ck, folded, i, 0) == folded_commitments(
            vec_view(ck@[i].preprocessed_row@),
            vec_view(witness.data@),
            vec_view(challenge),
            witness.height as int,
            if ck@[i].preprocessed_row@.len() <= witness.height {
                ck@[i].preprocessed_row@.len()
            } else {
                witness.height as nat
            },
            witness.used_cols as nat,
        ),
{
    let key = vec_view(ck@[i].preprocessed_row@);
    let data = vec_view(witness.data@);
    let c = vec_view(challenge);
    let h = witness.height as int;
    let u = witness.used_cols as nat;
    assert forall|k: int| 0 <= k < key.len() implies #[trigger] rwf(key[k]) by {
        assert(ck@[i].preprocessed_row@[k].wf());
    }
    assert forall|k: int| 0 <= k < data.len() implies #[trigger] rwf(data[k]) by {
        assert(witness.data@[k].wf());
    }
    assert forall|k: int| 0 <= k < c.len() implies #[trigger] rwf(c[k]) by {
        assert(challenge[k].wf());
    }
    assert(u * h <= data.len()) by (nonlinear_arith)
        requires
            u <= witness.width,
            data.len() == witness.width * witness.height,
            h == witness.height,
            h > 0,
    ;
    assert(vec_view(folded.data@) =~= folded_column(c, data, h, u));
    lemma_commit_fold(
        key,
        data,
        c,
        h,
        if key.len() <= witness.height {
            key.len()
        } else {
            witness.height as nat
        },
        u,
    );
}

} // verus!
