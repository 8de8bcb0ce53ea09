//! Canonical form of claim expressions: segments are lowered to
//! `selector x witness`, scales are folded into one constant per product, and
//! duplicate selectors within a product collapse (a selector is 0/1 on the
//! cube, so its square is itself and the value is unchanged). Prover and
//! verifier both consume the canonical tree, so theirs match exactly.
use vstd::prelude::*;
use crate::common::algebra::{lemma_reduced_fixed, lemma_seq_laws, pconst, smul};
use crate::common::ring_arithmetic::{Representation, RingElement};
use crate::protocol::commitment::Prefix;
use crate::protocol::snark::lowering::{ClaimExpr, ClaimFactor, PublicFactor, SnarkClaim, Weights};
use crate::protocol::snark::consts_ok;
use crate::protocol::snark::semantics::{
    cube_sum, eval_expr, expr_ok, in_prefix_spec, lemma_consts_wf, lemma_eval_wf, lemma_rops_wf, rone, rwf, rzero,
    witness_ok,
};

verus! {

/// `index` is a point of the cube of `total` variables over a canonical
/// witness `data`.
pub open spec fn point_ok(data: Seq<Seq<(int, int)>>, index: int, total: nat) -> bool {
    witness_ok(data, total) && 0 <= index < data.len()
}

/// The leaf `eq(s.0, .)` over the leading `s.1` variables.
pub open spec fn selector_leaf(s: (usize, usize)) -> ClaimExpr {
    ClaimExpr::Factor(
        ClaimFactor::Public(
            PublicFactor {
                prefix_len: 0,
                suffix_len: 0,
                weights: Weights::Selector { bits: s.0, length: s.1 },
            },
        ),
    )
}

/// The selector leaves of a list of `(bits, length)` pairs.
pub open spec fn selector_leaves(s: Seq<(usize, usize)>) -> Seq<ClaimExpr> {
    Seq::new(s.len(), |i: int| selector_leaf(s[i]))
}

/// The value at `index` of the product of `es`, taken left to right.
pub open spec fn prod_eval(es: Seq<ClaimExpr>, data: Seq<Seq<(int, int)>>, index: int, total: nat) -> Seq<
    (int, int),
>
    decreases es.len(),
{
    if es.len() == 0 {
        rone()
    } else {
        smul(prod_eval(es.drop_last(), data, index, total), eval_expr(es.last(), data, index, total))
    }
}

/// A canonical expression: its leaves are whole-witness, conjugated-witness,
/// public and constant leaves, joined by products, sums and differences.
pub open spec fn is_canonical(e: ClaimExpr) -> bool
    decreases e,
{
    match e {
        ClaimExpr::Factor(ClaimFactor::Witness) => true,
        ClaimExpr::Factor(ClaimFactor::ConjWitness) => true,
        ClaimExpr::Factor(ClaimFactor::Public(_)) => true,
        ClaimExpr::Factor(_) => false,
        ClaimExpr::Constant(_) => true,
        ClaimExpr::Scale(_, _) => false,
        ClaimExpr::Product(a, b) => is_canonical(*a) && is_canonical(*b),
        ClaimExpr::Sum(a, b) => is_canonical(*a) && is_canonical(*b),
        ClaimExpr::Diff(a, b) => is_canonical(*a) && is_canonical(*b),
    }
}

/// No pair occurs twice.
pub open spec fn no_dups(s: Seq<(usize, usize)>) -> bool {
    forall|i: int, j: int| 0 <= i < j < s.len() ==> s[i] != s[j]
}

proof fn lemma_prod_eval_wf(es: Seq<ClaimExpr>, data: Seq<Seq<(int, int)>>, index: int, total: nat)
    requires
        point_ok(data, index, total),
        forall|i: int| 0 <= i < es.len() ==> expr_ok(#[trigger] es[i], total),
    ensures
        rwf(prod_eval(es, data, index, total)),
    decreases es.len(),
{
    lemma_consts_wf();
    if es.len() > 0 {
        lemma_prod_eval_wf(es.drop_last(), data, index, total);
        assert(expr_ok(es[es.len() - 1], total));
        lemma_eval_wf(es.last(), data, index, total);
        crate::protocol::snark::semantics::lemma_rops_wf(
            prod_eval(es.drop_last(), data, index, total),
            eval_expr(es.last(), data, index, total),
        );
    }
}

/// The product over a concatenation is the product of the two products.
proof fn lemma_prod_eval_append(
    a: Seq<ClaimExpr>,
    b: Seq<ClaimExpr>,
    data: Seq<Seq<(int, int)>>,
    index: int,
    total: nat,
)
    requires
        point_ok(data, index, total),
        forall|i: int| 0 <= i < a.len() ==> expr_ok(#[trigger] a[i], total),
        forall|i: int| 0 <= i < b.len() ==> expr_ok(#[trigger] b[i], total),
    ensures
        prod_eval(a + b, data, index, total) == smul(
            prod_eval(a, data, index, total),
            prod_eval(b, data, index, total),
        ),
    decreases b.len(),
{
    lemma_consts_wf();
    lemma_prod_eval_wf(a, data, index, total);
    let pa = prod_eval(a, data, index, total);
    if b.len() == 0 {
        assert(a + b =~= a);
        lemma_seq_laws(pa, rone(), rone());
    } else {
        let bl = b.drop_last();
        assert((a + b).drop_last() =~= a + bl);
        assert((a + b).last() == b.last());
        lemma_prod_eval_append(a, bl, data, index, total);
        lemma_prod_eval_wf(bl, data, index, total);
        assert(expr_ok(b[b.len() - 1], total));
        lemma_eval_wf(b.last(), data, index, total);
        lemma_seq_laws(pa, prod_eval(bl, data, index, total), eval_expr(b.last(), data, index, total));
    }
}

/// The value of a selector leaf is one inside its block and zero outside.
proof fn lemma_selector_val(s: (usize, usize), data: Seq<Seq<(int, int)>>, index: int, total: nat)
    ensures
        eval_expr(selector_leaf(s), data, index, total) == if in_prefix_spec(
            index,
            Prefix { prefix: s.0, length: s.1 },
            total,
        ) {
            rone()
        } else {
            rzero()
        },
        expr_ok(selector_leaf(s), total) <== s.1 <= total,
{
}

/// A selector already among the factors adds nothing: its value is 0 or 1.
proof fn lemma_selector_idempotent(
    sels: Seq<(usize, usize)>,
    s: (usize, usize),
    data: Seq<Seq<(int, int)>>,
    index: int,
    total: nat,
)
    requires
        point_ok(data, index, total),
        sels.contains(s),
    ensures
        smul(
            prod_eval(selector_leaves(sels), data, index, total),
            eval_expr(selector_leaf(s), data, index, total),
        ) == prod_eval(selector_leaves(sels), data, index, total),
    decreases sels.len(),
{
    lemma_consts_wf();
    let v = eval_expr(selector_leaf(s), data, index, total);
    lemma_selector_val(s, data, index, total);
    let init = sels.drop_last();
    let last = sels.last();
    assert(selector_leaves(sels).drop_last() =~= selector_leaves(init));
    assert(selector_leaves(sels).last() == selector_leaf(last));
    let p = prod_eval(selector_leaves(init), data, index, total);
    let lv = eval_expr(selector_leaf(last), data, index, total);
    lemma_selector_val(last, data, index, total);
    lemma_selector_leaves_wf(init, data, index, total);
    // v * v == v
    lemma_seq_laws(v, v, v);
    lemma_seq_laws(rone(), rone(), rone());
    lemma_seq_laws(rzero(), rone(), rone());
    assert(smul(v, v) == v);
    if last == s {
        lemma_seq_laws(p, v, v);
    } else {
        let k = choose|k: int| 0 <= k < sels.len() && sels[k] == s;
        assert(init[k] == s);
        assert(init.contains(s));
        lemma_selector_idempotent(init, s, data, index, total);
        lemma_seq_laws(p, lv, v);
        lemma_seq_laws(p, v, lv);
        lemma_seq_laws(lv, v, p);
    }
}

/// The product of selector leaves is canonical at every point.
proof fn lemma_selector_leaves_wf(
    sels: Seq<(usize, usize)>,
    data: Seq<Seq<(int, int)>>,
    index: int,
    total: nat,
)
    ensures
        rwf(prod_eval(selector_leaves(sels), data, index, total)),
    decreases sels.len(),
{
    lemma_consts_wf();
    if sels.len() > 0 {
        let init = sels.drop_last();
        assert(selector_leaves(sels).drop_last() =~= selector_leaves(init));
        lemma_selector_leaves_wf(init, data, index, total);
        lemma_selector_val(sels.last(), data, index, total);
        crate::protocol::snark::semantics::lemma_rops_wf(
            prod_eval(selector_leaves(init), data, index, total),
            eval_expr(selector_leaf(sels.last()), data, index, total),
        );
    }
}

/// Whether `e` is the unit of the ring.
fn is_unit(e: &RingElement) -> (r: bool)
    requires
        e.wf(),
    ensures
        r == (e@ == rone()),
{
    let one = RingElement::constant(1, Representation::IncompleteNTT);
    proof {
        lemma_reduced_fixed(1);
    }
    assert(pconst(1) == (1int, 0int));
    e.equals(&one)
}

/// Adds the selector `(bits, length)` unless it is already there.
fn push_selector(selectors: &mut Vec<(usize, usize)>, bits: usize, length: usize)
    ensures
        final(selectors)@ == if old(selectors)@.contains((bits, length)) {
            old(selectors)@
        } else {
            old(selectors)@.push((bits, length))
        },
{
    let mut i: usize = 0;
    while i < selectors.len()
        invariant
            i <= selectors@.len(),
            selectors@ == old(selectors)@,
            forall|k: int| 0 <= k < i ==> selectors@[k] != (bits, length),
        decreases selectors@.len() - i,
    {
        if selectors[i].0 == bits && selectors[i].1 == length {
            assert(selectors@[i as int] == (bits, length));
            return;
        }
        i = i + 1;
    }
    assert(!old(selectors)@.contains((bits, length)));
    selectors.push((bits, length));
}

/// Every selector of the list fits a cube of `total` variables.
pub open spec fn sels_fit(s: Seq<(usize, usize)>, total: nat) -> bool {
    forall|i: int| 0 <= i < s.len() ==> (#[trigger] s[i]).1 <= total
}

/// Every member is canonical and has canonical constants.
pub open spec fn mems_ok(es: Seq<ClaimExpr>) -> bool {
    forall|i: int| 0 <= i < es.len() ==> is_canonical(#[trigger] es[i]) && consts_ok(es[i])
}

/// Every member fits a cube of `total` variables.
pub open spec fn mems_fit(es: Seq<ClaimExpr>, total: nat) -> bool {
    forall|i: int| 0 <= i < es.len() ==> expr_ok(#[trigger] es[i], total)
}

/// The value at `index` of a product being gathered: the constant, times the
/// selectors, times the other members.
pub open spec fn gathered(
    c: Seq<(int, int)>,
    sels: Seq<(usize, usize)>,
    mems: Seq<ClaimExpr>,
    data: Seq<Seq<(int, int)>>,
    index: int,
    total: nat,
) -> Seq<(int, int)> {
    smul(
        smul(c, prod_eval(selector_leaves(sels), data, index, total)),
        prod_eval(mems, data, index, total),
    )
}

/// A canonical expression as a mathematical tree: a constant is its value.
pub enum CanonView {
    Witness,
    ConjWitness,
    Public(PublicFactor),
    Constant(Seq<(int, int)>),
    Product(Box<CanonView>, Box<CanonView>),
    Sum(Box<CanonView>, Box<CanonView>),
    Diff(Box<CanonView>, Box<CanonView>),
}

/// The tree of a canonical expression, each constant taken by its value
/// (the leaves a canonical expression never holds read as zero).
pub open spec fn canon_view(e: ClaimExpr) -> CanonView
    decreases e,
{
    match e {
        ClaimExpr::Factor(ClaimFactor::Witness) => CanonView::Witness,
        ClaimExpr::Factor(ClaimFactor::ConjWitness) => CanonView::ConjWitness,
        ClaimExpr::Factor(ClaimFactor::Public(pf)) => CanonView::Public(pf),
        ClaimExpr::Factor(_) => CanonView::Constant(rzero()),
        ClaimExpr::Constant(c) => CanonView::Constant(c@),
        ClaimExpr::Scale(_, _) => CanonView::Constant(rzero()),
        ClaimExpr::Product(a, b) => CanonView::Product(
            Box::new(canon_view(*a)),
            Box::new(canon_view(*b)),
        ),
        ClaimExpr::Sum(a, b) => CanonView::Sum(Box::new(canon_view(*a)), Box::new(canon_view(*b))),
        ClaimExpr::Diff(a, b) => CanonView::Diff(Box::new(canon_view(*a)), Box::new(canon_view(*b))),
    }
}

/// The trees of a list of expressions.
pub open spec fn canon_views(ms: Seq<ClaimExpr>) -> Seq<CanonView> {
    Seq::new(ms.len(), |i: int| canon_view(ms[i]))
}

/// The left-nested product of a non-empty list of trees.
pub open spec fn fold_view(parts: Seq<CanonView>) -> CanonView
    decreases parts.len(),
{
    if parts.len() <= 1 {
        parts[0]
    } else {
        CanonView::Product(Box::new(fold_view(parts.drop_last())), Box::new(parts.last()))
    }
}

/// The tree of the selector leaf `eq(s.0, .)` over the leading `s.1`
/// variables.
pub open spec fn selector_view(s: (usize, usize)) -> CanonView {
    CanonView::Public(
        PublicFactor { prefix_len: 0, suffix_len: 0, weights: Weights::Selector { bits: s.0, length: s.1 } },
    )
}

/// What gathering a product has collected so far: the constant, whether a
/// constant was met, the selectors (each once), and the other members.
pub struct GatherState {
    pub c: Seq<(int, int)>,
    pub have: bool,
    pub sels: Seq<(usize, usize)>,
    pub mems: Seq<CanonView>,
}

/// Gathering the factors of `e` into `st`: constants and scales multiply the
/// constant, selectors and witness segments add their selector once,
/// segments add their witness leaf, sums and differences (in canonical form)
/// and the remaining leaves become members, in order.
pub open spec fn gather_spec(e: ClaimExpr, st: GatherState) -> GatherState
    decreases e, 0nat,
{
    match e {
        ClaimExpr::Scale(c, x) => gather_spec(
            *x,
            GatherState { c: smul(st.c, c@), have: true, sels: st.sels, mems: st.mems },
        ),
        ClaimExpr::Constant(c) => GatherState {
            c: smul(st.c, c@),
            have: true,
            sels: st.sels,
            mems: st.mems,
        },
        ClaimExpr::Product(a, b) => gather_spec(*b, gather_spec(*a, st)),
        ClaimExpr::Sum(a, b) => GatherState {
            c: st.c,
            have: st.have,
            sels: st.sels,
            mems: st.mems.push(CanonView::Sum(Box::new(canon_spec(*a)), Box::new(canon_spec(*b)))),
        },
        ClaimExpr::Diff(a, b) => GatherState {
            c: st.c,
            have: st.have,
            sels: st.sels,
            mems: st.mems.push(CanonView::Diff(Box::new(canon_spec(*a)), Box::new(canon_spec(*b)))),
        },
        ClaimExpr::Factor(ClaimFactor::WitnessSegment(p)) => GatherState {
            c: st.c,
            have: st.have,
            sels: with_selector(st.sels, (p.prefix, p.length)),
            mems: st.mems.push(CanonView::Witness),
        },
        ClaimExpr::Factor(ClaimFactor::ConjWitnessSegment(p)) => GatherState {
            c: st.c,
            have: st.have,
            sels: with_selector(st.sels, (p.prefix, p.length)),
            mems: st.mems.push(CanonView::ConjWitness),
        },
        ClaimExpr::Factor(ClaimFactor::Public(pf)) => match pf.weights {
            Weights::Selector { bits, length } => GatherState {
                c: st.c,
                have: st.have,
                sels: with_selector(st.sels, (bits, length)),
                mems: st.mems,
            },
            _ => GatherState {
                c: st.c,
                have: st.have,
                sels: st.sels,
                mems: st.mems.push(CanonView::Public(pf)),
            },
        },
        ClaimExpr::Factor(ClaimFactor::Witness) => GatherState {
            c: st.c,
            have: st.have,
            sels: st.sels,
            mems: st.mems.push(CanonView::Witness),
        },
        ClaimExpr::Factor(ClaimFactor::ConjWitness) => GatherState {
            c: st.c,
            have: st.have,
            sels: st.sels,
            mems: st.mems.push(CanonView::ConjWitness),
        },
    }
}

/// The factors of the canonical form of a product, left to right: the
/// constant (left out when none was met or it is one), each selector once,
/// then the members.
pub open spec fn product_parts(st: GatherState) -> Seq<CanonView> {
    let keep = st.have && st.c != rone();
    (if keep {
        seq![CanonView::Constant(st.c)]
    } else {
        Seq::empty()
    }) + Seq::new(st.sels.len(), |i: int| selector_view(st.sels[i])) + st.mems
}

/// The canonical form of a product: its parts multiplied left to right, or
/// the constant alone when there is no part.
pub open spec fn canon_product_spec(e: ClaimExpr) -> CanonView
    decreases e, 1nat,
{
    let st = gather_spec(
        e,
        GatherState { c: rone(), have: false, sels: Seq::empty(), mems: Seq::empty() },
    );
    let parts = product_parts(st);
    if parts.len() == 0 {
        CanonView::Constant(st.c)
    } else {
        fold_view(parts)
    }
}

/// The canonical form of an expression: sums and differences are kept, and
/// every maximal product below them is put in canonical form.
pub open spec fn canon_spec(e: ClaimExpr) -> CanonView
    decreases e, 2nat,
{
    match e {
        ClaimExpr::Sum(a, b) => CanonView::Sum(Box::new(canon_spec(*a)), Box::new(canon_spec(*b))),
        ClaimExpr::Diff(a, b) => CanonView::Diff(Box::new(canon_spec(*a)), Box::new(canon_spec(*b))),
        _ => canon_product_spec(e),
    }
}

proof fn lemma_views_push(ms: Seq<ClaimExpr>, m: ClaimExpr)
    ensures
        canon_views(ms.push(m)) == canon_views(ms).push(canon_view(m)),
{
    assert(canon_views(ms.push(m)) =~= canon_views(ms).push(canon_view(m)));
}

proof fn lemma_fold_view(parts: Seq<ClaimExpr>)
    requires
        parts.len() > 0,
    ensures
        canon_view(fold_product(parts)) == fold_view(canon_views(parts)),
    decreases parts.len(),
{
    if parts.len() > 1 {
        lemma_fold_view(parts.drop_last());
        assert(canon_views(parts.drop_last()) =~= canon_views(parts).drop_last());
    }
}

/// The left-nested product of a non-empty list of factors.
pub open spec fn fold_product(parts: Seq<ClaimExpr>) -> ClaimExpr
    decreases parts.len(),
{
    if parts.len() <= 1 {
        parts[0]
    } else {
        ClaimExpr::Product(Box::new(fold_product(parts.drop_last())), Box::new(parts.last()))
    }
}

proof fn lemma_const_step(c0: Seq<(int, int)>, c: Seq<(int, int)>, s: Seq<(int, int)>, m: Seq<(int, int)>)
    requires
        rwf(c0),
        rwf(c),
        rwf(s),
        rwf(m),
    ensures
        smul(smul(smul(c0, c), s), m) == smul(smul(smul(c0, s), m), c),
{
    lemma_rops_wf(c0, c);
    lemma_rops_wf(c0, s);
    lemma_rops_wf(smul(c0, s), c);
    lemma_rops_wf(smul(c0, s), m);
    lemma_seq_laws(c0, c, s);
    lemma_seq_laws(c, s, c0);
    lemma_seq_laws(c0, s, c);
    lemma_seq_laws(smul(c0, s), c, m);
    lemma_seq_laws(c, m, c0);
    lemma_seq_laws(smul(c0, s), m, c);
}

proof fn lemma_scale_step(
    c0: Seq<(int, int)>,
    c: Seq<(int, int)>,
    s: Seq<(int, int)>,
    m: Seq<(int, int)>,
    x: Seq<(int, int)>,
)
    requires
        rwf(c0),
        rwf(c),
        rwf(s),
        rwf(m),
        rwf(x),
    ensures
        smul(smul(smul(smul(c0, c), s), m), x) == smul(smul(smul(c0, s), m), smul(x, c)),
{
    lemma_const_step(c0, c, s, m);
    let g = smul(smul(c0, s), m);
    lemma_rops_wf(c0, s);
    lemma_rops_wf(smul(c0, s), m);
    lemma_seq_laws(g, c, x);
    lemma_seq_laws(c, x, g);
}

proof fn lemma_member_step(g: Seq<(int, int)>, m: Seq<(int, int)>, x: Seq<(int, int)>)
    requires
        rwf(g),
        rwf(m),
        rwf(x),
    ensures
        smul(g, smul(m, x)) == smul(smul(g, m), x),
{
    lemma_seq_laws(g, m, x);
}

proof fn lemma_selector_step(c0: Seq<(int, int)>, s: Seq<(int, int)>, v: Seq<(int, int)>, m: Seq<(int, int)>, w: Seq<(int, int)>)
    requires
        rwf(c0),
        rwf(s),
        rwf(v),
        rwf(m),
        rwf(w),
    ensures
        smul(smul(c0, smul(s, v)), m) == smul(smul(smul(c0, s), m), v),
        smul(smul(c0, smul(s, v)), smul(m, w)) == smul(smul(smul(c0, s), m), smul(v, w)),
{
    let a = smul(c0, s);
    lemma_rops_wf(c0, s);
    lemma_rops_wf(a, m);
    lemma_rops_wf(a, v);
    lemma_rops_wf(m, w);
    lemma_rops_wf(v, m);
    lemma_seq_laws(c0, s, v);
    // (a * v) * m == (a * m) * v
    lemma_seq_laws(a, v, m);
    lemma_seq_laws(v, m, a);
    lemma_seq_laws(a, m, v);
    // (a * v) * (m * w) == (a * m) * (v * w)
    lemma_seq_laws(a, v, smul(m, w));
    lemma_seq_laws(v, m, w);
    lemma_seq_laws(m, v, w);
    lemma_seq_laws(smul(v, m), w, a);
    lemma_rops_wf(m, v);
    lemma_seq_laws(a, m, smul(v, w));
    lemma_seq_laws(v, w, a);
}

/// Pushing a selector multiplies the selector product by its value, whether
/// or not it was already there.
proof fn lemma_push_selector_value(
    sels: Seq<(usize, usize)>,
    s: (usize, usize),
    data: Seq<Seq<(int, int)>>,
    index: int,
    total: nat,
)
    requires
        point_ok(data, index, total),
    ensures
        prod_eval(
            selector_leaves(if sels.contains(s) { sels } else { sels.push(s) }),
            data,
            index,
            total,
        ) == smul(
            prod_eval(selector_leaves(sels), data, index, total),
            eval_expr(selector_leaf(s), data, index, total),
        ),
{
    if sels.contains(s) {
        lemma_selector_idempotent(sels, s, data, index, total);
    } else {
        assert(selector_leaves(sels.push(s)).drop_last() =~= selector_leaves(sels));
    }
}

/// Gathers the factors of a product: constants and scales are multiplied into
/// `const_acc`, selectors (also those of witness segments) are collected once
/// each, and everything else becomes a member; sums and differences are
/// canonicalised as members of their own.
fn gather_product(
    expr: ClaimExpr,
    const_acc: &mut RingElement,
    have_const: &mut bool,
    selectors: &mut Vec<(usize, usize)>,
    members: &mut Vec<ClaimExpr>,
)
    requires
        consts_ok(expr),
        old(const_acc).wf(),
        !*old(have_const) ==> old(const_acc)@ == rone(),
        no_dups(old(selectors)@),
        mems_ok(old(members)@),
    ensures
        final(const_acc).wf(),
        !*final(have_const) ==> final(const_acc)@ == rone(),
        no_dups(final(selectors)@),
        mems_ok(final(members)@),
        forall|total: nat|
            expr_ok(expr, total) && mems_fit(old(members)@, total) ==> #[trigger] mems_fit(
                final(members)@,
                total,
            ),
        forall|total: nat|
            expr_ok(expr, total) && sels_fit(old(selectors)@, total) ==> #[trigger] sels_fit(
                final(selectors)@,
                total,
            ),
        forall|data: Seq<Seq<(int, int)>>, index: int, total: nat|
            point_ok(data, index, total) && expr_ok(expr, total) && mems_fit(old(members)@, total)
                ==> #[trigger] gathered(
                final(const_acc)@,
                final(selectors)@,
                final(members)@,
                data,
                index,
                total,
            ) == smul(
                gathered(old(const_acc)@, old(selectors)@, old(members)@, data, index, total),
                eval_expr(expr, data, index, total),
            ),
        gather_spec(
            expr,
            (GatherState {
                c: old(const_acc)@,
                have: *old(have_const),
                sels: old(selectors)@,
                mems: canon_views(old(members)@),
            }),
        ) == (GatherState {
            c: final(const_acc)@,
            have: *final(have_const),
            sels: final(selectors)@,
            mems: canon_views(final(members)@),
        }),
    decreases expr, 0nat,
{
    let ghost e0 = expr;
    let ghost h0 = *have_const;
    let ghost c0 = const_acc@;
    let ghost s0 = selectors@;
    let ghost m0 = members@;
    proof {
        lemma_consts_wf();
    }
    match expr {
        ClaimExpr::Scale(c, x) => {
            let mut prod = const_acc.mul(&c);
            *have_const = true;
            let ghost x0 = *x;
            let ghost p0 = prod@;
            gather_product(*x, &mut prod, have_const, selectors, members);
            *const_acc = prod;
            proof {
                assert(p0 == smul(c0, c@));
                assert(gather_spec(
                    e0,
                    GatherState { c: c0, have: h0, sels: s0, mems: canon_views(m0) },
                ) == gather_spec(
                    x0,
                    GatherState { c: p0, have: true, sels: s0, mems: canon_views(m0) },
                ));
                assert forall|data: Seq<Seq<(int, int)>>, index: int, total: nat|
                    point_ok(data, index, total) && expr_ok(e0, total) && mems_fit(m0, total)
                        implies #[trigger] gathered(const_acc@, selectors@, members@, data, index, total)
                    == smul(gathered(c0, s0, m0, data, index, total), eval_expr(e0, data, index, total)) by {
                    lemma_selector_leaves_wf(s0, data, index, total);
                    lemma_prod_eval_wf(m0, data, index, total);
                    lemma_eval_wf(x0, data, index, total);
                    lemma_scale_step(
                        c0,
                        c@,
                        prod_eval(selector_leaves(s0), data, index, total),
                        prod_eval(m0, data, index, total),
                        eval_expr(x0, data, index, total),
                    );
                }
            }
        },
        ClaimExpr::Constant(c) => {
            let prod = const_acc.mul(&c);
            *const_acc = prod;
            *have_const = true;
            proof {
                assert forall|data: Seq<Seq<(int, int)>>, index: int, total: nat|
                    point_ok(data, index, total) && expr_ok(e0, total) && mems_fit(m0, total)
                        implies #[trigger] gathered(const_acc@, selectors@, members@, data, index, total)
                    == smul(gathered(c0, s0, m0, data, index, total), eval_expr(e0, data, index, total)) by {
                    lemma_selector_leaves_wf(s0, data, index, total);
                    lemma_prod_eval_wf(m0, data, index, total);
                    lemma_const_step(
                        c0,
                        c@,
                        prod_eval(selector_leaves(s0), data, index, total),
                        prod_eval(m0, data, index, total),
                    );
                }
            }
        },
        ClaimExpr::Product(a, b) => {
            let ghost a0 = *a;
            let ghost b0 = *b;
            gather_product(*a, const_acc, have_const, selectors, members);
            let ghost c1 = const_acc@;
            let ghost s1 = selectors@;
            let ghost m1 = members@;
            gather_product(*b, const_acc, have_const, selectors, members);
            proof {
                assert forall|total: nat| expr_ok(e0, total) && mems_fit(m0, total) implies #[trigger] mems_fit(
                    members@,
                    total,
                ) by {
                    assert(mems_fit(m1, total));
                }
                assert forall|total: nat| expr_ok(e0, total) && sels_fit(s0, total) implies #[trigger] sels_fit(
                    selectors@,
                    total,
                ) by {
                    assert(sels_fit(s1, total));
                }
                assert forall|data: Seq<Seq<(int, int)>>, index: int, total: nat|
                    point_ok(data, index, total) && expr_ok(e0, total) && mems_fit(m0, total)
                        implies #[trigger] gathered(const_acc@, selectors@, members@, data, index, total)
                    == smul(gathered(c0, s0, m0, data, index, total), eval_expr(e0, data, index, total)) by {
                    assert(mems_fit(m1, total));
                    assert(gathered(c1, s1, m1, data, index, total) == smul(
                        gathered(c0, s0, m0, data, index, total),
                        eval_expr(a0, data, index, total),
                    ));
                    lemma_selector_leaves_wf(s0, data, index, total);
                    lemma_prod_eval_wf(m0, data, index, total);
                    lemma_rops_wf(c0, prod_eval(selector_leaves(s0), data, index, total));
                    lemma_rops_wf(
                        smul(c0, prod_eval(selector_leaves(s0), data, index, total)),
                        prod_eval(m0, data, index, total),
                    );
                    lemma_eval_wf(a0, data, index, total);
                    lemma_eval_wf(b0, data, index, total);
                    lemma_seq_laws(
                        gathered(c0, s0, m0, data, index, total),
                        eval_expr(a0, data, index, total),
                        eval_expr(b0, data, index, total),
                    );
                }
            }
        },
        ClaimExpr::Sum(a, b) => {
            let ghost a0 = *a;
            let ghost b0 = *b;
            let ca = canon(*a);
            let cb = canon(*b);
            let m = ClaimExpr::Sum(Box::new(ca), Box::new(cb));
            members.push(m);
            proof {
                lemma_canon_pair(e0, a0, b0, ca, cb, m);
                lemma_push_member(c0, s0, m0, m, e0);
                lemma_views_push(m0, m);
            }
        },
        ClaimExpr::Diff(a, b) => {
            let ghost a0 = *a;
            let ghost b0 = *b;
            let ca = canon(*a);
            let cb = canon(*b);
            let m = ClaimExpr::Diff(Box::new(ca), Box::new(cb));
            members.push(m);
            proof {
                lemma_canon_pair(e0, a0, b0, ca, cb, m);
                lemma_push_member(c0, s0, m0, m, e0);
                lemma_views_push(m0, m);
            }
        },
        ClaimExpr::Factor(ClaimFactor::WitnessSegment(p)) => {
            push_selector(selectors, p.prefix, p.length);
            members.push(ClaimExpr::witness());
            proof {
                assert(selectors@ == with_selector(s0, (p.prefix, p.length)));
                lemma_push_segment(c0, s0, m0, (p.prefix, p.length), ClaimExpr::Factor(ClaimFactor::Witness), e0);
                lemma_views_push(m0, ClaimExpr::Factor(ClaimFactor::Witness));
            }
        },
        ClaimExpr::Factor(ClaimFactor::ConjWitnessSegment(p)) => {
            push_selector(selectors, p.prefix, p.length);
            members.push(ClaimExpr::conj_witness());
            proof {
                assert(selectors@ == with_selector(s0, (p.prefix, p.length)));
                lemma_push_segment(c0, s0, m0, (p.prefix, p.length), ClaimExpr::Factor(ClaimFactor::ConjWitness), e0);
                lemma_views_push(m0, ClaimExpr::Factor(ClaimFactor::ConjWitness));
            }
        },
        ClaimExpr::Factor(ClaimFactor::Public(pf)) => {
            let sel = match &pf.weights {
                Weights::Selector { bits, length } => Some((*bits, *length)),
                _ => None,
            };
            match sel {
                Some(s) => {
                    push_selector(selectors, s.0, s.1);
                    proof {
                        assert(selectors@ == with_selector(s0, s));
                        lemma_push_public_selector(c0, s0, m0, s, e0);
                    }
                },
                None => {
                    let leaf = ClaimExpr::public(pf);
                    members.push(leaf);
                    proof {
                        lemma_push_member(c0, s0, m0, leaf, e0);
                        lemma_views_push(m0, leaf);
                    }
                },
            }
        },
        ClaimExpr::Factor(ClaimFactor::Witness) => {
            members.push(ClaimExpr::witness());
            proof {
                lemma_push_member(c0, s0, m0, ClaimExpr::Factor(ClaimFactor::Witness), e0);
                lemma_views_push(m0, ClaimExpr::Factor(ClaimFactor::Witness));
            }
        },
        ClaimExpr::Factor(ClaimFactor::ConjWitness) => {
            members.push(ClaimExpr::conj_witness());
            proof {
                lemma_push_member(c0, s0, m0, ClaimExpr::Factor(ClaimFactor::ConjWitness), e0);
                lemma_views_push(m0, ClaimExpr::Factor(ClaimFactor::ConjWitness));
            }
        },
    }
}

/// The selector list after pushing `s`.
pub open spec fn with_selector(sels: Seq<(usize, usize)>, s: (usize, usize)) -> Seq<(usize, usize)> {
    if sels.contains(s) {
        sels
    } else {
        sels.push(s)
    }
}

proof fn lemma_with_selector(sels: Seq<(usize, usize)>, s: (usize, usize), total: nat)
    ensures
        no_dups(sels) ==> no_dups(with_selector(sels, s)),
        sels_fit(sels, total) && s.1 <= total ==> sels_fit(with_selector(sels, s), total),
{
    if !sels.contains(s) {
        let t = sels.push(s);
        assert forall|i: int, j: int| no_dups(sels) && 0 <= i < j < t.len() implies t[i] != t[j] by {
            if j == sels.len() {
                assert(sels[i] == t[i]);
            }
        }
        assert forall|i: int| sels_fit(sels, total) && s.1 <= total && 0 <= i < t.len() implies (#[trigger] t[i]).1 <= total by {
            if i < sels.len() {
                assert(t[i] == sels[i]);
            }
        }
    }
}

/// Adding a member whose value is that of `e` multiplies the gathered value
/// by the value of `e`.
proof fn lemma_push_member(
    c0: Seq<(int, int)>,
    s0: Seq<(usize, usize)>,
    m0: Seq<ClaimExpr>,
    m: ClaimExpr,
    e: ClaimExpr,
)
    requires
        rwf(c0),
        forall|total: nat| expr_ok(e, total) ==> #[trigger] expr_ok(m, total),
        forall|data: Seq<Seq<(int, int)>>, index: int, total: nat|
            point_ok(data, index, total) && expr_ok(e, total) ==> #[trigger] eval_expr(
                m,
                data,
                index,
                total,
            ) == eval_expr(e, data, index, total),
    ensures
        forall|total: nat|
            expr_ok(e, total) && mems_fit(m0, total) ==> #[trigger] mems_fit(m0.push(m), total),
        forall|data: Seq<Seq<(int, int)>>, index: int, total: nat|
            point_ok(data, index, total) && expr_ok(e, total) && mems_fit(m0, total)
                ==> #[trigger] gathered(c0, s0, m0.push(m), data, index, total) == smul(
                gathered(c0, s0, m0, data, index, total),
                eval_expr(e, data, index, total),
            ),
{
    assert forall|total: nat| expr_ok(e, total) && mems_fit(m0, total) implies #[trigger] mems_fit(
        m0.push(m),
        total,
    ) by {
        assert forall|i: int| 0 <= i < m0.push(m).len() implies expr_ok(#[trigger] m0.push(m)[i], total) by {
            if i < m0.len() {
                assert(m0.push(m)[i] == m0[i]);
            }
        }
    }
    assert forall|data: Seq<Seq<(int, int)>>, index: int, total: nat|
        point_ok(data, index, total) && expr_ok(e, total) && mems_fit(m0, total)
            implies #[trigger] gathered(c0, s0, m0.push(m), data, index, total) == smul(
            gathered(c0, s0, m0, data, index, total),
            eval_expr(e, data, index, total),
        ) by {
        assert(m0.push(m).drop_last() =~= m0);
        lemma_selector_leaves_wf(s0, data, index, total);
        lemma_prod_eval_wf(m0, data, index, total);
        lemma_eval_wf(e, data, index, total);
        lemma_rops_wf(c0, prod_eval(selector_leaves(s0), data, index, total));
        lemma_member_step(
            smul(c0, prod_eval(selector_leaves(s0), data, index, total)),
            prod_eval(m0, data, index, total),
            eval_expr(e, data, index, total),
        );
    }
}

/// A witness segment becomes its selector times the witness leaf `w`.
proof fn lemma_push_segment(
    c0: Seq<(int, int)>,
    s0: Seq<(usize, usize)>,
    m0: Seq<ClaimExpr>,
    s: (usize, usize),
    w: ClaimExpr,
    e: ClaimExpr,
)
    requires
        rwf(c0),
        forall|total: nat| expr_ok(w, total),
        forall|total: nat| expr_ok(e, total) ==> s.1 <= total,
        forall|data: Seq<Seq<(int, int)>>, index: int, total: nat|
            point_ok(data, index, total) ==> #[trigger] eval_expr(e, data, index, total) == if in_prefix_spec(
                index,
                Prefix { prefix: s.0, length: s.1 },
                total,
            ) {
                eval_expr(w, data, index, total)
            } else {
                rzero()
            },
    ensures
        forall|total: nat| mems_fit(m0, total) ==> #[trigger] mems_fit(m0.push(w), total),
        forall|total: nat|
            expr_ok(e, total) && sels_fit(s0, total) ==> #[trigger] sels_fit(with_selector(s0, s), total),
        forall|data: Seq<Seq<(int, int)>>, index: int, total: nat|
            point_ok(data, index, total) && expr_ok(e, total) && mems_fit(m0, total)
                ==> #[trigger] gathered(c0, with_selector(s0, s), m0.push(w), data, index, total)
                == smul(gathered(c0, s0, m0, data, index, total), eval_expr(e, data, index, total)),
{
    assert forall|total: nat| mems_fit(m0, total) implies #[trigger] mems_fit(m0.push(w), total) by {
        assert forall|i: int| 0 <= i < m0.push(w).len() implies expr_ok(#[trigger] m0.push(w)[i], total) by {
            if i < m0.len() {
                assert(m0.push(w)[i] == m0[i]);
            }
        }
    }
    assert forall|total: nat| expr_ok(e, total) && sels_fit(s0, total) implies #[trigger] sels_fit(
        with_selector(s0, s),
        total,
    ) by {
        lemma_with_selector(s0, s, total);
    }
    assert forall|data: Seq<Seq<(int, int)>>, index: int, total: nat|
        point_ok(data, index, total) && expr_ok(e, total) && mems_fit(m0, total)
            implies #[trigger] gathered(c0, with_selector(s0, s), m0.push(w), data, index, total)
            == smul(gathered(c0, s0, m0, data, index, total), eval_expr(e, data, index, total)) by {
        lemma_consts_wf();
        assert(m0.push(w).drop_last() =~= m0);
        lemma_push_selector_value(s0, s, data, index, total);
        lemma_selector_val(s, data, index, total);
        lemma_selector_leaves_wf(s0, data, index, total);
        lemma_prod_eval_wf(m0, data, index, total);
        lemma_eval_wf(w, data, index, total);
        let v = eval_expr(selector_leaf(s), data, index, total);
        let x = eval_expr(w, data, index, total);
        lemma_selector_step(
            c0,
            prod_eval(selector_leaves(s0), data, index, total),
            v,
            prod_eval(m0, data, index, total),
            x,
        );
        lemma_seq_laws(x, rone(), rzero());
        lemma_seq_laws(rone(), x, x);
        lemma_seq_laws(rzero(), x, x);
    }
}

/// A selector leaf joins the selector list.
proof fn lemma_push_public_selector(
    c0: Seq<(int, int)>,
    s0: Seq<(usize, usize)>,
    m0: Seq<ClaimExpr>,
    s: (usize, usize),
    e: ClaimExpr,
)
    requires
        rwf(c0),
        forall|total: nat| expr_ok(e, total) ==> s.1 <= total,
        forall|data: Seq<Seq<(int, int)>>, index: int, total: nat|
            #[trigger] eval_expr(e, data, index, total) == eval_expr(selector_leaf(s), data, index, total),
    ensures
        forall|total: nat|
            expr_ok(e, total) && sels_fit(s0, total) ==> #[trigger] sels_fit(with_selector(s0, s), total),
        forall|data: Seq<Seq<(int, int)>>, index: int, total: nat|
            point_ok(data, index, total) && mems_fit(m0, total)
                ==> #[trigger] gathered(c0, with_selector(s0, s), m0, data, index, total)
                == smul(gathered(c0, s0, m0, data, index, total), eval_expr(e, data, index, total)),
{
    assert forall|total: nat| expr_ok(e, total) && sels_fit(s0, total) implies #[trigger] sels_fit(
        with_selector(s0, s),
        total,
    ) by {
        lemma_with_selector(s0, s, total);
    }
    assert forall|data: Seq<Seq<(int, int)>>, index: int, total: nat|
        point_ok(data, index, total) && mems_fit(m0, total)
            implies #[trigger] gathered(c0, with_selector(s0, s), m0, data, index, total)
            == smul(gathered(c0, s0, m0, data, index, total), eval_expr(e, data, index, total)) by {
        lemma_consts_wf();
        lemma_push_selector_value(s0, s, data, index, total);
        lemma_selector_val(s, data, index, total);
        lemma_selector_leaves_wf(s0, data, index, total);
        lemma_prod_eval_wf(m0, data, index, total);
        let v = eval_expr(selector_leaf(s), data, index, total);
        lemma_selector_step(
            c0,
            prod_eval(selector_leaves(s0), data, index, total),
            v,
            prod_eval(m0, data, index, total),
            v,
        );
    }
}

/// The left-nested product of canonical factors is canonical, fits the cube
/// when they do, and takes the product of their values.
proof fn lemma_fold_product(parts: Seq<ClaimExpr>)
    requires
        parts.len() > 0,
    ensures
        mems_ok(parts) ==> is_canonical(fold_product(parts)) && consts_ok(fold_product(parts)),
        forall|total: nat| mems_fit(parts, total) ==> #[trigger] expr_ok(fold_product(parts), total),
        forall|data: Seq<Seq<(int, int)>>, index: int, total: nat|
            point_ok(data, index, total) && mems_fit(parts, total) ==> #[trigger] eval_expr(
                fold_product(parts),
                data,
                index,
                total,
            ) == prod_eval(parts, data, index, total),
    decreases parts.len(),
{
    let init = parts.drop_last();
    if parts.len() == 1 {
        assert(mems_ok(parts) ==> is_canonical(parts[0]) && consts_ok(parts[0]));
        assert forall|total: nat| mems_fit(parts, total) implies #[trigger] expr_ok(
            fold_product(parts),
            total,
        ) by {
            assert(expr_ok(parts[0], total));
        }
        assert forall|data: Seq<Seq<(int, int)>>, index: int, total: nat|
            point_ok(data, index, total) && mems_fit(parts, total) implies #[trigger] eval_expr(
                fold_product(parts),
                data,
                index,
                total,
            ) == prod_eval(parts, data, index, total) by {
            assert(expr_ok(parts[0], total));
            assert(init.len() == 0);
            assert(prod_eval(init, data, index, total) == rone());
            assert(parts.last() == parts[0]);
            assert(fold_product(parts) == parts[0]);
            lemma_consts_wf();
            lemma_eval_wf(parts[0], data, index, total);
            let x = eval_expr(parts[0], data, index, total);
            lemma_seq_laws(x, rone(), rone());
            lemma_seq_laws(rone(), x, x);
        }
    } else {
        lemma_fold_product(init);
        assert(mems_ok(parts) ==> mems_ok(init) && is_canonical(parts.last()) && consts_ok(parts.last())) by {
            if mems_ok(parts) {
                assert forall|i: int| 0 <= i < init.len() implies is_canonical(#[trigger] init[i])
                    && consts_ok(init[i]) by {
                    assert(init[i] == parts[i]);
                }
                assert(parts.last() == parts[parts.len() - 1]);
            }
        }
        assert forall|total: nat| #[trigger] mems_fit(parts, total) implies mems_fit(init, total)
            && expr_ok(parts.last(), total) by {
            assert forall|i: int| 0 <= i < init.len() implies expr_ok(#[trigger] init[i], total) by {
                assert(init[i] == parts[i]);
            }
            assert(parts.last() == parts[parts.len() - 1]);
        }
        assert forall|total: nat| mems_fit(parts, total) implies #[trigger] expr_ok(
            fold_product(parts),
            total,
        ) by {
            assert(mems_fit(init, total));
            assert(expr_ok(fold_product(init), total));
        }
        assert forall|data: Seq<Seq<(int, int)>>, index: int, total: nat|
            point_ok(data, index, total) && mems_fit(parts, total) implies #[trigger] eval_expr(
                fold_product(parts),
                data,
                index,
                total,
            ) == prod_eval(parts, data, index, total) by {
            assert(mems_fit(init, total));
            assert(eval_expr(fold_product(init), data, index, total) == prod_eval(init, data, index, total));
        }
    }
}

/// The canonical form of a product: one constant (left out when it is one),
/// then each selector once, then the other members, multiplied left to right.
fn canon_product(expr: ClaimExpr) -> (r: ClaimExpr)
    requires
        consts_ok(expr),
    ensures
        is_canonical(r),
        consts_ok(r),
        forall|total: nat| expr_ok(expr, total) ==> #[trigger] expr_ok(r, total),
        forall|data: Seq<Seq<(int, int)>>, index: int, total: nat|
            point_ok(data, index, total) && expr_ok(expr, total) ==> #[trigger] eval_expr(
                r,
                data,
                index,
                total,
            ) == eval_expr(expr, data, index, total),
        canon_view(r) == canon_product_spec(expr),
    decreases expr, 1nat,
{
    let ghost e0 = expr;
    let mut const_acc = RingElement::constant(1, Representation::IncompleteNTT);
    proof {
        lemma_reduced_fixed(1);
        assert(pconst(1) == (1int, 0int));
        assert(const_acc@ == rone());
    }
    let mut have_const = false;
    let mut selectors: Vec<(usize, usize)> = Vec::new();
    let mut members: Vec<ClaimExpr> = Vec::new();
    proof {
        assert(selectors@ =~= Seq::<(usize, usize)>::empty());
        assert(members@ =~= Seq::<ClaimExpr>::empty());
    }
    let ghost g_sels = selectors@;
    let ghost g_mems = members@;
    gather_product(expr, &mut const_acc, &mut have_const, &mut selectors, &mut members);
    let ghost c = const_acc@;
    let ghost sels = selectors@;
    let ghost mems = members@;
    let keep_const = have_const && !is_unit(&const_acc);
    let mut acc: Option<ClaimExpr> = None;
    let ghost mut parts: Seq<ClaimExpr> = Seq::empty();
    if keep_const {
        let k = ClaimExpr::Constant(const_acc.duplicate());
        proof {
            parts = seq![k];
        }
        acc = Some(k);
    }
    let ghost base = parts;
    let mut i: usize = 0;
    while i < selectors.len()
        invariant
            i <= sels.len(),
            selectors@ == sels,
            parts == base + selector_leaves(sels.take(i as int)),
            parts.len() == 0 <==> acc is None,
            acc is Some ==> acc->0 == fold_product(parts),
        decreases sels.len() - i,
    {
        let (bits, length) = selectors[i];
        let leaf = ClaimExpr::public(
            PublicFactor {
                prefix_len: 0,
                suffix_len: 0,
                weights: Weights::Selector { bits, length },
            },
        );
        proof {
            assert(leaf == selector_leaf(sels[i as int]));
            assert(selector_leaves(sels.take(i + 1)) =~= selector_leaves(sels.take(i as int)).push(leaf));
            assert(base + selector_leaves(sels.take(i + 1)) =~= parts.push(leaf));
            assert(parts.push(leaf).drop_last() =~= parts);
            parts = parts.push(leaf);
        }
        acc = match acc {
            Some(a) => Some(ClaimExpr::Product(Box::new(a), Box::new(leaf))),
            None => Some(leaf),
        };
        i = i + 1;
    }
    proof {
        assert(sels.take(sels.len() as int) =~= sels);
    }
    let ghost head = parts;
    let ghost mut j: int = 0;
    while members.len() > 0
        invariant
            0 <= j <= mems.len(),
            members@ == mems.skip(j),
            parts == head + mems.take(j),
            parts.len() == 0 <==> acc is None,
            acc is Some ==> acc->0 == fold_product(parts),
        decreases members@.len(),
    {
        let m = members.remove(0);
        proof {
            assert(m == mems[j]);
            assert(mems.take(j + 1) =~= mems.take(j).push(m));
            assert(head + mems.take(j + 1) =~= parts.push(m));
            assert(parts.push(m).drop_last() =~= parts);
            assert(members@ =~= mems.skip(j + 1));
            parts = parts.push(m);
            j = j + 1;
        }
        acc = match acc {
            Some(a) => Some(ClaimExpr::Product(Box::new(a), Box::new(m))),
            None => Some(m),
        };
    }
    proof {
        assert(j == mems.len());
        assert(mems.take(j) =~= mems);
        assert(mems_fit(g_mems, 0) && sels_fit(g_sels, 0));
        assert forall|total: nat| expr_ok(e0, total) implies #[trigger] mems_fit(mems, total) by {
            assert(mems_fit(g_mems, total));
        }
        assert forall|total: nat| expr_ok(e0, total) implies #[trigger] sels_fit(sels, total) by {
            assert(sels_fit(g_sels, total));
        }
        assert forall|data: Seq<Seq<(int, int)>>, index: int, total: nat|
            point_ok(data, index, total) && expr_ok(e0, total) implies #[trigger] gathered(
                c,
                sels,
                mems,
                data,
                index,
                total,
            ) == smul(gathered(rone(), g_sels, g_mems, data, index, total), eval_expr(e0, data, index, total)) by {
            assert(mems_fit(g_mems, total));
        }
    }
    let r = match acc {
        Some(a) => a,
        None => ClaimExpr::Constant(const_acc),
    };
    proof {
        lemma_canon_product_result(e0, r, c, have_const, keep_const, base, sels, mems, parts);
        assert(canon_views(Seq::<ClaimExpr>::empty()) =~= Seq::<CanonView>::empty());
        let st = GatherState { c, have: have_const, sels, mems: canon_views(mems) };
        assert(gather_spec(
            e0,
            GatherState { c: rone(), have: false, sels: Seq::empty(), mems: Seq::empty() },
        ) == st);
        assert(canon_views(parts) =~= product_parts(st));
        if parts.len() > 0 {
            lemma_fold_view(parts);
        }
    }
    r
}

/// What `canon_product` assembles from the gathered factors has the value of
/// the product it started from.
proof fn lemma_canon_product_result(
    e0: ClaimExpr,
    r: ClaimExpr,
    c: Seq<(int, int)>,
    have: bool,
    keep_const: bool,
    base: Seq<ClaimExpr>,
    sels: Seq<(usize, usize)>,
    mems: Seq<ClaimExpr>,
    parts: Seq<ClaimExpr>,
)
    requires
        rwf(c),
        !have ==> c == rone(),
        keep_const == (have && c != rone()),
        keep_const ==> base.len() == 1 && (base[0] matches ClaimExpr::Constant(k) && k.wf() && k@ == c),
        !keep_const ==> base.len() == 0,
        mems_ok(mems),
        parts == base + selector_leaves(sels) + mems,
        parts.len() > 0 ==> r == fold_product(parts),
        parts.len() == 0 ==> (r matches ClaimExpr::Constant(k) && k.wf() && k@ == c),
        forall|total: nat| expr_ok(e0, total) ==> #[trigger] mems_fit(mems, total),
        forall|total: nat| expr_ok(e0, total) ==> #[trigger] sels_fit(sels, total),
        forall|data: Seq<Seq<(int, int)>>, index: int, total: nat|
            point_ok(data, index, total) && expr_ok(e0, total) ==> #[trigger] gathered(
                c,
                sels,
                mems,
                data,
                index,
                total,
            ) == smul(
                gathered(rone(), Seq::empty(), Seq::empty(), data, index, total),
                eval_expr(e0, data, index, total),
            ),
    ensures
        is_canonical(r),
        consts_ok(r),
        forall|total: nat| expr_ok(e0, total) ==> #[trigger] expr_ok(r, total),
        forall|data: Seq<Seq<(int, int)>>, index: int, total: nat|
            point_ok(data, index, total) && expr_ok(e0, total) ==> #[trigger] eval_expr(
                r,
                data,
                index,
                total,
            ) == eval_expr(e0, data, index, total),
{
    lemma_consts_wf();
    let sl = selector_leaves(sels);
    assert(mems_ok(parts)) by {
        assert forall|i: int| 0 <= i < parts.len() implies is_canonical(#[trigger] parts[i])
            && consts_ok(parts[i]) by {
            if i < base.len() {
                assert(parts[i] == base[i]);
            } else if i < base.len() + sl.len() {
                assert(parts[i] == sl[i - base.len()]);
            } else {
                assert(parts[i] == mems[i - base.len() - sl.len()]);
            }
        }
    }
    assert forall|total: nat| expr_ok(e0, total) implies #[trigger] mems_fit(parts, total)
        && mems_fit(base, total) && mems_fit(sl, total) by {
        assert(mems_fit(mems, total) && sels_fit(sels, total));
        assert forall|i: int| 0 <= i < sl.len() implies expr_ok(#[trigger] sl[i], total) by {
            assert(sels[i].1 <= total);
        }
        assert forall|i: int| 0 <= i < parts.len() implies expr_ok(#[trigger] parts[i], total) by {
            if i < base.len() {
                assert(parts[i] == base[i]);
            } else if i < base.len() + sl.len() {
                assert(parts[i] == sl[i - base.len()]);
            } else {
                assert(parts[i] == mems[i - base.len() - sl.len()]);
            }
        }
    }
    if parts.len() > 0 {
        lemma_fold_product(parts);
    }
    assert forall|data: Seq<Seq<(int, int)>>, index: int, total: nat|
        point_ok(data, index, total) && expr_ok(e0, total) implies #[trigger] eval_expr(
            r,
            data,
            index,
            total,
        ) == eval_expr(e0, data, index, total) by {
        assert(mems_fit(mems, total) && sels_fit(sels, total));
        assert(mems_fit(parts, total) && mems_fit(base, total) && mems_fit(sl, total));
        let ps = prod_eval(sl, data, index, total);
        let pm = prod_eval(mems, data, index, total);
        let x = eval_expr(e0, data, index, total);
        lemma_selector_leaves_wf(sels, data, index, total);
        lemma_prod_eval_wf(mems, data, index, total);
        lemma_eval_wf(e0, data, index, total);
        lemma_prod_eval_append(base, sl, data, index, total);
        assert forall|i: int| 0 <= i < (base + sl).len() implies expr_ok(#[trigger] (base + sl)[i], total) by {
            if i < base.len() {
                assert((base + sl)[i] == base[i]);
            } else {
                assert((base + sl)[i] == sl[i - base.len()]);
            }
        }
        lemma_prod_eval_append(base + sl, mems, data, index, total);
        // the constant part is `c` either way
        assert(prod_eval(base, data, index, total) == c) by {
            if keep_const {
                assert(base.drop_last() =~= Seq::<ClaimExpr>::empty());
                assert(prod_eval(base.drop_last(), data, index, total) == rone());
                assert(base.last() == base[0]);
                if let ClaimExpr::Constant(k) = base[0] {
                    assert(eval_expr(base.last(), data, index, total) == c);
                }
                lemma_seq_laws(c, rone(), rone());
                lemma_seq_laws(rone(), c, c);
            }
        }
        // the gathered product started from one
        assert(gathered(rone(), Seq::empty(), Seq::empty(), data, index, total) == rone()) by {
            assert(selector_leaves(Seq::<(usize, usize)>::empty()) =~= Seq::<ClaimExpr>::empty());
            lemma_seq_laws(rone(), rone(), rone());
        }
        lemma_seq_laws(x, rone(), rone());
        lemma_seq_laws(rone(), x, x);
        assert(gathered(c, sels, mems, data, index, total) == x);
        assert(prod_eval(base + sl, data, index, total) == smul(c, ps));
        assert(prod_eval(parts, data, index, total) == gathered(c, sels, mems, data, index, total));
        if parts.len() == 0 {
            assert(sl.len() == 0 && mems.len() == 0);
            assert(sels.len() == 0);
            assert(sl =~= Seq::<ClaimExpr>::empty());
            assert(mems =~= Seq::<ClaimExpr>::empty());
            lemma_seq_laws(c, rone(), rone());
        }
    }
}

/// Canonical form of an expression: sums and differences are kept, and each
/// maximal product below them is put in canonical form.
pub fn canon(expr: ClaimExpr) -> (r: ClaimExpr)
    requires
        consts_ok(expr),
    ensures
        is_canonical(r),
        consts_ok(r),
        forall|total: nat| expr_ok(expr, total) ==> #[trigger] expr_ok(r, total),
        forall|data: Seq<Seq<(int, int)>>, index: int, total: nat|
            point_ok(data, index, total) && expr_ok(expr, total) ==> #[trigger] eval_expr(
                r,
                data,
                index,
                total,
            ) == eval_expr(expr, data, index, total),
        canon_view(r) == canon_spec(expr),
    decreases expr, 2nat,
{
    let ghost e0 = expr;
    match expr {
        ClaimExpr::Sum(a, b) => {
            let ghost a0 = *a;
            let ghost b0 = *b;
            let ca = canon(*a);
            let cb = canon(*b);
            let r = ClaimExpr::Sum(Box::new(ca), Box::new(cb));
            proof {
                lemma_canon_pair(e0, a0, b0, ca, cb, r);
            }
            r
        },
        ClaimExpr::Diff(a, b) => {
            let ghost a0 = *a;
            let ghost b0 = *b;
            let ca = canon(*a);
            let cb = canon(*b);
            let r = ClaimExpr::Diff(Box::new(ca), Box::new(cb));
            proof {
                lemma_canon_pair(e0, a0, b0, ca, cb, r);
            }
            r
        },
        _ => canon_product(expr),
    }
}

/// A sum or difference of canonical forms is the canonical form of the sum
/// or difference.
proof fn lemma_canon_pair(e: ClaimExpr, a: ClaimExpr, b: ClaimExpr, ca: ClaimExpr, cb: ClaimExpr, r: ClaimExpr)
    requires
        (e == ClaimExpr::Sum(Box::new(a), Box::new(b)) && r == ClaimExpr::Sum(Box::new(ca), Box::new(cb)))
            || (e == ClaimExpr::Diff(Box::new(a), Box::new(b)) && r == ClaimExpr::Diff(
            Box::new(ca),
            Box::new(cb),
        )),
        is_canonical(ca) && consts_ok(ca),
        is_canonical(cb) && consts_ok(cb),
        forall|total: nat| expr_ok(a, total) ==> #[trigger] expr_ok(ca, total),
        forall|total: nat| expr_ok(b, total) ==> #[trigger] expr_ok(cb, total),
        forall|data: Seq<Seq<(int, int)>>, index: int, total: nat|
            point_ok(data, index, total) && expr_ok(a, total) ==> #[trigger] eval_expr(
                ca,
                data,
                index,
                total,
            ) == eval_expr(a, data, index, total),
        forall|data: Seq<Seq<(int, int)>>, index: int, total: nat|
            point_ok(data, index, total) && expr_ok(b, total) ==> #[trigger] eval_expr(
                cb,
                data,
                index,
                total,
            ) == eval_expr(b, data, index, total),
    ensures
        is_canonical(r),
        consts_ok(r),
        forall|total: nat| expr_ok(e, total) ==> #[trigger] expr_ok(r, total),
        forall|data: Seq<Seq<(int, int)>>, index: int, total: nat|
            point_ok(data, index, total) && expr_ok(e, total) ==> #[trigger] eval_expr(
                r,
                data,
                index,
                total,
            ) == eval_expr(e, data, index, total),
{
    assert forall|total: nat| expr_ok(e, total) implies #[trigger] expr_ok(r, total) by {
        assert(expr_ok(ca, total) && expr_ok(cb, total));
    }
    assert forall|data: Seq<Seq<(int, int)>>, index: int, total: nat|
        point_ok(data, index, total) && expr_ok(e, total) implies #[trigger] eval_expr(
            r,
            data,
            index,
            total,
        ) == eval_expr(e, data, index, total) by {
        assert(eval_expr(ca, data, index, total) == eval_expr(a, data, index, total));
        assert(eval_expr(cb, data, index, total) == eval_expr(b, data, index, total));
    }
}

/// Sums over the cube agree when the values agree at every point.
proof fn lemma_cube_sum_congruent(
    e1: ClaimExpr,
    e2: ClaimExpr,
    data: Seq<Seq<(int, int)>>,
    total: nat,
    n: nat,
)
    requires
        n <= data.len(),
        forall|index: int| 0 <= index < n ==> #[trigger] eval_expr(e1, data, index, total) == eval_expr(
            e2,
            data,
            index,
            total,
        ),
    ensures
        cube_sum(e1, data, total, n) == cube_sum(e2, data, total, n),
    decreases n,
{
    if n > 0 {
        lemma_cube_sum_congruent(e1, e2, data, total, (n - 1) as nat);
        assert(eval_expr(e1, data, n - 1, total) == eval_expr(e2, data, n - 1, total));
    }
}

/// The claim with its expression in canonical form; the claimed value is
/// kept, and the sum over the cube is unchanged.
pub fn canonicalize(claim: SnarkClaim) -> (r: SnarkClaim)
    requires
        consts_ok(claim.expr),
    ensures
        r.value == claim.value,
        canon_view(r.expr) == canon_spec(claim.expr),
        is_canonical(r.expr),
        consts_ok(r.expr),
        forall|total: nat| expr_ok(claim.expr, total) ==> #[trigger] expr_ok(r.expr, total),
        forall|data: Seq<Seq<(int, int)>>, total: nat, n: nat|
            witness_ok(data, total) && expr_ok(claim.expr, total) && n <= data.len()
                ==> #[trigger] cube_sum(r.expr, data, total, n) == cube_sum(claim.expr, data, total, n),
{
    let ghost e0 = claim.expr;
    let expr = canon(claim.expr);
    let r = SnarkClaim { expr, value: claim.value };
    proof {
        assert forall|data: Seq<Seq<(int, int)>>, total: nat, n: nat|
            witness_ok(data, total) && expr_ok(e0, total) && n <= data.len()
                implies #[trigger] cube_sum(r.expr, data, total, n) == cube_sum(e0, data, total, n) by {
            assert forall|index: int| 0 <= index < n implies #[trigger] eval_expr(r.expr, data, index, total)
                == eval_expr(e0, data, index, total) by {
                assert(point_ok(data, index, total));
            }
            lemma_cube_sum_congruent(r.expr, e0, data, total, n);
        }
    }
    r
}

} // verus!
