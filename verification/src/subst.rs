//! The placeholder-substitution engine: a pure rewrite that splices a
//! replacement token sequence into every occurrence of a marker identifier,
//! recursing into groups while preserving their delimiter kinds, and the laws
//! that rewrite obeys.

use vstd::prelude::*;

use crate::token::{copy_token, copy_tokens, lemma_models, lemma_models_concat, lemma_models_one,
    models, Delim, TokTree, Token};

verus! {

/// Whether a tree is an atom whose text equals the marker.
pub open spec fn is_marker(t: TokTree, m: Seq<char>) -> bool {
    match t {
        TokTree::Leaf { text, .. } => text == m,
        TokTree::Node { .. } => false,
    }
}

/// Number of tokens in a tree: each atom and each group counts one, and a
/// group's children count on top of it.
pub open spec fn size_tok(t: TokTree) -> nat
    decreases t,
{
    match t {
        TokTree::Leaf { .. } => 1,
        TokTree::Node { kids, .. } => 1 + size_all(kids),
    }
}

/// Total number of tokens in a sequence of trees.
pub open spec fn size_all(ts: Seq<TokTree>) -> nat
    decreases ts,
{
    if ts.len() == 0 {
        0
    } else {
        size_tok(ts[0]) + size_all(ts.drop_first())
    }
}

/// Occurrences of the marker among all atoms of a tree, at any depth.
pub open spec fn occ_tok(t: TokTree, m: Seq<char>) -> nat
    decreases t,
{
    match t {
        TokTree::Leaf { .. } => if is_marker(t, m) {
            1
        } else {
            0
        },
        TokTree::Node { kids, .. } => occ_all(kids, m),
    }
}

/// Occurrences of the marker in a sequence of trees, at any depth.
pub open spec fn occ_all(ts: Seq<TokTree>, m: Seq<char>) -> nat
    decreases ts,
{
    if ts.len() == 0 {
        0
    } else {
        occ_tok(ts[0], m) + occ_all(ts.drop_first(), m)
    }
}

/// Occurrences of the marker among the direct elements of a sequence only.
pub open spec fn occ_top(ts: Seq<TokTree>, m: Seq<char>) -> nat
    decreases ts,
{
    if ts.len() == 0 {
        0
    } else {
        (if is_marker(ts[0], m) {
            1nat
        } else {
            0nat
        }) + occ_top(ts.drop_first(), m)
    }
}

/// What substituting `r` for the marker `m` yields on one tree: a marker atom
/// becomes the whole of `r`, spliced flat; any other atom stays; a group
/// keeps its delimiter and position and carries the substituted children.
pub open spec fn sub_tok(t: TokTree, m: Seq<char>, r: Seq<TokTree>) -> Seq<TokTree>
    decreases t,
{
    match t {
        TokTree::Leaf { .. } => if is_marker(t, m) {
            r
        } else {
            seq![t]
        },
        TokTree::Node { delim, span, kids } => seq![
            TokTree::Node { delim, span, kids: sub_all(kids, m, r) },
        ],
    }
}

/// Substitution over a sequence of trees, element by element, left to right.
pub open spec fn sub_all(ts: Seq<TokTree>, m: Seq<char>, r: Seq<TokTree>) -> Seq<TokTree>
    decreases ts,
{
    if ts.len() == 0 {
        Seq::empty()
    } else {
        sub_tok(ts[0], m, r) + sub_all(ts.drop_first(), m, r)
    }
}

/// Token counts add over concatenation.
pub broadcast proof fn lemma_size_all_concat(a: Seq<TokTree>, b: Seq<TokTree>)
    ensures
        #[trigger] size_all(a + b) == size_all(a) + size_all(b),
    decreases a.len(),
{
    if a.len() == 0 {
        assert(a + b =~= b);
    } else {
        lemma_size_all_concat(a.drop_first(), b);
        assert((a + b).drop_first() =~= a.drop_first() + b);
    }
}

/// Marker counts add over concatenation.
pub broadcast proof fn lemma_occ_all_concat(a: Seq<TokTree>, b: Seq<TokTree>, m: Seq<char>)
    ensures
        #[trigger] occ_all(a + b, m) == occ_all(a, m) + occ_all(b, m),
    decreases a.len(),
{
    if a.len() == 0 {
        assert(a + b =~= b);
    } else {
        lemma_occ_all_concat(a.drop_first(), b, m);
        assert((a + b).drop_first() =~= a.drop_first() + b);
    }
}

proof fn lemma_size_all_one(t: TokTree)
    ensures
        size_all(seq![t]) == size_tok(t),
{
    assert(seq![t].drop_first().len() == 0);
    assert(size_all(seq![t].drop_first()) == 0);
    assert(seq![t][0] == t);
}

proof fn lemma_occ_all_one(t: TokTree, m: Seq<char>)
    ensures
        occ_all(seq![t], m) == occ_tok(t, m),
{
    assert(seq![t].drop_first().len() == 0);
    assert(occ_all(seq![t].drop_first(), m) == 0);
    assert(seq![t][0] == t);
}

/// Substitution is a homomorphism over concatenation: it rewrites left to
/// right, each token independently of the rest, so every token that is kept
/// stays in its original relative order.
pub proof fn lemma_substitute_concat(
    a: Seq<TokTree>,
    b: Seq<TokTree>,
    m: Seq<char>,
    r: Seq<TokTree>,
)
    ensures
        sub_all(a + b, m, r) == sub_all(a, m, r) + sub_all(b, m, r),
    decreases a.len(),
{
    if a.len() == 0 {
        assert(a + b =~= b);
        assert(sub_all(a, m, r) + sub_all(b, m, r) =~= sub_all(b, m, r));
    } else {
        lemma_substitute_concat(a.drop_first(), b, m, r);
        assert((a + b)[0] == a[0]);
        assert((a + b).drop_first() =~= a.drop_first() + b);
        assert(sub_all(a + b, m, r) == sub_tok((a + b)[0], m, r) + sub_all(
            a.drop_first() + b,
            m,
            r,
        ));
        assert(sub_all(a, m, r) == sub_tok(a[0], m, r) + sub_all(a.drop_first(), m, r));
        assert(sub_all(a + b, m, r) =~= sub_all(a, m, r) + sub_all(b, m, r));
    }
}

proof fn lemma_substitute_size_tok(t: TokTree, m: Seq<char>, r: Seq<TokTree>)
    ensures
        size_all(sub_tok(t, m, r)) == size_tok(t) - occ_tok(t, m) + occ_tok(t, m) * size_all(r),
    decreases t,
{
    let o = occ_tok(t, m) as int;
    let s = size_all(r) as int;
    match t {
        TokTree::Leaf { .. } => {
            if is_marker(t, m) {
                assert(o * s == s) by (nonlinear_arith)
                    requires
                        o == 1,
                ;
            } else {
                lemma_size_all_one(t);
                assert(o * s == 0) by (nonlinear_arith)
                    requires
                        o == 0,
                ;
            }
        },
        TokTree::Node { delim, span, kids } => {
            lemma_substitute_size(kids, m, r);
            let n = TokTree::Node { delim, span, kids: sub_all(kids, m, r) };
            lemma_size_all_one(n);
        },
    }
}

/// Conservation of token count: substitution leaves exactly
/// `size - occurrences + occurrences * size(replacement)` tokens, so each of
/// the `occurrences` marker atoms is traded for one copy of the replacement
/// and nothing else appears or disappears.
pub proof fn lemma_substitute_size(ts: Seq<TokTree>, m: Seq<char>, r: Seq<TokTree>)
    ensures
        size_all(sub_all(ts, m, r)) == size_all(ts) - occ_all(ts, m) + occ_all(ts, m) * size_all(
            r,
        ),
    decreases ts,
{
    let o = occ_all(ts, m) as int;
    let s = size_all(r) as int;
    if ts.len() != 0 {
        lemma_substitute_size_tok(ts[0], m, r);
        lemma_substitute_size(ts.drop_first(), m, r);
        assert(sub_all(ts, m, r) == sub_tok(ts[0], m, r) + sub_all(ts.drop_first(), m, r));
        assert(size_all(ts) == size_tok(ts[0]) + size_all(ts.drop_first()));
        assert(occ_all(ts, m) == occ_tok(ts[0], m) + occ_all(ts.drop_first(), m));
        lemma_size_all_concat(sub_tok(ts[0], m, r), sub_all(ts.drop_first(), m, r));
        let x = occ_tok(ts[0], m) as int;
        let y = occ_all(ts.drop_first(), m) as int;
        assert(o * s == x * s + y * s) by (nonlinear_arith)
            requires
                o == x + y,
        ;
    } else {
        assert(o * s == 0) by (nonlinear_arith)
            requires
                o == 0,
        ;
    }
}

proof fn lemma_substitute_absent_tok(t: TokTree, m: Seq<char>, r: Seq<TokTree>)
    requires
        occ_tok(t, m) == 0,
    ensures
        sub_tok(t, m, r) == seq![t],
    decreases t,
{
    match t {
        TokTree::Leaf { .. } => {},
        TokTree::Node { kids, .. } => {
            lemma_substitute_absent(kids, m, r);
        },
    }
}

/// A no-op: if the marker does not occur, substitution returns the sequence
/// structurally unchanged, whatever the replacement.
pub proof fn lemma_substitute_absent(ts: Seq<TokTree>, m: Seq<char>, r: Seq<TokTree>)
    requires
        occ_all(ts, m) == 0,
    ensures
        sub_all(ts, m, r) == ts,
    decreases ts,
{
    if ts.len() != 0 {
        lemma_substitute_absent_tok(ts[0], m, r);
        lemma_substitute_absent(ts.drop_first(), m, r);
        assert(sub_all(ts, m, r) == sub_tok(ts[0], m, r) + sub_all(ts.drop_first(), m, r));
        assert(seq![ts[0]] + ts.drop_first() =~= ts);
    }
}

proof fn lemma_substitute_occ_tok(t: TokTree, m: Seq<char>, r: Seq<TokTree>)
    ensures
        occ_all(sub_tok(t, m, r), m) == occ_tok(t, m) * occ_all(r, m),
    decreases t,
{
    let o = occ_tok(t, m) as int;
    let c = occ_all(r, m) as int;
    match t {
        TokTree::Leaf { .. } => {
            if is_marker(t, m) {
                assert(o * c == c) by (nonlinear_arith)
                    requires
                        o == 1,
                ;
            } else {
                lemma_occ_all_one(t, m);
                assert(o * c == 0) by (nonlinear_arith)
                    requires
                        o == 0,
                ;
            }
        },
        TokTree::Node { delim, span, kids } => {
            lemma_substitute_occ(kids, m, r);
            let n = TokTree::Node { delim, span, kids: sub_all(kids, m, r) };
            lemma_occ_all_one(n, m);
        },
    }
}

/// Substitution is single pass: markers in the output come only from copies
/// of the replacement, never from revisiting what was just spliced in.  In
/// particular a replacement free of the marker leaves no marker behind.
pub proof fn lemma_substitute_occ(ts: Seq<TokTree>, m: Seq<char>, r: Seq<TokTree>)
    ensures
        occ_all(sub_all(ts, m, r), m) == occ_all(ts, m) * occ_all(r, m),
    decreases ts,
{
    let o = occ_all(ts, m) as int;
    let c = occ_all(r, m) as int;
    if ts.len() != 0 {
        lemma_substitute_occ_tok(ts[0], m, r);
        lemma_substitute_occ(ts.drop_first(), m, r);
        assert(sub_all(ts, m, r) == sub_tok(ts[0], m, r) + sub_all(ts.drop_first(), m, r));
        assert(occ_all(ts, m) == occ_tok(ts[0], m) + occ_all(ts.drop_first(), m));
        lemma_occ_all_concat(sub_tok(ts[0], m, r), sub_all(ts.drop_first(), m, r), m);
        let x = occ_tok(ts[0], m) as int;
        let y = occ_all(ts.drop_first(), m) as int;
        assert(o * c == x * c + y * c) by (nonlinear_arith)
            requires
                o == x + y,
        ;
    } else {
        assert(o * c == 0) by (nonlinear_arith)
            requires
                o == 0,
        ;
    }
}

/// Deleting an absent marker a second time changes nothing: substituting an
/// empty replacement is idempotent.
pub proof fn lemma_substitute_empty_twice(ts: Seq<TokTree>, m: Seq<char>)
    ensures
        sub_all(sub_all(ts, m, Seq::empty()), m, Seq::empty()) == sub_all(ts, m, Seq::empty()),
{
    lemma_substitute_occ(ts, m, Seq::empty());
    let o = occ_all(ts, m) as int;
    let z = occ_all(Seq::<TokTree>::empty(), m) as int;
    assert(z == 0);
    assert(o * z == 0) by (nonlinear_arith)
        requires
            z == 0,
    ;
    lemma_substitute_absent(sub_all(ts, m, Seq::empty()), m, Seq::empty());
}

proof fn lemma_sub_all_len(ts: Seq<TokTree>, m: Seq<char>, r: Seq<TokTree>)
    ensures
        sub_all(ts, m, r).len() == ts.len() - occ_top(ts, m) + occ_top(ts, m) * r.len(),
    decreases ts,
{
    let o = occ_top(ts, m) as int;
    let s = r.len() as int;
    if ts.len() != 0 {
        lemma_sub_all_len(ts.drop_first(), m, r);
        assert(sub_all(ts, m, r) == sub_tok(ts[0], m, r) + sub_all(ts.drop_first(), m, r));
        let x = occ_top(ts.drop_first(), m) as int;
        if is_marker(ts[0], m) {
            assert(sub_tok(ts[0], m, r) == r);
            assert(o * s == s + x * s) by (nonlinear_arith)
                requires
                    o == 1 + x,
            ;
        } else {
            assert(sub_tok(ts[0], m, r).len() == 1);
        }
    } else {
        assert(o * s == 0) by (nonlinear_arith)
            requires
                o == 0,
        ;
    }
}

/// Delimiter preservation: substitution turns a group into exactly one group
/// with the same delimiter and position; its children are the substituted
/// children, whose number changes only at the direct marker children, each
/// traded for the replacement's length.
pub proof fn lemma_substitute_group(
    delim: Delim,
    span: usize,
    kids: Seq<TokTree>,
    m: Seq<char>,
    r: Seq<TokTree>,
)
    ensures
        sub_tok(TokTree::Node { delim, span, kids }, m, r) == seq![
            TokTree::Node { delim, span, kids: sub_all(kids, m, r) },
        ],
        sub_all(kids, m, r).len() == kids.len() - occ_top(kids, m) + occ_top(kids, m) * r.len(),
{
    lemma_sub_all_len(kids, m, r);
}

proof fn lemma_sub_all_snoc(ts: Seq<TokTree>, x: TokTree, m: Seq<char>, r: Seq<TokTree>)
    ensures
        sub_all(ts.push(x), m, r) == sub_all(ts, m, r) + sub_tok(x, m, r),
    decreases ts.len(),
{
    if ts.len() == 0 {
        assert(ts.push(x)[0] == x);
        assert(ts.push(x).drop_first().len() == 0);
        assert(sub_all(ts.push(x).drop_first(), m, r) == Seq::<TokTree>::empty());
        assert(sub_all(ts.push(x), m, r) == sub_tok(x, m, r) + Seq::<TokTree>::empty());
        assert(sub_all(ts, m, r) == Seq::<TokTree>::empty());
        assert(sub_all(ts.push(x), m, r) =~= sub_all(ts, m, r) + sub_tok(x, m, r));
    } else {
        lemma_sub_all_snoc(ts.drop_first(), x, m, r);
        assert(ts.push(x)[0] == ts[0]);
        assert(ts.push(x).drop_first() =~= ts.drop_first().push(x));
        assert(sub_all(ts.push(x), m, r) == sub_tok(ts[0], m, r) + sub_all(
            ts.drop_first().push(x),
            m,
            r,
        ));
        assert(sub_all(ts, m, r) == sub_tok(ts[0], m, r) + sub_all(ts.drop_first(), m, r));
        assert(sub_all(ts.push(x), m, r) =~= sub_all(ts, m, r) + sub_tok(x, m, r));
    }
}

fn substitute_tok(t: &Token, marker: &String, replacement: &Vec<Token>) -> (out: Vec<Token>)
    ensures
        models(out@) == sub_tok(t.model(), marker@, models(replacement@)),
    decreases t,
{
    broadcast use lemma_models;

    match t {
        Token::Atom { text, .. } => {
            if *text == *marker {
                copy_tokens(replacement)
            } else {
                let mut out: Vec<Token> = Vec::new();
                out.push(copy_token(t));
                proof {
                    lemma_models_one(out@);
                }
                out
            }
        },
        Token::Group { delim, span, children } => {
            let sub_children = substitute(children, marker, replacement);
            let mut out: Vec<Token> = Vec::new();
            out.push(Token::Group { delim: *delim, span: *span, children: sub_children });
            proof {
                lemma_models_one(out@);
            }
            out
        },
    }
}

/// Substitute `replacement` for every atom equal to `marker`, at any depth,
/// left to right; groups keep their delimiter kind and nesting.
#[verifier::loop_isolation(false)]
pub fn substitute(ts: &Vec<Token>, marker: &String, replacement: &Vec<Token>) -> (out: Vec<Token>)
    ensures
        models(out@) == sub_all(models(ts@), marker@, models(replacement@)),
    decreases ts,
{
    broadcast use lemma_models;

    let ghost m = marker@;
    let ghost r = models(replacement@);
    let mut out: Vec<Token> = Vec::new();
    proof {
        assert(models(ts@).take(0) =~= Seq::<TokTree>::empty());
    }
    let mut i: usize = 0;
    while i < ts.len()
        invariant
            i <= ts@.len(),
            models(out@) == sub_all(models(ts@).take(i as int), marker@, models(replacement@)),
        decreases ts@.len() - i,
    {
        let mut piece = substitute_tok(&ts[i], marker, replacement);
        let ghost old_out = out@;
        let ghost p = piece@;
        out.append(&mut piece);
        proof {
            lemma_models_concat(old_out, p);
            lemma_sub_all_snoc(models(ts@).take(i as int), models(ts@)[i as int], m, r);
            assert(models(ts@).take(i + 1) =~= models(ts@).take(i as int).push(
                models(ts@)[i as int],
            ));
        }
        i += 1;
    }
    proof {
        assert(models(ts@).take(ts@.len() as int) =~= models(ts@));
    }
    out
}

/// The source position of the first atom equal to the marker in one tree,
/// searching depth first.
pub open spec fn first_span_tok(t: TokTree, m: Seq<char>) -> Option<usize>
    decreases t,
{
    match t {
        TokTree::Leaf { text, span } => if text == m {
            Some(span)
        } else {
            None
        },
        TokTree::Node { kids, .. } => first_span_all(kids, m),
    }
}

/// The source position of the first atom equal to the marker, in document
/// order.
pub open spec fn first_span_all(ts: Seq<TokTree>, m: Seq<char>) -> Option<usize>
    decreases ts,
{
    if ts.len() == 0 {
        None
    } else {
        match first_span_tok(ts[0], m) {
            Some(sp) => Some(sp),
            None => first_span_all(ts.drop_first(), m),
        }
    }
}

/// What unifying a marker's positions yields: every atom equal to the marker
/// is replaced by one that carries the position of the first occurrence; a
/// sequence without the marker stays as it is.
pub open spec fn spec_mangle_ident(ts: Seq<TokTree>, m: Seq<char>) -> Seq<TokTree> {
    match first_span_all(ts, m) {
        None => ts,
        Some(sp) => sub_all(ts, m, seq![TokTree::Leaf { text: m, span: sp }]),
    }
}

fn find_first_span_tok(t: &Token, marker: &String) -> (r: Option<usize>)
    ensures
        r == first_span_tok(t.model(), marker@),
    decreases t,
{
    match t {
        Token::Atom { text, span } => {
            if *text == *marker {
                Some(*span)
            } else {
                None
            }
        },
        Token::Group { children, .. } => find_first_span(children, marker),
    }
}

#[verifier::loop_isolation(false)]
fn find_first_span(ts: &Vec<Token>, marker: &String) -> (r: Option<usize>)
    ensures
        r == first_span_all(models(ts@), marker@),
    decreases ts,
{
    broadcast use lemma_models;

    let ghost full = models(ts@);
    proof {
        assert(full.skip(0) =~= full);
    }
    let mut i: usize = 0;
    while i < ts.len()
        invariant
            i <= ts@.len(),
            first_span_all(models(ts@), marker@) == first_span_all(
                models(ts@).skip(i as int),
                marker@,
            ),
        decreases ts@.len() - i,
    {
        let r = find_first_span_tok(&ts[i], marker);
        proof {
            assert(full.skip(i as int)[0] == full[i as int]);
            assert(full.skip(i as int).drop_first() =~= full.skip(i + 1));
        }
        if let Some(sp) = r {
            return Some(sp);
        }
        i += 1;
    }
    proof {
        assert(full.skip(ts@.len() as int) =~= Seq::<TokTree>::empty());
        assert(first_span_all(Seq::<TokTree>::empty(), marker@) == None::<usize>);
    }
    None
}

/// Replace every atom equal to `marker` by one with the same text and the
/// source position of the first such atom, unifying the marker's positions
/// across `body`; without an occurrence the tokens come back unchanged.
pub fn mangle_ident(marker: &String, body: &Vec<Token>) -> (out: Vec<Token>)
    ensures
        models(out@) == spec_mangle_ident(models(body@), marker@),
{
    broadcast use lemma_models;

    match find_first_span(body, marker) {
        Some(sp) => {
            let mut rep: Vec<Token> = Vec::new();
            rep.push(Token::Atom { text: marker.clone(), span: sp });
            proof {
                lemma_models_one(rep@);
            }
            substitute(body, marker, &rep)
        },
        None => copy_tokens(body),
    }
}

} // verus!
