//! The structural token model: atoms and delimited groups, together with the
//! mathematical tree each value denotes.

use vstd::prelude::*;

verus! {

/// The delimiter kinds a group may carry.
#[derive(Clone, Copy, PartialEq, Eq, Structural, Debug)]
pub enum Delim {
    Paren,
    Bracket,
    Brace,
}

/// One token of source code: an atom (an identifier, literal or punctuation
/// mark, carrying its textual form and source position) or a group of child
/// tokens enclosed in a delimiter pair.
#[derive(Debug)]
pub enum Token {
    Atom { text: String, span: usize },
    Group { delim: Delim, span: usize, children: Vec<Token> },
}

/// The mathematical shape of a token: text as a character sequence, children
/// as a sequence of trees.  Contracts throughout the crate speak of this
/// type.
#[verifier::ext_equal]
pub enum TokTree {
    Leaf { text: Seq<char>, span: usize },
    Node { delim: Delim, span: usize, kids: Seq<TokTree> },
}

impl Token {
    /// The tree a token denotes.
    pub open spec fn model(self) -> TokTree
        decreases self,
    {
        match self {
            Token::Atom { text, span } => TokTree::Leaf { text: text@, span },
            Token::Group { delim, span, children } => TokTree::Node {
                delim,
                span,
                kids: models(children@),
            },
        }
    }
}

/// The trees a token sequence denotes, element by element.
pub open spec fn models(ts: Seq<Token>) -> Seq<TokTree>
    decreases ts,
{
    if ts.len() == 0 {
        Seq::empty()
    } else {
        seq![ts[0].model()] + models(ts.drop_first())
    }
}

/// `models` maps a sequence element by element.
pub broadcast proof fn lemma_models(ts: Seq<Token>)
    ensures
        (#[trigger] models(ts)).len() == ts.len(),
        forall|i: int| 0 <= i < ts.len() ==> models(ts)[i] == ts[i].model(),
    decreases ts.len(),
{
    if ts.len() > 0 {
        lemma_models(ts.drop_first());
        assert forall|i: int| 0 <= i < ts.len() implies models(ts)[i] == ts[i].model() by {
            if i > 0 {
                assert(models(ts)[i] == models(ts.drop_first())[i - 1]);
                assert(ts.drop_first()[i - 1] == ts[i]);
            }
        }
    }
}

/// `models` distributes over concatenation.
pub broadcast proof fn lemma_models_concat(a: Seq<Token>, b: Seq<Token>)
    ensures
        #[trigger] models(a + b) == models(a) + models(b),
    decreases a.len(),
{
    if a.len() == 0 {
        assert(a + b =~= b);
        assert(models(a) + models(b) =~= models(b));
    } else {
        lemma_models_concat(a.drop_first(), b);
        assert((a + b).drop_first() =~= a.drop_first() + b);
        assert(models(a + b) =~= models(a) + models(b));
    }
}

/// A singleton sequence denotes the singleton of what its element denotes.
pub proof fn lemma_models_one(ts: Seq<Token>)
    requires
        ts.len() == 1,
    ensures
        models(ts) == seq![ts[0].model()],
{
    assert(ts.drop_first().len() == 0);
    assert(models(ts.drop_first()) =~= Seq::<TokTree>::empty());
    assert(models(ts) =~= seq![ts[0].model()]);
}

/// Appending one token appends what it denotes.
pub proof fn lemma_models_push(ts: Seq<Token>, x: Token)
    ensures
        models(ts.push(x)) == models(ts) + seq![x.model()],
{
    assert(ts.push(x) =~= ts + seq![x]);
    lemma_models_concat(ts, seq![x]);
    lemma_models_one(seq![x]);
}

/// A deep copy of one token; the copy denotes the same tree.
pub fn copy_token(t: &Token) -> (out: Token)
    ensures
        out.model() == t.model(),
    decreases t,
{
    match t {
        Token::Atom { text, span } => Token::Atom { text: text.clone(), span: *span },
        Token::Group { delim, span, children } => Token::Group {
            delim: *delim,
            span: *span,
            children: copy_tokens(children),
        },
    }
}

/// A deep copy of a token sequence; the copy denotes the same trees.
pub fn copy_tokens(ts: &Vec<Token>) -> (out: Vec<Token>)
    ensures
        models(out@) == models(ts@),
    decreases ts,
{
    broadcast use lemma_models;

    let mut out: Vec<Token> = Vec::new();
    let mut i: usize = 0;
    while i < ts.len()
        invariant
            i <= ts.len(),
            out@.len() == i,
            forall|j: int| 0 <= j < i ==> out@[j].model() == ts@[j].model(),
        decreases ts@.len() - i,
    {
        let c = copy_token(&ts[i]);
        out.push(c);
        i += 1;
    }
    assert(models(out@) =~= models(ts@));
    out
}

/// Whether two tokens denote the same tree: same kind, same text or
/// delimiter, same position, and equal children throughout.
pub fn tree_eq(a: &Token, b: &Token) -> (r: bool)
    ensures
        r == (a.model() == b.model()),
    decreases a,
{
    match (a, b) {
        (Token::Atom { text: t1, span: s1 }, Token::Atom { text: t2, span: s2 }) => {
            *s1 == *s2 && *t1 == *t2
        },
        (
            Token::Group { delim: d1, span: s1, children: c1 },
            Token::Group { delim: d2, span: s2, children: c2 },
        ) => {
            *d1 == *d2 && *s1 == *s2 && trees_eq(c1, c2)
        },
        _ => false,
    }
}

/// Whether two token sequences denote the same trees, element by element.
#[verifier::loop_isolation(false)]
pub fn trees_eq(a: &Vec<Token>, b: &Vec<Token>) -> (r: bool)
    ensures
        r == (models(a@) == models(b@)),
    decreases a,
{
    broadcast use lemma_models;

    if a.len() != b.len() {
        return false;
    }
    let mut i: usize = 0;
    while i < a.len()
        invariant
            0 <= i <= a@.len(),
            a@.len() == b@.len(),
            forall|j: int| 0 <= j < i ==> a@[j].model() == b@[j].model(),
        decreases a@.len() - i,
    {
        if !tree_eq(&a[i], &b[i]) {
            proof {
                assert(models(a@)[i as int] != models(b@)[i as int]);
            }
            return false;
        }
        i += 1;
    }
    proof {
        assert(models(a@) =~= models(b@));
    }
    true
}

/// A deep copy of the tokens at positions `a..b`.
#[verifier::loop_isolation(false)]
pub fn copy_range(v: &Vec<Token>, a: usize, b: usize) -> (out: Vec<Token>)
    requires
        a <= b <= v@.len(),
    ensures
        models(out@) == models(v@).subrange(a as int, b as int),
{
    broadcast use lemma_models;

    let mut out: Vec<Token> = Vec::new();
    let mut i: usize = a;
    while i < b
        invariant
            a <= i <= b,
            out@.len() == i - a,
            forall|j: int| 0 <= j < out@.len() ==> out@[j].model() == v@[a + j].model(),
        decreases b - i,
    {
        let c = copy_token(&v[i]);
        out.push(c);
        i += 1;
    }
    assert(models(out@) =~= models(v@).subrange(a as int, b as int));
    out
}

} // verus!
