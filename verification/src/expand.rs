//! Expansion and emission: applying a parsed template to a caller-supplied
//! invocation.  The component name is formatted after the naming pattern, the
//! optional blocks of template and caller are merged, the caller's view
//! tokens are substituted for the view marker inside the template's view, and
//! the assembled component definition is serialised back to tokens for the
//! lower-level component-definition template.

use vstd::prelude::*;
use vstd::string::StringExecFns;

use crate::subst::{is_marker, sub_all, substitute};
use crate::template::{atom_is, lemma_comma_pos, models_nested, opt_models, spec_is_ident,
    spec_parse, spec_split_commas, ParseError, TemplateModel, TemplateSpec, UpdateModel};
use crate::token::{copy_tokens, lemma_models, lemma_models_concat, lemma_models_push, models,
    Delim, TokTree, Token};

verus! {

/// The marker identifier at whose occurrences a generated template splices
/// the caller's view tokens.
pub open spec fn view_marker() -> Seq<char> {
    "KURAGE_INNER"@
}

/// The view marker as a string value.
pub fn view_marker_text() -> (s: String)
    ensures
        s@ == view_marker(),
{
    String::from_str("KURAGE_INNER")
}

/// What a caller of a generated template supplies: a base name for the new
/// component, optional extra fields and init block, the mandatory update
/// handlers and output variants, and the view tokens to splice at the
/// marker.
#[derive(Debug)]
pub struct Invocation {
    /// The base name generated identifiers are formatted from.
    pub base_name: String,
    /// Source position of the base name.
    pub base_span: usize,
    /// Extra model fields supplied by the caller.
    pub extra_fields: Option<Vec<Token>>,
    /// The caller's init block.
    pub init_body: Option<Vec<Token>>,
    /// The caller's message handlers.
    pub update_body: Vec<Token>,
    /// The caller's output variants.
    pub outputs: Vec<Vec<Token>>,
    /// The view tokens substituted for the marker.
    pub view: Vec<Token>,
}

/// The mathematical content of an [`Invocation`].
#[verifier::ext_equal]
pub struct InvocationModel {
    pub base_name: Seq<char>,
    pub base_span: usize,
    pub extra_fields: Option<Seq<TokTree>>,
    pub init_body: Option<Seq<TokTree>>,
    pub update_body: Seq<TokTree>,
    pub outputs: Seq<Seq<TokTree>>,
    pub view: Seq<TokTree>,
}

impl Invocation {
    pub open spec fn model(self) -> InvocationModel {
        InvocationModel {
            base_name: self.base_name@,
            base_span: self.base_span,
            extra_fields: opt_models(self.extra_fields),
            init_body: opt_models(self.init_body),
            update_body: models(self.update_body@),
            outputs: models_nested(self.outputs@),
            view: models(self.view@),
        }
    }
}

/// The assembled component definition a template expansion forwards to the
/// lower-level component-definition template.
#[derive(Debug)]
pub struct ComponentSpec {
    /// The formatted component name.
    pub name: String,
    /// Source position of the caller's base name.
    pub name_span: usize,
    /// Template and caller extra fields, merged.
    pub extra_fields: Option<Vec<Token>>,
    /// Template and caller init bodies, merged.
    pub init_body: Option<Vec<Token>>,
    /// Template handlers followed by the caller's handlers.
    pub update_body: Vec<Token>,
    /// Template output variants followed by the caller's.
    pub outputs: Vec<Vec<Token>>,
    /// The template's view with the caller's view at the marker.
    pub view: Vec<Token>,
}

/// The mathematical content of a [`ComponentSpec`].
#[verifier::ext_equal]
pub struct ComponentModel {
    pub name: Seq<char>,
    pub name_span: usize,
    pub extra_fields: Option<Seq<TokTree>>,
    pub init_body: Option<Seq<TokTree>>,
    pub update_body: Seq<TokTree>,
    pub outputs: Seq<Seq<TokTree>>,
    pub view: Seq<TokTree>,
}

impl ComponentSpec {
    pub open spec fn model(self) -> ComponentModel {
        ComponentModel {
            name: self.name@,
            name_span: self.name_span,
            extra_fields: opt_models(self.extra_fields),
            init_body: opt_models(self.init_body),
            update_body: models(self.update_body@),
            outputs: models_nested(self.outputs@),
            view: models(self.view@),
        }
    }
}

/// What formatting a name from a pattern yields: the pattern's atoms
/// concatenated in order, with the `$name` metavariable standing for the
/// base name, the `<` and `>` of the pattern syntax dropped, and groups
/// flattened into their children.
pub open spec fn spec_mangle(pat: Seq<TokTree>, base: Seq<char>) -> Seq<char>
    decreases pat,
{
    if pat.len() == 0 {
        Seq::empty()
    } else if is_marker(pat[0], "$"@) && pat.len() >= 2 && is_marker(pat[1], "name"@) {
        base + spec_mangle(pat.skip(2), base)
    } else {
        spec_mangle_tok(pat[0], base) + spec_mangle(pat.drop_first(), base)
    }
}

/// One pattern token's contribution to the formatted name.
pub open spec fn spec_mangle_tok(t: TokTree, base: Seq<char>) -> Seq<char>
    decreases t,
{
    match t {
        TokTree::Leaf { text, .. } => if text == "<"@ || text == ">"@ {
            Seq::empty()
        } else {
            text
        },
        TokTree::Node { kids, .. } => spec_mangle(kids, base),
    }
}

/// The component name an expansion uses: the naming pattern applied to the
/// base name, or the base name verbatim when no pattern was given.
pub open spec fn spec_component_name(naming: Option<Seq<TokTree>>, base: Seq<char>) -> Seq<char> {
    match naming {
        Some(p) => spec_mangle(p, base),
        None => base,
    }
}

fn mangle_tok(t: &Token, base: &String) -> (out: String)
    ensures
        out@ == spec_mangle_tok(t.model(), base@),
    decreases t,
{
    match t {
        Token::Atom { text, .. } => {
            let lt = String::from_str("<");
            let gt = String::from_str(">");
            if *text == lt || *text == gt {
                String::new()
            } else {
                text.clone()
            }
        },
        Token::Group { children, .. } => mangle(children, base),
    }
}

/// Format a name from a naming pattern and a base name (see
/// [`spec_mangle`]).
#[verifier::loop_isolation(false)]
pub fn mangle(pat: &Vec<Token>, base: &String) -> (out: String)
    ensures
        out@ == spec_mangle(models(pat@), base@),
    decreases pat,
{
    broadcast use lemma_models;

    let dollar = String::from_str("$");
    let name_kw = String::from_str("name");
    let ghost ms = models(pat@);
    let mut out = String::new();
    proof {
        assert(ms.skip(0) =~= ms);
        assert(out@ + spec_mangle(ms, base@) =~= spec_mangle(ms, base@));
    }
    let mut i: usize = 0;
    while i < pat.len()
        invariant
            0 <= i <= pat@.len(),
            out@ + spec_mangle(ms.skip(i as int), base@) == spec_mangle(ms, base@),
        decreases pat@.len() - i,
    {
        let ghost pre = out@;
        proof {
            assert(ms.skip(i as int)[0] == ms[i as int]);
            if i + 1 < pat.len() {
                assert(ms.skip(i as int)[1] == ms[i + 1]);
            }
        }
        if atom_is(&pat[i], &dollar) && i + 1 < pat.len() && atom_is(&pat[i + 1], &name_kw) {
            out.append(base.as_str());
            proof {
                assert(ms.skip(i as int).skip(2) =~= ms.skip(i + 2));
                assert(spec_mangle(ms.skip(i as int), base@) == base@ + spec_mangle(
                    ms.skip(i + 2),
                    base@,
                ));
                assert(pre + (base@ + spec_mangle(ms.skip(i + 2), base@)) =~= (pre + base@)
                    + spec_mangle(ms.skip(i + 2), base@));
            }
            i += 2;
        } else {
            let piece = mangle_tok(&pat[i], base);
            out.append(piece.as_str());
            proof {
                assert(ms.skip(i as int).drop_first() =~= ms.skip(i + 1));
                assert(spec_mangle(ms.skip(i as int), base@) == spec_mangle_tok(
                    ms[i as int],
                    base@,
                ) + spec_mangle(ms.skip(i + 1), base@));
                assert(pre + (piece@ + spec_mangle(ms.skip(i + 1), base@)) =~= (pre + piece@)
                    + spec_mangle(ms.skip(i + 1), base@));
            }
            i += 1;
        }
    }
    proof {
        assert(ms.skip(pat@.len() as int) =~= Seq::<TokTree>::empty());
        assert(spec_mangle(Seq::<TokTree>::empty(), base@) =~= Seq::<char>::empty());
        assert(out@ + Seq::<char>::empty() =~= out@);
    }
    out
}

/// Merging two optional blocks: absent when both are absent, otherwise all
/// that is present, template part first.
pub open spec fn spec_combine_opt(a: Option<Seq<TokTree>>, b: Option<Seq<TokTree>>) -> Option<
    Seq<TokTree>,
> {
    match (a, b) {
        (None, None) => None,
        (Some(x), None) => Some(x),
        (None, Some(y)) => Some(y),
        (Some(x), Some(y)) => Some(x + y),
    }
}

fn combine_opt(a: &Option<Vec<Token>>, b: &Option<Vec<Token>>) -> (out: Option<Vec<Token>>)
    ensures
        opt_models(out) == spec_combine_opt(opt_models(*a), opt_models(*b)),
{
    match (a, b) {
        (None, None) => None,
        (Some(x), None) => Some(copy_tokens(x)),
        (None, Some(y)) => Some(copy_tokens(y)),
        (Some(x), Some(y)) => {
            let mut v = copy_tokens(x);
            let mut w = copy_tokens(y);
            let ghost vm = v@;
            let ghost wm = w@;
            v.append(&mut w);
            proof {
                lemma_models_concat(vm, wm);
            }
            Some(v)
        },
    }
}

#[verifier::loop_isolation(false)]
fn copy_nested(vs: &Vec<Vec<Token>>) -> (out: Vec<Vec<Token>>)
    ensures
        models_nested(out@) == models_nested(vs@),
{
    let mut out: Vec<Vec<Token>> = Vec::new();
    let mut i: usize = 0;
    while i < vs.len()
        invariant
            0 <= i <= vs@.len(),
            out@.len() == i,
            forall|j: int| 0 <= j < i ==> models(#[trigger] out@[j]@) == models(vs@[j]@),
        decreases vs@.len() - i,
    {
        let c = copy_tokens(&vs[i]);
        out.push(c);
        i += 1;
    }
    assert(models_nested(out@) =~= models_nested(vs@));
    out
}

/// What expanding a template against an invocation yields: the formatted
/// name, the merged blocks, template handlers and outputs ahead of the
/// caller's, and the template's view with the caller's view tokens spliced
/// at every occurrence of the view marker.
pub open spec fn spec_expand(t: crate::template::TemplateModel, c: InvocationModel)
    -> ComponentModel {
    ComponentModel {
        name: spec_component_name(t.naming, c.base_name),
        name_span: c.base_span,
        extra_fields: spec_combine_opt(t.extra_fields, c.extra_fields),
        init_body: spec_combine_opt(t.init_body, c.init_body),
        update_body: (match t.update {
            Some(u) => u.body,
            None => Seq::empty(),
        }) + c.update_body,
        outputs: (match t.update {
            Some(u) => u.outputs,
            None => Seq::empty(),
        }) + c.outputs,
        view: sub_all(t.view, view_marker(), c.view),
    }
}

proof fn lemma_models_nested_concat(a: Seq<Vec<Token>>, b: Seq<Vec<Token>>)
    ensures
        models_nested(a + b) == models_nested(a) + models_nested(b),
{
    assert(models_nested(a + b) =~= models_nested(a) + models_nested(b));
}

impl TemplateSpec {
    /// The behaviour of the generated template when invoked: format the
    /// name, merge the blocks, and substitute the caller's view tokens for
    /// the view marker inside the template's view.
    pub fn expand(&self, call: &Invocation) -> (out: ComponentSpec)
        ensures
            out.model() == spec_expand(self.model(), call.model()),
    {
        let name = match &self.naming {
            Some(p) => mangle(p, &call.base_name),
            None => call.base_name.clone(),
        };
        let extra_fields = combine_opt(&self.extra_fields, &call.extra_fields);
        let init_body = combine_opt(&self.init_body, &call.init_body);
        let (mut update_body, mut outputs): (Vec<Token>, Vec<Vec<Token>>) = match &self.update {
            Some(u) => (copy_tokens(&u.body), copy_nested(&u.outputs)),
            None => (Vec::new(), Vec::new()),
        };
        let ghost ubm = update_body@;
        let ghost outm = outputs@;
        let mut cb = copy_tokens(&call.update_body);
        let ghost cbm = cb@;
        update_body.append(&mut cb);
        let mut co = copy_nested(&call.outputs);
        let ghost com = co@;
        outputs.append(&mut co);
        let marker = view_marker_text();
        let view = substitute(&self.view, &marker, &call.view);
        let out = ComponentSpec {
            name,
            name_span: call.base_span,
            extra_fields,
            init_body,
            update_body,
            outputs,
            view,
        };
        proof {
            lemma_models_concat(ubm, cbm);
            lemma_models_nested_concat(outm, com);
            if self.update is None {
                assert(models(ubm) =~= Seq::<TokTree>::empty());
                assert(models_nested(outm) =~= Seq::<Seq<TokTree>>::empty());
            }
            assert(Seq::<TokTree>::empty() + models(call.update_body@) =~= models(
                call.update_body@,
            ));
            assert(Seq::<Seq<TokTree>>::empty() + models_nested(call.outputs@) =~= models_nested(
                call.outputs@,
            ));
            assert(out.model() =~~= spec_expand(self.model(), call.model()));
        }
        out
    }
}

/// The token a top-level comma in a serialised output list carries.
pub open spec fn comma_leaf() -> TokTree {
    TokTree::Leaf { text: ","@, span: 0 }
}

/// Joining an output-variant list with top-level commas, the inverse shape
/// of splitting: parts in order, one comma between two parts, none trailing.
pub open spec fn spec_join_commas(segs: Seq<Seq<TokTree>>) -> Seq<TokTree>
    decreases segs.len(),
{
    if segs.len() == 0 {
        Seq::empty()
    } else if segs.len() == 1 {
        segs[0]
    } else {
        segs[0] + seq![comma_leaf()] + spec_join_commas(segs.drop_first())
    }
}

/// Join token sequences with top-level commas (see [`spec_join_commas`]).
#[verifier::loop_isolation(false)]
pub fn join_commas(vs: &Vec<Vec<Token>>) -> (out: Vec<Token>)
    ensures
        models(out@) == spec_join_commas(models_nested(vs@)),
{
    broadcast use lemma_models;

    let ghost ns = models_nested(vs@);
    let mut out: Vec<Token> = Vec::new();
    let mut i: usize = 0;
    while i < vs.len()
        invariant
            0 <= i <= vs@.len(),
            i == 0 ==> out@.len() == 0,
            i > 0 ==> models(out@) + (if i < vs@.len() {
                seq![comma_leaf()]
            } else {
                Seq::<TokTree>::empty()
            }) + spec_join_commas(ns.skip(i as int)) == spec_join_commas(ns),
        decreases vs@.len() - i,
    {
        if i > 0 {
            out.push(Token::Atom { text: String::from_str(","), span: 0 });
        }
        let mut seg = copy_tokens(&vs[i]);
        let ghost pre = out@;
        let ghost segm = seg@;
        out.append(&mut seg);
        proof {
            lemma_models_concat(pre, segm);
            assert(ns.skip(i as int)[0] == ns[i as int]);
            assert(ns[i as int] == models(vs@[i as int]@));
            assert(ns.skip(i as int).drop_first() =~= ns.skip(i + 1));
            if ns.skip(i as int).len() == 1 {
                assert(spec_join_commas(ns.skip(i as int)) == ns[i as int]);
            } else {
                assert(spec_join_commas(ns.skip(i as int)) == ns[i as int] + seq![comma_leaf()]
                    + spec_join_commas(ns.skip(i + 1)));
            }
            assert(models(out@) + (if i + 1 < vs@.len() {
                seq![comma_leaf()]
            } else {
                Seq::<TokTree>::empty()
            }) + spec_join_commas(ns.skip(i + 1)) =~= spec_join_commas(ns));
        }
        i += 1;
    }
    proof {
        if vs@.len() == 0 {
            assert(models(out@) =~= Seq::<TokTree>::empty());
            assert(spec_join_commas(ns) == Seq::<TokTree>::empty());
        } else {
            assert(ns.skip(vs@.len() as int) =~= Seq::<Seq<TokTree>>::empty());
            assert(spec_join_commas(Seq::<Seq<TokTree>>::empty()) == Seq::<TokTree>::empty());
            assert(models(out@) + Seq::<TokTree>::empty() + Seq::<TokTree>::empty() =~= models(
                out@,
            ));
        }
    }
    out
}

/// What serialising a component definition yields: the name, the optional
/// braced extra-fields block, the colon, the optional init section, the
/// mandatory update section with its comma-joined output list, then the view
/// tokens — the grammar the lower-level template accepts.
pub open spec fn spec_component_tokens(c: ComponentModel) -> Seq<TokTree> {
    seq![TokTree::Leaf { text: c.name, span: c.name_span }] + (match c.extra_fields {
        Some(f) => seq![TokTree::Node { delim: Delim::Brace, span: 0, kids: f }],
        None => Seq::empty(),
    }) + seq![TokTree::Leaf { text: ":"@, span: 0 }] + (match c.init_body {
        Some(b) => seq![
            TokTree::Leaf { text: "init"@, span: 0 },
            TokTree::Leaf { text: ":"@, span: 0 },
            TokTree::Node { delim: Delim::Brace, span: 0, kids: b },
        ],
        None => Seq::empty(),
    }) + seq![
        TokTree::Leaf { text: "update"@, span: 0 },
        TokTree::Leaf { text: ":"@, span: 0 },
        TokTree::Node { delim: Delim::Brace, span: 0, kids: c.update_body },
        TokTree::Leaf { text: "=>"@, span: 0 },
        TokTree::Node { delim: Delim::Brace, span: 0, kids: spec_join_commas(c.outputs) },
    ] + c.view
}

impl ComponentSpec {
    /// Serialise the assembled component definition back to tokens, in the
    /// grammar the lower-level component-definition template accepts.
    pub fn to_tokens(&self) -> (out: Vec<Token>)
        ensures
            models(out@) == spec_component_tokens(self.model()),
    {
        broadcast use lemma_models;

        let mut out: Vec<Token> = Vec::new();
        out.push(Token::Atom { text: self.name.clone(), span: self.name_span });
        proof {
            lemma_models_push(Seq::<Token>::empty(), out@[0]);
            assert(models(Seq::<Token>::empty()) =~= Seq::<TokTree>::empty());
        }
        if let Some(f) = &self.extra_fields {
            let ghost pre = out@;
            out.push(Token::Group { delim: Delim::Brace, span: 0, children: copy_tokens(f) });
            proof {
                lemma_models_push(pre, out@[out@.len() - 1]);
            }
        }
        let ghost pre = out@;
        out.push(Token::Atom { text: String::from_str(":"), span: 0 });
        proof {
            lemma_models_push(pre, out@[out@.len() - 1]);
        }
        if let Some(b) = &self.init_body {
            let ghost pre = out@;
            out.push(Token::Atom { text: String::from_str("init"), span: 0 });
            proof {
                lemma_models_push(pre, out@[out@.len() - 1]);
            }
            let ghost pre = out@;
            out.push(Token::Atom { text: String::from_str(":"), span: 0 });
            proof {
                lemma_models_push(pre, out@[out@.len() - 1]);
            }
            let ghost pre = out@;
            out.push(Token::Group { delim: Delim::Brace, span: 0, children: copy_tokens(b) });
            proof {
                lemma_models_push(pre, out@[out@.len() - 1]);
            }
        }
        let ghost pre = out@;
        out.push(Token::Atom { text: String::from_str("update"), span: 0 });
        proof {
            lemma_models_push(pre, out@[out@.len() - 1]);
        }
        let ghost pre = out@;
        out.push(Token::Atom { text: String::from_str(":"), span: 0 });
        proof {
            lemma_models_push(pre, out@[out@.len() - 1]);
        }
        let ghost pre = out@;
        out.push(
            Token::Group { delim: Delim::Brace, span: 0, children: copy_tokens(&self.update_body) },
        );
        proof {
            lemma_models_push(pre, out@[out@.len() - 1]);
        }
        let ghost pre = out@;
        out.push(Token::Atom { text: String::from_str("=>"), span: 0 });
        proof {
            lemma_models_push(pre, out@[out@.len() - 1]);
        }
        let ghost pre = out@;
        out.push(
            Token::Group {
                delim: Delim::Brace,
                span: 0,
                children: join_commas(&self.outputs),
            },
        );
        proof {
            lemma_models_push(pre, out@[out@.len() - 1]);
        }
        let ghost pre = out@;
        let mut v = copy_tokens(&self.view);
        let ghost vm = v@;
        out.append(&mut v);
        proof {
            lemma_models_concat(pre, vm);
            assert(models(out@) =~= spec_component_tokens(self.model()));
        }
        out
    }
}

/// A sequence with no top-level comma atom.
pub open spec fn comma_free(ts: Seq<TokTree>) -> bool {
    forall|i: int| 0 <= i < ts.len() ==> !is_marker(#[trigger] ts[i], ","@)
}

/// Splitting undoes joining: a list of comma-free parts whose last part is
/// nonempty comes back from its comma-joined form exactly.
pub proof fn lemma_split_join_commas(segs: Seq<Seq<TokTree>>)
    requires
        forall|i: int| 0 <= i < segs.len() ==> comma_free(#[trigger] segs[i]),
        segs.len() > 0 ==> segs.last().len() > 0,
    ensures
        spec_split_commas(spec_join_commas(segs)) == segs,
    decreases segs.len(),
{
    if segs.len() == 0 {
    } else if segs.len() == 1 {
        let s0 = segs[0];
        assert(segs.last() == s0);
        assert(comma_free(s0));
        lemma_comma_pos(s0, s0.len() as int);
        assert(spec_split_commas(s0) == seq![s0]);
        assert(seq![s0] =~= segs);
    } else {
        let s0 = segs[0];
        let rest = segs.drop_first();
        let jr = spec_join_commas(rest);
        let j = spec_join_commas(segs);
        assert(j == s0 + seq![comma_leaf()] + jr);
        assert forall|k: int| 0 <= k < s0.len() implies !is_marker(#[trigger] j[k], ","@) by {
            assert(j[k] == s0[k]);
            assert(comma_free(s0));
        }
        assert(j[s0.len() as int] == comma_leaf());
        lemma_comma_pos(j, s0.len() as int);
        assert(j.take(s0.len() as int) =~= s0);
        assert(j.skip(s0.len() as int + 1) =~= jr);
        assert forall|i: int| 0 <= i < rest.len() implies comma_free(#[trigger] rest[i]) by {
            assert(rest[i] == segs[i + 1]);
        }
        assert(rest.last() == segs.last());
        lemma_split_join_commas(rest);
        assert(spec_split_commas(j) == seq![s0] + spec_split_commas(jr));
        assert(seq![s0] + rest =~= segs);
    }
}

/// What the serialised form of a component parses back to: the same pieces,
/// with no naming pattern and the update section always present.
pub open spec fn reparsed_model(c: ComponentModel) -> TemplateModel {
    TemplateModel {
        name: c.name,
        name_span: c.name_span,
        naming: None,
        extra_fields: c.extra_fields,
        init_body: c.init_body,
        update: Some(UpdateModel { body: c.update_body, outputs: c.outputs }),
        view: c.view,
    }
}

/// Emission meets the grammar it serialises for: parsing the serialised
/// component recovers every piece exactly, provided the name is an
/// identifier, some view token is present, and the output variants are
/// comma-free with no empty final part.
pub proof fn lemma_component_tokens_reparse(c: ComponentModel)
    requires
        spec_is_ident(c.name),
        c.view.len() > 0,
        forall|i: int| 0 <= i < c.outputs.len() ==> comma_free(#[trigger] c.outputs[i]),
        c.outputs.len() > 0 ==> c.outputs.last().len() > 0,
    ensures
        spec_parse(spec_component_tokens(c)) == Ok::<TemplateModel, ParseError>(reparsed_model(c)),
{
    reveal_strlit("init");
    reveal_strlit("update");
    reveal_strlit(":");
    reveal_strlit("=>");
    lemma_split_join_commas(c.outputs);
    let ts = spec_component_tokens(c);
    let name_leaf = TokTree::Leaf { text: c.name, span: c.name_span };
    let colon = TokTree::Leaf { text: ":"@, span: 0 };
    let init_leaf = TokTree::Leaf { text: "init"@, span: 0 };
    let update_leaf = TokTree::Leaf { text: "update"@, span: 0 };
    let arrow = TokTree::Leaf { text: "=>"@, span: 0 };
    let body_node = TokTree::Node { delim: Delim::Brace, span: 0, kids: c.update_body };
    let outs_node = TokTree::Node {
        delim: Delim::Brace,
        span: 0,
        kids: spec_join_commas(c.outputs),
    };
    assert("init"@.len() == 4);
    assert("update"@.len() == 6);
    assert("init"@ != "update"@);
    match (c.extra_fields, c.init_body) {
        (None, None) => {
            assert(ts =~= seq![name_leaf, colon, update_leaf, colon, body_node, arrow, outs_node]
                + c.view);
            assert(ts.skip(7) =~= c.view);
            assert(spec_parse(ts) == Ok::<TemplateModel, ParseError>(reparsed_model(c)));
        },
        (Some(f), None) => {
            let fields_node = TokTree::Node { delim: Delim::Brace, span: 0, kids: f };
            assert(ts =~= seq![
                name_leaf,
                fields_node,
                colon,
                update_leaf,
                colon,
                body_node,
                arrow,
                outs_node,
            ] + c.view);
            assert(ts.skip(8) =~= c.view);
            assert(spec_parse(ts) == Ok::<TemplateModel, ParseError>(reparsed_model(c)));
        },
        (None, Some(b)) => {
            let init_node = TokTree::Node { delim: Delim::Brace, span: 0, kids: b };
            assert(ts =~= seq![
                name_leaf,
                colon,
                init_leaf,
                colon,
                init_node,
                update_leaf,
                colon,
                body_node,
                arrow,
                outs_node,
            ] + c.view);
            assert(ts.skip(10) =~= c.view);
            assert(spec_parse(ts) == Ok::<TemplateModel, ParseError>(reparsed_model(c)));
        },
        (Some(f), Some(b)) => {
            let fields_node = TokTree::Node { delim: Delim::Brace, span: 0, kids: f };
            let init_node = TokTree::Node { delim: Delim::Brace, span: 0, kids: b };
            assert(ts =~= seq![
                name_leaf,
                fields_node,
                colon,
                init_leaf,
                colon,
                init_node,
                update_leaf,
                colon,
                body_node,
                arrow,
                outs_node,
            ] + c.view);
            assert(ts.skip(11) =~= c.view);
            assert(spec_parse(ts) == Ok::<TemplateModel, ParseError>(reparsed_model(c)));
        },
    }
}

} // verus!
