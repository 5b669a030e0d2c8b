//! The template parser: one structured invocation of the template-definition
//! syntax is turned into a [`TemplateSpec`], enforcing the grammar
//!
//! ```text
//! name [naming-pattern] [ "{" extra-fields "}" ] ":"
//!   [ "init" ":" "{" init-body "}" ]
//!   [ "update" ":" "{" update-body "}" "=>" "{" output-variants "}" ]
//!   view-tokens
//! ```
//!
//! Every grammar violation yields a [`ParseError`] naming the expected
//! construct and the offending source position; nothing partial is produced.

use vstd::prelude::*;
use vstd::string::StrSliceExecFns;
use vstd::string::StringExecFns;

use crate::subst::is_marker;
use crate::token::{copy_range, copy_tokens, lemma_models, models, Delim, TokTree, Token};

verus! {

/// The grammar construct a failed parse expected to find.
#[derive(Clone, Copy, PartialEq, Eq, Structural, Debug)]
pub enum Expected {
    /// An identifier naming the template, at the very start.
    TemplateName,
    /// The colon that closes the header, or one after `init` / `update`.
    Colon,
    /// A brace-delimited block.
    BraceBlock,
    /// The `=>` that introduces the output-variant list of `update`.
    OutputList,
    /// At least one trailing view token.
    ViewTokens,
}

/// Why an invocation was rejected.  Every error carries the source position
/// of the offending token (or of the last token, when input ran out).
#[derive(Clone, Copy, PartialEq, Eq, Structural, Debug)]
pub enum ParseError {
    /// The input does not match the grammar at the given position.
    Grammar { expected: Expected, span: usize },
    /// The bracketed naming pattern was given a second time.
    DuplicateNamingPattern { span: usize },
}

impl ParseError {
    /// The text of the diagnostic for this error.
    pub open spec fn spec_message(self) -> Seq<char> {
        match self {
            ParseError::Grammar { expected, .. } => match expected {
                Expected::TemplateName => "expected an identifier naming the template"@,
                Expected::Colon => "expected `:`"@,
                Expected::BraceBlock => "expected a brace-delimited block"@,
                Expected::OutputList => "expected `=>` followed by the output-variant list"@,
                Expected::ViewTokens => "expected view tokens"@,
            },
            ParseError::DuplicateNamingPattern { .. } => "the naming pattern may be given once only"@,
        }
    }

    /// A human-readable message identifying the expected construct.
    pub fn message(&self) -> (r: String)
        ensures
            r@ == self.spec_message(),
    {
        match self {
            ParseError::Grammar { expected, .. } => match expected {
                Expected::TemplateName => String::from_str(
                    "expected an identifier naming the template",
                ),
                Expected::Colon => String::from_str("expected `:`"),
                Expected::BraceBlock => String::from_str("expected a brace-delimited block"),
                Expected::OutputList => String::from_str(
                    "expected `=>` followed by the output-variant list",
                ),
                Expected::ViewTokens => String::from_str("expected view tokens"),
            },
            ParseError::DuplicateNamingPattern { .. } => String::from_str(
                "the naming pattern may be given once only",
            ),
        }
    }
}

/// The update section of a template: extra message handlers and the output
/// variants every generated component carries.
#[derive(Debug)]
pub struct UpdateSpec {
    /// Message-name and handler-expression pairs, kept as raw tokens.
    pub body: Vec<Token>,
    /// The output-variant list, one entry per top-level comma-separated part.
    pub outputs: Vec<Vec<Token>>,
}

/// The mathematical content of an [`UpdateSpec`].
#[verifier::ext_equal]
pub struct UpdateModel {
    pub body: Seq<TokTree>,
    pub outputs: Seq<Seq<TokTree>>,
}

/// The trees a sequence of token sequences denotes.
pub open spec fn models_nested(vs: Seq<Vec<Token>>) -> Seq<Seq<TokTree>> {
    Seq::new(vs.len(), |i: int| models(vs[i]@))
}

impl UpdateSpec {
    pub open spec fn model(self) -> UpdateModel {
        UpdateModel { body: models(self.body@), outputs: models_nested(self.outputs@) }
    }
}

/// A parsed template definition: the mandatory name, the optional naming
/// pattern, extra-fields block, init block and update section, and the
/// trailing view tokens.  It is built once per invocation and consumed by
/// expansion.
#[derive(Debug)]
pub struct TemplateSpec {
    /// The name of the new reusable template.
    pub name: String,
    /// Source position of the name.
    pub name_span: usize,
    /// The bracketed naming pattern, if one was given.
    pub naming: Option<Vec<Token>>,
    /// The brace-delimited extra-fields block, if one was given.
    pub extra_fields: Option<Vec<Token>>,
    /// The body of `init: { ... }`, if the section was given.
    pub init_body: Option<Vec<Token>>,
    /// The `update: { ... } => { ... }` section, if it was given.
    pub update: Option<UpdateSpec>,
    /// The trailing view tokens; never empty.
    pub view: Vec<Token>,
}

/// The mathematical content of a [`TemplateSpec`].
#[verifier::ext_equal]
pub struct TemplateModel {
    pub name: Seq<char>,
    pub name_span: usize,
    pub naming: Option<Seq<TokTree>>,
    pub extra_fields: Option<Seq<TokTree>>,
    pub init_body: Option<Seq<TokTree>>,
    pub update: Option<UpdateModel>,
    pub view: Seq<TokTree>,
}

/// The trees an optional token sequence denotes.
pub open spec fn opt_models(o: Option<Vec<Token>>) -> Option<Seq<TokTree>> {
    match o {
        Some(v) => Some(models(v@)),
        None => None,
    }
}

impl TemplateSpec {
    pub open spec fn model(self) -> TemplateModel {
        TemplateModel {
            name: self.name@,
            name_span: self.name_span,
            naming: opt_models(self.naming),
            extra_fields: opt_models(self.extra_fields),
            init_body: opt_models(self.init_body),
            update: match self.update {
                Some(u) => Some(u.model()),
                None => None,
            },
            view: models(self.view@),
        }
    }
}

/// Whether a character may begin an identifier.
pub open spec fn ident_start(c: char) -> bool {
    c == '_' || ('a' as u32 <= c as u32 && c as u32 <= 'z' as u32) || ('A' as u32 <= c as u32
        && c as u32 <= 'Z' as u32)
}

/// Whether a character may continue an identifier.
pub open spec fn ident_continue(c: char) -> bool {
    ident_start(c) || ('0' as u32 <= c as u32 && c as u32 <= '9' as u32)
}

/// Whether a text is an identifier: nonempty, starting with a letter or
/// underscore, continuing with letters, digits or underscores.
pub open spec fn spec_is_ident(s: Seq<char>) -> bool {
    &&& s.len() > 0
    &&& ident_start(s[0])
    &&& forall|i: int| 1 <= i < s.len() ==> ident_continue(#[trigger] s[i])
}

fn is_ident_start_char(c: char) -> (r: bool)
    ensures
        r == ident_start(c),
{
    c == '_' || ('a' as u32 <= c as u32 && c as u32 <= 'z' as u32) || ('A' as u32 <= c as u32
        && c as u32 <= 'Z' as u32)
}

fn is_ident_continue_char(c: char) -> (r: bool)
    ensures
        r == ident_continue(c),
{
    is_ident_start_char(c) || ('0' as u32 <= c as u32 && c as u32 <= '9' as u32)
}

/// Whether a text is an identifier (see [`spec_is_ident`]).
#[verifier::loop_isolation(false)]
pub fn is_ident(s: &String) -> (r: bool)
    ensures
        r == spec_is_ident(s@),
{
    let n = s.as_str().unicode_len();
    if n == 0 {
        return false;
    }
    if !is_ident_start_char(s.as_str().get_char(0)) {
        return false;
    }
    let mut i: usize = 1;
    while i < n
        invariant
            1 <= i <= n,
            forall|j: int| 1 <= j < i ==> ident_continue(#[trigger] s@[j]),
        decreases n - i,
    {
        if !is_ident_continue_char(s.as_str().get_char(i)) {
            return false;
        }
        i += 1;
    }
    true
}

/// The source position a token carries.
pub open spec fn span_of(t: TokTree) -> usize {
    match t {
        TokTree::Leaf { span, .. } => span,
        TokTree::Node { span, .. } => span,
    }
}

/// The position errors point at when input runs out: that of the last token,
/// or zero on empty input.
pub open spec fn end_span(ts: Seq<TokTree>) -> usize {
    if ts.len() == 0 {
        0
    } else {
        span_of(ts[ts.len() - 1])
    }
}

/// The position of the token at `i`, or [`end_span`] past the end.
pub open spec fn span_at(ts: Seq<TokTree>, i: int) -> usize {
    if 0 <= i < ts.len() {
        span_of(ts[i])
    } else {
        end_span(ts)
    }
}

/// Whether a tree is a group with the given delimiter.
pub open spec fn group_with(t: TokTree, d: Delim) -> bool {
    match t {
        TokTree::Node { delim, .. } => delim == d,
        TokTree::Leaf { .. } => false,
    }
}

/// The children of a group, or the empty sequence on an atom.
pub open spec fn kids_of(t: TokTree) -> Seq<TokTree> {
    match t {
        TokTree::Node { kids, .. } => kids,
        TokTree::Leaf { .. } => Seq::empty(),
    }
}

/// The position of the first top-level comma atom, or the length if none.
pub open spec fn comma_pos(ts: Seq<TokTree>) -> int
    decreases ts.len(),
{
    if ts.len() == 0 {
        0
    } else if is_marker(ts[0], ","@) {
        0
    } else {
        1 + comma_pos(ts.drop_first())
    }
}

/// Splitting on top-level commas: the parts between commas, in order; a
/// trailing comma adds no empty part.
pub open spec fn spec_split_commas(ts: Seq<TokTree>) -> Seq<Seq<TokTree>>
    decreases ts.len(),
{
    if ts.len() == 0 {
        Seq::empty()
    } else {
        let j = comma_pos(ts);
        if 0 <= j < ts.len() {
            seq![ts.take(j)] + spec_split_commas(ts.skip(j + 1))
        } else {
            seq![ts]
        }
    }
}

/// `comma_pos` is pinned by its characterisation: no comma before `k`, and
/// either `k` is the length or a comma stands at `k`.
pub proof fn lemma_comma_pos(ts: Seq<TokTree>, k: int)
    requires
        0 <= k <= ts.len(),
        forall|j: int| 0 <= j < k ==> !is_marker(#[trigger] ts[j], ","@),
        k < ts.len() ==> is_marker(ts[k], ","@),
    ensures
        comma_pos(ts) == k,
    decreases k,
{
    if ts.len() == 0 {
    } else if k == 0 {
    } else {
        assert(!is_marker(ts[0], ","@));
        lemma_comma_pos(ts.drop_first(), k - 1);
    }
}

/// The header once the name is read: an optional bracketed naming pattern
/// (at most one), an optional braced extra-fields block, then the mandatory
/// colon.  Yields both options and the position after the colon.
pub open spec fn spec_parse_header(ts: Seq<TokTree>) -> Result<
    (Option<Seq<TokTree>>, Option<Seq<TokTree>>, int),
    ParseError,
> {
    let (naming, i): (Option<Seq<TokTree>>, int) = if 1 < ts.len() && group_with(
        ts[1],
        Delim::Bracket,
    ) {
        (Some(kids_of(ts[1])), 2)
    } else {
        (None, 1)
    };
    if naming is Some && 2 < ts.len() && group_with(ts[2], Delim::Bracket) {
        Err(ParseError::DuplicateNamingPattern { span: span_of(ts[2]) })
    } else if i >= ts.len() {
        Err(ParseError::Grammar { expected: Expected::Colon, span: end_span(ts) })
    } else if group_with(ts[i], Delim::Brace) {
        if i + 1 < ts.len() && is_marker(ts[i + 1], ":"@) {
            Ok((naming, Some(kids_of(ts[i])), i + 2))
        } else {
            Err(ParseError::Grammar { expected: Expected::Colon, span: span_at(ts, i + 1) })
        }
    } else if is_marker(ts[i], ":"@) {
        Ok((naming, None, i + 1))
    } else if ts[i] is Node {
        Err(ParseError::Grammar { expected: Expected::BraceBlock, span: span_of(ts[i]) })
    } else {
        Err(ParseError::Grammar { expected: Expected::Colon, span: span_of(ts[i]) })
    }
}

/// The optional `init ":" "{" init-body "}"` section at position `i`,
/// entered only when the very next token is the identifier `init`.
pub open spec fn spec_parse_init(ts: Seq<TokTree>, i: int) -> Result<
    (Option<Seq<TokTree>>, int),
    ParseError,
> {
    if i < ts.len() && is_marker(ts[i], "init"@) {
        if !(i + 1 < ts.len() && is_marker(ts[i + 1], ":"@)) {
            Err(ParseError::Grammar { expected: Expected::Colon, span: span_at(ts, i + 1) })
        } else if !(i + 2 < ts.len() && group_with(ts[i + 2], Delim::Brace)) {
            Err(ParseError::Grammar { expected: Expected::BraceBlock, span: span_at(ts, i + 2) })
        } else {
            Ok((Some(kids_of(ts[i + 2])), i + 3))
        }
    } else {
        Ok((None, i))
    }
}

/// The optional `update ":" "{" body "}" "=>" "{" outputs "}"` section at
/// position `i`, entered only when the very next token is the identifier
/// `update`; once entered, body, `=>` and output list are all mandatory.
pub open spec fn spec_parse_update(ts: Seq<TokTree>, i: int) -> Result<
    (Option<UpdateModel>, int),
    ParseError,
> {
    if i < ts.len() && is_marker(ts[i], "update"@) {
        if !(i + 1 < ts.len() && is_marker(ts[i + 1], ":"@)) {
            Err(ParseError::Grammar { expected: Expected::Colon, span: span_at(ts, i + 1) })
        } else if !(i + 2 < ts.len() && group_with(ts[i + 2], Delim::Brace)) {
            Err(ParseError::Grammar { expected: Expected::BraceBlock, span: span_at(ts, i + 2) })
        } else if !(i + 3 < ts.len() && is_marker(ts[i + 3], "=>"@)) {
            Err(ParseError::Grammar { expected: Expected::OutputList, span: span_at(ts, i + 3) })
        } else if !(i + 4 < ts.len() && group_with(ts[i + 4], Delim::Brace)) {
            Err(ParseError::Grammar { expected: Expected::BraceBlock, span: span_at(ts, i + 4) })
        } else {
            Ok(
                (
                    Some(
                        UpdateModel {
                            body: kids_of(ts[i + 2]),
                            outputs: spec_split_commas(kids_of(ts[i + 4])),
                        },
                    ),
                    i + 5,
                ),
            )
        }
    } else {
        Ok((None, i))
    }
}

/// What parsing a template definition yields: the name must be an
/// identifier; then header, optional sections and the nonempty view tokens
/// follow as the grammar demands, or the one error the offending position
/// raises.
pub open spec fn spec_parse(ts: Seq<TokTree>) -> Result<TemplateModel, ParseError> {
    if ts.len() == 0 {
        Err(ParseError::Grammar { expected: Expected::TemplateName, span: 0 })
    } else {
        match ts[0] {
            TokTree::Node { span, .. } => Err(
                ParseError::Grammar { expected: Expected::TemplateName, span },
            ),
            TokTree::Leaf { text, span } => {
                if !spec_is_ident(text) {
                    Err(ParseError::Grammar { expected: Expected::TemplateName, span })
                } else {
                    match spec_parse_header(ts) {
                        Err(e) => Err(e),
                        Ok((naming, extra_fields, i)) => match spec_parse_init(ts, i) {
                            Err(e) => Err(e),
                            Ok((init_body, i2)) => match spec_parse_update(ts, i2) {
                                Err(e) => Err(e),
                                Ok((update, i3)) => {
                                    if i3 >= ts.len() {
                                        Err(
                                            ParseError::Grammar {
                                                expected: Expected::ViewTokens,
                                                span: end_span(ts),
                                            },
                                        )
                                    } else {
                                        Ok(
                                            TemplateModel {
                                                name: text,
                                                name_span: span,
                                                naming,
                                                extra_fields,
                                                init_body,
                                                update,
                                                view: ts.skip(i3),
                                            },
                                        )
                                    }
                                },
                            },
                        },
                    }
                }
            },
        }
    }
}

/// The parse result seen mathematically.
pub open spec fn result_model(r: Result<TemplateSpec, ParseError>) -> Result<
    TemplateModel,
    ParseError,
> {
    match r {
        Ok(t) => Ok(t.model()),
        Err(e) => Err(e),
    }
}

/// Whether a token is an atom whose text equals `kw`.
pub fn atom_is(t: &Token, kw: &String) -> (r: bool)
    ensures
        r == is_marker(t.model(), kw@),
{
    match t {
        Token::Atom { text, .. } => *text == *kw,
        Token::Group { .. } => false,
    }
}

fn group_is(t: &Token, d: Delim) -> (r: bool)
    ensures
        r == group_with(t.model(), d),
{
    match t {
        Token::Group { delim, .. } => *delim == d,
        Token::Atom { .. } => false,
    }
}

fn is_group_token(t: &Token) -> (r: bool)
    ensures
        r == (t.model() is Node),
{
    match t {
        Token::Group { .. } => true,
        Token::Atom { .. } => false,
    }
}

fn token_span(t: &Token) -> (r: usize)
    ensures
        r == span_of(t.model()),
{
    match t {
        Token::Atom { span, .. } => *span,
        Token::Group { span, .. } => *span,
    }
}

fn end_span_of(ts: &Vec<Token>) -> (r: usize)
    ensures
        r == end_span(models(ts@)),
{
    broadcast use lemma_models;

    if ts.len() == 0 {
        0
    } else {
        token_span(&ts[ts.len() - 1])
    }
}

fn span_at_of(ts: &Vec<Token>, i: usize) -> (r: usize)
    ensures
        r == span_at(models(ts@), i as int),
{
    broadcast use lemma_models;

    if i < ts.len() {
        token_span(&ts[i])
    } else {
        end_span_of(ts)
    }
}

/// A deep copy of a group's children.
fn group_children_copy(t: &Token) -> (out: Vec<Token>)
    requires
        t.model() is Node,
    ensures
        models(out@) == kids_of(t.model()),
{
    match t {
        Token::Group { children, .. } => copy_tokens(children),
        Token::Atom { .. } => {
            proof {
                assert(false);
            }
            Vec::new()
        },
    }
}

/// First top-level comma at or after `start`, or the length if none.
#[verifier::loop_isolation(false)]
fn find_comma(v: &Vec<Token>, start: usize) -> (j: usize)
    requires
        start <= v@.len(),
    ensures
        start <= j <= v@.len(),
        forall|k: int| start <= k < j ==> !is_marker(#[trigger] models(v@)[k], ","@),
        j < v@.len() ==> is_marker(models(v@)[j as int], ","@),
{
    broadcast use lemma_models;

    let comma = String::from_str(",");
    let mut j: usize = start;
    while j < v.len()
        invariant
            start <= j <= v@.len(),
            forall|k: int| start <= k < j ==> !is_marker(#[trigger] models(v@)[k], ","@),
        decreases v@.len() - j,
    {
        if atom_is(&v[j], &comma) {
            return j;
        }
        j += 1;
    }
    j
}

/// Split a token sequence on its top-level commas, from `start` on.
#[verifier::loop_isolation(false)]
fn split_commas_from(v: &Vec<Token>, start: usize) -> (out: Vec<Vec<Token>>)
    requires
        start <= v@.len(),
    ensures
        models_nested(out@) == spec_split_commas(models(v@).skip(start as int)),
    decreases v@.len() - start,
{
    broadcast use lemma_models;

    let ghost s = models(v@).skip(start as int);
    if start == v.len() {
        let out: Vec<Vec<Token>> = Vec::new();
        proof {
            assert(s.len() == 0);
            assert(models_nested(out@) =~= spec_split_commas(s));
        }
        return out;
    }
    let j = find_comma(v, start);
    proof {
        assert forall|k: int| 0 <= k < j - start implies !is_marker(#[trigger] s[k], ","@) by {
            assert(s[k] == models(v@)[start + k]);
        }
        if j < v@.len() {
            assert(s[j - start] == models(v@)[j as int]);
        }
        lemma_comma_pos(s, j - start);
    }
    if j == v.len() {
        let seg = copy_range(v, start, v.len());
        let mut out: Vec<Vec<Token>> = Vec::new();
        out.push(seg);
        proof {
            assert(models(seg@) =~= s);
            assert(spec_split_commas(s) == seq![s]);
            assert(models_nested(out@) =~= seq![s]);
        }
        return out;
    }
    let seg = copy_range(v, start, j);
    let mut rest = split_commas_from(v, j + 1);
    let ghost rest_snap = rest@;
    let mut out: Vec<Vec<Token>> = Vec::new();
    out.push(seg);
    out.append(&mut rest);
    proof {
        assert(spec_split_commas(s) == seq![s.take(j - start)] + spec_split_commas(
            s.skip(j - start + 1),
        ));
        assert(models(seg@) =~= s.take(j - start));
        assert(models(v@).skip(j + 1) =~= s.skip(j - start + 1));
        assert(models_nested(out@) =~= seq![models(seg@)] + models_nested(rest_snap));
        assert(seq![models(seg@)] + models_nested(rest_snap) =~= seq![s.take(j - start)]
            + spec_split_commas(s.skip(j - start + 1)));
    }
    out
}

/// Split a token sequence on its top-level commas (see
/// [`spec_split_commas`]).
pub fn split_commas(v: &Vec<Token>) -> (out: Vec<Vec<Token>>)
    ensures
        models_nested(out@) == spec_split_commas(models(v@)),
{
    let out = split_commas_from(v, 0);
    proof {
        assert(models(v@).skip(0) =~= models(v@));
    }
    out
}

fn parse_header_exec(input: &Vec<Token>) -> (r: Result<
    (Option<Vec<Token>>, Option<Vec<Token>>, usize),
    ParseError,
>)
    requires
        input@.len() >= 1,
    ensures
        r matches Ok(h) ==> {
            &&& spec_parse_header(models(input@)) == Ok::<_, ParseError>(
                (opt_models(h.0), opt_models(h.1), h.2 as int),
            )
            &&& h.2 <= input@.len()
        },
        r matches Err(e) ==> spec_parse_header(models(input@)) == Err::<
            (Option<Seq<TokTree>>, Option<Seq<TokTree>>, int),
            _,
        >(e),
{
    broadcast use lemma_models;

    let ghost ms = models(input@);
    let colon = String::from_str(":");
    let mut naming: Option<Vec<Token>> = None;
    let mut i: usize = 1;
    if input.len() > 1 && group_is(&input[1], Delim::Bracket) {
        naming = Some(group_children_copy(&input[1]));
        i = 2;
        if input.len() > 2 && group_is(&input[2], Delim::Bracket) {
            return Err(ParseError::DuplicateNamingPattern { span: token_span(&input[2]) });
        }
    }
    if i >= input.len() {
        return Err(ParseError::Grammar { expected: Expected::Colon, span: end_span_of(input) });
    }
    if group_is(&input[i], Delim::Brace) {
        if i + 1 < input.len() && atom_is(&input[i + 1], &colon) {
            let fields = group_children_copy(&input[i]);
            Ok((naming, Some(fields), i + 2))
        } else {
            Err(
                ParseError::Grammar {
                    expected: Expected::Colon,
                    span: span_at_of(input, i + 1),
                },
            )
        }
    } else if atom_is(&input[i], &colon) {
        Ok((naming, None, i + 1))
    } else if is_group_token(&input[i]) {
        Err(ParseError::Grammar { expected: Expected::BraceBlock, span: token_span(&input[i]) })
    } else {
        Err(ParseError::Grammar { expected: Expected::Colon, span: token_span(&input[i]) })
    }
}

fn parse_init_exec(input: &Vec<Token>, i: usize) -> (r: Result<
    (Option<Vec<Token>>, usize),
    ParseError,
>)
    requires
        i <= input@.len(),
    ensures
        r matches Ok(h) ==> {
            &&& spec_parse_init(models(input@), i as int) == Ok::<_, ParseError>(
                (opt_models(h.0), h.1 as int),
            )
            &&& h.1 <= input@.len()
        },
        r matches Err(e) ==> spec_parse_init(models(input@), i as int) == Err::<
            (Option<Seq<TokTree>>, int),
            _,
        >(e),
{
    broadcast use lemma_models;

    let kw = String::from_str("init");
    let colon = String::from_str(":");
    if i < input.len() && atom_is(&input[i], &kw) {
        if !(i + 1 < input.len() && atom_is(&input[i + 1], &colon)) {
            return Err(
                ParseError::Grammar {
                    expected: Expected::Colon,
                    span: span_at_of(input, i + 1),
                },
            );
        }
        if !(i + 2 < input.len() && group_is(&input[i + 2], Delim::Brace)) {
            return Err(
                ParseError::Grammar {
                    expected: Expected::BraceBlock,
                    span: span_at_of(input, i + 2),
                },
            );
        }
        let body = group_children_copy(&input[i + 2]);
        Ok((Some(body), i + 3))
    } else {
        Ok((None, i))
    }
}

fn parse_update_exec(input: &Vec<Token>, i: usize) -> (r: Result<
    (Option<UpdateSpec>, usize),
    ParseError,
>)
    requires
        i <= input@.len(),
    ensures
        r matches Ok(h) ==> {
            &&& spec_parse_update(models(input@), i as int) == Ok::<_, ParseError>(
                (
                    match h.0 {
                        Some(u) => Some(u.model()),
                        None => None,
                    },
                    h.1 as int,
                ),
            )
            &&& h.1 <= input@.len()
        },
        r matches Err(e) ==> spec_parse_update(models(input@), i as int) == Err::<
            (Option<UpdateModel>, int),
            _,
        >(e),
{
    broadcast use lemma_models;

    let kw = String::from_str("update");
    let colon = String::from_str(":");
    let arrow = String::from_str("=>");
    if i < input.len() && atom_is(&input[i], &kw) {
        if !(i + 1 < input.len() && atom_is(&input[i + 1], &colon)) {
            return Err(
                ParseError::Grammar {
                    expected: Expected::Colon,
                    span: span_at_of(input, i + 1),
                },
            );
        }
        if !(i + 2 < input.len() && group_is(&input[i + 2], Delim::Brace)) {
            return Err(
                ParseError::Grammar {
                    expected: Expected::BraceBlock,
                    span: span_at_of(input, i + 2),
                },
            );
        }
        if !(i + 3 < input.len() && atom_is(&input[i + 3], &arrow)) {
            return Err(
                ParseError::Grammar {
                    expected: Expected::OutputList,
                    span: span_at_of(input, i + 3),
                },
            );
        }
        if !(i + 4 < input.len() && group_is(&input[i + 4], Delim::Brace)) {
            return Err(
                ParseError::Grammar {
                    expected: Expected::BraceBlock,
                    span: span_at_of(input, i + 4),
                },
            );
        }
        let body = group_children_copy(&input[i + 2]);
        let outs_tokens = group_children_copy(&input[i + 4]);
        let outputs = split_commas(&outs_tokens);
        Ok((Some(UpdateSpec { body, outputs }), i + 5))
    } else {
        Ok((None, i))
    }
}

/// Parse one template definition.  On success every field of the
/// [`TemplateSpec`] holds exactly what the grammar position contributed; on
/// failure the single [`ParseError`] names the expected construct and the
/// offending position, and nothing is produced.
pub fn generate_generator(input: &Vec<Token>) -> (r: Result<TemplateSpec, ParseError>)
    ensures
        result_model(r) == spec_parse(models(input@)),
{
    broadcast use lemma_models;

    let ghost ms = models(input@);
    if input.len() == 0 {
        return Err(ParseError::Grammar { expected: Expected::TemplateName, span: 0 });
    }
    let (name, name_span): (String, usize) = match &input[0] {
        Token::Atom { text, span } => {
            if is_ident(text) {
                (text.clone(), *span)
            } else {
                return Err(
                    ParseError::Grammar { expected: Expected::TemplateName, span: *span },
                );
            }
        },
        Token::Group { span, .. } => {
            return Err(ParseError::Grammar { expected: Expected::TemplateName, span: *span });
        },
    };
    let (naming, extra_fields, i) = match parse_header_exec(input) {
        Ok(h) => h,
        Err(e) => {
            return Err(e);
        },
    };
    let (init_body, i2) = match parse_init_exec(input, i) {
        Ok(h) => h,
        Err(e) => {
            return Err(e);
        },
    };
    let (update, i3) = match parse_update_exec(input, i2) {
        Ok(h) => h,
        Err(e) => {
            return Err(e);
        },
    };
    if i3 >= input.len() {
        return Err(
            ParseError::Grammar { expected: Expected::ViewTokens, span: end_span_of(input) },
        );
    }
    let view = copy_range(input, i3, input.len());
    let result = TemplateSpec { name, name_span, naming, extra_fields, init_body, update, view };
    proof {
        assert(models(view@) =~= ms.skip(i3 as int));
        assert(spec_parse(ms) == Ok::<TemplateModel, ParseError>(result.model()));
    }
    Ok(result)
}

} // verus!
