//! The decision between a snippet's readings: template, single variable,
//! wildcard, or code to be parsed.
use vstd::prelude::*;
use crate::dynamic::{
    dynamic_snippet_from_source, lemma_template_unique_up_to_renaming, templates_agree, occurrences_wf, register_all, snippet_matches, DynamicSnippet,
    Occurrence, SnippetVariable,
};
use crate::registry::{names_distinct, register_spec, CompilationContext};
use crate::text::{blank_from_end, blank_from_start, copy_range, lemma_trim_padded, trim_spec, trim_whitespace, unescape_spec, ByteRange};

verus! {

/// Why a snippet could not be compiled.
#[derive(Clone, Copy, Debug, PartialEq, Eq, Structural)]
pub enum SnippetError {
    /// The syntax node lacks a required child or has an unknown form.
    MalformedNode,
    /// The language tag names no registered language.
    UnknownLanguage,
    /// The snippet text is not wrapped in a pair of double quotes.
    MalformedLiteral,
    /// A bracketed metavariable stands on the match side of a rule.
    Placement,
}

/// A snippet's structural alternatives (one per node kind the grammar gave),
/// its template for rendering, and its unescaped source text.
#[derive(Debug)]
pub struct CodeSnippetValue<P> {
    pub alternatives: Vec<(u16, P)>,
    pub template: Option<DynamicSnippet>,
    pub source: Vec<u8>,
}

/// A compiled snippet; `P` is the type of the structural sub-patterns.
#[derive(Debug)]
pub enum Pattern<P> {
    Underscore,
    Variable(SnippetVariable),
    Dynamic(DynamicSnippet),
    CodeSnippet(CodeSnippetValue<P>),
}

/// What the first stage of resolution decided.
#[derive(Debug)]
pub enum Resolution<P> {
    Done(Pattern<P>),
    /// The text must be parsed as code; see `finish_snippet_content`.
    ParseAsCode,
}

/// The branch the decision procedure takes.
pub enum Route {
    Template,
    Misplaced,
    Wildcard,
    Named(Seq<u8>),
    Parse,
}

/// `$_` or `^_`.
pub open spec fn is_wildcard(t: Seq<u8>) -> bool {
    t == seq![36u8, 95u8] || t == seq![94u8, 95u8]
}

/// The decision procedure on `text`, given whether it has the bracketed
/// metavariable form and whether its trimmed form is exactly one
/// metavariable.
pub open spec fn route_spec(text: Seq<u8>, is_rhs: bool, bracketed: bool, exact: bool) -> Route {
    if bracketed {
        if is_rhs {
            Route::Template
        } else {
            Route::Misplaced
        }
    } else if exact {
        if is_wildcard(trim_spec(text)) {
            Route::Wildcard
        } else {
            Route::Named(trim_spec(text))
        }
    } else {
        Route::Parse
    }
}

/// `p` is the template pattern of `text` with occurrences `occ`.
pub open spec fn is_template_of<P>(
    p: Pattern<P>,
    text: Seq<u8>,
    occ: Seq<Occurrence>,
    base: int,
    names: Seq<Seq<u8>>,
) -> bool {
    match p {
        Pattern::Dynamic(d) => snippet_matches(d.parts@, unescape_spec(text), occ, base, names),
        _ => false,
    }
}

/// What the first stage returns for each route, and the registry `after`
/// it left behind, starting from `before`.
pub open spec fn resolution_matches<P>(
    r: Result<Resolution<P>, SnippetError>,
    source: Seq<u8>,
    range: ByteRange,
    is_rhs: bool,
    bracketed: bool,
    exact: bool,
    occ: Seq<Occurrence>,
    before: Seq<Seq<u8>>,
    after: Seq<Seq<u8>>,
) -> bool {
    match route_spec(source, is_rhs, bracketed, exact) {
        Route::Template => match r {
            Ok(Resolution::Done(p)) => {
                &&& after == register_all(before, occ)
                &&& is_template_of(p, source, occ, range.start as int, after)
            },
            _ => false,
        },
        Route::Misplaced => r == Err::<Resolution<P>, SnippetError>(SnippetError::Placement)
            && after == before,
        Route::Wildcard => (r matches Ok(Resolution::Done(Pattern::Underscore))) && after
            == before,
        Route::Named(t) => match r {
            Ok(Resolution::Done(Pattern::Variable(v))) => {
                &&& v.name@ == t
                &&& v.range == range
                &&& after == register_spec(before, t)
                &&& v.var.index < after.len()
                &&& after[v.var.index as int] == t
            },
            _ => false,
        },
        Route::Parse => (r matches Ok(Resolution::ParseAsCode)) && after == before,
    }
}

/// What the second stage returns: the template alone without alternatives,
/// else a code snippet holding the alternatives, the template and the text.
pub open spec fn finished_matches<P>(
    r: Pattern<P>,
    source: Seq<u8>,
    range: ByteRange,
    occ: Seq<Occurrence>,
    alternatives: Seq<(u16, P)>,
    names: Seq<Seq<u8>>,
) -> bool {
    if alternatives.len() == 0 {
        is_template_of(r, source, occ, range.start as int, names)
    } else {
        match r {
            Pattern::CodeSnippet(c) => {
                &&& c.alternatives@ == alternatives
                &&& c.source@ == source
                &&& match c.template {
                    Some(d) => snippet_matches(
                        d.parts@,
                        unescape_spec(source),
                        occ,
                        range.start as int,
                        names,
                    ),
                    None => false,
                }
            },
            _ => false,
        }
    }
}

/// Two patterns agree up to a renaming of identifiers: the same variant,
/// with the same names, ranges, alternatives and text, and templates that
/// agree (`templates_agree`) over `n` occurrences.
pub open spec fn patterns_agree<P>(p1: Pattern<P>, p2: Pattern<P>, n: int) -> bool {
    match (p1, p2) {
        (Pattern::Underscore, Pattern::Underscore) => true,
        (Pattern::Variable(a), Pattern::Variable(b)) => a.name@ == b.name@ && a.range == b.range,
        (Pattern::Dynamic(a), Pattern::Dynamic(b)) => templates_agree(a.parts@, b.parts@, n),
        (Pattern::CodeSnippet(a), Pattern::CodeSnippet(b)) => {
            &&& a.alternatives@ == b.alternatives@
            &&& a.source@ == b.source@
            &&& match (a.template, b.template) {
                (Some(x), Some(y)) => templates_agree(x.parts@, y.parts@, n),
                (None, None) => true,
                _ => false,
            }
        },
        _ => false,
    }
}

/// Two first-stage results agree up to a renaming of identifiers.
pub open spec fn resolutions_agree<P>(
    r1: Result<Resolution<P>, SnippetError>,
    r2: Result<Resolution<P>, SnippetError>,
    n: int,
) -> bool {
    match (r1, r2) {
        (Err(e1), Err(e2)) => e1 == e2,
        (Ok(Resolution::ParseAsCode), Ok(Resolution::ParseAsCode)) => true,
        (Ok(Resolution::Done(p1)), Ok(Resolution::Done(p2))) => patterns_agree(p1, p2, n),
        _ => false,
    }
}

fn is_wildcard_exec(t: &[u8]) -> (r: bool)
    ensures
        r == is_wildcard(t@),
{
    let r = t.len() == 2 && (t[0] == 36u8 || t[0] == 94u8) && t[1] == 95u8;
    proof {
        if t@.len() == 2 {
            if t@[0] == 36u8 && t@[1] == 95u8 {
                assert(t@ =~= seq![36u8, 95u8]);
            }
            if t@[0] == 94u8 && t@[1] == 95u8 {
                assert(t@ =~= seq![94u8, 95u8]);
            }
        }
    }
    r
}

/// First stage of compiling snippet content `source` at `range`.
/// `bracketed` says whether the text has the language's bracketed
/// metavariable form, `exact_variable` whether its trimmed text is exactly
/// one metavariable, and `occ` are the metavariables of the unescaped text.
/// A bracketed template becomes a `Dynamic` pattern on the rewrite side and
/// a `Placement` error on the match side; a lone `$_` or `^_` becomes
/// `Underscore`; another lone metavariable is registered and becomes a
/// `Variable`; anything else is left to be parsed as code.
pub fn parse_snippet_content<P>(
    source: &[u8],
    range: ByteRange,
    ctx: &mut CompilationContext,
    is_rhs: bool,
    bracketed: bool,
    exact_variable: bool,
    occ: &Vec<Occurrence>,
) -> (r: Result<Resolution<P>, SnippetError>)
    requires
        old(ctx).wf(),
        range.wf(),
        occurrences_wf(occ@, unescape_spec(source@).len()),
        range.start + source@.len() <= usize::MAX,
    ensures
        final(ctx).wf(),
        resolution_matches(
            r,
            source@,
            range,
            is_rhs,
            bracketed,
            exact_variable,
            occ@,
            old(ctx)@,
            final(ctx)@,
        ),
{
    if bracketed {
        if is_rhs {
            let d = dynamic_snippet_from_source(source, range, occ, ctx);
            return Ok(Resolution::Done(Pattern::Dynamic(d)));
        } else {
            return Err(SnippetError::Placement);
        }
    }
    if exact_variable {
        let name = trim_whitespace(source);
        if is_wildcard_exec(name.as_slice()) {
            return Ok(Resolution::Done(Pattern::Underscore));
        }
        let var = ctx.register_variable(name.as_slice());
        return Ok(Resolution::Done(Pattern::Variable(SnippetVariable { var, name, range })));
    }
    Ok(Resolution::ParseAsCode)
}

/// Second stage, once the text was parsed as code and each candidate node
/// compiled into a structural alternative keyed by its node kind. Without
/// alternatives the text falls back to a `Dynamic` template; with them it
/// becomes a `CodeSnippet` holding the alternatives, the template, and the
/// source text.
pub fn finish_snippet_content<P>(
    source: &[u8],
    range: ByteRange,
    ctx: &mut CompilationContext,
    occ: &Vec<Occurrence>,
    alternatives: Vec<(u16, P)>,
) -> (r: Pattern<P>)
    requires
        old(ctx).wf(),
        occurrences_wf(occ@, unescape_spec(source@).len()),
        range.start + source@.len() <= usize::MAX,
    ensures
        final(ctx).wf(),
        final(ctx)@ == register_all(old(ctx)@, occ@),
        finished_matches(r, source@, range, occ@, alternatives@, final(ctx)@),
{
    let d = dynamic_snippet_from_source(source, range, occ, ctx);
    if alternatives.len() == 0 {
        return Pattern::Dynamic(d);
    }
    let text = copy_range(source, 0, source.len());
    assert(source@.subrange(0, source@.len() as int) =~= source@);
    Pattern::CodeSnippet(CodeSnippetValue { alternatives, template: Some(d), source: text })
}

/// Wildcard invariance: `$_` or `^_` with any surrounding whitespace
/// compiles to `Underscore` on either side of a rule, registering nothing.
pub proof fn lemma_wildcard_invariance<P>(
    pre: Seq<u8>,
    core: Seq<u8>,
    post: Seq<u8>,
    range: ByteRange,
    is_rhs: bool,
    occ: Seq<Occurrence>,
    r: Result<Resolution<P>, SnippetError>,
    before: Seq<Seq<u8>>,
    after: Seq<Seq<u8>>,
)
    requires
        blank_from_start(pre),
        blank_from_end(post),
        is_wildcard(core),
        resolution_matches(r, pre + core + post, range, is_rhs, false, true, occ, before, after),
    ensures
        route_spec(pre + core + post, is_rhs, false, true) matches Route::Wildcard,
        r matches Ok(Resolution::Done(Pattern::Underscore)),
        after == before,
{
    assert((core + post)[0] == core[0]);
    lemma_trim_padded(pre, core, post);
}

/// Placement enforcement: a bracketed template on the match side always
/// gives the `Placement` error, never a pattern, and registers nothing.
pub proof fn lemma_placement_enforced<P>(
    text: Seq<u8>,
    range: ByteRange,
    exact: bool,
    occ: Seq<Occurrence>,
    r: Result<Resolution<P>, SnippetError>,
    before: Seq<Seq<u8>>,
    after: Seq<Seq<u8>>,
)
    requires
        resolution_matches(r, text, range, false, true, exact, occ, before, after),
    ensures
        r == Err::<Resolution<P>, SnippetError>(SnippetError::Placement),
        after == before,
{
}

/// Fallback totality: text that is neither a bracketed template nor a lone
/// metavariable never fails in the first stage; it goes on to parsing, and
/// a parse with no alternatives yields the `Dynamic` template.
pub proof fn lemma_fallback_total<P>(
    text: Seq<u8>,
    range: ByteRange,
    is_rhs: bool,
    occ: Seq<Occurrence>,
    r: Result<Resolution<P>, SnippetError>,
    before: Seq<Seq<u8>>,
    after: Seq<Seq<u8>>,
    p: Pattern<P>,
    names: Seq<Seq<u8>>,
)
    requires
        resolution_matches(r, text, range, is_rhs, false, false, occ, before, after),
        finished_matches(p, text, range, occ, Seq::<(u16, P)>::empty(), names),
    ensures
        r matches Ok(Resolution::ParseAsCode),
        after == before,
        is_template_of(p, text, occ, range.start as int, names),
{
}

/// Idempotent compilation: compiling one text twice, against any two
/// registries, gives results that agree up to a renaming of identifiers, in
/// the first stage and, for the same alternatives, in the second.
pub proof fn lemma_compilation_unique_up_to_renaming<P>(
    source: Seq<u8>,
    range: ByteRange,
    is_rhs: bool,
    bracketed: bool,
    exact: bool,
    occ: Seq<Occurrence>,
    r1: Result<Resolution<P>, SnippetError>,
    before1: Seq<Seq<u8>>,
    after1: Seq<Seq<u8>>,
    r2: Result<Resolution<P>, SnippetError>,
    before2: Seq<Seq<u8>>,
    after2: Seq<Seq<u8>>,
)
    requires
        names_distinct(after1),
        names_distinct(after2),
        resolution_matches(r1, source, range, is_rhs, bracketed, exact, occ, before1, after1),
        resolution_matches(r2, source, range, is_rhs, bracketed, exact, occ, before2, after2),
    ensures
        resolutions_agree(r1, r2, occ.len() as int),
{
    match (r1, r2) {
        (Ok(Resolution::Done(Pattern::Dynamic(d1))), Ok(Resolution::Done(Pattern::Dynamic(d2)))) => {
            lemma_template_unique_up_to_renaming(
                unescape_spec(source),
                occ,
                range.start as int,
                d1.parts@,
                after1,
                d2.parts@,
                after2,
            );
        },
        _ => {},
    }
}

/// The second stage of one text against any two registries gives patterns
/// that agree up to a renaming of identifiers.
pub proof fn lemma_finish_unique_up_to_renaming<P>(
    source: Seq<u8>,
    range: ByteRange,
    occ: Seq<Occurrence>,
    alternatives: Seq<(u16, P)>,
    p1: Pattern<P>,
    names1: Seq<Seq<u8>>,
    p2: Pattern<P>,
    names2: Seq<Seq<u8>>,
)
    requires
        names_distinct(names1),
        names_distinct(names2),
        finished_matches(p1, source, range, occ, alternatives, names1),
        finished_matches(p2, source, range, occ, alternatives, names2),
    ensures
        patterns_agree(p1, p2, occ.len() as int),
{
    match (p1, p2) {
        (Pattern::Dynamic(d1), Pattern::Dynamic(d2)) => {
            lemma_template_unique_up_to_renaming(
                unescape_spec(source),
                occ,
                range.start as int,
                d1.parts@,
                names1,
                d2.parts@,
                names2,
            );
        },
        (Pattern::CodeSnippet(c1), Pattern::CodeSnippet(c2)) => {
            match (c1.template, c2.template) {
                (Some(x), Some(y)) => {
                    lemma_template_unique_up_to_renaming(
                        unescape_spec(source),
                        occ,
                        range.start as int,
                        x.parts@,
                        names1,
                        y.parts@,
                        names2,
                    );
                },
                _ => {},
            }
        },
        _ => {},
    }
}

} // verus!
