//! Dynamic snippets: a text split into literal parts and metavariable parts.
use vstd::prelude::*;
use crate::registry::{names_distinct, register_spec, CompilationContext, VariableRef};
use crate::text::{copy_range, lemma_unescape_len, unescape, unescape_spec, ByteRange};

verus! {

/// One metavariable occurrence found by the scanner, relative to the
/// unescaped text: the span `[start, end)` it covers and its name.
#[derive(Clone, Debug)]
pub struct Occurrence {
    pub start: usize,
    pub end: usize,
    pub name: Vec<u8>,
}

/// A metavariable inside a template: its identifier, its name, and the
/// absolute range it was registered at.
#[derive(Clone, Debug)]
pub struct SnippetVariable {
    pub var: VariableRef,
    pub name: Vec<u8>,
    pub range: ByteRange,
}

#[derive(Clone, Debug)]
pub enum DynamicSnippetPart {
    Literal(Vec<u8>),
    Variable(SnippetVariable),
}

/// Literal text alternating with metavariables, starting and ending with a literal.
#[derive(Clone, Debug)]
pub struct DynamicSnippet {
    pub parts: Vec<DynamicSnippetPart>,
}

/// The scanner's guarantees: every occurrence lies inside the text, and the
/// occurrences are sorted and disjoint.
pub open spec fn occurrences_wf(occ: Seq<Occurrence>, len: nat) -> bool {
    &&& forall|k: int| 0 <= k < occ.len() ==> (#[trigger] occ[k]).start <= occ[k].end <= len
    &&& forall|k: int| 0 < k < occ.len() ==> occ[k - 1].end <= (#[trigger] occ[k]).start
}

/// Where the literal before occurrence `k` starts.
pub open spec fn prev_end(occ: Seq<Occurrence>, k: int) -> int {
    if k <= 0 {
        0
    } else {
        occ[k - 1].end as int
    }
}

/// The `k`-th literal: the text between occurrence `k - 1` and occurrence `k`
/// (the text's start and end standing in at either side).
pub open spec fn literal_spec(text: Seq<u8>, occ: Seq<Occurrence>, k: int) -> Seq<u8> {
    text.subrange(
        prev_end(occ, k),
        if k < occ.len() {
            occ[k].start as int
        } else {
            text.len() as int
        },
    )
}

pub open spec fn is_literal(p: DynamicSnippetPart, s: Seq<u8>) -> bool {
    match p {
        DynamicSnippetPart::Literal(l) => l@ == s,
        DynamicSnippetPart::Variable(_) => false,
    }
}

/// `p` is the variable part for occurrence `o`, in a text placed at `base`:
/// its range is the occurrence's own, shifted by `base`, and it is bound to
/// the identifier that `names` gives its name.
pub open spec fn is_variable_for(
    p: DynamicSnippetPart,
    o: Occurrence,
    base: int,
    names: Seq<Seq<u8>>,
) -> bool {
    match p {
        DynamicSnippetPart::Variable(v) => {
            &&& v.name@ == o.name@
            &&& v.range.start == base + o.start
            &&& v.range.end == base + o.end
            &&& v.var.index < names.len()
            &&& names[v.var.index as int] == o.name@
        },
        DynamicSnippetPart::Literal(_) => false,
    }
}

/// `parts` is the template of `text` with occurrences `occ`: literals at even
/// positions, the occurrences' variables at odd ones, in source order.
pub open spec fn snippet_matches(
    parts: Seq<DynamicSnippetPart>,
    text: Seq<u8>,
    occ: Seq<Occurrence>,
    base: int,
    names: Seq<Seq<u8>>,
) -> bool {
    &&& parts.len() == 2 * occ.len() + 1
    &&& forall|k: int|
        0 <= k <= occ.len() ==> is_literal(parts[2 * k], #[trigger] literal_spec(text, occ, k))
    &&& forall|k: int|
        0 <= k < occ.len() ==> is_variable_for(parts[2 * k + 1], #[trigger] occ[k], base, names)
}

/// The registry after registering the names of `occ`, in order.
pub open spec fn register_all(names: Seq<Seq<u8>>, occ: Seq<Occurrence>) -> Seq<Seq<u8>>
    decreases occ.len(),
{
    if occ.len() == 0 {
        names
    } else {
        register_spec(register_all(names, occ.drop_last()), occ.last().name@)
    }
}

/// Checks the scanner's guarantees on `occ` for a text of length `len`.
pub fn occurrences_valid(occ: &Vec<Occurrence>, len: usize) -> (r: bool)
    ensures
        r == occurrences_wf(occ@, len as nat),
{
    let mut i: usize = 0;
    while i < occ.len()
        invariant
            i <= occ@.len(),
            forall|k: int| 0 <= k < i ==> (#[trigger] occ@[k]).start <= occ@[k].end <= len,
            forall|k: int| 0 < k < i ==> occ@[k - 1].end <= (#[trigger] occ@[k]).start,
        decreases occ.len() - i,
    {
        let o = &occ[i];
        if !(o.start <= o.end && o.end <= len) {
            return false;
        }
        if i > 0 && occ[i - 1].end > o.start {
            return false;
        }
        i = i + 1;
    }
    true
}

/// Builds the template of `raw`: unescapes it, then splits the unescaped
/// text at the scanner's occurrences `occ`, registering each occurrence's
/// name at its absolute range (`source_range.start` plus its offset).
pub fn dynamic_snippet_from_source(
    raw: &[u8],
    source_range: ByteRange,
    occ: &Vec<Occurrence>,
    ctx: &mut CompilationContext,
) -> (r: DynamicSnippet)
    requires
        old(ctx).wf(),
        occurrences_wf(occ@, unescape_spec(raw@).len()),
        source_range.start + raw@.len() <= usize::MAX,
    ensures
        final(ctx).wf(),
        final(ctx)@ == register_all(old(ctx)@, occ@),
        snippet_matches(r.parts@, unescape_spec(raw@), occ@, source_range.start as int, final(ctx)@),
{
    let text = unescape(raw);
    proof {
        lemma_unescape_len(raw@);
    }
    let ghost t = text@;
    let ghost n = occ@.len();
    let ghost names0 = ctx@;
    let mut parts: Vec<DynamicSnippetPart> = Vec::new();
    let mut last: usize = 0;
    let mut i: usize = 0;
    assert(occ@.subrange(0, 0) =~= Seq::<Occurrence>::empty());
    while i < occ.len()
        invariant
            t == unescape_spec(raw@),
            text@ == t,
            n == occ@.len(),
            occurrences_wf(occ@, t.len()),
            source_range.start + t.len() <= usize::MAX,
            i <= n,
            last == prev_end(occ@, i as int),
            last <= t.len(),
            ctx.wf(),
            ctx@ == register_all(names0, occ@.subrange(0, i as int)),
            parts@.len() == 2 * i,
            forall|k: int|
                0 <= k < i ==> is_literal(parts@[2 * k], #[trigger] literal_spec(t, occ@, k)),
            forall|k: int|
                0 <= k < i ==> is_variable_for(
                    parts@[2 * k + 1],
                    #[trigger] occ@[k],
                    source_range.start as int,
                    ctx@,
                ),
        decreases n - i,
    {
        let o = &occ[i];
        assert(occ@[i as int].start <= occ@[i as int].end);
        if i > 0 {
            assert(occ@[i - 1].end <= occ@[i as int].start);
        }
        let lit = copy_range(text.as_slice(), last, o.start);
        assert(lit@ == literal_spec(t, occ@, i as int));
        let ghost parts_before = parts@;
        parts.push(DynamicSnippetPart::Literal(lit));
        let ghost names_before = ctx@;
        let var = ctx.register_variable(o.name.as_slice());
        let range = ByteRange::new(source_range.start + o.start, source_range.start + o.end);
        let name = copy_range(o.name.as_slice(), 0, o.name.len());
        assert(name@ =~= o.name@);
        parts.push(DynamicSnippetPart::Variable(SnippetVariable { var, name, range }));
        proof {
            let sub = occ@.subrange(0, i + 1);
            assert(sub.drop_last() =~= occ@.subrange(0, i as int));
            assert(sub.last() == occ@[i as int]);
            assert forall|k: int| 0 <= k < i implies is_variable_for(
                parts@[2 * k + 1],
                #[trigger] occ@[k],
                source_range.start as int,
                ctx@,
            ) by {
                assert(parts@[2 * k + 1] == parts_before[2 * k + 1]);
                assert(is_variable_for(
                    parts_before[2 * k + 1],
                    occ@[k],
                    source_range.start as int,
                    names_before,
                ));
            }
            assert forall|k: int| 0 <= k < i + 1 implies is_literal(
                parts@[2 * k],
                #[trigger] literal_spec(t, occ@, k),
            ) by {
                if k < i {
                    assert(parts@[2 * k] == parts_before[2 * k]);
                }
            }
        }
        last = o.end;
        i = i + 1;
    }
    assert(occ@.subrange(0, n as int) =~= occ@);
    let lit = copy_range(text.as_slice(), last, text.len());
    assert(lit@ == literal_spec(t, occ@, n as int));
    parts.push(DynamicSnippetPart::Literal(lit));
    DynamicSnippet { parts }
}

/// The text a part stands for, `cap` standing in for a variable.
pub open spec fn part_text(p: DynamicSnippetPart, cap: Seq<u8>) -> Seq<u8> {
    match p {
        DynamicSnippetPart::Literal(l) => l@,
        DynamicSnippetPart::Variable(_) => cap,
    }
}

/// The first `j` parts joined, the variable at position `2 * k + 1` replaced
/// by `caps[k]`.
pub open spec fn render(parts: Seq<DynamicSnippetPart>, caps: Seq<Seq<u8>>, j: int) -> Seq<u8>
    decreases j,
{
    if j <= 0 {
        Seq::empty()
    } else {
        render(parts, caps, j - 1) + part_text(parts[j - 1], caps[(j - 1) / 2])
    }
}

/// The text each occurrence was captured from.
pub open spec fn captures(text: Seq<u8>, occ: Seq<Occurrence>) -> Seq<Seq<u8>> {
    Seq::new(occ.len(), |k: int| text.subrange(occ[k].start as int, occ[k].end as int))
}

/// Round trip: a text without metavariables becomes a single literal part
/// holding the whole unescaped text.
pub proof fn lemma_round_trip(
    raw: Seq<u8>,
    parts: Seq<DynamicSnippetPart>,
    base: int,
    names: Seq<Seq<u8>>,
)
    requires
        snippet_matches(parts, unescape_spec(raw), Seq::empty(), base, names),
    ensures
        parts.len() == 1,
        is_literal(parts[0], unescape_spec(raw)),
{
    let t = unescape_spec(raw);
    assert(literal_spec(t, Seq::empty(), 0) =~= t);
}

proof fn lemma_render_prefix(
    text: Seq<u8>,
    occ: Seq<Occurrence>,
    parts: Seq<DynamicSnippetPart>,
    base: int,
    names: Seq<Seq<u8>>,
    k: int,
)
    requires
        0 <= k <= occ.len(),
        occurrences_wf(occ, text.len()),
        snippet_matches(parts, text, occ, base, names),
    ensures
        render(parts, captures(text, occ), 2 * k) == text.subrange(0, prev_end(occ, k)),
    decreases k,
{
    let caps = captures(text, occ);
    if k == 0 {
        assert(render(parts, caps, 0) =~= text.subrange(0, 0));
    } else {
        let j = k - 1;
        lemma_render_prefix(text, occ, parts, base, names, j);
        let lit = literal_spec(text, occ, j);
        assert(is_literal(parts[2 * j], lit));
        assert(is_variable_for(parts[2 * j + 1], occ[j], base, names));
        if j > 0 {
            assert(occ[j - 1].end <= occ[j].start);
        }
        assert(occ[j].start <= occ[j].end <= text.len());
        assert(render(parts, caps, 2 * j + 1) == render(parts, caps, 2 * j) + lit);
        assert((2 * j + 1) / 2 == j);
        assert(render(parts, caps, 2 * j + 2) == render(parts, caps, 2 * j + 1) + caps[j]);
        assert(render(parts, caps, 2 * j + 2) =~= text.subrange(0, occ[j].end as int));
    }
}

/// Reconstruction: joining a template's parts, each variable replaced by the
/// text its occurrence covers, gives back the unescaped text.
pub proof fn lemma_reconstruction(
    text: Seq<u8>,
    occ: Seq<Occurrence>,
    parts: Seq<DynamicSnippetPart>,
    base: int,
    names: Seq<Seq<u8>>,
)
    requires
        occurrences_wf(occ, text.len()),
        snippet_matches(parts, text, occ, base, names),
    ensures
        render(parts, captures(text, occ), parts.len() as int) == text,
{
    let caps = captures(text, occ);
    let n = occ.len() as int;
    lemma_render_prefix(text, occ, parts, base, names, n);
    let lit = literal_spec(text, occ, n);
    assert(is_literal(parts[2 * n], lit));
    if n > 0 {
        assert(occ[n - 1].end <= text.len());
    }
    assert(render(parts, caps, 2 * n + 1) =~= text);
}

/// The variables of occurrences `a` and `b` carry the same identifier.
pub open spec fn same_variable(parts: Seq<DynamicSnippetPart>, a: int, b: int) -> bool {
    match (parts[2 * a + 1], parts[2 * b + 1]) {
        (DynamicSnippetPart::Variable(a), DynamicSnippetPart::Variable(b)) => a.var == b.var,
        _ => false,
    }
}

/// Two templates of `n` occurrences agree up to a renaming of identifiers:
/// equal literals, equal variable names and ranges, and two variable parts
/// share an identifier in one exactly when they share it in the other.
pub open spec fn templates_agree(p1: Seq<DynamicSnippetPart>, p2: Seq<DynamicSnippetPart>, n: int) -> bool {
    &&& p1.len() == p2.len()
    &&& forall|k: int|
        0 <= k <= n ==> match (#[trigger] p1[2 * k], p2[2 * k]) {
            (DynamicSnippetPart::Literal(x), DynamicSnippetPart::Literal(y)) => x@ == y@,
            _ => false,
        }
    &&& forall|k: int|
        0 <= k < n ==> match (#[trigger] p1[2 * k + 1], p2[2 * k + 1]) {
            (DynamicSnippetPart::Variable(a), DynamicSnippetPart::Variable(b)) => a.name@
                == b.name@ && a.range == b.range,
            _ => false,
        }
    &&& forall|a: int, b: int|
        0 <= a < n && 0 <= b < n ==> (#[trigger] same_variable(p1, a, b) <==> same_variable(
            p2,
            a,
            b,
        ))
}

/// Determinism up to renaming: two templates of one text built against any
/// two registries agree part for part, and their identifiers differ only by
/// a renaming.
pub proof fn lemma_template_unique_up_to_renaming(
    text: Seq<u8>,
    occ: Seq<Occurrence>,
    base: int,
    p1: Seq<DynamicSnippetPart>,
    names1: Seq<Seq<u8>>,
    p2: Seq<DynamicSnippetPart>,
    names2: Seq<Seq<u8>>,
)
    requires
        names_distinct(names1),
        names_distinct(names2),
        snippet_matches(p1, text, occ, base, names1),
        snippet_matches(p2, text, occ, base, names2),
    ensures
        templates_agree(p1, p2, occ.len() as int),
{
    assert forall|k: int| 0 <= k <= occ.len() implies match (#[trigger] p1[2 * k], p2[2 * k]) {
        (DynamicSnippetPart::Literal(x), DynamicSnippetPart::Literal(y)) => x@ == y@,
        _ => false,
    } by {
        let l = literal_spec(text, occ, k);
        assert(is_literal(p1[2 * k], l));
        assert(is_literal(p2[2 * k], l));
    }
    assert forall|k: int| 0 <= k < occ.len() implies match (#[trigger] p1[2 * k + 1], p2[2 * k + 1]) {
        (DynamicSnippetPart::Variable(a), DynamicSnippetPart::Variable(b)) => a.name@ == b.name@
            && a.range == b.range,
        _ => false,
    } by {
        assert(is_variable_for(p1[2 * k + 1], occ[k], base, names1));
        assert(is_variable_for(p2[2 * k + 1], occ[k], base, names2));
    }
    assert forall|a: int, b: int|
        0 <= a < occ.len() && 0 <= b < occ.len() implies (#[trigger] same_variable(p1, a, b)
        <==> same_variable(p2, a, b)) by {
        assert(is_variable_for(p1[2 * a + 1], occ[a], base, names1));
        assert(is_variable_for(p2[2 * a + 1], occ[a], base, names2));
        assert(is_variable_for(p1[2 * b + 1], occ[b], base, names1));
        assert(is_variable_for(p2[2 * b + 1], occ[b], base, names2));
    }
}

} // verus!
