use snippet_compiler::dynamic::{
    dynamic_snippet_from_source, occurrences_valid, DynamicSnippet, DynamicSnippetPart, Occurrence,
};
use snippet_compiler::registry::CompilationContext;
use snippet_compiler::resolve::{
    finish_snippet_content, parse_snippet_content, Pattern, Resolution, SnippetError,
};
use snippet_compiler::snippet::{snippet_form, unwrap_language_snippet, SnippetForm};
use snippet_compiler::text::{bytes_equal, trim_whitespace, unescape, ByteRange};

fn occ(start: usize, end: usize, name: &str) -> Occurrence {
    Occurrence { start, end, name: name.as_bytes().to_vec() }
}

fn literal(p: &DynamicSnippetPart) -> Vec<u8> {
    match p {
        DynamicSnippetPart::Literal(l) => l.clone(),
        DynamicSnippetPart::Variable(_) => panic!("expected a literal part"),
    }
}

fn variable(p: &DynamicSnippetPart) -> (usize, Vec<u8>, ByteRange) {
    match p {
        DynamicSnippetPart::Variable(v) => (v.var.index, v.name.clone(), v.range),
        DynamicSnippetPart::Literal(_) => panic!("expected a variable part"),
    }
}

fn resolve(
    text: &str,
    is_rhs: bool,
    bracketed: bool,
    exact: bool,
    occs: &Vec<Occurrence>,
    ctx: &mut CompilationContext,
) -> Result<Resolution<String>, SnippetError> {
    parse_snippet_content::<String>(
        text.as_bytes(),
        ByteRange::new(100, 100 + text.len()),
        ctx,
        is_rhs,
        bracketed,
        exact,
        occs,
    )
}

#[test]
fn call_expression_becomes_code_snippet() {
    let text = "foo($x)";
    let occs = vec![occ(4, 6, "$x")];
    let mut ctx = CompilationContext::new();
    let r = resolve(text, false, false, false, &occs, &mut ctx);
    assert!(matches!(r, Ok(Resolution::ParseAsCode)));
    // the structural compiler binds the call's argument
    let x = ctx.register_variable(b"$x");
    let alternatives = vec![(7u16, "call_expression($x)".to_string())];
    let p = finish_snippet_content(
        text.as_bytes(),
        ByteRange::new(100, 107),
        &mut ctx,
        &occs,
        alternatives,
    );
    match p {
        Pattern::CodeSnippet(c) => {
            assert_eq!(c.alternatives.len(), 1);
            assert_eq!(c.alternatives[0].0, 7);
            assert_eq!(c.source, b"foo($x)".to_vec());
            let t = c.template.expect("template");
            assert_eq!(t.parts.len(), 3);
            assert_eq!(literal(&t.parts[0]), b"foo(".to_vec());
            let (index, name, range) = variable(&t.parts[1]);
            assert_eq!(index, x.index);
            assert_eq!(name, b"$x".to_vec());
            assert_eq!(range, ByteRange::new(104, 106));
            assert_eq!(literal(&t.parts[2]), b")".to_vec());
        }
        _ => panic!("expected a code snippet"),
    }
    assert_eq!(ctx.len(), 1);
}

#[test]
fn bracketed_template_on_rhs_is_dynamic() {
    let occs = vec![occ(0, 4, "$x")];
    let mut ctx = CompilationContext::new();
    let r = resolve("${x} + 1", true, true, false, &occs, &mut ctx);
    match r {
        Ok(Resolution::Done(Pattern::Dynamic(d))) => {
            assert_eq!(d.parts.len(), 3);
            assert_eq!(literal(&d.parts[0]), b"".to_vec());
            let (index, name, range) = variable(&d.parts[1]);
            assert_eq!(index, 0);
            assert_eq!(name, b"$x".to_vec());
            assert_eq!(range, ByteRange::new(100, 104));
            assert_eq!(literal(&d.parts[2]), b" + 1".to_vec());
        }
        _ => panic!("expected a dynamic pattern"),
    }
}

#[test]
fn bracketed_template_on_lhs_is_placement_error() {
    let occs = vec![occ(0, 4, "$x")];
    let mut ctx = CompilationContext::new();
    let r = resolve("${x}", false, true, false, &occs, &mut ctx);
    assert!(matches!(r, Err(SnippetError::Placement)));
    assert_eq!(ctx.len(), 0);
    let r = resolve("${x}", false, true, true, &occs, &mut ctx);
    assert!(matches!(r, Err(SnippetError::Placement)));
}

#[test]
fn wildcards_are_underscore_on_either_side() {
    for text in ["$_", "^_", "  $_\n", "\t^_ ", "\u{a0}$_\u{3000}", "\u{2005}^_\u{85}"] {
        for is_rhs in [false, true] {
            let occs = vec![];
            let mut ctx = CompilationContext::new();
            let r = resolve(text, is_rhs, false, true, &occs, &mut ctx);
            assert!(matches!(r, Ok(Resolution::Done(Pattern::Underscore))));
            assert_eq!(ctx.len(), 0);
        }
    }
}

#[test]
fn lone_metavariable_is_registered_once() {
    let occs = vec![occ(1, 5, "$foo")];
    let mut ctx = CompilationContext::new();
    for _ in 0..2 {
        let r = resolve(" $foo ", false, false, true, &occs, &mut ctx);
        match r {
            Ok(Resolution::Done(Pattern::Variable(v))) => {
                assert_eq!(v.var.index, 0);
                assert_eq!(v.name, b"$foo".to_vec());
                assert_eq!(v.range, ByteRange::new(100, 106));
            }
            _ => panic!("expected a variable"),
        }
    }
    assert_eq!(ctx.len(), 1);
    assert_eq!(ctx.lookup(b"$foo"), Some(0));
}

#[test]
fn escaped_newline_is_single_literal() {
    let mut ctx = CompilationContext::new();
    let d = dynamic_snippet_from_source(b"a\\nb", ByteRange::new(0, 4), &vec![], &mut ctx);
    assert_eq!(d.parts.len(), 1);
    assert_eq!(literal(&d.parts[0]), b"a\nb".to_vec());
}

#[test]
fn text_without_metavariables_round_trips() {
    let mut ctx = CompilationContext::new();
    let d = dynamic_snippet_from_source(b"x = \\\"y\\\";", ByteRange::new(3, 13), &vec![], &mut ctx);
    assert_eq!(d.parts.len(), 1);
    assert_eq!(literal(&d.parts[0]), b"x = \"y\";".to_vec());
    assert_eq!(ctx.len(), 0);
}

fn reassemble(d: &DynamicSnippet, text: &[u8], occs: &Vec<Occurrence>) -> Vec<u8> {
    let mut out = Vec::new();
    for (i, p) in d.parts.iter().enumerate() {
        match p {
            DynamicSnippetPart::Literal(l) => out.extend_from_slice(l),
            DynamicSnippetPart::Variable(_) => {
                let o = &occs[i / 2];
                out.extend_from_slice(&text[o.start..o.end]);
            }
        }
    }
    out
}

#[test]
fn template_reassembles_to_unescaped_text() {
    let raw = b"f(${a}, \\$b, $c) + $a";
    let text = unescape(raw);
    assert_eq!(text, b"f(${a}, $b, $c) + $a".to_vec());
    let occs = vec![occ(2, 6, "$a"), occ(8, 10, "$b"), occ(12, 14, "$c"), occ(18, 20, "$a")];
    assert!(occurrences_valid(&occs, text.len()));
    let mut ctx = CompilationContext::new();
    let d = dynamic_snippet_from_source(raw, ByteRange::new(10, 31), &occs, &mut ctx);
    assert_eq!(d.parts.len(), 9);
    assert_eq!(reassemble(&d, &text, &occs), text);
    assert_eq!(variable(&d.parts[1]).0, variable(&d.parts[7]).0);
    assert_eq!(variable(&d.parts[1]).2, ByteRange::new(12, 16));
    assert_eq!(ctx.len(), 3);
}

#[test]
fn fresh_contexts_give_equal_templates() {
    let raw = b"$y + $x + $y";
    let occs = vec![occ(0, 2, "$y"), occ(5, 7, "$x"), occ(10, 12, "$y")];
    let mut c1 = CompilationContext::new();
    let mut c2 = CompilationContext::new();
    let d1 = dynamic_snippet_from_source(raw, ByteRange::new(0, 12), &occs, &mut c1);
    let d2 = dynamic_snippet_from_source(raw, ByteRange::new(0, 12), &occs, &mut c2);
    assert_eq!(format!("{:?}", d1), format!("{:?}", d2));
    // a context that already holds other names renames the identifiers only
    let mut c3 = CompilationContext::new();
    c3.register_variable(b"$z");
    let d3 = dynamic_snippet_from_source(raw, ByteRange::new(0, 12), &occs, &mut c3);
    for k in 0..3 {
        for j in 0..3 {
            let same1 = variable(&d1.parts[2 * k + 1]).0 == variable(&d1.parts[2 * j + 1]).0;
            let same3 = variable(&d3.parts[2 * k + 1]).0 == variable(&d3.parts[2 * j + 1]).0;
            assert_eq!(same1, same3);
        }
        assert_eq!(variable(&d1.parts[2 * k + 1]).1, variable(&d3.parts[2 * k + 1]).1);
    }
    assert_ne!(variable(&d1.parts[1]).0, variable(&d3.parts[1]).0);
}

#[test]
fn unparsable_text_falls_back_to_template() {
    let text = "foo(";
    let occs = vec![];
    let mut ctx = CompilationContext::new();
    for is_rhs in [false, true] {
        let r = resolve(text, is_rhs, false, false, &occs, &mut ctx);
        assert!(matches!(r, Ok(Resolution::ParseAsCode)));
    }
    let p = finish_snippet_content::<String>(
        text.as_bytes(),
        ByteRange::new(0, 4),
        &mut ctx,
        &occs,
        vec![],
    );
    match p {
        Pattern::Dynamic(d) => {
            assert_eq!(d.parts.len(), 1);
            assert_eq!(literal(&d.parts[0]), b"foo(".to_vec());
        }
        _ => panic!("expected a dynamic pattern"),
    }
}

#[test]
fn escapes_apply_in_sequence() {
    // `\n` is rewritten before `\\`, so backslash-backslash-n keeps one
    // backslash followed by a newline
    assert_eq!(unescape(b"\\\\n"), b"\\\n".to_vec());
    assert_eq!(unescape(b"\\\\"), b"\\".to_vec());
    assert_eq!(unescape(b"\\`\\$\\^\\\""), b"`$^\"".to_vec());
    assert_eq!(unescape(b"\\x"), b"\\x".to_vec());
    assert_eq!(unescape(b""), b"".to_vec());
}

#[test]
fn trimming_and_comparison() {
    assert_eq!(trim_whitespace(b" \t a b \r\n"), b"a b".to_vec());
    assert_eq!(trim_whitespace(b"   "), b"".to_vec());
    assert!(bytes_equal(b"ab", b"ab"));
    assert!(!bytes_equal(b"ab", b"abc"));
}

#[test]
fn scanner_output_is_checked() {
    assert!(occurrences_valid(&vec![occ(0, 2, "$a"), occ(2, 4, "$b")], 4));
    assert!(!occurrences_valid(&vec![occ(2, 4, "$a"), occ(0, 2, "$b")], 4));
    assert!(!occurrences_valid(&vec![occ(0, 5, "$a")], 4));
    assert!(!occurrences_valid(&vec![occ(3, 2, "$a")], 4));
}

#[test]
fn snippet_forms_are_routed() {
    assert_eq!(snippet_form(Some(b"backtickSnippet")), Ok(SnippetForm::BackTick));
    assert_eq!(snippet_form(Some(b"rawBacktickSnippet")), Ok(SnippetForm::RawBackTick));
    assert_eq!(snippet_form(Some(b"languageSpecificSnippet")), Ok(SnippetForm::LanguageSpecific));
    assert_eq!(snippet_form(Some(b"regexSnippet")), Err(SnippetError::MalformedNode));
    assert_eq!(snippet_form(None), Err(SnippetError::MalformedNode));
}

#[test]
fn language_snippets_are_unwrapped() {
    let langs = vec![b"js".to_vec(), b"python".to_vec()];
    let node = ByteRange::new(20, 31);
    let r = unwrap_language_snippet(Some(b" js "), Some(b"\"foo($x)\""), node, &langs);
    assert_eq!(r, Ok((b"foo($x)".to_vec(), ByteRange::new(21, 30))));
    let r = unwrap_language_snippet(Some(b"python"), Some(b"\"\""), ByteRange::new(0, 1), &langs);
    assert_eq!(r, Ok((b"".to_vec(), ByteRange::new(0, 1))));
    let r = unwrap_language_snippet(Some(b"cobol"), Some(b"\"x\""), node, &langs);
    assert_eq!(r, Err(SnippetError::UnknownLanguage));
    let r = unwrap_language_snippet(Some(b"js"), Some(b"\"x"), node, &langs);
    assert_eq!(r, Err(SnippetError::MalformedLiteral));
    let r = unwrap_language_snippet(Some(b"js"), Some(b"\""), node, &langs);
    assert_eq!(r, Err(SnippetError::MalformedLiteral));
    let r = unwrap_language_snippet(Some(b"js"), None, node, &langs);
    assert_eq!(r, Err(SnippetError::MalformedNode));
    let r = unwrap_language_snippet(None, Some(b"\"x\""), node, &langs);
    assert_eq!(r, Err(SnippetError::MalformedNode));
}

#[test]
fn unicode_whitespace_is_trimmed() {
    assert_eq!(trim_whitespace("\u{a0}$f\u{3000}".as_bytes()), b"$f".to_vec());
    assert_eq!(trim_whitespace("\u{1680}\u{200a} a\u{2028}\u{2029}\u{202f}\u{205f}".as_bytes()), b"a".to_vec());
    assert_eq!(trim_whitespace("\u{a0}".as_bytes()), b"".to_vec());
    // U+200B is not whitespace, and an accented letter keeps its bytes
    assert_eq!(trim_whitespace("\u{200b}\u{e9}".as_bytes()), "\u{200b}\u{e9}".as_bytes().to_vec());
}

#[test]
fn lone_metavariable_padded_with_unicode_space() {
    let text = "\u{a0}$f";
    let occs = vec![occ(2, 4, "$f")];
    let mut ctx = CompilationContext::new();
    match resolve(text, false, false, true, &occs, &mut ctx) {
        Ok(Resolution::Done(Pattern::Variable(v))) => {
            assert_eq!(v.name, b"$f".to_vec());
            assert_eq!(v.var.index, 0);
        }
        _ => panic!("expected a variable"),
    }
    assert_eq!(ctx.lookup(b"$f"), Some(0));
}

#[test]
fn language_tag_padded_with_unicode_space() {
    let langs = vec![b"python".to_vec()];
    let r = unwrap_language_snippet(
        Some("\u{a0}python\u{3000}".as_bytes()),
        Some(b"\"x\""),
        ByteRange::new(0, 12),
        &langs,
    );
    assert_eq!(r, Ok((b"x".to_vec(), ByteRange::new(1, 11))));
}
