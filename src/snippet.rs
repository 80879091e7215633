//! Routing of a code-snippet node to its compiler, and unwrapping of
//! language-tagged snippets.
use vstd::prelude::*;
use crate::resolve::SnippetError;
use crate::text::{bytes_equal, copy_range, trim_spec, trim_whitespace, ByteRange};

verus! {

/// The concrete forms a snippet's `source` child can take.
#[derive(Clone, Copy, Debug, PartialEq, Eq, Structural)]
pub enum SnippetForm {
    BackTick,
    RawBackTick,
    LanguageSpecific,
}

pub open spec fn backtick_kind() -> Seq<u8> {
    seq![98u8, 97u8, 99u8, 107u8, 116u8, 105u8, 99u8, 107u8, 83u8, 110u8, 105u8, 112u8, 112u8, 101u8, 116u8]
}

pub open spec fn raw_backtick_kind() -> Seq<u8> {
    seq![114u8, 97u8, 119u8, 66u8, 97u8, 99u8, 107u8, 116u8, 105u8, 99u8, 107u8, 83u8, 110u8, 105u8, 112u8, 112u8, 101u8, 116u8]
}

pub open spec fn language_kind() -> Seq<u8> {
    seq![108u8, 97u8, 110u8, 103u8, 117u8, 97u8, 103u8, 101u8, 83u8, 112u8, 101u8, 99u8, 105u8, 102u8, 105u8, 99u8, 83u8, 110u8, 105u8, 112u8, 112u8, 101u8, 116u8]
}

/// The form named by the node kind of a snippet's `source` child
/// (`None` when the child is missing).
pub open spec fn form_spec(kind: Option<Seq<u8>>) -> Result<SnippetForm, SnippetError> {
    match kind {
        None => Err(SnippetError::MalformedNode),
        Some(k) => if k == backtick_kind() {
            Ok(SnippetForm::BackTick)
        } else if k == raw_backtick_kind() {
            Ok(SnippetForm::RawBackTick)
        } else if k == language_kind() {
            Ok(SnippetForm::LanguageSpecific)
        } else {
            Err(SnippetError::MalformedNode)
        },
    }
}

/// Decides which compiler handles a code snippet from the node kind of its
/// `source` child: `backtickSnippet`, `rawBacktickSnippet` or
/// `languageSpecificSnippet`; a missing child or any other kind is a
/// malformed node.
pub fn snippet_form(source_kind: Option<&[u8]>) -> (r: Result<SnippetForm, SnippetError>)
    ensures
        r == form_spec(
            match source_kind {
                Some(k) => Some(k@),
                None => None,
            },
        ),
{
    match source_kind {
        None => Err(SnippetError::MalformedNode),
        Some(k) => {
            let bt: Vec<u8> = vec![98u8, 97u8, 99u8, 107u8, 116u8, 105u8, 99u8, 107u8, 83u8, 110u8, 105u8, 112u8, 112u8, 101u8, 116u8];
            let raw: Vec<u8> = vec![114u8, 97u8, 119u8, 66u8, 97u8, 99u8, 107u8, 116u8, 105u8, 99u8, 107u8, 83u8, 110u8, 105u8, 112u8, 112u8, 101u8, 116u8];
            let lang: Vec<u8> = vec![108u8, 97u8, 110u8, 103u8, 117u8, 97u8, 103u8, 101u8, 83u8, 112u8, 101u8, 99u8, 105u8, 102u8, 105u8, 99u8, 83u8, 110u8, 105u8, 112u8, 112u8, 101u8, 116u8];
            assert(bt@ =~= backtick_kind());
            assert(raw@ =~= raw_backtick_kind());
            assert(lang@ =~= language_kind());
            if bytes_equal(k, bt.as_slice()) {
                Ok(SnippetForm::BackTick)
            } else if bytes_equal(k, raw.as_slice()) {
                Ok(SnippetForm::RawBackTick)
            } else if bytes_equal(k, lang.as_slice()) {
                Ok(SnippetForm::LanguageSpecific)
            } else {
                Err(SnippetError::MalformedNode)
            }
        },
    }
}

/// `s` is wrapped in a pair of double quotes.
pub open spec fn is_quoted(s: Seq<u8>) -> bool {
    s.len() >= 2 && s[0] == 34u8 && s.last() == 34u8
}

/// The node's range shrunk by one byte on each side, to exclude the quotes;
/// a range too short to hold two quotes stays as it is.
pub open spec fn shrink_spec(r: ByteRange) -> ByteRange {
    if r.end - r.start >= 2 {
        ByteRange { start: (r.start + 1) as usize, end: (r.end - 1) as usize }
    } else {
        r
    }
}

/// `name` is one of `languages`.
pub open spec fn is_known(languages: Seq<Vec<u8>>, name: Seq<u8>) -> bool {
    exists|i: int| 0 <= i < languages.len() && (#[trigger] languages[i])@ == name
}

fn find_language(languages: &Vec<Vec<u8>>, name: &[u8]) -> (r: bool)
    ensures
        r == is_known(languages@, name@),
{
    let mut i: usize = 0;
    while i < languages.len()
        invariant
            i <= languages@.len(),
            forall|j: int| 0 <= j < i ==> (#[trigger] languages@[j])@ != name@,
        decreases languages.len() - i,
    {
        if bytes_equal(languages[i].as_slice(), name) {
            return true;
        }
        i = i + 1;
    }
    false
}

/// Validates a language-tagged snippet and extracts its content: the
/// trimmed `language` text must name one of `languages`, and the `snippet`
/// text must be wrapped in double quotes. Returns the text between the
/// quotes and `node_range` shrunk by one byte on each side. A missing child
/// is a malformed node; the checks run in the order the children are read:
/// language, its name, snippet, its quotes.
pub fn unwrap_language_snippet(
    language: Option<&[u8]>,
    snippet: Option<&[u8]>,
    node_range: ByteRange,
    languages: &Vec<Vec<u8>>,
) -> (r: Result<(Vec<u8>, ByteRange), SnippetError>)
    requires
        node_range.wf(),
    ensures
        match (language, snippet) {
            (None, _) => r == Err::<(Vec<u8>, ByteRange), SnippetError>(SnippetError::MalformedNode),
            (Some(l), s) => if !is_known(languages@, trim_spec(l@)) {
                r == Err::<(Vec<u8>, ByteRange), SnippetError>(SnippetError::UnknownLanguage)
            } else {
                match s {
                    None => r == Err::<(Vec<u8>, ByteRange), SnippetError>(
                        SnippetError::MalformedNode,
                    ),
                    Some(s) => if !is_quoted(s@) {
                        r == Err::<(Vec<u8>, ByteRange), SnippetError>(
                            SnippetError::MalformedLiteral,
                        )
                    } else {
                        match r {
                            Ok((content, range)) => {
                                &&& content@ == s@.subrange(1, s@.len() - 1)
                                &&& range == shrink_spec(node_range)
                                &&& range.wf()
                            },
                            Err(_) => false,
                        }
                    },
                }
            },
        },
{
    let l = match language {
        None => return Err(SnippetError::MalformedNode),
        Some(l) => l,
    };
    let name = trim_whitespace(l);
    if !find_language(languages, name.as_slice()) {
        return Err(SnippetError::UnknownLanguage);
    }
    let s = match snippet {
        None => return Err(SnippetError::MalformedNode),
        Some(s) => s,
    };
    if !(s.len() >= 2 && s[0] == 34u8 && s[s.len() - 1] == 34u8) {
        return Err(SnippetError::MalformedLiteral);
    }
    let content = copy_range(s, 1, s.len() - 1);
    let range = if node_range.end - node_range.start >= 2 {
        ByteRange { start: node_range.start + 1, end: node_range.end - 1 }
    } else {
        node_range
    };
    Ok((content, range))
}

} // verus!
