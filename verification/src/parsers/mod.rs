//! Template parsing support: the source-span resolver, a structural reparse of
//! the raw template text that answers line lookups by logical resource path.
pub mod cfn;
pub mod config;
pub mod iac;
pub mod value;

use vstd::prelude::*;
use crate::parsers::value::{assoc, lookup};

verus! {

/// A position in the template text, 1-based as the parser reports it.
#[derive(Clone, Copy, Debug, PartialEq, Eq, Structural)]
pub struct SourcePos {
    pub line: usize,
    pub column: usize,
}

/// Where a node of the span tree starts, when the parser knows.
#[derive(Clone, Copy, Debug, PartialEq, Eq, Structural)]
pub struct SourceSpan {
    pub start: Option<SourcePos>,
}

/// One node of the span tree: its mapping entries in declaration order (none
/// for scalars and sequences) and where it starts. It carries no resolved
/// values; it exists only to answer "where is this path".
pub struct SpanNode {
    pub entries: Vec<(String, SpanNode)>,
    pub span: SourceSpan,
}

/// The mathematical shape of a `SpanNode`.
#[verifier::ext_equal]
pub struct SpanNodeView {
    pub entries: Seq<(Seq<char>, SpanNodeView)>,
    pub span: SourceSpan,
}

impl DeepView for SpanNode {
    type V = SpanNodeView;

    open spec fn deep_view(&self) -> SpanNodeView
        decreases self,
    {
        SpanNodeView { entries: views_of_span_entries(self.entries@), span: self.span }
    }
}

/// The views of span-tree entries, elementwise.
pub open spec fn views_of_span_entries(entries: Seq<(String, SpanNode)>) -> Seq<
    (Seq<char>, SpanNodeView),
>
    decreases entries,
{
    if entries.len() == 0 {
        Seq::empty()
    } else {
        views_of_span_entries(entries.drop_last()).push(
            (entries.last().0@, entries.last().1.deep_view()),
        )
    }
}

pub proof fn lemma_views_of_span_entries(entries: Seq<(String, SpanNode)>)
    ensures
        views_of_span_entries(entries).len() == entries.len(),
        forall|i: int|
            0 <= i < entries.len() ==> views_of_span_entries(entries)[i] == (
                entries[i].0@,
                entries[i].1.deep_view(),
            ),
    decreases entries.len(),
{
    if entries.len() == 0 {
        assert(views_of_span_entries(entries) == Seq::<(Seq<char>, SpanNodeView)>::empty());
    } else {
        lemma_views_of_span_entries(entries.drop_last());
        assert(views_of_span_entries(entries) == views_of_span_entries(entries.drop_last()).push(
            (entries.last().0@, entries.last().1.deep_view()),
        ));
    }
}

/// `assoc` over span entries agrees with `lookup` over their views.
pub proof fn lemma_assoc_span_entries(m: Seq<(String, SpanNode)>, k: Seq<char>)
    ensures
        match assoc(m, k) {
            Some(v) => lookup(views_of_span_entries(m), k) == Some(v.deep_view()),
            None => lookup(views_of_span_entries(m), k) is None,
        },
    decreases m.len(),
{
    lemma_views_of_span_entries(m);
    if m.len() > 0 {
        lemma_assoc_span_entries(m.drop_first(), k);
        lemma_views_of_span_entries(m.drop_first());
        assert(views_of_span_entries(m).drop_first() =~= views_of_span_entries(m.drop_first()));
    }
}

/// Descending the span tree along a path of mapping keys.
pub open spec fn spec_descend(n: SpanNodeView, path: Seq<Seq<char>>) -> Option<SpanNodeView>
    decreases path.len(),
{
    if path.len() == 0 {
        Some(n)
    } else {
        match lookup(n.entries, path[0]) {
            Some(child) => spec_descend(child, path.drop_first()),
            None => None,
        }
    }
}

/// The span tree of a parsed template, rooted at the whole document.
pub struct YamlLineMarker {
    pub node: SpanNode,
}

impl DeepView for YamlLineMarker {
    type V = SpanNodeView;

    open spec fn deep_view(&self) -> SpanNodeView {
        self.node.deep_view()
    }
}

/// The span under `Resources` of a span tree, descending through the given
/// keys; absent when any segment is missing, which is never an error.
pub open spec fn spec_resource_span(root: SpanNodeView, path: Seq<Seq<char>>) -> Option<
    SourceSpan,
> {
    match lookup(root.entries, "Resources"@) {
        Some(r) => match spec_descend(r, path) {
            Some(n) => Some(n.span),
            None => None,
        },
        None => None,
    }
}

impl YamlLineMarker {
    /// The span under `Resources`, descending through the given keys.
    pub open spec fn spec_get_resource_span(self, path: Seq<Seq<char>>) -> Option<SourceSpan> {
        spec_resource_span(self.deep_view(), path)
    }

    /// Where the node named by `Resources.<paths...>` starts.
    pub fn get_resource_span(&self, paths: &Vec<&str>) -> (r: Option<SourceSpan>)
        ensures
            r == self.spec_get_resource_span(paths.deep_view()),
    {
        proof {
            lemma_assoc_span_entries(self.node.entries@, "Resources"@);
        }
        let mut cur: &SpanNode = match span_get(&self.node.entries, "Resources") {
            Some(n) => n,
            None => {
                return None;
            },
        };
        let ghost root = cur.deep_view();
        proof {
            assert(paths.deep_view().skip(0) =~= paths.deep_view());
        }
        let mut i: usize = 0;
        while i < paths.len()
            invariant
                i <= paths.len(),
                spec_descend(root, paths.deep_view()) == spec_descend(
                    cur.deep_view(),
                    paths.deep_view().skip(i as int),
                ),
                self.spec_get_resource_span(paths.deep_view()) == (match spec_descend(
                    root,
                    paths.deep_view(),
                ) {
                    Some(n) => Some(n.span),
                    None => None,
                }),
            decreases paths.len() - i,
        {
            proof {
                lemma_assoc_span_entries(cur.entries@, paths@[i as int]@);
                assert(paths.deep_view().skip(i as int)[0] == paths@[i as int]@);
                assert(paths.deep_view().skip(i as int).drop_first() =~= paths.deep_view().skip(
                    i as int + 1,
                ));
            }
            cur = match span_get(&cur.entries, paths[i]) {
                Some(n) => n,
                None => {
                    return None;
                },
            };
            i = i + 1;
        }
        proof {
            assert(paths.deep_view().skip(paths@.len() as int) =~= Seq::<Seq<char>>::empty());
        }
        Some(cur.span)
    }
}

/// First-match lookup in span-tree entries.
fn span_get<'a>(entries: &'a Vec<(String, SpanNode)>, key: &str) -> (r: Option<&'a SpanNode>)
    ensures
        match r {
            Some(v) => lookup(views_of_span_entries(entries@), key@) == Some(v.deep_view()),
            None => lookup(views_of_span_entries(entries@), key@) is None,
        },
{
    proof {
        lemma_assoc_span_entries(entries@, key@);
    }
    crate::parsers::value::assoc_get(entries, key)
}

} // verus!

verus! {

/// The characters the function-key pattern accepts between `Fn::` and `:`.
pub open spec fn is_word_char(c: char) -> bool {
    ('a' <= c && c <= 'z') || ('A' <= c && c <= 'Z') || ('0' <= c && c <= '9') || c == '_'
}

/// The length of the run of word characters starting at `i`.
pub open spec fn word_run(s: Seq<char>, i: int) -> int
    decreases s.len() - i,
{
    if 0 <= i < s.len() && is_word_char(s[i]) {
        1 + word_run(s, i + 1)
    } else {
        0
    }
}

/// How many characters a function-style key `Fn::<word>+:` occupies at the
/// head of `s`; zero when none starts there.
pub open spec fn fn_key_len(s: Seq<char>) -> int {
    let run = word_run(s, 4);
    if s.len() >= 6 && s.subrange(0, 4) == "Fn::"@ && run >= 1 && 4 + run < s.len() && s[4 + run]
        == ':' {
        4 + run + 1
    } else {
        0
    }
}

/// The span-preserving neutralization of syntax the span parser cannot take:
/// every tag marker and every function-style key is replaced by placeholder
/// text that keeps the line layout.
pub open spec fn spec_preprocess(s: Seq<char>) -> Seq<char>
    decreases s.len(),
{
    if s.len() == 0 {
        s
    } else if s[0] == '!' {
        "###"@ + spec_preprocess(s.drop_first())
    } else if fn_key_len(s) > 0 {
        "###REPLACED"@ + spec_preprocess(s.skip(fn_key_len(s)))
    } else {
        seq![s[0]] + spec_preprocess(s.drop_first())
    }
}

/// Neutralize `!` tag markers and `Fn::...:` keys in the raw template text, so
/// that the span parser sees plain scalars at the same positions.
pub fn preprocess_yaml(doc: &str) -> (r: String)
    ensures
        r@ == spec_preprocess(doc@),
{
    let n = doc.unicode_len();
    let mut out = String::new();
    let mut i: usize = 0;
    proof {
        reveal_strlit("Fn::");
        reveal_strlit("###");
        reveal_strlit("###REPLACED");
        assert(doc@.skip(0) =~= doc@);
    }
    while i < n
        invariant
            i <= n,
            n == doc@.len(),
            spec_preprocess(doc@) == out@ + spec_preprocess(doc@.skip(i as int)),
        decreases n - i,
    {
        let ghost rest = doc@.skip(i as int);
        let c = doc.get_char(i);
        proof {
            assert(rest[0] == doc@[i as int]);
        }
        if c == '!' {
            out.append("###");
            proof {
                assert(rest.drop_first() =~= doc@.skip(i as int + 1));
            }
            i = i + 1;
        } else {
            let mut key_end: usize = 0;
            if c == 'F' && n - i > 5 && doc.get_char(i + 1) == 'n' && doc.get_char(i + 2) == ':'
                && doc.get_char(i + 3) == ':' {
                proof {
                    reveal_strlit("Fn::");
                    assert(rest[1] == doc@[i as int + 1]);
                    assert(rest[2] == doc@[i as int + 2]);
                    assert(rest[3] == doc@[i as int + 3]);
                    assert(rest.subrange(0, 4) =~= "Fn::"@);
                }
                let mut j: usize = i + 4;
                while j < n && is_word(doc.get_char(j))
                    invariant
                        i + 4 <= j <= n,
                        n == doc@.len(),
                        rest == doc@.skip(i as int),
                        forall|q: int| i + 4 <= q < j ==> is_word_char(doc@[q]),
                    decreases n - j,
                {
                    j = j + 1;
                }
                proof {
                    lemma_word_run_exact(doc@, i as int + 4, j as int);
                    assert(word_run(rest, 4) == word_run(doc@, i as int + 4)) by {
                        lemma_word_run_skip(doc@, i as int, 4);
                    }
                }
                if j > i + 4 && j < n && doc.get_char(j) == ':' {
                    key_end = j + 1;
                    proof {
                        assert(rest[(j - i) as int] == doc@[j as int]);
                        assert(fn_key_len(rest) == (j + 1 - i) as int);
                    }
                } else {
                    proof {
                        if j < n {
                            assert(rest[(j - i) as int] == doc@[j as int]);
                        }
                        assert(fn_key_len(rest) == 0);
                    }
                }
            } else {
                proof {
                    reveal_strlit("Fn::");
                    if rest.len() >= 6 && rest.subrange(0, 4) == "Fn::"@ {
                        assert(rest.subrange(0, 4)[0] == rest[0]);
                        assert(rest.subrange(0, 4)[1] == rest[1]);
                        assert(rest.subrange(0, 4)[2] == rest[2]);
                        assert(rest.subrange(0, 4)[3] == rest[3]);
                        assert(rest[1] == doc@[i as int + 1]);
                        assert(rest[2] == doc@[i as int + 2]);
                        assert(rest[3] == doc@[i as int + 3]);
                    }
                    assert(fn_key_len(rest) == 0);
                }
            }
            if key_end > 0 {
                out.append("###REPLACED");
                proof {
                    assert(rest.skip(fn_key_len(rest)) =~= doc@.skip(key_end as int));
                }
                i = key_end;
            } else {
                let piece = doc.substring_char(i, i + 1);
                out.append(piece);
                proof {
                    assert(piece@ =~= seq![rest[0]]);
                    assert(rest.drop_first() =~= doc@.skip(i as int + 1));
                }
                i = i + 1;
            }
        }
    }
    proof {
        assert(doc@.skip(n as int) =~= Seq::<char>::empty());
        assert(out@ =~= out@ + spec_preprocess(doc@.skip(n as int)));
    }
    out
}

/// Whether a character may appear between `Fn::` and the closing `:`.
fn is_word(c: char) -> (r: bool)
    ensures
        r == is_word_char(c),
{
    ('a' <= c && c <= 'z') || ('A' <= c && c <= 'Z') || ('0' <= c && c <= '9') || c == '_'
}

/// A maximal word run is pinned down by its first non-word position.
proof fn lemma_word_run_exact(s: Seq<char>, start: int, end: int)
    requires
        0 <= start <= end <= s.len(),
        forall|q: int| start <= q < end ==> is_word_char(s[q]),
        end == s.len() || !is_word_char(s[end]),
    ensures
        word_run(s, start) == end - start,
    decreases end - start,
{
    if start < end {
        lemma_word_run_exact(s, start + 1, end);
    }
}

/// A word run within a suffix equals the run at the shifted position.
proof fn lemma_word_run_skip(s: Seq<char>, base: int, off: int)
    requires
        0 <= base,
        0 <= off,
        base + off <= s.len(),
    ensures
        word_run(s.skip(base), off) == word_run(s, base + off),
    decreases s.len() - base - off,
{
    if base + off < s.len() && is_word_char(s[base + off]) {
        assert(s.skip(base)[off] == s[base + off]);
        lemma_word_run_skip(s, base, off + 1);
    } else {
        if base + off < s.len() {
            assert(s.skip(base)[off] == s[base + off]);
        }
    }
}

} // verus!

verus! {

/// The span parser's node type, declared so that the conversion below can take
/// it; the library never looks inside such a value.
#[verifier::external_type_specification]
#[verifier::external_body]
pub struct ExNode(marked_yaml::Node);

/// Whether the span parser accepts a text. Parsing is a function of the text
/// alone: the parser consults nothing else.
pub uninterp spec fn spec_yaml_parses(text: Seq<char>) -> bool;

/// The span tree the parser builds from an accepted text, carried over node
/// for node. Also a function of the text alone: mapping entries keep their
/// declaration order, and positions are where the text places each node.
pub uninterp spec fn spec_span_tree_of(text: Seq<char>) -> SpanNodeView;

/// Relies on marked_yaml::parse_yaml and the node accessors: the text either
/// parses, yielding a node tree whose nodes record the 1-based line and column
/// where they start, or it does not, and which of the two happens, and what
/// tree comes back, depend on the text alone. The tree is carried over one
/// node for one node by the helper below.
#[verifier::external_body]
fn parse_spans(text: &str) -> (r: Option<SpanNode>)
    ensures
        (r is Some) == spec_yaml_parses(text@),
        r matches Some(n) ==> n.deep_view() == spec_span_tree_of(text@),
{
    marked_yaml::parse_yaml(0, text).ok().map(|n| node_spans(&n))
}

/// The carry-over half of `parse_spans`, whose contract covers it: each node
/// becomes one library node, mapping entries keep their order and their scalar
/// keys, scalar and sequence nodes carry no entries, and every node keeps the
/// 1-based start position its span records.
#[verifier::external_body]
fn node_spans(node: &marked_yaml::Node) -> (r: SpanNode) {
    let start = node.span().start().map(|m| SourcePos { line: m.line(), column: m.column() });
    let span = SourceSpan { start };
    let entries = match node {
        marked_yaml::Node::Mapping(m) => m
            .iter()
            .map(|(k, v)| (k.as_str().to_string(), node_spans(v)))
            .collect(),
        _ => Vec::new(),
    };
    SpanNode { entries, span }
}

/// Reparse the raw template text into a span tree: neutralize the syntax the
/// span parser cannot take, then parse and carry the nodes over. The marker
/// exists exactly when the neutralized text parses, and is that text's span
/// tree; span lookups on it go through `get_resource_span` above.
pub fn get_yaml_line_marker(doc: &str) -> (r: Option<YamlLineMarker>)
    ensures
        match r {
            Some(m) => spec_yaml_parses(spec_preprocess(doc@)) && m.deep_view()
                == spec_span_tree_of(spec_preprocess(doc@)),
            None => !spec_yaml_parses(spec_preprocess(doc@)),
        },
{
    let cleaned = preprocess_yaml(doc);
    match parse_spans(cleaned.as_str()) {
        Some(node) => Some(YamlLineMarker { node }),
        None => None,
    }
}

} // verus!
