//! Matching the editor's syntax tokens against the token colours of a
//! VS Code theme.
use vstd::prelude::*;
use indexmap::IndexMap;
use crate::text::{chars_eq, chars_of, chars_split, owned, split_char, strings_view, trim, trim_chars};

verus! {

#[verifier::external_type_specification]
#[verifier::external_body]
#[verifier::reject_recursive_types(K)]
#[verifier::reject_recursive_types(V)]
#[verifier::reject_recursive_types(S)]
pub struct ExIndexMap<K, V, S>(IndexMap<K, V, S>);

/// The entries of a map from token-colour positions to ranks, in the map's
/// order.
pub uninterp spec fn rank_entries(m: IndexMap<usize, u32>) -> Seq<(usize, u32)>;

/// `IndexMap::new`: a map with no entries.
#[verifier::external_body]
fn new_rank_map() -> (m: IndexMap<usize, u32>)
    ensures
        rank_entries(m) == Seq::<(usize, u32)>::empty(),
{
    IndexMap::new()
}

/// `IndexMap::insert` of a key the map does not hold: the pair goes last in
/// the order and nothing is returned.
#[verifier::external_body]
fn insert_rank(m: &mut IndexMap<usize, u32>, ix: usize, rank: u32) -> (r: Option<u32>)
    requires
        forall|i: int| 0 <= i < rank_entries(*old(m)).len() ==> rank_entries(*old(m))[i].0 != ix,
    ensures
        r is None,
        rank_entries(*final(m)) == rank_entries(*old(m)).push((ix, rank)),
{
    m.insert(ix, rank)
}

/// `IndexMap::into_iter`, collected: the entries in the map's order.
#[verifier::external_body]
fn rank_entries_in_order(m: IndexMap<usize, u32>) -> (v: Vec<(usize, u32)>)
    ensures
        v@ == rank_entries(m),
{
    m.into_iter().collect()
}

/// The scope selector of a theme rule: one selector string or a list of them.
#[derive(Debug, PartialEq, Eq)]
pub enum VsCodeTokenScope {
    One(String),
    Many(Vec<String>),
}

/// A theme rule: the scopes it applies to and the colours it sets.
#[derive(Debug)]
pub struct VsCodeTokenColor {
    pub name: Option<String>,
    pub scope: Option<VsCodeTokenScope>,
    pub settings: VsCodeTokenColorSettings,
}

/// The colours and font style of a theme rule.
#[derive(Debug)]
pub struct VsCodeTokenColorSettings {
    pub foreground: Option<String>,
    pub background: Option<String>,
    pub font_style: Option<String>,
}

/// A syntax token of the editor's theme format.
#[derive(Debug, PartialEq, Eq, Copy, Clone, Structural)]
pub enum VectorSyntaxToken {
    Attribute,
    Boolean,
    Comment,
    CommentDoc,
    Constant,
    Constructor,
    Embedded,
    Emphasis,
    EmphasisStrong,
    Enum,
    Function,
    Hint,
    Keyword,
    Label,
    LinkText,
    LinkUri,
    Number,
    Operator,
    Predictive,
    Preproc,
    Primary,
    Property,
    Punctuation,
    PunctuationBracket,
    PunctuationDelimiter,
    PunctuationListMarker,
    PunctuationSpecial,
    String,
    StringEscape,
    StringRegex,
    StringSpecial,
    StringSpecialSymbol,
    Tag,
    TextLiteral,
    Title,
    Type,
    Variable,
    VariableSpecial,
    Variant,
}

/// The name of a token in the editor's theme format.
pub open spec fn token_name(t: VectorSyntaxToken) -> &'static str {
    match t {
        VectorSyntaxToken::Attribute => "attribute",
        VectorSyntaxToken::Boolean => "boolean",
        VectorSyntaxToken::Comment => "comment",
        VectorSyntaxToken::CommentDoc => "comment.doc",
        VectorSyntaxToken::Constant => "constant",
        VectorSyntaxToken::Constructor => "constructor",
        VectorSyntaxToken::Embedded => "embedded",
        VectorSyntaxToken::Emphasis => "emphasis",
        VectorSyntaxToken::EmphasisStrong => "emphasis.strong",
        VectorSyntaxToken::Enum => "enum",
        VectorSyntaxToken::Function => "function",
        VectorSyntaxToken::Hint => "hint",
        VectorSyntaxToken::Keyword => "keyword",
        VectorSyntaxToken::Label => "label",
        VectorSyntaxToken::LinkText => "link_text",
        VectorSyntaxToken::LinkUri => "link_uri",
        VectorSyntaxToken::Number => "number",
        VectorSyntaxToken::Operator => "operator",
        VectorSyntaxToken::Predictive => "predictive",
        VectorSyntaxToken::Preproc => "preproc",
        VectorSyntaxToken::Primary => "primary",
        VectorSyntaxToken::Property => "property",
        VectorSyntaxToken::Punctuation => "punctuation",
        VectorSyntaxToken::PunctuationBracket => "punctuation.bracket",
        VectorSyntaxToken::PunctuationDelimiter => "punctuation.delimiter",
        VectorSyntaxToken::PunctuationListMarker => "punctuation.list_marker",
        VectorSyntaxToken::PunctuationSpecial => "punctuation.special",
        VectorSyntaxToken::String => "string",
        VectorSyntaxToken::StringEscape => "string.escape",
        VectorSyntaxToken::StringRegex => "string.regex",
        VectorSyntaxToken::StringSpecial => "string.special",
        VectorSyntaxToken::StringSpecialSymbol => "string.special.symbol",
        VectorSyntaxToken::Tag => "tag",
        VectorSyntaxToken::TextLiteral => "text.literal",
        VectorSyntaxToken::Title => "title",
        VectorSyntaxToken::Type => "type",
        VectorSyntaxToken::Variable => "variable",
        VectorSyntaxToken::VariableSpecial => "variable.special",
        VectorSyntaxToken::Variant => "variant",
    }
}

/// The VS Code scopes that stand for a token, most specific first.
pub open spec fn vscode_scopes(t: VectorSyntaxToken) -> Seq<&'static str> {
    match t {
        VectorSyntaxToken::Attribute => seq!["entity.other.attribute-name"],
        VectorSyntaxToken::Boolean => seq!["constant.language"],
        VectorSyntaxToken::Comment => seq!["comment"],
        VectorSyntaxToken::CommentDoc => seq!["comment.block.documentation"],
        VectorSyntaxToken::Constant => seq!["constant", "constant.language", "constant.character"],
        VectorSyntaxToken::Constructor => seq!["entity.name.tag", "entity.name.function.definition.special.constructor"],
        VectorSyntaxToken::Embedded => seq!["meta.embedded"],
        VectorSyntaxToken::Emphasis => seq!["markup.italic"],
        VectorSyntaxToken::EmphasisStrong => seq!["markup.bold", "markup.italic markup.bold", "markup.bold markup.italic"],
        VectorSyntaxToken::Enum => seq!["support.type.enum"],
        VectorSyntaxToken::Function => seq!["entity.function", "entity.name.function", "variable.function"],
        VectorSyntaxToken::Hint => seq![],
        VectorSyntaxToken::Keyword => seq!["keyword", "keyword.other.fn.rust", "keyword.control", "keyword.control.fun", "keyword.control.class", "punctuation.accessor", "entity.name.tag"],
        VectorSyntaxToken::Label => seq!["label", "entity.name", "entity.name.import", "entity.name.package"],
        VectorSyntaxToken::LinkText => seq!["markup.underline.link", "string.other.link"],
        VectorSyntaxToken::LinkUri => seq!["markup.underline.link", "string.other.link"],
        VectorSyntaxToken::Number => seq!["constant.numeric", "number"],
        VectorSyntaxToken::Operator => seq!["operator", "keyword.operator"],
        VectorSyntaxToken::Predictive => seq![],
        VectorSyntaxToken::Preproc => seq!["preproc", "meta.preprocessor", "punctuation.definition.preprocessor"],
        VectorSyntaxToken::Primary => seq![],
        VectorSyntaxToken::Property => seq!["variable.member", "support.type.property-name", "variable.object.property", "variable.other.field"],
        VectorSyntaxToken::Punctuation => seq!["punctuation", "punctuation.section", "punctuation.accessor", "punctuation.separator", "punctuation.definition.tag"],
        VectorSyntaxToken::PunctuationBracket => seq!["punctuation.bracket", "punctuation.definition.tag.begin", "punctuation.definition.tag.end"],
        VectorSyntaxToken::PunctuationDelimiter => seq!["punctuation.delimiter", "punctuation.separator", "punctuation.terminator"],
        VectorSyntaxToken::PunctuationListMarker => seq!["markup.list punctuation.definition.list.begin"],
        VectorSyntaxToken::PunctuationSpecial => seq!["punctuation.special"],
        VectorSyntaxToken::String => seq!["string"],
        VectorSyntaxToken::StringEscape => seq!["string.escape", "constant.character", "constant.other"],
        VectorSyntaxToken::StringRegex => seq!["string.regex"],
        VectorSyntaxToken::StringSpecial => seq!["string.special", "constant.other.symbol"],
        VectorSyntaxToken::StringSpecialSymbol => seq!["string.special.symbol", "constant.other.symbol"],
        VectorSyntaxToken::Tag => seq!["tag", "entity.name.tag", "meta.tag.sgml"],
        VectorSyntaxToken::TextLiteral => seq!["text.literal", "string"],
        VectorSyntaxToken::Title => seq!["title", "entity.name"],
        VectorSyntaxToken::Type => seq!["entity.name.type", "entity.name.type.primitive", "entity.name.type.numeric", "keyword.type", "support.type", "support.type.primitive", "support.class"],
        VectorSyntaxToken::Variable => seq!["variable", "variable.language", "variable.member", "variable.parameter", "variable.parameter.function-call"],
        VectorSyntaxToken::VariableSpecial => seq!["variable.special", "variable.member", "variable.annotation", "variable.language"],
        VectorSyntaxToken::Variant => seq!["variant"],
    }
}

/// Whether a token's own name is the VS Code scope it stands for first:
/// the comment, constant, keyword, label, operator, preprocessor,
/// punctuation, string, tag, text-literal, title, variable and variant
/// tokens.
pub open spec fn named_after_its_scope(t: VectorSyntaxToken) -> bool {
    match t {
        VectorSyntaxToken::Comment => true,
        VectorSyntaxToken::Constant => true,
        VectorSyntaxToken::Keyword => true,
        VectorSyntaxToken::Label => true,
        VectorSyntaxToken::Operator => true,
        VectorSyntaxToken::Preproc => true,
        VectorSyntaxToken::Punctuation => true,
        VectorSyntaxToken::PunctuationBracket => true,
        VectorSyntaxToken::PunctuationDelimiter => true,
        VectorSyntaxToken::PunctuationSpecial => true,
        VectorSyntaxToken::String => true,
        VectorSyntaxToken::StringEscape => true,
        VectorSyntaxToken::StringRegex => true,
        VectorSyntaxToken::StringSpecial => true,
        VectorSyntaxToken::StringSpecialSymbol => true,
        VectorSyntaxToken::Tag => true,
        VectorSyntaxToken::TextLiteral => true,
        VectorSyntaxToken::Title => true,
        VectorSyntaxToken::Variable => true,
        VectorSyntaxToken::VariableSpecial => true,
        VectorSyntaxToken::Variant => true,
        _ => false,
    }
}

/// A token named after a VS Code scope looks for that scope first: its
/// scope list is not empty and begins with the token's own name (so a
/// theme's `variable` colour is the best match for the variable token).
pub proof fn lemma_named_tokens_look_up_their_name_first(t: VectorSyntaxToken)
    requires
        named_after_its_scope(t),
    ensures
        vscode_scopes(t).len() > 0,
        vscode_scopes(t)[0] == token_name(t),
{
}

/// Only the editor's own tokens (hint, predictive and primary text) have no
/// VS Code scope; every other token has at least one.
pub proof fn lemma_only_editor_tokens_lack_scopes(t: VectorSyntaxToken)
    ensures
        vscode_scopes(t).len() == 0 <==> (t is Hint || t is Predictive || t is Primary),
{
}

/// The texts of the VS Code scopes of a token.
pub open spec fn vscode_scope_texts(t: VectorSyntaxToken) -> Seq<Seq<char>> {
    vscode_scopes(t).map_values(|s: &'static str| s@)
}

/// The tokens whose colours stand in for a token that a theme leaves out.
pub open spec fn token_fallbacks(t: VectorSyntaxToken) -> Seq<VectorSyntaxToken> {
    match t {
        VectorSyntaxToken::CommentDoc => seq![VectorSyntaxToken::Comment],
        VectorSyntaxToken::Number => seq![VectorSyntaxToken::Constant],
        VectorSyntaxToken::VariableSpecial => seq![VectorSyntaxToken::Variable],
        VectorSyntaxToken::PunctuationBracket | VectorSyntaxToken::PunctuationDelimiter
        | VectorSyntaxToken::PunctuationListMarker | VectorSyntaxToken::PunctuationSpecial => seq![
            VectorSyntaxToken::Punctuation,
        ],
        VectorSyntaxToken::StringEscape | VectorSyntaxToken::StringRegex
        | VectorSyntaxToken::StringSpecial | VectorSyntaxToken::StringSpecialSymbol => seq![
            VectorSyntaxToken::String,
        ],
        _ => Seq::empty(),
    }
}

/// Fallbacks go one level deep: a token is never its own fallback, and a
/// fallback token has no fallbacks of its own.
pub proof fn lemma_fallbacks_are_roots(t: VectorSyntaxToken)
    ensures
        forall|i: int| 0 <= i < token_fallbacks(t).len() ==> {
            &&& #[trigger] token_fallbacks(t)[i] != t
            &&& token_fallbacks(token_fallbacks(t)[i]).len() == 0
        },
{
}

/// The selector strings of a scope.
pub open spec fn scope_strings(scope: VsCodeTokenScope) -> Seq<Seq<char>> {
    match scope {
        VsCodeTokenScope::One(s) => seq![s@],
        VsCodeTokenScope::Many(v) => strings_view(v@),
    }
}

/// The comma-separated parts of one selector string, each trimmed.
pub open spec fn trimmed_parts(s: Seq<char>) -> Seq<Seq<char>> {
    split_char(s, ',').map_values(|p: Seq<char>| trim(p))
}

/// The trimmed comma-separated parts of all selector strings, in order.
pub open spec fn candidate_scopes(strs: Seq<Seq<char>>) -> Seq<Seq<char>>
    decreases strs.len(),
{
    if strs.len() == 0 {
        Seq::empty()
    } else {
        candidate_scopes(strs.drop_last()) + trimmed_parts(strs.last())
    }
}

/// The weight of the target scope at position `ix` of `n`: one more than its
/// distance from the end, so that earlier scopes weigh more.
pub open spec fn scope_weight(n: int, ix: int) -> int {
    1 + (n - ix)
}

/// The summed weights of the first `k` target scopes that occur among the
/// candidates.
pub open spec fn rank_sum(targets: Seq<Seq<char>>, candidates: Seq<Seq<char>>, k: int) -> int
    decreases k,
{
    if k <= 0 {
        0
    } else {
        rank_sum(targets, candidates, k - 1) + if candidates.contains(targets[k - 1]) {
            scope_weight(targets.len() as int, k - 1)
        } else {
            0
        }
    }
}

/// How well a theme rule matches a token: no rank where the rule has no
/// scope, else the summed weights of the token's VS Code scopes that the
/// rule names.
pub open spec fn token_rank(t: VectorSyntaxToken, c: VsCodeTokenColor) -> Option<int> {
    match c.scope {
        None => None,
        Some(scope) => {
            let targets = vscode_scope_texts(t);
            Some(rank_sum(targets, candidate_scopes(scope_strings(scope)), targets.len() as int))
        },
    }
}

/// Whether a rule can colour the token: it sets a foreground and matches
/// with a positive rank.
pub open spec fn eligible(t: VectorSyntaxToken, c: VsCodeTokenColor) -> bool {
    &&& c.settings.foreground is Some
    &&& token_rank(t, c) matches Some(r) && r > 0
}

/// The rank of an eligible rule.
pub open spec fn rank_of(t: VectorSyntaxToken, c: VsCodeTokenColor) -> int {
    token_rank(t, c)->0
}

/// Whether rule `i` is the best match: eligible, ranked at least as high as
/// every eligible rule, and strictly higher than every eligible rule after it.
pub open spec fn is_best_match(t: VectorSyntaxToken, colors: Seq<VsCodeTokenColor>, i: int) -> bool {
    &&& 0 <= i < colors.len()
    &&& eligible(t, colors[i])
    &&& forall|j: int| 0 <= j < colors.len() && eligible(t, colors[j]) ==> rank_of(t, colors[j]) <= rank_of(t, colors[i])
    &&& forall|j: int| i < j < colors.len() && eligible(t, colors[j]) ==> rank_of(t, colors[j]) < rank_of(t, colors[i])
}

/// Whether any rule can colour the token.
pub open spec fn any_eligible(t: VectorSyntaxToken, colors: Seq<VsCodeTokenColor>) -> bool {
    exists|i: int| 0 <= i < colors.len() && eligible(t, colors[i])
}

/// The trimmed comma-separated parts of one selector string.
fn parts_of(s: &String) -> (r: Vec<Vec<char>>)
    ensures
        r@.map_values(|p: Vec<char>| p@) == trimmed_parts(s@),
{
    let chars = chars_of(s.as_str());
    let pieces = chars_split(chars.as_slice(), ',');
    let ghost pv = pieces@.map_values(|p: Vec<char>| p@);
    let mut r: Vec<Vec<char>> = Vec::new();
    let mut i: usize = 0;
    while i < pieces.len()
        invariant
            pv == pieces@.map_values(|p: Vec<char>| p@),
            pv == split_char(s@, ','),
            i <= pieces@.len(),
            r@.map_values(|p: Vec<char>| p@) == pv.subrange(0, i as int).map_values(|p: Seq<char>| trim(p)),
        decreases pieces@.len() - i,
    {
        let t = trim_chars(pieces[i].as_slice());
        let ghost before = r@.map_values(|p: Vec<char>| p@);
        r.push(t);
        assert(r@.map_values(|p: Vec<char>| p@) =~= before.push(t@));
        assert(pv.subrange(0, i + 1).map_values(|p: Seq<char>| trim(p)) =~= pv.subrange(0, i as int).map_values(|p: Seq<char>| trim(p)).push(trim(pv[i as int])));
        i = i + 1;
    }
    assert(pv.subrange(0, pieces@.len() as int) =~= pv);
    r
}

/// Appends the trimmed parts of one selector string to the candidates.
fn push_parts(cands: &mut Vec<Vec<char>>, s: &String)
    ensures
        final(cands)@.map_values(|p: Vec<char>| p@) == old(cands)@.map_values(|p: Vec<char>| p@) + trimmed_parts(s@),
{
    let parts = parts_of(s);
    let ghost start = cands@.map_values(|p: Vec<char>| p@);
    let ghost pv = parts@.map_values(|p: Vec<char>| p@);
    let mut i: usize = 0;
    while i < parts.len()
        invariant
            pv == parts@.map_values(|p: Vec<char>| p@),
            i <= parts@.len(),
            cands@.map_values(|p: Vec<char>| p@) == start + pv.subrange(0, i as int),
        decreases parts@.len() - i,
    {
        let ghost before = cands@.map_values(|p: Vec<char>| p@);
        let p = parts[i].clone();
        cands.push(p);
        assert(cands@.map_values(|p: Vec<char>| p@) =~= before.push(pv[i as int]));
        assert(start + pv.subrange(0, i + 1) =~= (start + pv.subrange(0, i as int)).push(pv[i as int]));
        i = i + 1;
    }
    assert(pv.subrange(0, parts@.len() as int) =~= pv);
}

/// The candidate scopes of a scope selector.
fn candidates_of(scope: &VsCodeTokenScope) -> (r: Vec<Vec<char>>)
    ensures
        r@.map_values(|p: Vec<char>| p@) == candidate_scopes(scope_strings(*scope)),
{
    let mut r: Vec<Vec<char>> = Vec::new();
    match scope {
        VsCodeTokenScope::One(s) => {
            push_parts(&mut r, s);
            let ghost strs = scope_strings(*scope);
            assert(strs.drop_last() =~= Seq::<Seq<char>>::empty());
            assert(strs.last() == s@);
            assert(candidate_scopes(Seq::<Seq<char>>::empty()) =~= Seq::<Seq<char>>::empty());
            assert(candidate_scopes(strs) == candidate_scopes(strs.drop_last()) + trimmed_parts(strs.last()));
            assert(r@.map_values(|p: Vec<char>| p@) =~= candidate_scopes(strs));
        },
        VsCodeTokenScope::Many(v) => {
            let ghost strs = strings_view(v@);
            let mut i: usize = 0;
            assert(r@.map_values(|p: Vec<char>| p@) =~= candidate_scopes(strs.subrange(0, 0)));
            while i < v.len()
                invariant
                    strs == strings_view(v@),
                    i <= v@.len(),
                    r@.map_values(|p: Vec<char>| p@) == candidate_scopes(strs.subrange(0, i as int)),
                decreases v@.len() - i,
            {
                push_parts(&mut r, &v[i]);
                assert(strs.subrange(0, i + 1).drop_last() =~= strs.subrange(0, i as int));
                i = i + 1;
            }
            assert(strs.subrange(0, v@.len() as int) =~= strs);
        },
    }
    r
}

/// Whether the candidates hold the given text.
fn candidates_contain(cands: &Vec<Vec<char>>, target: &[char]) -> (r: bool)
    ensures
        r == cands@.map_values(|p: Vec<char>| p@).contains(target@),
{
    let ghost cv = cands@.map_values(|p: Vec<char>| p@);
    let mut i: usize = 0;
    while i < cands.len()
        invariant
            cv == cands@.map_values(|p: Vec<char>| p@),
            i <= cands@.len(),
            forall|k: int| 0 <= k < i ==> cv[k] != target@,
        decreases cands@.len() - i,
    {
        if chars_eq(cands[i].as_slice(), target) {
            assert(cv[i as int] == target@);
            return true;
        }
        i = i + 1;
    }
    false
}

impl VectorSyntaxToken {
    /// The name of the token in the editor's theme format.
    pub fn name(&self) -> (r: &'static str)
        ensures
            r == token_name(*self),
    {
        match self {
            VectorSyntaxToken::Attribute => "attribute",
            VectorSyntaxToken::Boolean => "boolean",
            VectorSyntaxToken::Comment => "comment",
            VectorSyntaxToken::CommentDoc => "comment.doc",
            VectorSyntaxToken::Constant => "constant",
            VectorSyntaxToken::Constructor => "constructor",
            VectorSyntaxToken::Embedded => "embedded",
            VectorSyntaxToken::Emphasis => "emphasis",
            VectorSyntaxToken::EmphasisStrong => "emphasis.strong",
            VectorSyntaxToken::Enum => "enum",
            VectorSyntaxToken::Function => "function",
            VectorSyntaxToken::Hint => "hint",
            VectorSyntaxToken::Keyword => "keyword",
            VectorSyntaxToken::Label => "label",
            VectorSyntaxToken::LinkText => "link_text",
            VectorSyntaxToken::LinkUri => "link_uri",
            VectorSyntaxToken::Number => "number",
            VectorSyntaxToken::Operator => "operator",
            VectorSyntaxToken::Predictive => "predictive",
            VectorSyntaxToken::Preproc => "preproc",
            VectorSyntaxToken::Primary => "primary",
            VectorSyntaxToken::Property => "property",
            VectorSyntaxToken::Punctuation => "punctuation",
            VectorSyntaxToken::PunctuationBracket => "punctuation.bracket",
            VectorSyntaxToken::PunctuationDelimiter => "punctuation.delimiter",
            VectorSyntaxToken::PunctuationListMarker => "punctuation.list_marker",
            VectorSyntaxToken::PunctuationSpecial => "punctuation.special",
            VectorSyntaxToken::String => "string",
            VectorSyntaxToken::StringEscape => "string.escape",
            VectorSyntaxToken::StringRegex => "string.regex",
            VectorSyntaxToken::StringSpecial => "string.special",
            VectorSyntaxToken::StringSpecialSymbol => "string.special.symbol",
            VectorSyntaxToken::Tag => "tag",
            VectorSyntaxToken::TextLiteral => "text.literal",
            VectorSyntaxToken::Title => "title",
            VectorSyntaxToken::Type => "type",
            VectorSyntaxToken::Variable => "variable",
            VectorSyntaxToken::VariableSpecial => "variable.special",
            VectorSyntaxToken::Variant => "variant",
        }
    }

    /// The VS Code scopes that stand for the token, most specific first.
    pub fn to_vscode(self) -> (r: Vec<&'static str>)
        ensures
            r@ == vscode_scopes(self),
            r@.len() <= 7,
    {
        match self {
            VectorSyntaxToken::Attribute => vec!["entity.other.attribute-name"],
            VectorSyntaxToken::Boolean => vec!["constant.language"],
            VectorSyntaxToken::Comment => vec!["comment"],
            VectorSyntaxToken::CommentDoc => vec!["comment.block.documentation"],
            VectorSyntaxToken::Constant => vec!["constant", "constant.language", "constant.character"],
            VectorSyntaxToken::Constructor => vec!["entity.name.tag", "entity.name.function.definition.special.constructor"],
            VectorSyntaxToken::Embedded => vec!["meta.embedded"],
            VectorSyntaxToken::Emphasis => vec!["markup.italic"],
            VectorSyntaxToken::EmphasisStrong => vec!["markup.bold", "markup.italic markup.bold", "markup.bold markup.italic"],
            VectorSyntaxToken::Enum => vec!["support.type.enum"],
            VectorSyntaxToken::Function => vec!["entity.function", "entity.name.function", "variable.function"],
            VectorSyntaxToken::Hint => vec![],
            VectorSyntaxToken::Keyword => vec!["keyword", "keyword.other.fn.rust", "keyword.control", "keyword.control.fun", "keyword.control.class", "punctuation.accessor", "entity.name.tag"],
            VectorSyntaxToken::Label => vec!["label", "entity.name", "entity.name.import", "entity.name.package"],
            VectorSyntaxToken::LinkText => vec!["markup.underline.link", "string.other.link"],
            VectorSyntaxToken::LinkUri => vec!["markup.underline.link", "string.other.link"],
            VectorSyntaxToken::Number => vec!["constant.numeric", "number"],
            VectorSyntaxToken::Operator => vec!["operator", "keyword.operator"],
            VectorSyntaxToken::Predictive => vec![],
            VectorSyntaxToken::Preproc => vec!["preproc", "meta.preprocessor", "punctuation.definition.preprocessor"],
            VectorSyntaxToken::Primary => vec![],
            VectorSyntaxToken::Property => vec!["variable.member", "support.type.property-name", "variable.object.property", "variable.other.field"],
            VectorSyntaxToken::Punctuation => vec!["punctuation", "punctuation.section", "punctuation.accessor", "punctuation.separator", "punctuation.definition.tag"],
            VectorSyntaxToken::PunctuationBracket => vec!["punctuation.bracket", "punctuation.definition.tag.begin", "punctuation.definition.tag.end"],
            VectorSyntaxToken::PunctuationDelimiter => vec!["punctuation.delimiter", "punctuation.separator", "punctuation.terminator"],
            VectorSyntaxToken::PunctuationListMarker => vec!["markup.list punctuation.definition.list.begin"],
            VectorSyntaxToken::PunctuationSpecial => vec!["punctuation.special"],
            VectorSyntaxToken::String => vec!["string"],
            VectorSyntaxToken::StringEscape => vec!["string.escape", "constant.character", "constant.other"],
            VectorSyntaxToken::StringRegex => vec!["string.regex"],
            VectorSyntaxToken::StringSpecial => vec!["string.special", "constant.other.symbol"],
            VectorSyntaxToken::StringSpecialSymbol => vec!["string.special.symbol", "constant.other.symbol"],
            VectorSyntaxToken::Tag => vec!["tag", "entity.name.tag", "meta.tag.sgml"],
            VectorSyntaxToken::TextLiteral => vec!["text.literal", "string"],
            VectorSyntaxToken::Title => vec!["title", "entity.name"],
            VectorSyntaxToken::Type => vec!["entity.name.type", "entity.name.type.primitive", "entity.name.type.numeric", "keyword.type", "support.type", "support.type.primitive", "support.class"],
            VectorSyntaxToken::Variable => vec!["variable", "variable.language", "variable.member", "variable.parameter", "variable.parameter.function-call"],
            VectorSyntaxToken::VariableSpecial => vec!["variable.special", "variable.member", "variable.annotation", "variable.language"],
            VectorSyntaxToken::Variant => vec!["variant"],
        }
    }

    /// The name of the token, as its `Display` writes it.
    pub fn to_string(&self) -> (r: String)
        ensures
            r@ == token_name(*self)@,
    {
        owned(self.name())
    }

    /// The tokens whose colours stand in for this one where a theme has none.
    pub fn fallbacks(&self) -> (r: &'static [VectorSyntaxToken])
        ensures
            r@ == token_fallbacks(*self),
    {
        match self {
            VectorSyntaxToken::CommentDoc => &[VectorSyntaxToken::Comment],
            VectorSyntaxToken::Number => &[VectorSyntaxToken::Constant],
            VectorSyntaxToken::VariableSpecial => &[VectorSyntaxToken::Variable],
            VectorSyntaxToken::PunctuationBracket | VectorSyntaxToken::PunctuationDelimiter
            | VectorSyntaxToken::PunctuationListMarker | VectorSyntaxToken::PunctuationSpecial => &[
                VectorSyntaxToken::Punctuation,
            ],
            VectorSyntaxToken::StringEscape | VectorSyntaxToken::StringRegex
            | VectorSyntaxToken::StringSpecial | VectorSyntaxToken::StringSpecialSymbol => &[
                VectorSyntaxToken::String,
            ],
            _ => &[],
        }
    }

    /// How well a theme rule matches the token, as `token_rank` describes.
    pub fn rank_match(&self, token_color: &VsCodeTokenColor) -> (r: Option<u32>)
        ensures
            match token_rank(*self, *token_color) {
                None => r is None,
                Some(k) => r matches Some(v) && v as int == k,
            },
    {
        let scope = match &token_color.scope {
            Some(s) => s,
            None => return None,
        };
        let cands = candidates_of(scope);
        let targets = self.to_vscode();
        let n = targets.len();
        let ghost tv = vscode_scope_texts(*self);
        let ghost cv = cands@.map_values(|p: Vec<char>| p@);
        let mut matches: u32 = 0;
        let mut ix: usize = 0;
        while ix < n
            invariant
                n == targets@.len(),
                n <= 7,
                targets@ == vscode_scopes(*self),
                tv == vscode_scope_texts(*self),
                cv == cands@.map_values(|p: Vec<char>| p@),
                ix <= n,
                matches == rank_sum(tv, cv, ix as int),
                matches <= 8 * ix,
            decreases n - ix,
        {
            let scope_text = chars_of(targets[ix]);
            assert(scope_text@ == tv[ix as int]);
            let weight = (n - ix) as u32;
            if candidates_contain(&cands, scope_text.as_slice()) {
                matches = matches + 1 + weight;
            }
            ix = ix + 1;
        }
        Some(matches)
    }

    /// The position of the best-matching rule among those that set a
    /// foreground, as `is_best_match` describes; `None` where no rule can
    /// colour the token.
    pub fn best_token_color_index(&self, token_colors: &[VsCodeTokenColor]) -> (r: Option<usize>)
        ensures
            r is None <==> !any_eligible(*self, token_colors@),
            r matches Some(i) ==> is_best_match(*self, token_colors@, i as int),
    {
        let ghost cs = token_colors@;
        let mut ranked = new_rank_map();
        let mut ix: usize = 0;
        while ix < token_colors.len()
            invariant
                cs == token_colors@,
                ix <= cs.len(),
                forall|k: int| 0 <= k < rank_entries(ranked).len() ==> (#[trigger] rank_entries(ranked)[k]).0 < ix,
                forall|k: int| 0 <= k < rank_entries(ranked).len() ==> {
                    let e = #[trigger] rank_entries(ranked)[k];
                    &&& eligible(*self, cs[e.0 as int])
                    &&& e.1 == rank_of(*self, cs[e.0 as int])
                },
                forall|k1: int, k2: int| 0 <= k1 < k2 < rank_entries(ranked).len() ==> (#[trigger] rank_entries(ranked)[k1]).0 < (#[trigger] rank_entries(ranked)[k2]).0,
                forall|j: int| 0 <= j < ix && eligible(*self, cs[j]) ==> exists|k: int| 0 <= k < rank_entries(ranked).len() && (#[trigger] rank_entries(ranked)[k]).0 == j,
            decreases cs.len() - ix,
        {
            let color = &token_colors[ix];
            if color.settings.foreground.is_some() {
                if let Some(rank) = self.rank_match(color) {
                    if rank > 0 {
                        let ghost before = rank_entries(ranked);
                        insert_rank(&mut ranked, ix, rank);
                        assert(rank_entries(ranked)[before.len() as int] == (ix, rank));
                        assert forall|j: int| 0 <= j < ix + 1 && eligible(*self, cs[j]) implies exists|k: int| 0 <= k < rank_entries(ranked).len() && (#[trigger] rank_entries(ranked)[k]).0 == j by {
                            if j < ix {
                                let k = choose|k: int| 0 <= k < before.len() && (#[trigger] before[k]).0 == j;
                                assert(rank_entries(ranked)[k] == before[k]);
                            } else {
                                assert(rank_entries(ranked)[before.len() as int].0 == j);
                            }
                        }
                    }
                }
            }
            ix = ix + 1;
        }
        let entries = rank_entries_in_order(ranked);
        let ghost es = entries@;
        let mut best: Option<(usize, u32)> = None;
        let mut best_pos: usize = 0;
        let mut k: usize = 0;
        while k < entries.len()
            invariant
                es == entries@,
                k <= es.len(),
                forall|a: int| 0 <= a < es.len() ==> {
                    let e = #[trigger] es[a];
                    &&& (e.0 as int) < cs.len()
                    &&& eligible(*self, cs[e.0 as int])
                    &&& e.1 == rank_of(*self, cs[e.0 as int])
                },
                forall|a1: int, a2: int| 0 <= a1 < a2 < es.len() ==> (#[trigger] es[a1]).0 < (#[trigger] es[a2]).0,
                k == 0 <==> best is None,
                best matches Some(b) ==> {
                    &&& best_pos < k
                    &&& es[best_pos as int] == b
                    &&& forall|a: int| 0 <= a < k ==> (#[trigger] es[a]).1 <= b.1
                    &&& forall|a: int| best_pos < a < k ==> (#[trigger] es[a]).1 < b.1
                },
            decreases es.len() - k,
        {
            let e = entries[k];
            match best {
                None => {
                    best = Some(e);
                    best_pos = k;
                },
                Some(b) => {
                    if e.1 >= b.1 {
                        best = Some(e);
                        best_pos = k;
                    }
                },
            }
            k = k + 1;
        }
        match best {
            None => {
                proof {
                    if any_eligible(*self, cs) {
                        let j = choose|j: int| 0 <= j < cs.len() && eligible(*self, cs[j]);
                        let w = choose|w: int| 0 <= w < es.len() && (#[trigger] es[w]).0 == j;
                    }
                }
                None
            },
            Some(b) => {
                proof {
                    let i = b.0 as int;
                    assert(es[best_pos as int] == b);
                    assert forall|j: int| 0 <= j < cs.len() && eligible(*self, cs[j]) implies rank_of(*self, cs[j]) <= rank_of(*self, cs[i]) by {
                        let w = choose|w: int| 0 <= w < es.len() && (#[trigger] es[w]).0 == j;
                        assert(es[w].1 <= b.1);
                    }
                    assert forall|j: int| i < j < cs.len() && eligible(*self, cs[j]) implies rank_of(*self, cs[j]) < rank_of(*self, cs[i]) by {
                        let w = choose|w: int| 0 <= w < es.len() && (#[trigger] es[w]).0 == j;
                        if w <= best_pos {
                            if w < best_pos {
                                assert(es[w].0 < es[best_pos as int].0);
                            }
                        }
                        assert(es[w].1 < b.1);
                    }
                }
                Some(b.0)
            },
        }
    }

    /// The best-matching rule among those that set a foreground, as
    /// `is_best_match` describes; `None` where no rule can colour the token.
    pub fn find_best_token_color_match<'a>(&self, token_colors: &'a [VsCodeTokenColor]) -> (r: Option<&'a VsCodeTokenColor>)
        ensures
            r is None <==> !any_eligible(*self, token_colors@),
            r matches Some(c) ==> exists|i: int| is_best_match(*self, token_colors@, i) && *c == token_colors@[i],
    {
        match self.best_token_color_index(token_colors) {
            Some(i) => Some(&token_colors[i]),
            None => None,
        }
    }
}

} // verus!
