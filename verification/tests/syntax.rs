use vector_core::syntax::{VectorSyntaxToken, VsCodeTokenColor, VsCodeTokenColorSettings, VsCodeTokenScope};

fn color(scope: Option<VsCodeTokenScope>, foreground: Option<&str>) -> VsCodeTokenColor {
    VsCodeTokenColor {
        name: None,
        scope,
        settings: VsCodeTokenColorSettings {
            foreground: foreground.map(|s| s.to_string()),
            background: None,
            font_style: None,
        },
    }
}

fn one(s: &str) -> Option<VsCodeTokenScope> {
    Some(VsCodeTokenScope::One(s.to_string()))
}

#[test]
fn token_names() {
    assert_eq!(VectorSyntaxToken::CommentDoc.to_string(), "comment.doc");
    assert_eq!(VectorSyntaxToken::LinkUri.to_string(), "link_uri");
    assert_eq!(VectorSyntaxToken::StringSpecialSymbol.to_string(), "string.special.symbol");
    assert_eq!(VectorSyntaxToken::Variant.name(), "variant");
}

#[test]
fn token_vscode_scopes() {
    assert_eq!(VectorSyntaxToken::Comment.to_vscode(), vec!["comment"]);
    assert_eq!(
        VectorSyntaxToken::Constant.to_vscode(),
        vec!["constant", "constant.language", "constant.character"]
    );
    assert!(VectorSyntaxToken::Hint.to_vscode().is_empty());
    assert_eq!(VectorSyntaxToken::Number.to_vscode(), vec!["constant.numeric", "number"]);
}

#[test]
fn token_fallbacks() {
    assert_eq!(VectorSyntaxToken::CommentDoc.fallbacks(), &[VectorSyntaxToken::Comment]);
    assert_eq!(VectorSyntaxToken::StringRegex.fallbacks(), &[VectorSyntaxToken::String]);
    assert_eq!(VectorSyntaxToken::PunctuationBracket.fallbacks(), &[VectorSyntaxToken::Punctuation]);
    assert!(VectorSyntaxToken::Keyword.fallbacks().is_empty());
    // A fallback has no fallback of its own.
    for t in [VectorSyntaxToken::CommentDoc, VectorSyntaxToken::Number, VectorSyntaxToken::StringEscape] {
        for f in t.fallbacks() {
            assert!(f.fallbacks().is_empty());
        }
    }
}

#[test]
fn rank_weights_earlier_scopes_higher() {
    assert_eq!(VectorSyntaxToken::Comment.rank_match(&color(one("comment"), Some("#fff"))), Some(2));
    assert_eq!(
        VectorSyntaxToken::Constant.rank_match(&color(one("constant, constant.numeric"), Some("#fff"))),
        Some(4)
    );
    assert_eq!(
        VectorSyntaxToken::Constant.rank_match(&color(
            Some(VsCodeTokenScope::Many(vec!["constant.character".to_string(), " constant ".to_string()])),
            None
        )),
        Some(6)
    );
    assert_eq!(VectorSyntaxToken::Comment.rank_match(&color(one("keyword"), Some("#fff"))), Some(0));
    assert_eq!(VectorSyntaxToken::Comment.rank_match(&color(None, Some("#fff"))), None);
}

#[test]
fn best_match_skips_colorless_and_unranked() {
    let colors = vec![
        color(one("comment"), None),
        color(one("keyword"), Some("#111")),
        color(one("comment"), Some("#222")),
    ];
    let best = VectorSyntaxToken::Comment.find_best_token_color_match(&colors).unwrap();
    assert_eq!(best.settings.foreground.as_deref(), Some("#222"));
    assert_eq!(VectorSyntaxToken::Comment.best_token_color_index(&colors), Some(2));
    assert!(VectorSyntaxToken::Tag.find_best_token_color_match(&colors).is_none());
}

#[test]
fn best_match_prefers_highest_rank_then_latest() {
    let colors = vec![
        color(one("constant.character"), Some("#a")),
        color(one("constant"), Some("#b")),
        color(one("constant"), Some("#c")),
        color(one("constant.language"), Some("#d")),
    ];
    assert_eq!(VectorSyntaxToken::Constant.best_token_color_index(&colors), Some(2));
}
