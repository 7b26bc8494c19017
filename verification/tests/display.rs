use sokutex::palette::CommandPalette;
use sokutex::pdf_renderer::TileRenderQueue;
use sokutex::perf::PerfTimer;
use sokutex::syntax::{LatexSyntaxHighlighter, LatexTokenType};

#[test]
fn palette_starts_hidden_and_toggles() {
    let mut p = CommandPalette::new();
    assert!(!p.visible);
    assert_eq!(p.commands, vec!["Open", "Save", "About"]);
    p.toggle();
    assert!(p.visible);
    p.toggle();
    assert!(!p.visible);
}

#[test]
fn tile_queue_starts_empty() {
    let q = TileRenderQueue::new();
    assert!(q.visible_tiles.is_empty());
    assert!(q.adjacent_tiles.is_empty());
    assert!(q.offscreen_tiles.is_empty());
}

#[test]
fn perf_timer_starts() {
    let _t = PerfTimer::start("scan");
}

#[test]
fn tokenizer_splits_commands_math_comments_and_brackets() {
    let tokens = LatexSyntaxHighlighter::tokenize("\\section{Intro} $x$ %c\nend");
    let expected: Vec<(&str, LatexTokenType)> = vec![
        ("\\section", LatexTokenType::Command),
        ("{", LatexTokenType::Bracket),
        ("Intro", LatexTokenType::Generic),
        ("}", LatexTokenType::Bracket),
        (" ", LatexTokenType::Generic),
        ("$", LatexTokenType::Math),
        ("x", LatexTokenType::Math),
        ("$", LatexTokenType::Math),
        (" ", LatexTokenType::Generic),
        ("%c", LatexTokenType::Comment),
        ("\nend", LatexTokenType::Generic),
    ];
    let got: Vec<(&str, LatexTokenType)> =
        tokens.iter().map(|t| (t.0.as_str(), t.1)).collect();
    assert_eq!(got, expected);
}

#[test]
fn tokenizer_keeps_math_state_across_runs() {
    let tokens = LatexSyntaxHighlighter::tokenize("$ab$cd");
    let got: Vec<(&str, LatexTokenType)> =
        tokens.iter().map(|t| (t.0.as_str(), t.1)).collect();
    assert_eq!(
        got,
        vec![
            ("$", LatexTokenType::Math),
            ("ab", LatexTokenType::Math),
            ("$", LatexTokenType::Math),
            ("cd", LatexTokenType::Generic),
        ]
    );
}

#[test]
fn tokenizer_is_lossless() {
    let text = "a\\b{c}%d\ne$f$";
    let tokens = LatexSyntaxHighlighter::tokenize(text);
    let rebuilt: String = tokens.into_iter().map(|t| t.0).collect();
    assert_eq!(rebuilt, text);
}
