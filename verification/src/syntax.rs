//! Tokenization of source text for display: commands, math segments,
//! comments, brackets and plain runs, with math state toggled by dollar
//! signs.

use vstd::prelude::*;

verus! {

#[derive(Debug, Clone, Copy, PartialEq, Eq, Structural)]
pub enum LatexTokenType {
    Command,
    Math,
    Comment,
    Generic,
    Bracket,
}

/// What `char::is_alphabetic` returns: a function of the character alone.
pub uninterp spec fn is_alpha(c: char) -> bool;

pub assume_specification[ char::is_alphabetic ](c: char) -> (r: bool)
    ensures
        r == is_alpha(c),
;

/// How many alphabetic characters follow position `j`.
pub open spec fn alpha_run_len(s: Seq<char>, j: int) -> nat
    decreases s.len() - j,
    when 0 <= j
{
    if j >= s.len() || !is_alpha(s[j]) {
        0
    } else {
        1 + alpha_run_len(s, j + 1)
    }
}

/// How many characters up to the next newline follow position `j`.
pub open spec fn comment_run_len(s: Seq<char>, j: int) -> nat
    decreases s.len() - j,
    when 0 <= j
{
    if j >= s.len() || s[j] == '\n' {
        0
    } else {
        1 + comment_run_len(s, j + 1)
    }
}

pub proof fn lemma_alpha_run_in_range(s: Seq<char>, j: int)
    requires
        0 <= j <= s.len(),
    ensures
        j + alpha_run_len(s, j) <= s.len(),
    decreases s.len() - j,
{
    if j < s.len() && is_alpha(s[j]) {
        lemma_alpha_run_in_range(s, j + 1);
    }
}

pub proof fn lemma_comment_run_in_range(s: Seq<char>, j: int)
    requires
        0 <= j <= s.len(),
    ensures
        j + comment_run_len(s, j) <= s.len(),
    decreases s.len() - j,
{
    if j < s.len() && s[j] != '\n' {
        lemma_comment_run_in_range(s, j + 1);
    }
}

/// The type a flushed plain run carries.
pub open spec fn run_type(in_math: bool) -> LatexTokenType {
    if in_math {
        LatexTokenType::Math
    } else {
        LatexTokenType::Generic
    }
}

/// The pending plain run, emitted only if it is nonempty.
pub open spec fn spec_flush(cur: Seq<char>, in_math: bool) -> Seq<(Seq<char>, LatexTokenType)> {
    if cur.len() > 0 {
        seq![(cur, run_type(in_math))]
    } else {
        Seq::empty()
    }
}

/// The tokens of `s` from position `i` on, with `cur` the pending plain run
/// and `in_math` the current math state: a backslash starts a command token
/// holding the backslash and the following alphabetic run; a dollar sign is
/// its own math token and toggles the math state; a percent sign starts a
/// comment token running up to the next newline; each single bracket is a
/// bracket token; every other character extends the pending run, which is
/// flushed before any other token and at the end.
pub open spec fn spec_tokenize_from(
    s: Seq<char>,
    i: int,
    cur: Seq<char>,
    in_math: bool,
) -> Seq<(Seq<char>, LatexTokenType)>
    decreases s.len() - i,
    when 0 <= i <= s.len()
{
    if i >= s.len() {
        spec_flush(cur, in_math)
    } else if s[i] == '\\' {
        proof {
            lemma_alpha_run_in_range(s, i + 1);
        }
        let j = i + 1 + alpha_run_len(s, i + 1);
        spec_flush(cur, in_math) + seq![(s.subrange(i, j), LatexTokenType::Command)]
            + spec_tokenize_from(s, j, Seq::empty(), in_math)
    } else if s[i] == '$' {
        spec_flush(cur, in_math) + seq![(seq!['$'], LatexTokenType::Math)] + spec_tokenize_from(
            s,
            i + 1,
            Seq::empty(),
            !in_math,
        )
    } else if s[i] == '%' {
        proof {
            lemma_comment_run_in_range(s, i + 1);
        }
        let j = i + 1 + comment_run_len(s, i + 1);
        spec_flush(cur, in_math) + seq![(s.subrange(i, j), LatexTokenType::Comment)]
            + spec_tokenize_from(s, j, Seq::empty(), in_math)
    } else if s[i] == '{' || s[i] == '}' || s[i] == '[' || s[i] == ']' {
        spec_flush(cur, in_math) + seq![(seq![s[i]], LatexTokenType::Bracket)]
            + spec_tokenize_from(s, i + 1, Seq::empty(), in_math)
    } else {
        spec_tokenize_from(s, i + 1, cur.push(s[i]), in_math)
    }
}

pub open spec fn spec_tokenize(s: Seq<char>) -> Seq<(Seq<char>, LatexTokenType)> {
    spec_tokenize_from(s, 0, Seq::empty(), false)
}

/// The views of a token list.
pub open spec fn token_views(ts: Seq<(String, LatexTokenType)>) -> Seq<(Seq<char>, LatexTokenType)> {
    ts.map_values(|t: (String, LatexTokenType)| (t.0@, t.1))
}

proof fn lemma_token_views_last(ts: Seq<(String, LatexTokenType)>)
    requires
        ts.len() > 0,
    ensures
        token_views(ts) =~= token_views(ts.drop_last()) + seq![(ts.last().0@, ts.last().1)],
{
}

pub struct LatexSyntaxHighlighter;

impl LatexSyntaxHighlighter {
    /// Splits `text` into its display tokens.
    pub fn tokenize(text: &str) -> (r: Vec<(String, LatexTokenType)>)
        ensures
            token_views(r@) == spec_tokenize(text@),
    {
        let s_len = text.unicode_len();
        let mut tokens: Vec<(String, LatexTokenType)> = Vec::new();
        let mut cur_start: usize = 0;
        let mut i: usize = 0;
        let mut in_math = false;
        proof {
            assert(text@.subrange(0, 0) =~= Seq::<char>::empty());
            assert(token_views(tokens@) =~= Seq::<(Seq<char>, LatexTokenType)>::empty());
        }
        while i < s_len
            invariant
                0 <= cur_start <= i <= s_len,
                s_len == text@.len(),
                spec_tokenize(text@) == token_views(tokens@) + spec_tokenize_from(
                    text@,
                    i as int,
                    text@.subrange(cur_start as int, i as int),
                    in_math,
                ),
            decreases s_len - i,
        {
            let ghost cur = text@.subrange(cur_start as int, i as int);
            let c = text.get_char(i);
            if c == '\\' {
                flush_run(text, &mut tokens, cur_start, i, in_math);
                let ghost flushed = tokens@;
                let mut j = i + 1;
                while j < s_len && text.get_char(j).is_alphabetic()
                    invariant
                        i + 1 <= j <= s_len,
                        s_len == text@.len(),
                        alpha_run_len(text@, i + 1) == j - i - 1 + alpha_run_len(text@, j as int),
                    decreases s_len - j,
                {
                    j += 1;
                }
                assert(alpha_run_len(text@, i + 1) == j - i - 1);
                let piece = text.substring_char(i, j);
                tokens.push((piece.to_owned(), LatexTokenType::Command));
                proof {
                    lemma_token_views_last(tokens@);
                    assert(tokens@.drop_last() =~= flushed);
                    assert(text@.subrange(j as int, j as int) =~= Seq::<char>::empty());
                    assert(spec_tokenize_from(text@, i as int, cur, in_math) =~= spec_flush(
                        cur,
                        in_math,
                    ) + seq![(text@.subrange(i as int, j as int), LatexTokenType::Command)]
                        + spec_tokenize_from(text@, j as int, Seq::empty(), in_math));
                    assert(spec_tokenize(text@) =~= token_views(tokens@) + spec_tokenize_from(
                        text@,
                        j as int,
                        text@.subrange(j as int, j as int),
                        in_math,
                    ));
                }
                i = j;
                cur_start = i;
            } else if c == '$' {
                flush_run(text, &mut tokens, cur_start, i, in_math);
                let ghost flushed = tokens@;
                let piece = text.substring_char(i, i + 1);
                assert(piece@ =~= seq!['$']);
                tokens.push((piece.to_owned(), LatexTokenType::Math));
                proof {
                    lemma_token_views_last(tokens@);
                    assert(tokens@.drop_last() =~= flushed);
                    assert(text@.subrange(i + 1, i + 1) =~= Seq::<char>::empty());
                    assert(spec_tokenize(text@) =~= token_views(tokens@) + spec_tokenize_from(
                        text@,
                        i + 1,
                        text@.subrange(i + 1, i + 1),
                        !in_math,
                    ));
                }
                in_math = !in_math;
                i = i + 1;
                cur_start = i;
            } else if c == '%' {
                flush_run(text, &mut tokens, cur_start, i, in_math);
                let ghost flushed = tokens@;
                let mut j = i + 1;
                while j < s_len && text.get_char(j) != '\n'
                    invariant
                        i + 1 <= j <= s_len,
                        s_len == text@.len(),
                        comment_run_len(text@, i + 1) == j - i - 1 + comment_run_len(
                            text@,
                            j as int,
                        ),
                    decreases s_len - j,
                {
                    j += 1;
                }
                assert(comment_run_len(text@, i + 1) == j - i - 1);
                let piece = text.substring_char(i, j);
                tokens.push((piece.to_owned(), LatexTokenType::Comment));
                proof {
                    lemma_token_views_last(tokens@);
                    assert(tokens@.drop_last() =~= flushed);
                    assert(text@.subrange(j as int, j as int) =~= Seq::<char>::empty());
                    assert(spec_tokenize(text@) =~= token_views(tokens@) + spec_tokenize_from(
                        text@,
                        j as int,
                        text@.subrange(j as int, j as int),
                        in_math,
                    ));
                }
                i = j;
                cur_start = i;
            } else if c == '{' || c == '}' || c == '[' || c == ']' {
                flush_run(text, &mut tokens, cur_start, i, in_math);
                let ghost flushed = tokens@;
                let piece = text.substring_char(i, i + 1);
                assert(piece@ =~= seq![text@[i as int]]);
                tokens.push((piece.to_owned(), LatexTokenType::Bracket));
                proof {
                    lemma_token_views_last(tokens@);
                    assert(tokens@.drop_last() =~= flushed);
                    assert(text@.subrange(i + 1, i + 1) =~= Seq::<char>::empty());
                    assert(spec_tokenize(text@) =~= token_views(tokens@) + spec_tokenize_from(
                        text@,
                        i + 1,
                        text@.subrange(i + 1, i + 1),
                        in_math,
                    ));
                }
                i = i + 1;
                cur_start = i;
            } else {
                proof {
                    assert(text@.subrange(cur_start as int, i + 1) =~= cur.push(text@[i as int]));
                }
                i = i + 1;
            }
        }
        let ghost cur = text@.subrange(cur_start as int, s_len as int);
        if cur_start < s_len {
            let ghost before = tokens@;
            let piece = text.substring_char(cur_start, s_len);
            let t = if in_math {
                LatexTokenType::Math
            } else {
                LatexTokenType::Generic
            };
            tokens.push((piece.to_owned(), t));
            proof {
                lemma_token_views_last(tokens@);
                assert(tokens@.drop_last() =~= before);
                assert(spec_flush(cur, in_math) =~= seq![(cur, run_type(in_math))]);
                assert(token_views(tokens@) =~= spec_tokenize(text@));
            }
        } else {
            proof {
                assert(cur.len() == 0);
                assert(token_views(tokens@) + spec_flush(cur, in_math) =~= token_views(tokens@));
            }
        }
        tokens
    }
}

/// Appends the pending plain run, if nonempty, as one token.
fn flush_run(
    text: &str,
    tokens: &mut Vec<(String, LatexTokenType)>,
    cur_start: usize,
    i: usize,
    in_math: bool,
)
    requires
        cur_start <= i <= text@.len(),
    ensures
        token_views(final(tokens)@) =~= token_views(old(tokens)@) + spec_flush(
            text@.subrange(cur_start as int, i as int),
            in_math,
        ),
{
    if cur_start < i {
        let piece = text.substring_char(cur_start, i);
        let t = if in_math {
            LatexTokenType::Math
        } else {
            LatexTokenType::Generic
        };
        let ghost before = tokens@;
        tokens.push((piece.to_owned(), t));
        proof {
            lemma_token_views_last(tokens@);
                assert(tokens@.drop_last() =~= before);
        }
    } else {
        proof {
            assert(text@.subrange(cur_start as int, i as int).len() == 0);
        }
    }
}

} // verus!
