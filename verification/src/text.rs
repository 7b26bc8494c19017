//! Character-level text utilities shared by the scanner, the optimizer and
//! the internal backend: substring search, trimming, splitting and joining,
//! line splitting, and decimal rendering, each with a full functional
//! specification over `Seq<char>`.

use vstd::prelude::*;

verus! {

/// `pat` occurs in `s` starting at position `i`.
pub open spec fn is_match_at(s: Seq<char>, pat: Seq<char>, i: int) -> bool {
    0 <= i && i + pat.len() <= s.len() && s.subrange(i, i + pat.len()) == pat
}

/// Position of the first occurrence of `pat` in `s` at or after `from`.
pub open spec fn spec_find(s: Seq<char>, pat: Seq<char>, from: int) -> Option<int>
    decreases s.len() + 1 - from,
    when 0 <= from
{
    if from + pat.len() > s.len() {
        None
    } else if is_match_at(s, pat, from) {
        Some(from)
    } else {
        spec_find(s, pat, from + 1)
    }
}

/// What `spec_find` returns: the first match at or after `from`, or nothing.
pub proof fn lemma_find_props(s: Seq<char>, pat: Seq<char>, from: int)
    requires
        0 <= from,
    ensures
        match spec_find(s, pat, from) {
            Some(i) => from <= i && is_match_at(s, pat, i) && (forall|j: int|
                from <= j < i ==> !is_match_at(s, pat, j)),
            None => forall|j: int| from <= j ==> !is_match_at(s, pat, j),
        },
    decreases s.len() + 1 - from,
{
    if from + pat.len() > s.len() {
        assert forall|j: int| from <= j implies !is_match_at(s, pat, j) by {}
    } else if is_match_at(s, pat, from) {
    } else {
        lemma_find_props(s, pat, from + 1);
    }
}

/// A position that matches and is preceded by no match is what `spec_find`
/// returns.
pub proof fn lemma_find_exact(s: Seq<char>, pat: Seq<char>, from: int, k: int)
    requires
        0 <= from <= k,
        is_match_at(s, pat, k),
        forall|j: int| from <= j < k ==> !is_match_at(s, pat, j),
    ensures
        spec_find(s, pat, from) == Some(k),
    decreases k - from,
{
    assert(k + pat.len() <= s.len());
    if from < k {
        lemma_find_exact(s, pat, from + 1, k);
        assert(!is_match_at(s, pat, from));
    }
}

/// `pat` occurs somewhere in `s`.
pub open spec fn spec_contains(s: Seq<char>, pat: Seq<char>) -> bool {
    exists|i: int| is_match_at(s, pat, i)
}

pub proof fn lemma_find_contains(s: Seq<char>, pat: Seq<char>)
    ensures
        spec_find(s, pat, 0) is Some <==> spec_contains(s, pat),
{
    lemma_find_props(s, pat, 0);
    if spec_contains(s, pat) {
        let i = choose|i: int| is_match_at(s, pat, i);
        if spec_find(s, pat, 0) is None {
            assert(!is_match_at(s, pat, i));
        }
    }
}

/// Whether the characters of `pat` stand at position `i` of `s`.
pub fn match_at(s: &str, pat: &str, i: usize) -> (r: bool)
    requires
        i <= s@.len(),
    ensures
        r == is_match_at(s@, pat@, i as int),
{
    let s_len = s.unicode_len();
    let pat_len = pat.unicode_len();
    if pat_len > s_len - i {
        assert(!is_match_at(s@, pat@, i as int));
        return false;
    }
    let mut j: usize = 0;
    while j < pat_len
        invariant
            0 <= j <= pat_len,
            i + pat_len <= s_len,
            s_len == s@.len(),
            pat_len == pat@.len(),
            forall|k: int| 0 <= k < j ==> s@[i + k] == pat@[k],
        decreases pat_len - j,
    {
        if s.get_char(i + j) != pat.get_char(j) {
            assert(s@[i + j] != pat@[j as int]);
            assert(!is_match_at(s@, pat@, i as int)) by {
                if s@.subrange(i as int, i + pat@.len()) == pat@ {
                    assert(s@.subrange(i as int, i + pat@.len())[j as int] == pat@[j as int]);
                }
            }
            return false;
        }
        j += 1;
    }
    assert(s@.subrange(i as int, i + pat@.len()) =~= pat@);
    true
}

/// First occurrence of `pat` in `s` at or after `from`.
pub fn find_from(s: &str, pat: &str, from: usize) -> (r: Option<usize>)
    requires
        from <= s@.len(),
    ensures
        match r {
            Some(i) => i <= s@.len() && spec_find(s@, pat@, from as int) == Some(i as int),
            None => spec_find(s@, pat@, from as int) is None,
        },
{
    let s_len = s.unicode_len();
    let pat_len = pat.unicode_len();
    if pat_len > s_len || from > s_len - pat_len {
        return None;
    }
    let limit = s_len - pat_len;
    let mut i: usize = from;
    while i < limit
        invariant
            from <= i <= limit,
            limit + pat_len == s_len,
            s_len == s@.len(),
            pat_len == pat@.len(),
            spec_find(s@, pat@, from as int) == spec_find(s@, pat@, i as int),
        decreases limit - i,
    {
        if match_at(s, pat, i) {
            return Some(i);
        }
        i += 1;
    }
    assert(spec_find(s@, pat@, from as int) == spec_find(s@, pat@, limit as int));
    if match_at(s, pat, limit) {
        assert(spec_find(s@, pat@, limit as int) == Some(limit as int)) by {
            assert(limit + pat@.len() <= s@.len());
            assert(is_match_at(s@, pat@, limit as int));
        }
        Some(limit)
    } else {
        assert(spec_find(s@, pat@, limit as int) is None) by {
            assert(!is_match_at(s@, pat@, limit as int));
            assert(spec_find(s@, pat@, limit + 1) is None);
        }
        None
    }
}

/// Whether `pat` occurs anywhere in `s`.
pub fn contains_str(s: &str, pat: &str) -> (r: bool)
    ensures
        r == spec_contains(s@, pat@),
{
    proof {
        lemma_find_contains(s@, pat@);
    }
    find_from(s, pat, 0).is_some()
}

/// Character-for-character equality of two string slices.
pub fn str_eq(a: &str, b: &str) -> (r: bool)
    ensures
        r == (a@ == b@),
{
    let a_len = a.unicode_len();
    let b_len = b.unicode_len();
    if a_len != b_len {
        return false;
    }
    let mut i: usize = 0;
    while i < a_len
        invariant
            0 <= i <= a_len,
            a_len == a@.len(),
            a_len == b@.len(),
            forall|k: int| 0 <= k < i ==> a@[k] == b@[k],
        decreases a_len - i,
    {
        if a.get_char(i) != b.get_char(i) {
            assert(a@ != b@);
            return false;
        }
        i += 1;
    }
    assert(a@ =~= b@);
    true
}

/// `s` ends with the characters of `suf`.
pub open spec fn spec_ends_with(s: Seq<char>, suf: Seq<char>) -> bool {
    suf.len() <= s.len() && is_match_at(s, suf, s.len() - suf.len())
}

pub fn ends_with_str(s: &str, suf: &str) -> (r: bool)
    ensures
        r == spec_ends_with(s@, suf@),
{
    let s_len = s.unicode_len();
    let suf_len = suf.unicode_len();
    if suf_len > s_len {
        return false;
    }
    match_at(s, suf, s_len - suf_len)
}

/// The whitespace characters that trimming removes.
pub open spec fn is_lws(c: char) -> bool {
    c == ' ' || c == '\t' || c == '\r' || c == '\n'
}

pub open spec fn spec_trim_start(s: Seq<char>, i: int) -> int
    decreases s.len() - i,
    when 0 <= i <= s.len()
{
    if i >= s.len() {
        i
    } else if is_lws(s[i]) {
        spec_trim_start(s, i + 1)
    } else {
        i
    }
}

pub open spec fn spec_trim_end(s: Seq<char>, i: int) -> int
    decreases i,
    when 0 <= i <= s.len()
{
    if i <= 0 {
        i
    } else if is_lws(s[i - 1]) {
        spec_trim_end(s, i - 1)
    } else {
        i
    }
}

/// `s` with leading and trailing whitespace removed.
pub open spec fn spec_trim(s: Seq<char>) -> Seq<char> {
    let a = spec_trim_start(s, 0);
    let b = spec_trim_end(s, s.len() as int);
    if a <= b {
        s.subrange(a, b)
    } else {
        Seq::empty()
    }
}

proof fn lemma_trim_start_bounds(s: Seq<char>, i: int)
    requires
        0 <= i <= s.len(),
    ensures
        i <= spec_trim_start(s, i) <= s.len(),
    decreases s.len() - i,
{
    if i < s.len() && is_lws(s[i]) {
        lemma_trim_start_bounds(s, i + 1);
    }
}

proof fn lemma_trim_end_bounds(s: Seq<char>, i: int)
    requires
        0 <= i <= s.len(),
    ensures
        0 <= spec_trim_end(s, i) <= i,
    decreases i,
{
    if i > 0 && is_lws(s[i - 1]) {
        lemma_trim_end_bounds(s, i - 1);
    }
}

/// Whether trimming removes `c`.
pub fn is_ws_char(c: char) -> (r: bool)
    ensures
        r == is_lws(c),
{
    c == ' ' || c == '\t' || c == '\r' || c == '\n'
}

/// A copy of `s` with leading and trailing whitespace removed.
pub fn trim_str(s: &str) -> (r: String)
    ensures
        r@ == spec_trim(s@),
{
    let s_len = s.unicode_len();
    let mut a: usize = 0;
    while a < s_len && is_ws_char(s.get_char(a))
        invariant
            0 <= a <= s_len,
            s_len == s@.len(),
            spec_trim_start(s@, 0) == spec_trim_start(s@, a as int),
            forall|k: int| 0 <= k < a ==> is_lws(s@[k]),
        decreases s_len - a,
    {
        a += 1;
    }
    assert(spec_trim_start(s@, 0) == a as int);
    let mut b: usize = s_len;
    while b > a && is_ws_char(s.get_char(b - 1))
        invariant
            a <= b <= s_len,
            s_len == s@.len(),
            spec_trim_start(s@, 0) == a as int,
            spec_trim_end(s@, s@.len() as int) == spec_trim_end(s@, b as int),
            forall|k: int| b <= k < s_len ==> is_lws(s@[k]),
        decreases b,
    {
        b -= 1;
    }
    if b > a {
        assert(spec_trim_end(s@, b as int) == b as int);
        let piece = s.substring_char(a, b);
        assert(piece@ == spec_trim(s@));
        piece.to_owned()
    } else {
        proof {
            assert(b == a);
            lemma_trim_end_all_ws(s@, a as int);
            assert(spec_trim_end(s@, s@.len() as int) == 0);
            if a == 0 {
                assert(spec_trim(s@) =~= s@.subrange(0, 0));
            }
            assert(spec_trim(s@) =~= Seq::<char>::empty());
        }
        String::new()
    }
}

proof fn lemma_trim_end_all_ws(s: Seq<char>, i: int)
    requires
        0 <= i <= s.len(),
        forall|k: int| 0 <= k < i ==> is_lws(s[k]),
    ensures
        spec_trim_end(s, i) == 0,
    decreases i,
{
    if i > 0 {
        lemma_trim_end_all_ws(s, i - 1);
    }
}

/// `s` split at every occurrence of `sep`; empty pieces are kept.
pub open spec fn spec_split_on_from(s: Seq<char>, sep: char, start: int, i: int) -> Seq<Seq<char>>
    decreases s.len() - i,
    when 0 <= start <= i <= s.len()
{
    if i >= s.len() {
        seq![s.subrange(start, s.len() as int)]
    } else if s[i] == sep {
        seq![s.subrange(start, i)] + spec_split_on_from(s, sep, i + 1, i + 1)
    } else {
        spec_split_on_from(s, sep, start, i + 1)
    }
}

pub open spec fn spec_split_on(s: Seq<char>, sep: char) -> Seq<Seq<char>> {
    spec_split_on_from(s, sep, 0, 0)
}

pub fn split_on(s: &str, sep: char) -> (r: Vec<String>)
    ensures
        r@.map_values(|p: String| p@) == spec_split_on(s@, sep),
{
    let s_len = s.unicode_len();
    let mut r: Vec<String> = Vec::new();
    let mut start: usize = 0;
    let mut i: usize = 0;
    while i < s_len
        invariant
            0 <= start <= i <= s_len,
            s_len == s@.len(),
            spec_split_on(s@, sep) == r@.map_values(|p: String| p@) + spec_split_on_from(
                s@,
                sep,
                start as int,
                i as int,
            ),
        decreases s_len - i,
    {
        if s.get_char(i) == sep {
            let piece = s.substring_char(start, i);
            let ghost old_r = r@;
            r.push(piece.to_owned());
            proof {
                assert(r@.map_values(|p: String| p@) =~= old_r.map_values(|p: String| p@)
                    + seq![s@.subrange(start as int, i as int)]);
            }
            start = i + 1;
        }
        i += 1;
    }
    let piece = s.substring_char(start, s_len);
    let ghost old_r = r@;
    r.push(piece.to_owned());
    proof {
        assert(r@.map_values(|p: String| p@) =~= old_r.map_values(|p: String| p@)
            + seq![s@.subrange(start as int, s@.len() as int)]);
    }
    r
}

/// The pieces joined with a single `sep` between consecutive pieces.
pub open spec fn spec_join_on(parts: Seq<Seq<char>>, sep: char) -> Seq<char>
    decreases parts.len(),
{
    if parts.len() == 0 {
        Seq::empty()
    } else if parts.len() == 1 {
        parts[0]
    } else {
        parts[0] + seq![sep] + spec_join_on(parts.drop_first(), sep)
    }
}

/// Joining undoes splitting.
pub proof fn lemma_split_join(s: Seq<char>, sep: char)
    ensures
        spec_join_on(spec_split_on(s, sep), sep) == s,
{
    lemma_split_join_from(s, sep, 0, 0);
    assert(spec_join_on(spec_split_on(s, sep), sep) =~= s);
}

proof fn lemma_split_join_from(s: Seq<char>, sep: char, start: int, i: int)
    requires
        0 <= start <= i <= s.len(),
        forall|k: int| start <= k < i ==> s[k] != sep,
    ensures
        spec_join_on(spec_split_on_from(s, sep, start, i), sep) =~= s.subrange(
            start,
            s.len() as int,
        ),
    decreases s.len() - i,
{
    if i >= s.len() {
    } else if s[i] == sep {
        lemma_split_join_from(s, sep, i + 1, i + 1);
        let rest = spec_split_on_from(s, sep, i + 1, i + 1);
        assert(rest.len() > 0) by {
            lemma_split_nonempty(s, sep, i + 1, i + 1);
        }
        if rest.len() == 1 {
            assert(spec_join_on(seq![s.subrange(start, i)] + rest, sep) =~= s.subrange(
                start,
                i,
            ) + seq![sep] + rest[0]) by {
                let whole = seq![s.subrange(start, i)] + rest;
                assert(whole[0] == s.subrange(start, i));
                assert(whole.drop_first() =~= rest);
            }
        } else {
            let whole = seq![s.subrange(start, i)] + rest;
            assert(whole[0] == s.subrange(start, i));
            assert(whole.drop_first() =~= rest);
        }
    } else {
        lemma_split_join_from(s, sep, start, i + 1);
    }
}

proof fn lemma_split_nonempty(s: Seq<char>, sep: char, start: int, i: int)
    requires
        0 <= start <= i <= s.len(),
    ensures
        spec_split_on_from(s, sep, start, i).len() > 0,
    decreases s.len() - i,
{
    if i < s.len() {
        if s[i] == sep {
            lemma_split_nonempty(s, sep, i + 1, i + 1);
        } else {
            lemma_split_nonempty(s, sep, start, i + 1);
        }
    }
}

/// Splitting a piece free of the separator yields the piece alone.
pub proof fn lemma_split_no_sep(s: Seq<char>, sep: char)
    requires
        forall|x: int| 0 <= x < s.len() ==> s[x] != sep,
    ensures
        spec_split_on(s, sep) == seq![s],
{
    lemma_split_no_sep_from(s, sep, 0);
    assert(s.subrange(0, s.len() as int) =~= s);
}

proof fn lemma_split_no_sep_from(s: Seq<char>, sep: char, i: int)
    requires
        0 <= i <= s.len(),
        forall|x: int| i <= x < s.len() ==> s[x] != sep,
    ensures
        forall|start: int|
            0 <= start <= i ==> #[trigger] spec_split_on_from(s, sep, start, i) == seq![
                s.subrange(start, s.len() as int),
            ],
    decreases s.len() - i,
{
    if i < s.len() {
        lemma_split_no_sep_from(s, sep, i + 1);
        assert forall|start: int| 0 <= start <= i implies #[trigger] spec_split_on_from(
            s,
            sep,
            start,
            i,
        ) == seq![s.subrange(start, s.len() as int)] by {
            assert(s[i] != sep);
            assert(spec_split_on_from(s, sep, start, i) == spec_split_on_from(s, sep, start, i + 1));
        }
    } else {
        assert forall|start: int| 0 <= start <= i implies #[trigger] spec_split_on_from(
            s,
            sep,
            start,
            i,
        ) == seq![s.subrange(start, s.len() as int)] by {}
    }
}

/// The pieces joined with `sep` between consecutive pieces. `sep` must be a
/// single character.
pub fn join_with(parts: &Vec<String>, sep: &str) -> (r: String)
    requires
        sep@.len() == 1,
    ensures
        r@ == spec_join_on(parts@.map_values(|p: String| p@), sep@[0]),
{
    let ghost sc = sep@[0];
    let mut r = String::new();
    let mut i: usize = 0;
    while i < parts.len()
        invariant
            0 <= i <= parts@.len(),
            sep@.len() == 1,
            sc == sep@[0],
            spec_join_on(parts@.map_values(|p: String| p@), sc) =~= if i == 0 {
                r@ + spec_join_on(parts@.map_values(|p: String| p@), sc)
            } else {
                r@ + join_tail(parts@.map_values(|p: String| p@), sc, i as int)
            },
        decreases parts@.len() - i,
    {
        let ghost views = parts@.map_values(|p: String| p@);
        if i > 0 {
            r.append(sep);
            proof {
                assert(sep@ =~= seq![sc]);
            }
        }
        r.append(parts[i].as_str());
        proof {
            if i == 0 {
                lemma_join_head(views, sc);
            } else {
                assert(join_tail(views, sc, i as int) =~= seq![sc] + views[i as int] + join_tail(
                    views,
                    sc,
                    i as int + 1,
                ));
            }
        }
        i += 1;
    }
    proof {
        if parts@.len() > 0 {
            assert(join_tail(parts@.map_values(|p: String| p@), sc, parts@.len() as int)
                =~= Seq::<char>::empty());
        }
    }
    r
}

/// What remains to be joined once the first `i` pieces are in place.
pub open spec fn join_tail(parts: Seq<Seq<char>>, sep: char, i: int) -> Seq<char>
    decreases parts.len() - i,
    when 0 <= i <= parts.len()
{
    if i >= parts.len() {
        Seq::empty()
    } else {
        seq![sep] + parts[i] + join_tail(parts, sep, i + 1)
    }
}

proof fn lemma_join_head(parts: Seq<Seq<char>>, sep: char)
    requires
        parts.len() > 0,
    ensures
        spec_join_on(parts, sep) =~= parts[0] + join_tail(parts, sep, 1),
    decreases parts.len(),
{
    if parts.len() == 1 {
        assert(join_tail(parts, sep, 1) =~= Seq::<char>::empty());
    } else {
        lemma_join_head(parts.drop_first(), sep);
        lemma_join_tail_shift(parts, sep, 1);
    }
}

proof fn lemma_join_tail_shift(parts: Seq<Seq<char>>, sep: char, i: int)
    requires
        1 <= i <= parts.len(),
    ensures
        join_tail(parts, sep, i) =~= join_tail(parts.drop_first(), sep, i - 1),
    decreases parts.len() - i,
{
    if i < parts.len() {
        lemma_join_tail_shift(parts, sep, i + 1);
        assert(parts.drop_first()[i - 1] == parts[i]);
    }
}

/// The decimal digit character for `d`.
pub open spec fn spec_digit(d: int) -> char {
    ((48 + d) as u8) as char
}

/// The decimal rendering of `n`, most significant digit first.
pub open spec fn spec_dec(n: nat) -> Seq<char>
    decreases n,
{
    if n < 10 {
        seq![spec_digit(n as int)]
    } else {
        spec_dec(n / 10) + seq![spec_digit((n % 10) as int)]
    }
}

/// Renders `n` in decimal.
pub fn dec_str(n: usize) -> (r: String)
    ensures
        r@ == spec_dec(n as nat),
    decreases n,
{
    let digits = "0123456789";
    proof {
        reveal_strlit("0123456789");
    }
    if n < 10 {
        let d = digits.substring_char(n, n + 1);
        assert(d@ =~= seq![spec_digit(n as int)]);
        d.to_owned()
    } else {
        let mut r = dec_str(n / 10);
        let m = n % 10;
        let d = digits.substring_char(m, m + 1);
        assert(d@ =~= seq![spec_digit((n % 10) as int)]);
        r.append(d);
        r
    }
}

/// `p` if it already ends with `suffix`, else `p` with `suffix` appended.
pub open spec fn spec_ensure_suffix(p: Seq<char>, suffix: Seq<char>) -> Seq<char> {
    if spec_ends_with(p, suffix) {
        p
    } else {
        p + suffix
    }
}

pub fn ensure_suffix(p: &str, suffix: &str) -> (r: String)
    ensures
        r@ == spec_ensure_suffix(p@, suffix@),
{
    if ends_with_str(p, suffix) {
        p.to_owned()
    } else {
        let mut r = p.to_owned();
        r.append(suffix);
        r
    }
}

/// A line piece with a trailing carriage return removed.
pub open spec fn strip_cr(l: Seq<char>) -> Seq<char> {
    if l.len() > 0 && l[l.len() - 1] == '\r' {
        l.drop_last()
    } else {
        l
    }
}

/// The lines of `s`: pieces split at newlines, each with a trailing carriage
/// return removed, and without a final empty piece.
pub open spec fn spec_lines(s: Seq<char>) -> Seq<Seq<char>> {
    let pieces = spec_split_on(s, '\n');
    let kept = if pieces.len() > 0 && pieces[pieces.len() - 1].len() == 0 {
        pieces.drop_last()
    } else {
        pieces
    };
    kept.map_values(|l: Seq<char>| strip_cr(l))
}

pub fn split_lines(s: &str) -> (r: Vec<String>)
    ensures
        r@.map_values(|p: String| p@) == spec_lines(s@),
{
    let pieces = split_on(s, '\n');
    let mut r: Vec<String> = Vec::new();
    let ghost pviews = pieces@.map_values(|p: String| p@);
    let n = if pieces.len() > 0 && pieces[pieces.len() - 1].unicode_len() == 0 {
        pieces.len() - 1
    } else {
        pieces.len()
    };
    let ghost kept = if pviews.len() > 0 && pviews[pviews.len() - 1].len() == 0 {
        pviews.drop_last()
    } else {
        pviews
    };
    assert(kept.len() == n as int);
    assert(forall|k: int| 0 <= k < n ==> kept[k] == pviews[k]);
    let mut i: usize = 0;
    while i < n
        invariant
            0 <= i <= n,
            n <= pieces@.len(),
            kept.len() == n as int,
            forall|k: int| 0 <= k < n ==> kept[k] == pieces@.map_values(|p: String| p@)[k],
            r@.map_values(|p: String| p@) =~= kept.take(i as int).map_values(
                |l: Seq<char>| strip_cr(l),
            ),
        decreases n - i,
    {
        let piece = &pieces[i];
        let plen = piece.as_str().unicode_len();
        let ghost old_r = r@;
        if plen > 0 && piece.as_str().get_char(plen - 1) == '\r' {
            let stripped = piece.as_str().substring_char(0, plen - 1);
            assert(stripped@ =~= strip_cr(kept[i as int]));
            r.push(stripped.to_owned());
        } else {
            assert(piece@ =~= strip_cr(kept[i as int]));
            r.push(piece.clone());
        }
        proof {
            assert(kept.take(i + 1).map_values(|l: Seq<char>| strip_cr(l)) =~= kept.take(
                i as int,
            ).map_values(|l: Seq<char>| strip_cr(l)) + seq![strip_cr(kept[i as int])]);
            assert(r@.map_values(|p: String| p@) =~= old_r.map_values(|p: String| p@) + seq![
                strip_cr(kept[i as int]),
            ]);
        }
        i += 1;
    }
    proof {
        assert(kept.take(n as int) =~= kept);
    }
    r
}

/// What `String::from_utf8_lossy` yields: a function of the bytes alone.
pub uninterp spec fn lossy_of(b: Seq<u8>) -> Seq<char>;

/// Relies on String::from_utf8_lossy: decodes bytes as UTF-8, replacing
/// invalid sequences; the result depends on the bytes alone.
#[verifier::external_body]
pub(crate) fn decode_lossy(b: &Vec<u8>) -> (r: String)
    ensures
        r@ == lossy_of(b@),
{
    String::from_utf8_lossy(b).into_owned()
}

/// What `String::into_bytes` yields: the UTF-8 encoding, a function of the
/// characters alone.
pub uninterp spec fn utf8_of(s: Seq<char>) -> Seq<u8>;

/// Relies on String::into_bytes: the UTF-8 bytes of the text.
#[verifier::external_body]
pub(crate) fn encode_utf8(s: String) -> (r: Vec<u8>)
    ensures
        r@ == utf8_of(s@),
{
    s.into_bytes()
}

/// Every command name has at least one character.
pub open spec fn all_names_ok(names: Seq<Seq<char>>) -> bool {
    forall|k: int| 0 <= k < names.len() ==> names[k].len() >= 1
}

/// A command match at `i`: the name (for example `\include{`) followed by an
/// argument of at least `min_arg` characters up to the first closing brace.
/// Yields the argument and the position just past the brace.
pub open spec fn spec_cmd_arg_at(
    s: Seq<char>,
    name: Seq<char>,
    min_arg: int,
    i: int,
) -> Option<(Seq<char>, int)> {
    if is_match_at(s, name, i) {
        let astart = i + name.len();
        match spec_find(s, seq!['}'], astart) {
            Some(close) => if close - astart >= min_arg {
                Some((s.subrange(astart, close), close + 1))
            } else {
                None
            },
            None => None,
        }
    } else {
        None
    }
}

/// The first of the `names`, in order, that matches at `i`, with its argument
/// and the position just past the argument's closing brace.
pub open spec fn spec_cmd_at(
    s: Seq<char>,
    names: Seq<Seq<char>>,
    min_arg: int,
    i: int,
    k: int,
) -> Option<(int, Seq<char>, int)>
    decreases names.len() - k,
    when 0 <= k <= names.len()
{
    if k >= names.len() {
        None
    } else {
        match spec_cmd_arg_at(s, names[k], min_arg, i) {
            Some(p) => Some((k, p.0, p.1)),
            None => spec_cmd_at(s, names, min_arg, i, k + 1),
        }
    }
}

/// A match found at `i` ends past `i` and within `s`.
pub proof fn lemma_cmd_at_end(s: Seq<char>, names: Seq<Seq<char>>, min_arg: int, i: int, k: int)
    requires
        0 <= k <= names.len(),
        0 <= i,
        all_names_ok(names),
    ensures
        match spec_cmd_at(s, names, min_arg, i, k) {
            Some(m) => i < m.2 <= s.len(),
            None => true,
        },
    decreases names.len() - k,
{
    if k < names.len() {
        match spec_cmd_arg_at(s, names[k], min_arg, i) {
            Some(p) => {
                let astart = i + names[k].len();
                lemma_find_props(s, seq!['}'], astart);
            },
            None => {
                lemma_cmd_at_end(s, names, min_arg, i, k + 1);
            },
        }
    }
}

/// The non-overlapping command matches of `s` at or after `i`, in order:
/// pairs of name index and raw argument.
pub open spec fn spec_scan_cmds_from(
    s: Seq<char>,
    names: Seq<Seq<char>>,
    min_arg: int,
    i: int,
) -> Seq<(int, Seq<char>)>
    decreases s.len() - i,
    when 0 <= i && all_names_ok(names)
{
    if i >= s.len() {
        Seq::empty()
    } else {
        match spec_cmd_at(s, names, min_arg, i, 0) {
            Some(m) => {
                proof {
                    lemma_cmd_at_end(s, names, min_arg, i, 0);
                }
                seq![(m.0, m.1)] + spec_scan_cmds_from(s, names, min_arg, m.2)
            },
            None => spec_scan_cmds_from(s, names, min_arg, i + 1),
        }
    }
}

pub open spec fn spec_scan_cmds(s: Seq<char>, names: Seq<Seq<char>>, min_arg: int) -> Seq<
    (int, Seq<char>),
> {
    spec_scan_cmds_from(s, names, min_arg, 0)
}

/// The views of a list of command names.
pub open spec fn name_views(names: Seq<&str>) -> Seq<Seq<char>> {
    names.map_values(|n: &str| n@)
}

pub fn cmd_arg_at(s: &str, name: &str, min_arg: usize, i: usize) -> (r: Option<(String, usize)>)
    requires
        i <= s@.len(),
    ensures
        match r {
            Some(p) => spec_cmd_arg_at(s@, name@, min_arg as int, i as int) == Some(
                (p.0@, p.1 as int),
            ) && i < p.1 <= s@.len(),
            None => spec_cmd_arg_at(s@, name@, min_arg as int, i as int) is None,
        },
{
    proof {
        reveal_strlit("}");
        assert("}"@ =~= seq!['}']);
    }
    if !match_at(s, name, i) {
        return None;
    }
    let s_len = s.unicode_len();
    let name_len = name.unicode_len();
    assert(i + name_len <= s_len);
    let astart = i + name_len;
    proof {
        lemma_find_props(s@, seq!['}'], astart as int);
    }
    match find_from(s, "}", astart) {
        Some(close) => {
            assert(astart <= close < s_len);
            if close - astart >= min_arg {
                let arg = s.substring_char(astart, close);
                Some((arg.to_owned(), close + 1))
            } else {
                None
            }
        },
        None => None,
    }
}

pub fn cmd_at(s: &str, names: &Vec<&str>, min_arg: usize, i: usize) -> (r: Option<
    (usize, String, usize),
>)
    requires
        i <= s@.len(),
    ensures
        match r {
            Some(m) => spec_cmd_at(s@, name_views(names@), min_arg as int, i as int, 0) == Some(
                (m.0 as int, m.1@, m.2 as int),
            ) && i < m.2 <= s@.len(),
            None => spec_cmd_at(s@, name_views(names@), min_arg as int, i as int, 0) is None,
        },
{
    let mut k: usize = 0;
    while k < names.len()
        invariant
            0 <= k <= names@.len(),
            i <= s@.len(),
            spec_cmd_at(s@, name_views(names@), min_arg as int, i as int, 0) == spec_cmd_at(
                s@,
                name_views(names@),
                min_arg as int,
                i as int,
                k as int,
            ),
        decreases names@.len() - k,
    {
        assert(name_views(names@)[k as int] == names@[k as int]@);
        match cmd_arg_at(s, names[k], min_arg, i) {
            Some(p) => {
                return Some((k, p.0, p.1));
            },
            None => {},
        }
        k += 1;
    }
    None
}

pub fn scan_cmds(s: &str, names: &Vec<&str>, min_arg: usize) -> (r: Vec<(usize, String)>)
    requires
        all_names_ok(name_views(names@)),
    ensures
        r@.map_values(|p: (usize, String)| (p.0 as int, p.1@)) == spec_scan_cmds(
            s@,
            name_views(names@),
            min_arg as int,
        ),
{
    let s_len = s.unicode_len();
    let mut r: Vec<(usize, String)> = Vec::new();
    let mut i: usize = 0;
    while i < s_len
        invariant
            0 <= i <= s_len,
            s_len == s@.len(),
            all_names_ok(name_views(names@)),
            spec_scan_cmds(s@, name_views(names@), min_arg as int) =~= r@.map_values(
                |p: (usize, String)| (p.0 as int, p.1@),
            ) + spec_scan_cmds_from(s@, name_views(names@), min_arg as int, i as int),
        decreases s_len - i,
    {
        let ghost views = name_views(names@);
        match cmd_at(s, names, min_arg, i) {
            Some(m) => {
                let ghost old_r = r@;
                let end = m.2;
                let ghost kk = m.0 as int;
                let ghost argv = m.1@;
                r.push((m.0, m.1));
                proof {
                    assert(r@.map_values(|p: (usize, String)| (p.0 as int, p.1@)) =~= old_r
                        .map_values(|p: (usize, String)| (p.0 as int, p.1@)) + seq![(kk, argv)]);
                    assert(spec_scan_cmds_from(s@, views, min_arg as int, i as int) == seq![
                        (kk, argv),
                    ] + spec_scan_cmds_from(s@, views, min_arg as int, end as int));
                }
                i = end;
            },
            None => {
                i += 1;
            },
        }
    }
    r
}

} // verus!
