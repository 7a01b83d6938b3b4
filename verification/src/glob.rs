use vstd::prelude::*;
use crate::text::{lower, lower_char};

verus! {

/// Index in `p` of the `]` that closes a character class whose items start at `j`
/// (`first`: `j` is the first item, where a `]` is taken literally), or `p.len()`
/// when the class is never closed. An item `x-y` with `y != ']'` is a range.
pub open spec fn class_end(p: Seq<char>, j: int, first: bool) -> int
    decreases p.len() - j,
{
    if j >= p.len() {
        p.len() as int
    } else if p[j] == ']' && !first {
        j
    } else if j + 2 < p.len() && p[j + 1] == '-' && p[j + 2] != ']' {
        class_end(p, j + 3, false)
    } else {
        class_end(p, j + 1, false)
    }
}

/// Whether character `c` is one of the class items from `j` up to the closing `]`.
pub open spec fn class_hit(p: Seq<char>, j: int, first: bool, c: char) -> bool
    decreases p.len() - j,
{
    if j >= p.len() {
        false
    } else if p[j] == ']' && !first {
        false
    } else if j + 2 < p.len() && p[j + 1] == '-' && p[j + 2] != ']' {
        (p[j] <= c && c <= p[j + 2]) || class_hit(p, j + 3, false, c)
    } else {
        p[j] == c || class_hit(p, j + 1, false, c)
    }
}

pub proof fn lemma_class_end_bounds(p: Seq<char>, j: int, first: bool)
    requires
        0 <= j <= p.len(),
    ensures
        j <= class_end(p, j, first) <= p.len(),
        class_end(p, j, first) < p.len() ==> p[class_end(p, j, first)] == ']',
    decreases p.len() - j,
{
    if j < p.len() && !(p[j] == ']' && !first) {
        if j + 2 < p.len() && p[j + 1] == '-' && p[j + 2] != ']' {
            lemma_class_end_bounds(p, j + 3, false);
        } else {
            lemma_class_end_bounds(p, j + 1, false);
        }
    }
}

/// Whether `n[ni..]` matches the glob pattern `p[pi..]`.
///
/// - `*` matches any run of characters, the empty run included;
/// - `?` matches exactly one character;
/// - `[...]` matches one character in the set, `[!...]` / `[^...]` one not in it; a `]`
///   right after the opening (or after `!`/`^`) is a member, and `a-z` is a range;
/// - a `[` whose class is never closed consumes one name character that is `[`
///   (after `[!` or `[^`: one that is not `[`), and matching goes on right after the `[`;
/// - any other character matches itself.
pub open spec fn glob_from(n: Seq<char>, ni: int, p: Seq<char>, pi: int) -> bool
    decreases p.len() - pi, 0int,
{
    if pi >= p.len() {
        ni == n.len()
    } else if p[pi] == '*' {
        star_from(n, ni, p, pi + 1)
    } else if p[pi] == '?' {
        0 <= ni < n.len() && glob_from(n, ni + 1, p, pi + 1)
    } else if p[pi] == '[' {
        let neg = pi + 1 < p.len() && (p[pi + 1] == '!' || p[pi + 1] == '^');
        let start = if neg { pi + 2 } else { pi + 1 };
        let end = class_end(p, start, true);
        if !(0 <= ni < n.len()) {
            false
        } else if end >= p.len() || pi < 0 {
            ((n[ni] == '[') != neg) && glob_from(n, ni + 1, p, pi + 1)
        } else {
            proof {
                lemma_class_end_bounds(p, start, true);
            }
            (class_hit(p, start, true, n[ni]) != neg) && glob_from(n, ni + 1, p, end + 1)
        }
    } else {
        0 <= ni < n.len() && n[ni] == p[pi] && glob_from(n, ni + 1, p, pi + 1)
    }
}

/// What a `*` standing just before `p[q]` leaves to decide: further `*` add nothing, a
/// pattern that ends there matches whatever is left, and otherwise some `n[k..]`, for
/// `k` between `ni` and `n.len()`, must match `p[q..]`.
pub open spec fn star_from(n: Seq<char>, ni: int, p: Seq<char>, q: int) -> bool
    decreases p.len() - q, n.len() - ni + 1,
{
    if q >= p.len() {
        true
    } else if p[q] == '*' {
        star_from(n, ni, p, q + 1)
    } else if ni > n.len() {
        false
    } else {
        glob_from(n, ni, p, q) || star_from(n, ni + 1, p, q)
    }
}

/// Whether the whole of `name` matches the whole glob `pattern`.
pub open spec fn glob_matches(name: Seq<char>, pattern: Seq<char>) -> bool {
    glob_from(name, 0, pattern, 0)
}

/// The characters of `s`, ASCII-lowercased when `ignore_case` holds.
pub open spec fn fold_case(s: Seq<char>, ignore_case: bool) -> Seq<char> {
    if ignore_case {
        s.map_values(|c: char| lower_char(c))
    } else {
        s
    }
}

/// What `glob_match` decides.
pub open spec fn glob_match_spec(name: Seq<char>, pattern: Seq<char>, ignore_case: bool) -> bool {
    glob_matches(fold_case(name, ignore_case), fold_case(pattern, ignore_case))
}

/// What `matches_any_glob` decides.
pub open spec fn matches_any_spec(name: Seq<char>, patterns: Seq<String>, ignore_case: bool) -> bool {
    exists|i: int| 0 <= i < patterns.len() && #[trigger] glob_match_spec(name, patterns[i]@, ignore_case)
}

/// From a position within the name, `star_from` holds exactly when some suffix from
/// that position on matches.
pub proof fn lemma_star_from_exists(n: Seq<char>, ni: int, p: Seq<char>, q: int)
    requires
        0 <= ni <= n.len(),
        0 <= q <= p.len(),
    ensures
        star_from(n, ni, p, q) <==> exists|k: int| ni <= k <= n.len() && #[trigger] glob_from(n, k, p, q),
    decreases p.len() - q, n.len() - ni,
{
    if q >= p.len() {
        assert(glob_from(n, n.len() as int, p, q));
    } else if p[q] == '*' {
        lemma_star_from_exists(n, ni, p, q + 1);
        if star_from(n, ni, p, q) {
            let k = choose|k: int| ni <= k <= n.len() && #[trigger] glob_from(n, k, p, q + 1);
            lemma_star_from_exists(n, k, p, q + 1);
            assert(star_from(n, k, p, q + 1));
            assert(glob_from(n, k, p, q));
        }
        if exists|k: int| ni <= k <= n.len() && #[trigger] glob_from(n, k, p, q) {
            let k = choose|k: int| ni <= k <= n.len() && #[trigger] glob_from(n, k, p, q);
            lemma_star_from_exists(n, k, p, q + 1);
            let k2 = choose|k2: int| k <= k2 <= n.len() && #[trigger] glob_from(n, k2, p, q + 1);
            assert(glob_from(n, k2, p, q + 1));
        }
    } else {
        if ni < n.len() {
            lemma_star_from_exists(n, ni + 1, p, q);
        } else {
            assert(!star_from(n, ni + 1, p, q));
        }
        if exists|k: int| ni <= k <= n.len() && #[trigger] glob_from(n, k, p, q) {
            let k = choose|k: int| ni <= k <= n.len() && #[trigger] glob_from(n, k, p, q);
            if k != ni {
                assert(ni + 1 <= k <= n.len() && glob_from(n, k, p, q));
            }
        }
        if star_from(n, ni, p, q) && !glob_from(n, ni, p, q) {
            let k = choose|k: int| ni + 1 <= k <= n.len() && #[trigger] glob_from(n, k, p, q);
            assert(glob_from(n, k, p, q));
        }
    }
}

/// `p[q..]` is one or more `*` and nothing else.
pub open spec fn only_stars(p: Seq<char>, q: int) -> bool {
    0 <= q < p.len() && forall|i: int| q <= i < p.len() ==> #[trigger] p[i] == '*'
}

/// Past the end of the name, only a rest made of `*` matches; past the end of the
/// pattern, only the end of the name does.
pub proof fn lemma_beyond_ends(n: Seq<char>, ni: int, p: Seq<char>, pi: int)
    requires
        0 <= ni,
        0 <= pi,
    ensures
        ni > n.len() ==> (glob_from(n, ni, p, pi) <==> only_stars(p, pi)),
        pi >= p.len() ==> (glob_from(n, ni, p, pi) <==> ni == n.len()),
    decreases p.len() - pi,
{
    if ni > n.len() && pi < p.len() && p[pi] == '*' {
        lemma_star_beyond(n, ni, p, pi + 1);
        if pi + 1 < p.len() {
            assert(only_stars(p, pi) <==> only_stars(p, pi + 1));
        }
    }
}

proof fn lemma_star_beyond(n: Seq<char>, ni: int, p: Seq<char>, q: int)
    requires
        ni > n.len(),
        0 <= q,
    ensures
        star_from(n, ni, p, q) <==> (q >= p.len() || only_stars(p, q)),
    decreases p.len() - q,
{
    if q < p.len() && p[q] == '*' {
        lemma_star_beyond(n, ni, p, q + 1);
        if q + 1 < p.len() {
            assert(only_stars(p, q) <==> only_stars(p, q + 1));
        }
    }
}

/// Backtracking glob matcher over `name[ni..]` and `pattern[pi..]`; `*` is the only
/// backtracking point.
pub fn glob_match_recursive(name: &[char], ni_start: usize, pattern: &[char], pi_start: usize) -> (r: bool)
    ensures
        r == glob_from(name@, ni_start as int, pattern@, pi_start as int),
        // Offsets past the ends: the rest of the pattern must be all `*`, or both rests empty.
        ni_start > name@.len() ==> (r <==> only_stars(pattern@, pi_start as int)),
        pi_start >= pattern@.len() ==> (r <==> ni_start == name@.len()),
    decreases pattern@.len() - pi_start,
{
    proof {
        lemma_beyond_ends(name@, ni_start as int, pattern@, pi_start as int);
    }
    let ghost n = name@;
    let ghost p = pattern@;
    let ghost target = glob_from(n, ni_start as int, p, pi_start as int);
    let mut ni = ni_start;
    let mut pi = pi_start;
    while pi < pattern.len()
        invariant
            n == name@,
            p == pattern@,
            target == glob_from(name@, ni_start as int, pattern@, pi_start as int),
            ni_start > name@.len() ==> (target <==> only_stars(pattern@, pi_start as int)),
            pi_start <= pi,
            pi <= p.len() || pi == pi_start,
            glob_from(n, ni as int, p, pi as int) == target,
        decreases p.len() - pi,
    {
        let c = pattern[pi];
        if c == '*' {
            // Collapse consecutive '*' into one.
            pi += 1;
            while pi < pattern.len() && pattern[pi] == '*'
                invariant
                    n == name@,
                    p == pattern@,
                    target == glob_from(name@, ni_start as int, pattern@, pi_start as int),
                    ni_start > name@.len() ==> (target <==> only_stars(pattern@, pi_start as int)),
                    pi_start < pi <= p.len(),
                    target == star_from(n, ni as int, p, pi as int),
                decreases p.len() - pi,
            {
                pi += 1;
            }
            if pi == pattern.len() {
                return true; // trailing '*' matches the rest
            }
            // Try every remaining position in name as the start of the next pattern segment.
            while ni <= name.len()
                invariant_except_break
                    n == name@,
                    p == pattern@,
                    target == glob_from(name@, ni_start as int, pattern@, pi_start as int),
                    ni_start > name@.len() ==> (target <==> only_stars(pattern@, pi_start as int)),
                    pi_start < pi < p.len(),
                    p[pi as int] != '*',
                    target == star_from(n, ni as int, p, pi as int),
                ensures
                    !target,
                decreases n.len() + 1 - ni,
            {
                if glob_match_recursive(name, ni, pattern, pi) {
                    return true;
                }
                if ni == name.len() {
                    assert(!star_from(n, ni + 1, p, pi as int));
                    break;
                }
                ni += 1;
            }
            return false;
        } else if c == '?' {
            if ni >= name.len() {
                return false;
            }
            ni += 1;
            pi += 1;
        } else if c == '[' {
            if ni >= name.len() {
                return false;
            }
            let mut negate = false;
            let mut j = pi + 1;
            if j < pattern.len() && (pattern[j] == '!' || pattern[j] == '^') {
                negate = true;
                j += 1;
            }
            let ghost start = j as int;
            let ghost ch = n[ni as int];
            let mut matched = false;
            let mut first = true;
            while j < pattern.len()
                invariant
                    n == name@,
                    p == pattern@,
                    target == glob_from(name@, ni_start as int, pattern@, pi_start as int),
                    ni_start > name@.len() ==> (target <==> only_stars(pattern@, pi_start as int)),
                    ni < n.len(),
                    ch == n[ni as int],
                    start <= j <= p.len(),
                    class_end(p, start, true) == class_end(p, j as int, first),
                    class_hit(p, start, true, ch) == (matched || class_hit(p, j as int, first, ch)),
                ensures
                    j <= p.len(),
                    class_end(p, start, true) == class_end(p, j as int, first),
                    class_hit(p, start, true, ch) == (matched || class_hit(p, j as int, first, ch)),
                    j >= p.len() || (p[j as int] == ']' && !first),
                decreases p.len() - j,
            {
                if pattern[j] == ']' && !first {
                    break;
                }
                first = false;
                if pattern.len() - j > 2 && pattern[j + 1] == '-' && pattern[j + 2] != ']' {
                    let lo = pattern[j];
                    let hi = pattern[j + 2];
                    if name[ni] >= lo && name[ni] <= hi {
                        matched = true;
                    }
                    j += 3;
                } else {
                    if pattern[j] == name[ni] {
                        matched = true;
                    }
                    j += 1;
                }
            }
            if j >= pattern.len() {
                // A class that is never closed: the `[` stands for itself.
                if (name[ni] == '[') != negate {
                    ni += 1;
                    pi += 1;
                } else {
                    return false;
                }
            } else {
                if matched == negate {
                    return false;
                }
                ni += 1;
                pi = j + 1;
            }
        } else {
            if ni >= name.len() || name[ni] != c {
                return false;
            }
            ni += 1;
            pi += 1;
        }
    }
    ni == name.len()
}

/// The characters of `s`, ASCII-lowercased when `ignore_case` holds.
pub fn folded_chars(s: &str, ignore_case: bool) -> (v: Vec<char>)
    ensures
        v@ == fold_case(s@, ignore_case),
{
    let len = s.unicode_len();
    let mut v: Vec<char> = Vec::new();
    let mut i: usize = 0;
    while i < len
        invariant
            len == s@.len(),
            i <= len,
            v@.len() == i,
            forall|k: int| 0 <= k < i ==> v@[k] == fold_case(s@, ignore_case)[k],
        decreases len - i,
    {
        let c = s.get_char(i);
        if ignore_case {
            v.push(lower(c));
        } else {
            v.push(c);
        }
        i += 1;
    }
    assert(v@ =~= fold_case(s@, ignore_case));
    v
}

/// Tests whether `name` matches the glob `pattern`, with `*` (any sequence, including
/// empty), `?` (one character) and `[...]` (character set); `ignore_case` makes the
/// match case-insensitive for ASCII letters.
pub fn glob_match(name: &str, pattern: &str, ignore_case: bool) -> (r: bool)
    ensures
        r == glob_match_spec(name@, pattern@, ignore_case),
{
    let name_chars = folded_chars(name, ignore_case);
    let pattern_chars = folded_chars(pattern, ignore_case);
    glob_match_recursive(name_chars.as_slice(), 0, pattern_chars.as_slice(), 0)
}

/// Tests whether `name` matches any of the glob `patterns`.
pub fn matches_any_glob(name: &str, patterns: &[String], ignore_case: bool) -> (r: bool)
    ensures
        r == matches_any_spec(name@, patterns@, ignore_case),
{
    let mut i: usize = 0;
    while i < patterns.len()
        invariant
            i <= patterns@.len(),
            forall|k: int| 0 <= k < i ==> !#[trigger] glob_match_spec(name@, patterns@[k]@, ignore_case),
        decreases patterns@.len() - i,
    {
        if glob_match(name, patterns[i].as_str(), ignore_case) {
            return true;
        }
        i += 1;
    }
    false
}


/// No `*` and no `[` in `p[lo..hi]`.
pub open spec fn plain_run(p: Seq<char>, lo: int, hi: int) -> bool {
    forall|i: int| lo <= i < hi ==> #[trigger] p[i] != '*' && p[i] != '['
}

/// `p[pi..pi+len]` (made of literal characters and `?`) accepts `n[ni..ni+len]`.
pub open spec fn run_accepts(n: Seq<char>, ni: int, p: Seq<char>, pi: int, len: int) -> bool {
    &&& ni + len <= n.len()
    &&& forall|i: int| 0 <= i < len ==> (#[trigger] p[pi + i] == '?' || p[pi + i] == n[ni + i])
}

/// A run of literal characters and `?` consumes exactly as many name characters,
/// each equal to the pattern character or standing under a `?`.
pub proof fn lemma_plain_run(n: Seq<char>, ni: int, p: Seq<char>, pi: int, j: int)
    requires
        0 <= ni <= n.len(),
        0 <= pi <= j <= p.len(),
        plain_run(p, pi, j),
    ensures
        glob_from(n, ni, p, pi) <==> (run_accepts(n, ni, p, pi, j - pi) && glob_from(n, ni + (j - pi), p, j)),
    decreases j - pi,
{
    if pi < j {
        assert(p[pi] != '*' && p[pi] != '[');
        if ni < n.len() {
            lemma_plain_run(n, ni + 1, p, pi + 1, j);
            if run_accepts(n, ni, p, pi, j - pi) {
                assert forall|i: int| 0 <= i < j - pi - 1 implies (#[trigger] p[pi + 1 + i] == '?' || p[pi + 1 + i] == n[ni + 1 + i]) by {
                    assert(p[pi + (i + 1)] == '?' || p[pi + (i + 1)] == n[ni + (i + 1)]);
                }
                assert(p[pi + 0] == '?' || p[pi + 0] == n[ni + 0]);
            }
            if run_accepts(n, ni + 1, p, pi + 1, j - pi - 1) && (p[pi] == '?' || p[pi] == n[ni]) {
                assert forall|i: int| 0 <= i < j - pi implies (#[trigger] p[pi + i] == '?' || p[pi + i] == n[ni + i]) by {
                    if i > 0 {
                        assert(p[pi + 1 + (i - 1)] == '?' || p[pi + 1 + (i - 1)] == n[ni + 1 + (i - 1)]);
                    }
                }
            }
        } else {
            assert(!run_accepts(n, ni, p, pi, j - pi));
        }
    }
}

/// The pattern `*` matches every name.
pub proof fn law_star_matches_everything(name: Seq<char>)
    ensures
        glob_matches(name, seq!['*']),
{
    let p = seq!['*'];
    assert(glob_from(name, name.len() as int, p, 1));
    lemma_star_from_exists(name, 0, p, 1);
}

/// A pattern without `*` and `[` matches exactly the names of its own length whose
/// characters equal the pattern's, save where the pattern has `?`; in particular a
/// pattern without any wildcard matches only itself.
pub proof fn law_plain_pattern(name: Seq<char>, pattern: Seq<char>)
    requires
        plain_run(pattern, 0, pattern.len() as int),
    ensures
        glob_matches(name, pattern) <==> (name.len() == pattern.len() && forall|i: int|
            0 <= i < pattern.len() ==> (#[trigger] pattern[i] == '?' || pattern[i] == name[i])),
        (forall|i: int| 0 <= i < pattern.len() ==> #[trigger] pattern[i] != '?') ==> (glob_matches(name, pattern) <==> name == pattern),
{
    lemma_plain_run(name, 0, pattern, 0, pattern.len() as int);
    if glob_matches(name, pattern) {
        assert forall|i: int| 0 <= i < pattern.len() implies (#[trigger] pattern[i] == '?' || pattern[i] == name[i]) by {
            assert(pattern[0 + i] == '?' || pattern[0 + i] == name[0 + i]);
        }
    }
    if name.len() == pattern.len() && forall|i: int| 0 <= i < pattern.len() ==> (#[trigger] pattern[i] == '?' || pattern[i] == name[i]) {
        assert forall|i: int| 0 <= i < pattern.len() implies (#[trigger] pattern[0 + i] == '?' || pattern[0 + i] == name[0 + i]) by {
            assert(pattern[i] == '?' || pattern[i] == name[i]);
        }
    }
    if (forall|i: int| 0 <= i < pattern.len() ==> #[trigger] pattern[i] != '?') && glob_matches(name, pattern) {
        assert forall|i: int| 0 <= i < pattern.len() implies name[i] == pattern[i] by {
            assert(pattern[0 + i] == '?' || pattern[0 + i] == name[0 + i]);
        }
        assert(name =~= pattern);
    }
}

/// `*` followed by plain text (no wildcard) matches exactly the names ending with that
/// text, as `*.log` matches the names ending in `.log`.
pub proof fn law_star_then_text(name: Seq<char>, text: Seq<char>)
    requires
        forall|i: int| 0 <= i < text.len() ==> #[trigger] text[i] != '*' && text[i] != '[' && text[i] != '?',
    ensures
        glob_matches(name, seq!['*'] + text) <==> (text.len() <= name.len() && name.subrange(
            name.len() - text.len(),
            name.len() as int,
        ) == text),
{
    let p = seq!['*'] + text;
    let tl = text.len() as int;
    let nl = name.len() as int;
    assert(p[0] == '*');
    assert(plain_run(p, 1, p.len() as int)) by {
        assert forall|i: int| 1 <= i < p.len() implies #[trigger] p[i] != '*' && p[i] != '[' by {
            assert(p[i] == text[i - 1]);
        }
    }
    lemma_star_from_exists(name, 0, p, 1);
    if glob_matches(name, p) {
        let k = choose|k: int| 0 <= k <= nl && #[trigger] glob_from(name, k, p, 1);
        lemma_plain_run(name, k, p, 1, p.len() as int);
        assert(k + tl == nl);
        assert forall|i: int| 0 <= i < tl implies name.subrange(nl - tl, nl)[i] == text[i] by {
            assert(p[1 + i] == '?' || p[1 + i] == name[k + i]);
            assert(p[1 + i] == text[i]);
        }
        assert(name.subrange(nl - tl, nl) =~= text);
    }
    if tl <= nl && name.subrange(nl - tl, nl) == text {
        let k = nl - tl;
        lemma_plain_run(name, k, p, 1, p.len() as int);
        assert forall|i: int| 0 <= i < p.len() - 1 implies (#[trigger] p[1 + i] == '?' || p[1 + i] == name[k + i]) by {
            assert(p[1 + i] == text[i]);
            assert(name.subrange(nl - tl, nl)[i] == name[k + i]);
        }
        assert(run_accepts(name, k, p, 1, p.len() - 1));
        assert(glob_from(name, k, p, 1));
    }
}

/// Plain text followed by `*` matches exactly the names starting with that text, as
/// `READ*` matches `README`.
pub proof fn law_text_then_star(name: Seq<char>, text: Seq<char>)
    requires
        forall|i: int| 0 <= i < text.len() ==> #[trigger] text[i] != '*' && text[i] != '[' && text[i] != '?',
    ensures
        glob_matches(name, text + seq!['*']) <==> (text.len() <= name.len() && name.subrange(0, text.len() as int) == text),
{
    let p = text + seq!['*'];
    let tl = text.len() as int;
    assert(p[tl] == '*');
    assert(plain_run(p, 0, tl)) by {
        assert forall|i: int| 0 <= i < tl implies #[trigger] p[i] != '*' && p[i] != '[' by {
            assert(p[i] == text[i]);
        }
    }
    lemma_plain_run(name, 0, p, 0, tl);
    if tl <= name.len() {
        assert(glob_from(name, name.len() as int, p, tl + 1));
        lemma_star_from_exists(name, tl, p, tl + 1);
        assert(glob_from(name, tl, p, tl));
    }
    if glob_matches(name, p) {
        assert forall|i: int| 0 <= i < tl implies name.subrange(0, tl)[i] == text[i] by {
            assert(p[0 + i] == '?' || p[0 + i] == name[0 + i]);
            assert(p[i] == text[i]);
        }
        assert(name.subrange(0, tl) =~= text);
    }
    if tl <= name.len() && name.subrange(0, tl) == text {
        assert forall|i: int| 0 <= i < tl implies (#[trigger] p[0 + i] == '?' || p[0 + i] == name[0 + i]) by {
            assert(p[i] == text[i]);
            assert(name.subrange(0, tl)[i] == name[i]);
        }
        assert(run_accepts(name, 0, p, 0, tl));
    }
}

/// With `ignore_case`, names or patterns that differ only in the case of ASCII letters
/// give the same answer.
pub proof fn law_ignore_case_folds(n1: Seq<char>, n2: Seq<char>, p1: Seq<char>, p2: Seq<char>)
    requires
        fold_case(n1, true) == fold_case(n2, true),
        fold_case(p1, true) == fold_case(p2, true),
    ensures
        glob_match_spec(n1, p1, true) == glob_match_spec(n2, p2, true),
{
}

/// An empty pattern list matches no name.
pub proof fn law_no_patterns_no_match(name: Seq<char>, ignore_case: bool)
    ensures
        !matches_any_spec(name, Seq::<String>::empty(), ignore_case),
{
}

/// A range `[lo-hi]` matches a one-character name `c` exactly when `lo <= c <= hi`, both
/// ends included (as `[0-9]` matches each digit and `[a-z]` each lowercase letter), and
/// `[!lo-hi]` exactly when `c` lies outside it.
pub proof fn law_range_is_inclusive(lo: char, hi: char, c: char)
    requires
        lo != '!' && lo != '^',
        hi != ']',
    ensures
        glob_matches(seq![c], seq!['[', lo, '-', hi, ']']) <==> (lo <= c && c <= hi),
        glob_matches(seq![c], seq!['[', '!', lo, '-', hi, ']']) <==> !(lo <= c && c <= hi),
{
    let n = seq![c];
    let p = seq!['[', lo, '-', hi, ']'];
    assert(class_end(p, 4, false) == 4);
    assert(class_end(p, 1, true) == 4);
    assert(!class_hit(p, 4, false, c));
    assert(class_hit(p, 1, true, c) == (lo <= c && c <= hi));
    assert(glob_from(n, 1, p, 5));
    let q = seq!['[', '!', lo, '-', hi, ']'];
    assert(class_end(q, 5, false) == 5);
    assert(class_end(q, 2, true) == 5);
    assert(!class_hit(q, 5, false, c));
    assert(class_hit(q, 2, true, c) == (lo <= c && c <= hi));
    assert(glob_from(n, 1, q, 6));
}

} // verus!
