//! Wildcard matching of plugin references (`*` and `?` over bytes).

use vstd::prelude::*;
use crate::text::owned;
use vstd::utf8::encode_utf8;

verus! {

/// The byte `*`.
pub open spec fn star_byte() -> u8 { 42u8 }

/// The byte `?`.
pub open spec fn qmark_byte() -> u8 { 63u8 }

/// The backtracking matcher's run from state (`pi`, `ti`, last star, its restart point)
/// on pattern bytes `p` and text bytes `t`. A pattern byte is first tried as a
/// literal (or `?`); only otherwise is `*` recorded as the star to backtrack to.
pub open spec fn wildcard_run(
    p: Seq<u8>,
    t: Seq<u8>,
    pi: int,
    ti: int,
    star: Option<int>,
    star_ti: int,
) -> bool
    decreases t.len() - star_ti, t.len() - ti, p.len() - pi,
{
    if !(0 <= star_ti <= ti <= t.len() && 0 <= pi <= p.len() && (star matches Some(sp) ==> 0
        <= sp < p.len())) {
        false
    } else if ti < t.len() {
        if pi < p.len() && (p[pi] == qmark_byte() || p[pi] == t[ti]) {
            wildcard_run(p, t, pi + 1, ti + 1, star, star_ti)
        } else if pi < p.len() && p[pi] == star_byte() {
            wildcard_run(p, t, pi + 1, ti, Some(pi), ti)
        } else {
            match star {
                Some(sp) => wildcard_run(p, t, sp + 1, star_ti + 1, star, star_ti + 1),
                None => false,
            }
        }
    } else {
        forall|k: int| pi <= k < p.len() ==> p[k] == star_byte()
    }
}

/// What `wildcard_match` computes on the bytes of a pattern and a text.
pub open spec fn wildcard_match_bytes(p: Seq<u8>, t: Seq<u8>) -> bool {
    wildcard_run(p, t, 0, 0, None, 0)
}

/// Glob semantics: `*` matches any run of bytes, `?` any one byte, every other
/// byte itself; `gm(p, t, i, j)` says whether `p[i..]` matches `t[j..]`.
pub open spec fn glob_from(p: Seq<u8>, t: Seq<u8>, i: int, j: int) -> bool
    decreases p.len() - i, t.len() - j,
{
    if !(0 <= i <= p.len() && 0 <= j <= t.len()) {
        false
    } else if i == p.len() {
        j == t.len()
    } else if p[i] == star_byte() {
        glob_from(p, t, i + 1, j) || (j < t.len() && glob_from(p, t, i, j + 1))
    } else {
        j < t.len() && (p[i] == qmark_byte() || p[i] == t[j]) && glob_from(p, t, i + 1, j + 1)
    }
}

/// Whole-string glob match.
pub open spec fn glob_match(p: Seq<u8>, t: Seq<u8>) -> bool {
    glob_from(p, t, 0, 0)
}

/// Whether pattern positions `a..a+n` are free of `*` and each one matches
/// text position `b+k` literally or by `?`.
pub open spec fn segment_ok(p: Seq<u8>, t: Seq<u8>, a: int, b: int, n: int) -> bool {
    &&& 0 <= n
    &&& 0 <= a
    &&& a + n <= p.len()
    &&& 0 <= b
    &&& b + n <= t.len()
    &&& forall|x: int|
        a <= x < a + n ==> #[trigger] p[x] != star_byte() && (p[x] == qmark_byte() || p[x] == t[x
            - a + b])
}

/// Whether pattern positions `a..a+n` hold no `*`.
pub open spec fn star_free(p: Seq<u8>, a: int, n: int) -> bool {
    &&& 0 <= n
    &&& 0 <= a
    &&& a + n <= p.len()
    &&& forall|x: int| a <= x < a + n ==> #[trigger] p[x] != star_byte()
}

proof fn lemma_segment(p: Seq<u8>, t: Seq<u8>, a: int, b: int, n: int)
    requires
        segment_ok(p, t, a, b, n),
    ensures
        glob_from(p, t, a, b) == glob_from(p, t, a + n, b + n),
    decreases n,
{
    if n > 0 {
        assert(p[a] != star_byte());
        lemma_segment(p, t, a + 1, b + 1, n - 1);
    }
}

proof fn lemma_segment_forward(p: Seq<u8>, t: Seq<u8>, a: int, b: int, n: int)
    requires
        star_free(p, a, n),
        glob_from(p, t, a, b),
    ensures
        b + n <= t.len(),
        glob_from(p, t, a + n, b + n),
    decreases n,
{
    if n > 0 {
        assert(p[a] != star_byte());
        lemma_segment_forward(p, t, a + 1, b + 1, n - 1);
    }
}

proof fn lemma_star_mono(p: Seq<u8>, t: Seq<u8>, i: int, j: int, k: int)
    requires
        0 <= i < p.len(),
        p[i] == star_byte(),
        0 <= j <= k <= t.len(),
        glob_from(p, t, i, k),
    ensures
        glob_from(p, t, i, j),
    decreases k - j,
{
    if j < k {
        lemma_star_mono(p, t, i, j + 1, k);
    }
}

proof fn lemma_star_exists(p: Seq<u8>, t: Seq<u8>, i: int, j: int) -> (k: int)
    requires
        0 <= i < p.len(),
        p[i] == star_byte(),
        0 <= j <= t.len(),
        glob_from(p, t, i, j),
    ensures
        j <= k <= t.len(),
        glob_from(p, t, i + 1, k),
    decreases t.len() - j,
{
    if glob_from(p, t, i + 1, j) {
        j
    } else {
        lemma_star_exists(p, t, i, j + 1)
    }
}

proof fn lemma_trailing(p: Seq<u8>, t: Seq<u8>, i: int)
    requires
        0 <= i <= p.len(),
    ensures
        glob_from(p, t, i, t.len() as int) == (forall|k: int| i <= k < p.len() ==> p[k]
            == star_byte()),
    decreases p.len() - i,
{
    if i < p.len() {
        lemma_trailing(p, t, i + 1);
        if p[i] == star_byte() {
            assert((forall|k: int| i <= k < p.len() ==> p[k] == star_byte()) == (forall|k: int|
                i + 1 <= k < p.len() ==> p[k] == star_byte()));
        }
    }
}

/// Where the star `sp` absorbs a literally-matched segment up to `pi`, its
/// restart point decides the same match as the position reached.
proof fn lemma_absorb(p: Seq<u8>, t: Seq<u8>, sp: int, star_ti: int, pi: int, ti: int)
    requires
        0 <= sp < p.len(),
        p[sp] == star_byte(),
        pi == sp + 1 + (ti - star_ti),
        segment_ok(p, t, sp + 1, star_ti, ti - star_ti),
        (pi < p.len() && p[pi] == star_byte()) || ti == t.len(),
    ensures
        glob_from(p, t, sp, star_ti) == glob_from(p, t, pi, ti),
{
    let n = ti - star_ti;
    lemma_segment(p, t, sp + 1, star_ti, n);
    if glob_from(p, t, sp, star_ti) {
        let k = lemma_star_exists(p, t, sp, star_ti);
        lemma_segment_forward(p, t, sp + 1, k, n);
        if ti < t.len() {
            lemma_star_mono(p, t, pi, ti, k + n);
        } else {
            assert(k == star_ti);
        }
    }
}

/// The run's result from any state, on a text without `*`, compared with glob.
proof fn lemma_run_is_glob(
    p: Seq<u8>,
    t: Seq<u8>,
    pi: int,
    ti: int,
    star: Option<int>,
    star_ti: int,
)
    requires
        !t.contains(star_byte()),
        0 <= star_ti <= ti <= t.len(),
        0 <= pi <= p.len(),
        star is None ==> star_ti == 0,
        star matches Some(sp) ==> {
            &&& 0 <= sp < p.len()
            &&& p[sp] == star_byte()
            &&& pi == sp + 1 + (ti - star_ti)
            &&& segment_ok(p, t, sp + 1, star_ti, ti - star_ti)
        },
    ensures
        wildcard_run(p, t, pi, ti, star, star_ti) == match star {
            None => glob_from(p, t, pi, ti),
            Some(sp) => glob_from(p, t, sp, star_ti),
        },
    decreases t.len() - star_ti, t.len() - ti, p.len() - pi,
{
    if ti < t.len() {
        assert(t[ti] != star_byte()) by {
            if t[ti] == star_byte() {
                assert(t.contains(star_byte()));
            }
        }
        if pi < p.len() && (p[pi] == qmark_byte() || p[pi] == t[ti]) {
            match star {
                None => {},
                Some(sp) => {
                    assert(p[pi] != star_byte());
                    assert(segment_ok(p, t, sp + 1, star_ti, ti + 1 - star_ti));
                },
            }
            lemma_run_is_glob(p, t, pi + 1, ti + 1, star, star_ti);
        } else if pi < p.len() && p[pi] == star_byte() {
            assert(segment_ok(p, t, pi + 1, ti, 0));
            lemma_run_is_glob(p, t, pi + 1, ti, Some(pi), ti);
            match star {
                None => {},
                Some(sp) => {
                    lemma_absorb(p, t, sp, star_ti, pi, ti);
                },
            }
        } else {
            match star {
                None => {},
                Some(sp) => {
                    lemma_segment(p, t, sp + 1, star_ti, ti - star_ti);
                    assert(!glob_from(p, t, pi, ti));
                    assert(segment_ok(p, t, sp + 1, star_ti + 1, 0));
                    lemma_run_is_glob(p, t, sp + 1, star_ti + 1, star, star_ti + 1);
                },
            }
        }
    } else {
        lemma_trailing(p, t, pi);
        match star {
            None => {},
            Some(sp) => {
                lemma_absorb(p, t, sp, star_ti, pi, ti);
            },
        }
    }
}

/// On a text that holds no `*`, the matcher agrees with glob semantics.
pub proof fn lemma_wildcard_match_is_glob(p: Seq<u8>, t: Seq<u8>)
    requires
        !t.contains(star_byte()),
    ensures
        wildcard_match_bytes(p, t) == glob_match(p, t),
{
    lemma_run_is_glob(p, t, 0, 0, None, 0);
}

spec fn opt_int(o: Option<usize>) -> Option<int> {
    match o {
        Some(x) => Some(x as int),
        None => None,
    }
}

/// Match `text` against `pattern`, where `*` matches any run of bytes and `?`
/// matches any single byte.
pub fn wildcard_match(pattern: &str, text: &str) -> (r: bool)
    ensures
        r == wildcard_match_bytes(encode_utf8(pattern@), encode_utf8(text@)),
        !encode_utf8(text@).contains(star_byte()) ==> r == glob_match(
            encode_utf8(pattern@),
            encode_utf8(text@),
        ),
{
    let p = pattern.as_bytes();
    let t = text.as_bytes();
    let ghost ps = p@;
    let ghost ts = t@;
    let mut pi: usize = 0;
    let mut ti: usize = 0;
    let mut star_pi: Option<usize> = None;
    let mut star_ti: usize = 0;
    proof {
        if !ts.contains(star_byte()) {
            lemma_wildcard_match_is_glob(ps, ts);
        }
    }
    while ti < t.len()
        invariant
            ps == p@,
            ts == t@,
            ps == encode_utf8(pattern@),
            ts == encode_utf8(text@),
            !ts.contains(star_byte()) ==> wildcard_match_bytes(ps, ts) == glob_match(ps, ts),
            0 <= star_ti <= ti <= t.len(),
            0 <= pi <= p.len(),
            star_pi matches Some(sp) ==> 0 <= sp < p.len(),
            wildcard_run(ps, ts, pi as int, ti as int, opt_int(star_pi), star_ti as int)
                == wildcard_match_bytes(ps, ts),
        decreases t.len() - star_ti, t.len() - ti, p.len() - pi,
    {
        if pi < p.len() && (p[pi] == 63u8 || p[pi] == t[ti]) {
            pi = pi + 1;
            ti = ti + 1;
        } else if pi < p.len() && p[pi] == 42u8 {
            star_pi = Some(pi);
            pi = pi + 1;
            star_ti = ti;
        } else if let Some(sp) = star_pi {
            pi = sp + 1;
            star_ti = star_ti + 1;
            ti = star_ti;
        } else {
            return false;
        }
    }
    let ghost pi0 = pi as int;
    assert(wildcard_run(ps, ts, pi0, ti as int, opt_int(star_pi), star_ti as int) == (forall|k: int| pi0 <= k < ps.len() ==> ps[k] == star_byte()));
    while pi < p.len() && p[pi] == 42u8
        invariant
            ps == p@,
            pi0 <= pi <= p.len(),
            forall|k: int| pi0 <= k < pi ==> ps[k] == star_byte(),
        decreases p.len() - pi,
    {
        pi = pi + 1;
    }
    pi == p.len()
}

/// Whether a reference is a wildcard pattern (holds `*`, `?` or `[`).
pub open spec fn is_wildcard_spec(s: Seq<char>) -> bool {
    s.contains('*') || s.contains('?') || s.contains('[')
}

/// Whether `reference` holds a wildcard character (`*`, `?` or `[`).
pub fn is_wildcard_pattern(reference: &str) -> (r: bool)
    ensures
        r == is_wildcard_spec(reference@),
{
    let n = reference.unicode_len();
    let mut i: usize = 0;
    while i < n
        invariant
            n == reference@.len(),
            i <= n,
            forall|j: int| 0 <= j < i ==> reference@[j] != '*' && reference@[j] != '?'
                && reference@[j] != '[',
        decreases n - i,
    {
        let c = reference.get_char(i);
        if c == '*' || c == '?' || c == '[' {
            assert(reference@[i as int] == c);
            return true;
        }
        i = i + 1;
    }
    false
}

/// Whether `pattern` matches `text`, both taken as UTF-8 bytes.
pub open spec fn wm(pattern: Seq<char>, text: Seq<char>) -> bool {
    wildcard_match_bytes(encode_utf8(pattern), encode_utf8(text))
}

/// Whether a plugin matches a pattern: by its short or full reference, by one
/// of its versions, or by a reference tagged `reference:version`.
pub open spec fn plugin_matches_spec(
    pattern: Seq<char>,
    reference: Seq<char>,
    full_reference: Seq<char>,
    versions: Seq<Seq<char>>,
) -> bool {
    ||| wm(pattern, reference)
    ||| wm(pattern, full_reference)
    ||| exists|i: int|
        0 <= i < versions.len() && {
            ||| wm(pattern, versions[i])
            ||| wm(pattern, reference + ":"@ + versions[i])
            ||| wm(pattern, full_reference + ":"@ + versions[i])
        }
}

/// Whether a plugin entry matches a wildcard pattern by reference, full
/// reference, version, or tagged reference.
pub fn wildcard_matches_plugin(
    pattern: &str,
    reference: &str,
    full_reference: &str,
    versions: &[&str],
) -> (r: bool)
    ensures
        r == plugin_matches_spec(pattern@, reference@, full_reference@, versions@.map_values(|v: &str| v@)),
{
    let ghost vs = versions@.map_values(|v: &str| v@);
    if wildcard_match(pattern, reference) || wildcard_match(pattern, full_reference) {
        return true;
    }
    let mut i: usize = 0;
    while i < versions.len()
        invariant
            vs == versions@.map_values(|v: &str| v@),
            i <= versions.len(),
            !wm(pattern@, reference@),
            !wm(pattern@, full_reference@),
            forall|j: int|
                0 <= j < i ==> !wm(pattern@, vs[j]) && !wm(pattern@, reference@ + ":"@ + vs[j])
                    && !wm(pattern@, full_reference@ + ":"@ + vs[j]),
        decreases versions.len() - i,
    {
        let version = versions[i];
        assert(vs[i as int] == version@);
        if wildcard_match(pattern, version) {
            return true;
        }
        let tagged_ref = owned(reference).concat(":").concat(version);
        let tagged_full_ref = owned(full_reference).concat(":").concat(version);
        if wildcard_match(pattern, tagged_ref.as_str()) || wildcard_match(
            pattern,
            tagged_full_ref.as_str(),
        ) {
            return true;
        }
        i = i + 1;
    }
    false
}


/// A plugin is selected exactly when the pattern matches its short or full
/// reference, one of its versions, or either reference tagged with one of
/// its versions (`reference:version`, `full_reference:version`).
pub proof fn law_plugin_selection(
    pattern: Seq<char>,
    reference: Seq<char>,
    full_reference: Seq<char>,
    versions: Seq<Seq<char>>,
)
    ensures
        wm(pattern, reference) ==> plugin_matches_spec(pattern, reference, full_reference, versions),
        wm(pattern, full_reference) ==> plugin_matches_spec(pattern, reference, full_reference, versions),
        forall|i: int| 0 <= i < versions.len() && #[trigger] wm(pattern, versions[i]) ==> plugin_matches_spec(
            pattern,
            reference,
            full_reference,
            versions,
        ),
        forall|i: int| 0 <= i < versions.len() && #[trigger] wm(pattern, reference + ":"@ + versions[i])
            ==> plugin_matches_spec(pattern, reference, full_reference, versions),
        forall|i: int| 0 <= i < versions.len() && #[trigger] wm(pattern, full_reference + ":"@ + versions[i])
            ==> plugin_matches_spec(pattern, reference, full_reference, versions),
        plugin_matches_spec(pattern, reference, full_reference, versions) ==> (wm(pattern, reference) || wm(
            pattern,
            full_reference,
        ) || exists|i: int|
            0 <= i < versions.len() && (wm(pattern, versions[i]) || wm(pattern, reference + ":"@ + versions[i])
                || wm(pattern, full_reference + ":"@ + versions[i]))),
{
}

} // verus!
