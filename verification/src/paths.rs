//! Virtual-path normalization and validation.
//!
//! A virtual path is a slash-separated string.  Normalization resolves `..`
//! segments syntactically (a `..` pops the previous segment when one exists,
//! and survives otherwise), drops empty and interior `.` segments the way the
//! component model of a path does, and preserves a trailing slash.
//! Validation rejects a normalized path in which relative elements survive.

use vstd::prelude::*;
use crate::errors::{FtpError, FtpErrorKind};

verus! {

/// True when the path string begins with a root slash.
pub open spec fn is_rooted(s: Seq<char>) -> bool {
    s.len() > 0 && s[0] == '/'
}

/// True when the path string ends with a slash.
pub open spec fn ends_with_slash(s: Seq<char>) -> bool {
    s.len() > 0 && s[s.len() - 1] == '/'
}

/// A lone `.` segment.
pub open spec fn is_dot(g: Seq<char>) -> bool {
    g.len() == 1 && g[0] == '.'
}

/// A `..` segment.
pub open spec fn is_dotdot(g: Seq<char>) -> bool {
    g.len() == 2 && g[0] == '.' && g[1] == '.'
}

/// An unrooted path whose first component is `.`, which the component
/// model of a path keeps (elsewhere `.` segments are dropped).
pub open spec fn has_leading_cur_dir(s: Seq<char>) -> bool {
    !is_rooted(s) && (is_dot(s) || (s.len() >= 2 && s[0] == '.' && s[1] == '/'))
}

/// Index of the first slash at or after `i`, or the length of `s`.
pub open spec fn seg_end(s: Seq<char>, i: int) -> int
    decreases s.len() - i,
{
    if i < 0 || i >= s.len() {
        s.len() as int
    } else if s[i] == '/' {
        i
    } else {
        seg_end(s, i + 1)
    }
}

pub proof fn lemma_seg_end_bounds(s: Seq<char>, i: int)
    requires
        0 <= i <= s.len(),
    ensures
        i <= seg_end(s, i) <= s.len(),
        forall|k: int| i <= k < seg_end(s, i) ==> s[k] != '/',
        seg_end(s, i) < s.len() ==> s[seg_end(s, i)] == '/',
    decreases s.len() - i,
{
    if i < s.len() && s[i] != '/' {
        lemma_seg_end_bounds(s, i + 1);
    }
}

/// Segments that the component model keeps: non-empty and not `.`.
pub open spec fn keep_seg(g: Seq<char>) -> bool {
    g.len() > 0 && !is_dot(g)
}

/// The kept components of `s` from position `i` on, splitting on `/`.
pub open spec fn comps_from(s: Seq<char>, i: int) -> Seq<Seq<char>>
    decreases s.len() - i,
    when 0 <= i <= s.len()
    via comps_from_dec
{
    let j = seg_end(s, i);
    let g = s.subrange(i, j);
    let tail = if j >= s.len() {
        Seq::<Seq<char>>::empty()
    } else {
        comps_from(s, j + 1)
    };
    if keep_seg(g) {
        seq![g] + tail
    } else {
        tail
    }
}

#[via_fn]
proof fn comps_from_dec(s: Seq<char>, i: int) {
    lemma_seg_end_bounds(s, i);
}

/// The kept components of the whole path string.
pub open spec fn comps(s: Seq<char>) -> Seq<Seq<char>> {
    comps_from(s, 0)
}


/// State of the normalization walk: whether a leading `.` component is still
/// pending, and the segments pushed so far.
pub struct NormState {
    pub cur: bool,
    pub out: Seq<Seq<char>>,
}

/// One normalization step.  A `..` pops the last pushed segment if one
/// exists, otherwise consumes a pending leading `.`, otherwise survives as a
/// segment of its own; every other segment is pushed verbatim.
pub open spec fn norm_step(st: NormState, g: Seq<char>) -> NormState {
    if is_dotdot(g) {
        if st.out.len() > 0 {
            NormState { cur: st.cur, out: st.out.drop_last() }
        } else if st.cur {
            NormState { cur: false, out: st.out }
        } else {
            NormState { cur: false, out: st.out.push(g) }
        }
    } else {
        NormState { cur: st.cur, out: st.out.push(g) }
    }
}

pub open spec fn run_norm(st: NormState, segs: Seq<Seq<char>>) -> NormState
    decreases segs.len(),
{
    if segs.len() == 0 {
        st
    } else {
        run_norm(norm_step(st, segs[0]), segs.drop_first())
    }
}

/// The normalization walk over the components of `s`.
pub open spec fn norm_state(s: Seq<char>) -> NormState {
    run_norm(
        NormState { cur: has_leading_cur_dir(s), out: Seq::empty() },
        comps(s),
    )
}

/// The component list that is rendered: a kept leading `.` first.
pub open spec fn render_parts(st: NormState) -> Seq<Seq<char>> {
    if st.cur {
        seq![seq!['.']] + st.out
    } else {
        st.out
    }
}

/// Join components with single slashes.
pub open spec fn join_comps(parts: Seq<Seq<char>>) -> Seq<char>
    decreases parts.len(),
{
    if parts.len() == 0 {
        Seq::empty()
    } else if parts.len() == 1 {
        parts[0]
    } else {
        parts[0] + seq!['/'] + join_comps(parts.drop_first())
    }
}

/// Render a path from its root flag, normalization state and trailing-slash
/// flag.  A preserved trailing slash is appended unless the rendered string
/// is empty or already ends with a slash.
pub open spec fn render_path(rooted: bool, st: NormState, trail: bool) -> Seq<char> {
    let body = join_comps(render_parts(st));
    let s0 = if rooted { seq!['/'] + body } else { body };
    if trail && s0.len() > 0 && s0[s0.len() - 1] != '/' {
        s0.push('/')
    } else {
        s0
    }
}

/// The normalized form of a path string.
pub open spec fn normalize_spec(s: Seq<char>) -> Seq<char> {
    render_path(is_rooted(s), norm_state(s), ends_with_slash(s))
}

/// Two given characters stand adjacent at position `i`.
pub open spec fn has_pair_at(s: Seq<char>, i: int, a: char, b: char) -> bool {
    0 <= i && i + 1 < s.len() && s[i] == a && s[i + 1] == b
}

pub open spec fn has_pair(s: Seq<char>, a: char, b: char) -> bool {
    exists|i: int| has_pair_at(s, i, a, b)
}

/// A normalized path passes validation when no relative elements survive in
/// it: no `./`, no `/.` and no `..` anywhere in the text.
pub open spec fn path_ok(n: Seq<char>) -> bool {
    !has_pair(n, '.', '/') && !has_pair(n, '/', '.') && !has_pair(n, '.', '.')
}


/// A slash-free stretch ending at a slash (or the end) is exactly what
/// `seg_end` finds.
proof fn lemma_seg_end_char(s: Seq<char>, i: int, j: int)
    requires
        0 <= i <= j <= s.len(),
        forall|k: int| i <= k < j ==> s[k] != '/',
        j < s.len() ==> s[j] == '/',
    ensures
        seg_end(s, i) == j,
    decreases j - i,
{
    if i < j {
        lemma_seg_end_char(s, i + 1, j);
    }
}

/// Pushing onto a vector pushes onto its element-wise view.
proof fn lemma_deep_view_push(v: Seq<String>, g: String)
    ensures
        v.push(g).map_values(|x: String| x@) == v.map_values(|x: String| x@).push(g@),
{
    assert(v.push(g).map_values(|x: String| x@) =~= v.map_values(|x: String| x@).push(g@));
}

/// Dropping the last element of a vector drops it from the element-wise view.
proof fn lemma_deep_view_drop_last(v: Seq<String>)
    requires
        v.len() > 0,
    ensures
        v.subrange(0, v.len() - 1).map_values(|x: String| x@) == v.map_values(
            |x: String| x@,
        ).drop_last(),
{
    assert(v.subrange(0, v.len() - 1).map_values(|x: String| x@) =~= v.map_values(
        |x: String| x@,
    ).drop_last());
}

/// Find the end of the segment that starts at `i`.
fn scan_seg_end(s: &str, i: usize) -> (j: usize)
    requires
        i <= s@.len(),
    ensures
        j == seg_end(s@, i as int),
        i <= j <= s@.len(),
{
    let n = s.unicode_len();
    let mut j = i;
    while j < n && s.get_char(j) != '/'
        invariant
            i <= j <= n,
            n == s@.len(),
            forall|k: int| i <= k < j ==> s@[k] != '/',
        decreases n - j,
    {
        j = j + 1;
    }
    proof {
        lemma_seg_end_char(s@, i as int, j as int);
    }
    j
}

/// Split a path into its root flag and its kept components.
pub fn parse_components(s: &str) -> (r: (bool, Vec<String>))
    ensures
        r.0 == is_rooted(s@),
        r.1.deep_view() == comps(s@),
{
    let n = s.unicode_len();
    let rooted = n > 0 && s.get_char(0) == '/';
    let mut segs: Vec<String> = Vec::new();
    let mut i: usize = 0;
    loop
        invariant_except_break
            comps(s@) == segs.deep_view() + comps_from(s@, i as int),
        invariant
            n == s@.len(),
            i <= n,
        ensures
            comps(s@) == segs.deep_view(),
        decreases n - i,
    {
        let j = scan_seg_end(s, i);
        proof {
            lemma_seg_end_bounds(s@, i as int);
        }
        let ghost g = s@.subrange(i as int, j as int);
        let ghost tail = if j >= n {
            Seq::<Seq<char>>::empty()
        } else {
            comps_from(s@, j as int + 1)
        };
        assert(comps_from(s@, i as int) == if keep_seg(g) {
            seq![g] + tail
        } else {
            tail
        });
        if j > i && !(j - i == 1 && s.get_char(i) == '.') {
            let seg = s.substring_char(i, j);
            assert(keep_seg(g));
            let ghost old_sv = segs@;
            let ghost old_dv = segs.deep_view();
            segs.push(seg.to_owned());
            proof {
                lemma_deep_view_push(old_sv, segs@[segs@.len() - 1]);
                assert(segs.deep_view() =~= old_dv.push(g));
                assert(old_dv + (seq![g] + tail) =~= (old_dv.push(g)) + tail);
            }
        } else {
            assert(!keep_seg(g));
        }
        if j == n {
            break;
        }
        i = j + 1;
    }
    (rooted, segs)
}


/// Processing one more segment first is the same as starting one step in.
proof fn lemma_run_norm_unfold(st: NormState, segs: Seq<Seq<char>>, k: int)
    requires
        0 <= k < segs.len(),
    ensures
        run_norm(st, segs.skip(k)) == run_norm(norm_step(st, segs[k]), segs.skip(k + 1)),
{
    assert(segs.skip(k)[0] == segs[k]);
    assert(segs.skip(k).drop_first() =~= segs.skip(k + 1));
    assert(segs.skip(k).len() > 0);
}

/// Whether an executable segment is a `..`.
fn seg_is_dotdot(seg: &String) -> (r: bool)
    ensures
        r == is_dotdot(seg@),
{
    seg.as_str().unicode_len() == 2 && seg.as_str().get_char(0) == '.' && seg.as_str().get_char(1)
        == '.'
}

/// Run the normalization walk over the parsed components.
fn apply_norm(cur0: bool, segs: &Vec<String>) -> (r: (bool, Vec<String>))
    ensures
        ({
            let st = run_norm(
                NormState { cur: cur0, out: Seq::empty() },
                segs.deep_view(),
            );
            r.0 == st.cur && r.1.deep_view() == st.out
        }),
{
    let ghost target = run_norm(NormState { cur: cur0, out: Seq::empty() }, segs.deep_view());
    let mut cur = cur0;
    let mut out: Vec<String> = Vec::new();
    let mut k: usize = 0;
    proof {
        assert(out.deep_view() =~= Seq::<Seq<char>>::empty());
        assert(segs.deep_view().skip(0) =~= segs.deep_view());
    }
    while k < segs.len()
        invariant
            k <= segs.len(),
            segs.deep_view().len() == segs@.len(),
            run_norm(NormState { cur, out: out.deep_view() }, segs.deep_view().skip(k as int))
                == target,
        decreases segs.len() - k,
    {
        let ghost st0 = NormState { cur, out: out.deep_view() };
        let ghost g = segs.deep_view()[k as int];
        proof {
            lemma_run_norm_unfold(st0, segs.deep_view(), k as int);
            assert(g == segs@[k as int]@);
        }
        let seg = &segs[k];
        if seg_is_dotdot(seg) {
            if out.len() > 0 {
                let ghost old_sv = out@;
                out.pop();
                proof {
                    lemma_deep_view_drop_last(old_sv);
                    assert(out.deep_view() == st0.out.drop_last());
                }
            } else if cur {
                cur = false;
            } else {
                cur = false;
                let ghost old_sv = out@;
                out.push(seg.clone());
                proof {
                    lemma_deep_view_push(old_sv, segs@[k as int]);
                    assert(out.deep_view() == st0.out.push(g));
                }
            }
        } else {
            let ghost old_sv = out@;
            out.push(seg.clone());
            proof {
                lemma_deep_view_push(old_sv, segs@[k as int]);
                assert(out.deep_view() == st0.out.push(g));
            }
        }
        proof {
            assert(NormState { cur, out: out.deep_view() } == norm_step(st0, g));
        }
        k = k + 1;
    }
    proof {
        assert(segs.deep_view().skip(segs@.len() as int) =~= Seq::<Seq<char>>::empty());
    }
    (cur, out)
}

/// Appending a component to a join appends a separator and the component.
proof fn lemma_join_push(ps: Seq<Seq<char>>, g: Seq<char>)
    ensures
        join_comps(ps.push(g)) == if ps.len() == 0 {
            g
        } else {
            join_comps(ps) + seq!['/'] + g
        },
    decreases ps.len(),
{
    let whole = ps.push(g);
    if ps.len() == 0 {
        assert(whole.len() == 1);
        assert(whole[0] == g);
    } else {
        assert(whole.len() >= 2);
        assert(whole[0] == ps[0]);
        assert(whole.drop_first() =~= ps.drop_first().push(g));
        lemma_join_push(ps.drop_first(), g);
        if ps.len() == 1 {
            assert(join_comps(ps) == ps[0]);
            assert(join_comps(whole) == whole[0] + seq!['/'] + join_comps(whole.drop_first()));
            assert(join_comps(whole.drop_first()) == g);
        } else {
            assert(join_comps(whole) == whole[0] + seq!['/'] + join_comps(whole.drop_first()));
            assert(join_comps(ps) == ps[0] + seq!['/'] + join_comps(ps.drop_first()));
            assert(ps[0] + seq!['/'] + (join_comps(ps.drop_first()) + seq!['/'] + g) =~= (ps[0]
                + seq!['/'] + join_comps(ps.drop_first())) + seq!['/'] + g);
        }
    }
}

/// Render a path from its root flag, normalization state and trailing-slash
/// flag.
pub(crate) fn render(rooted: bool, cur: bool, out: &Vec<String>, trail: bool) -> (r: String)
    ensures
        r@ == render_path(rooted, NormState { cur, out: out.deep_view() }, trail),
{
    let ghost st = NormState { cur, out: out.deep_view() };
    let ghost parts = render_parts(st);
    proof {
        reveal_strlit("/");
        reveal_strlit(".");
        reveal_strlit("");
    }
    let mut acc = String::new();
    if rooted {
        acc.append("/");
    }
    if cur {
        acc.append(".");
        proof {
            assert(parts.take(1) =~= seq![seq!['.']]);
            assert(join_comps(parts.take(1)) == seq!['.']);
            assert(acc@ =~= (if rooted { seq!['/'] } else { Seq::<char>::empty() })
                + join_comps(parts.take(1)));
        }
    }
    let ghost cur_off: int = if cur { 1 } else { 0 };
    let mut k: usize = 0;
    while k < out.len()
        invariant
            k <= out.len(),
            parts == render_parts(NormState { cur, out: out.deep_view() }),
            parts.len() == out.deep_view().len() + cur_off,
            cur_off == if cur { 1int } else { 0int },
            forall|m: int| 0 <= m < out.deep_view().len() ==> parts[m + cur_off] == out.deep_view()[m],
            acc@ == (if rooted { seq!['/'] } else { Seq::<char>::empty() }) + join_comps(
                parts.take(k + cur_off),
            ),
        decreases out.len() - k,
    {
        proof {
            reveal_strlit("/");
        }
        if k > 0 || cur {
            acc.append("/");
        }
        acc.append(out[k].as_str());
        proof {
            let m = k + cur_off;
            assert(parts.take(m + 1) =~= parts.take(m).push(parts[m]));
            lemma_join_push(parts.take(m), parts[m]);
            assert(parts[m] == out.deep_view()[k as int]);
            if k > 0 || cur {
                assert(acc@ =~= (if rooted { seq!['/'] } else { Seq::<char>::empty() })
                    + join_comps(parts.take(m + 1)));
            } else {
                assert(m == 0);
                assert(acc@ =~= (if rooted { seq!['/'] } else { Seq::<char>::empty() })
                    + join_comps(parts.take(m + 1)));
            }
        }
        k = k + 1;
    }
    proof {
        assert(parts.take(parts.len() as int) =~= parts);
    }
    let ghost s0 = (if rooted { seq!['/'] } else { Seq::<char>::empty() }) + join_comps(parts);
    let len = acc.as_str().unicode_len();
    if trail && len > 0 && acc.as_str().get_char(len - 1) != '/' {
        acc.append("/");
        proof {
            reveal_strlit("/");
            assert(acc@ =~= s0.push('/'));
        }
    }
    acc
}


/// Whether the path keeps a leading `.` component.
pub(crate) fn leading_cur_dir(s: &str) -> (r: bool)
    ensures
        r == has_leading_cur_dir(s@),
{
    let n = s.unicode_len();
    if n > 0 && s.get_char(0) == '/' {
        false
    } else if n == 1 && s.get_char(0) == '.' {
        true
    } else {
        n >= 2 && s.get_char(0) == '.' && s.get_char(1) == '/'
    }
}

/// Normalize a virtual path without touching any filesystem: resolve `..`
/// against the segments before it, drop redundant `.` and empty segments,
/// and preserve a trailing slash.  A `..` that has nothing to pop survives
/// in the result.
pub fn normalize_path(path: &str) -> (r: String)
    ensures
        r@ == normalize_spec(path@),
{
    let n = path.unicode_len();
    let trail = n > 0 && path.get_char(n - 1) == '/';
    let cur0 = leading_cur_dir(path);
    let (rooted, segs) = parse_components(path);
    let (cur, out) = apply_norm(cur0, &segs);
    render(rooted, cur, &out, trail)
}

/// Scan for two adjacent characters.
fn find_pair(s: &str, a: char, b: char) -> (r: bool)
    ensures
        r == has_pair(s@, a, b),
{
    let n = s.unicode_len();
    if n < 2 {
        return false;
    }
    let mut i: usize = 0;
    while i < n - 1
        invariant
            2 <= n == s@.len(),
            i <= n - 1,
            forall|m: int| 0 <= m < i ==> !has_pair_at(s@, m, a, b),
        decreases n - i,
    {
        if s.get_char(i) == a && s.get_char(i + 1) == b {
            assert(has_pair_at(s@, i as int, a, b));
            return true;
        }
        i = i + 1;
    }
    false
}

/// Normalize a path and reject it when relative elements survive: any
/// occurrence of `./`, `/.` or `..` in the normalized text (which catches
/// paths that attempted to escape above the root).
pub fn validate_and_normalize_path(path: &str) -> (r: Result<String, FtpError>)
    ensures
        match r {
            Ok(p) => p@ == normalize_spec(path@) && path_ok(normalize_spec(path@)),
            Err(e) => {
                &&& !path_ok(normalize_spec(path@))
                &&& e.kind == FtpErrorKind::FileNameNotAllowedError
                &&& e.message@ == "Path contained relative elements after normalizing"@
            },
        },
{
    let normalized = normalize_path(path);
    let bad = find_pair(normalized.as_str(), '.', '/') || find_pair(normalized.as_str(), '/', '.')
        || find_pair(normalized.as_str(), '.', '.');
    if bad {
        Err(
            FtpError::new(
                FtpErrorKind::FileNameNotAllowedError,
                "Path contained relative elements after normalizing",
            ),
        )
    } else {
        Ok(normalized)
    }
}


/// Length of the path once trailing slashes are stripped.
pub open spec fn strip_slashes_end(s: Seq<char>) -> int
    decreases s.len(),
{
    if s.len() > 0 && s[s.len() - 1] == '/' {
        strip_slashes_end(s.drop_last())
    } else {
        s.len() as int
    }
}

/// Start of the last segment that ends at `e`: scan left until a slash.
pub open spec fn name_start(s: Seq<char>, e: int) -> int
    decreases e,
{
    if e <= 0 {
        0
    } else if s[e - 1] == '/' {
        e
    } else {
        name_start(s, e - 1)
    }
}

/// The parent-and-leaf decomposition of a path, if it has one: the leaf is
/// the last segment once trailing slashes are ignored, and must be a plain
/// name (not empty, not `.`, not `..`); the parent is everything before it,
/// with a bare root kept as `/`.
pub open spec fn parent_name_spec(s: Seq<char>) -> Option<(Seq<char>, Seq<char>)> {
    let e = strip_slashes_end(s);
    let b = name_start(s, e);
    let name = s.subrange(b, e);
    if name.len() == 0 || is_dot(name) || is_dotdot(name) {
        None
    } else {
        let parent = if b <= 0 {
            Seq::<char>::empty()
        } else if b == 1 {
            s.subrange(0, 1)
        } else {
            s.subrange(0, b - 1)
        };
        Some((parent, name))
    }
}

proof fn lemma_strip_end(s: Seq<char>, e: int)
    requires
        0 <= e <= s.len(),
        forall|k: int| e <= k < s.len() ==> s[k] == '/',
        e > 0 ==> s[e - 1] != '/',
    ensures
        strip_slashes_end(s) == e,
    decreases s.len(),
{
    if s.len() > e {
        assert(s[s.len() - 1] == '/');
        assert(forall|k: int| e <= k < s.drop_last().len() ==> s.drop_last()[k] == '/');
        assert(e > 0 ==> s.drop_last()[e - 1] != '/');
        lemma_strip_end(s.drop_last(), e);
    }
}

proof fn lemma_name_start(s: Seq<char>, e: int, b: int)
    requires
        0 <= b <= e,
        forall|k: int| b <= k < e ==> s[k] != '/',
        b > 0 ==> s[b - 1] == '/',
    ensures
        name_start(s, e) == b,
    decreases e - b,
{
    if e > b {
        lemma_name_start(s, e - 1, b);
    }
}

/// Split a path into its parent directory and its leaf name.  Fails when the
/// path has no such decomposition (it is empty, a bare root, or ends in a
/// relative segment).
pub fn get_parent_and_name(path: &str) -> (r: Result<(String, String), FtpError>)
    ensures
        match r {
            Ok(pn) => parent_name_spec(path@) == Some((pn.0@, pn.1@)),
            Err(err) => {
                &&& parent_name_spec(path@) is None
                &&& err.kind == FtpErrorKind::FileNameNotAllowedError
                &&& err.message@
                    == "Path for creating a directory must contain a parent and child component"@
            },
        },
{
    let n = path.unicode_len();
    let mut e = n;
    while e > 0 && path.get_char(e - 1) == '/'
        invariant
            e <= n == path@.len(),
            forall|k: int| e <= k < n ==> path@[k] == '/',
        decreases e,
    {
        e = e - 1;
    }
    proof {
        lemma_strip_end(path@, e as int);
    }
    let mut b = e;
    while b > 0 && path.get_char(b - 1) != '/'
        invariant
            b <= e,
            e <= path@.len(),
            forall|k: int| b <= k < e ==> path@[k] != '/',
        decreases b,
    {
        b = b - 1;
    }
    proof {
        lemma_name_start(path@, e as int, b as int);
    }
    let name_len = e - b;
    let dotty = (name_len == 1 && path.get_char(b) == '.') || (name_len == 2 && path.get_char(b)
        == '.' && path.get_char(b + 1) == '.');
    if name_len == 0 || dotty {
        return Err(
            FtpError::new(
                FtpErrorKind::FileNameNotAllowedError,
                "Path for creating a directory must contain a parent and child component",
            ),
        );
    }
    let name = path.substring_char(b, e).to_owned();
    let parent = if b == 0 {
        String::new()
    } else if b == 1 {
        path.substring_char(0, 1).to_owned()
    } else {
        path.substring_char(0, b - 1).to_owned()
    };
    Ok((parent, name))
}


/// Law: in a path that passed validation, no standalone path segment is `.`
/// or `..`.  A segment is a maximal slash-free stretch `[i, j)`.  The one
/// exception is the one-character path `.` itself, which survives
/// validation and is excluded here.
pub proof fn lemma_validated_no_relative_segments(s: Seq<char>, i: int, j: int)
    requires
        path_ok(s),
        0 <= i <= j <= s.len(),
        i == 0 || s[i - 1] == '/',
        j == s.len() || s[j] == '/',
        !(i == 0 && j == s.len() && is_dot(s.subrange(i, j))),
    ensures
        !is_dot(s.subrange(i, j)),
        !is_dotdot(s.subrange(i, j)),
{
    let g = s.subrange(i, j);
    if is_dotdot(g) {
        assert(has_pair_at(s, i, '.', '.'));
        assert(has_pair(s, '.', '.'));
    }
    if is_dot(g) {
        if j < s.len() {
            assert(has_pair_at(s, i, '.', '/'));
            assert(has_pair(s, '.', '/'));
        } else if i > 0 {
            assert(has_pair_at(s, i - 1, '/', '.'));
            assert(has_pair(s, '/', '.'));
        }
    }
}

/// A segment that can appear in a rendered path: non-empty, not `.`, and
/// free of slashes.
pub open spec fn good_seg(g: Seq<char>) -> bool {
    &&& g.len() > 0
    &&& !is_dot(g)
    &&& forall|k: int| 0 <= k < g.len() ==> g[k] != '/'
}

/// Every component that the splitter keeps is a good segment.
proof fn lemma_comps_good(s: Seq<char>, i: int)
    requires
        0 <= i <= s.len(),
    ensures
        forall|m: int|
            0 <= m < comps_from(s, i).len() ==> #[trigger] good_seg(comps_from(s, i)[m]),
    decreases s.len() - i,
{
    lemma_seg_end_bounds(s, i);
    let j = seg_end(s, i);
    let g = s.subrange(i, j);
    if j < s.len() {
        lemma_comps_good(s, j + 1);
    }
    if keep_seg(g) {
        assert(good_seg(g));
        assert(forall|m: int|
            1 <= m < comps_from(s, i).len() ==> comps_from(s, i)[m] == (if j >= s.len() {
                Seq::<Seq<char>>::empty()
            } else {
                comps_from(s, j + 1)
            })[m - 1]);
    }
}

/// What holds of a normalization state as the walk builds it: every pushed
/// segment is good, a surviving `..` stands only first, and none survives
/// while a leading `.` is still pending.
pub open spec fn norm_inv(st: NormState) -> bool {
    &&& forall|m: int| 0 <= m < st.out.len() ==> #[trigger] good_seg(st.out[m])
    &&& forall|m: int| 1 <= m < st.out.len() ==> !is_dotdot(#[trigger] st.out[m])
    &&& st.cur ==> forall|m: int| 0 <= m < st.out.len() ==> !is_dotdot(#[trigger] st.out[m])
}

/// The normalization walk preserves the state invariant, and never turns
/// the pending-`.` flag back on.
proof fn lemma_run_norm_inv(st: NormState, segs: Seq<Seq<char>>)
    requires
        norm_inv(st),
        forall|m: int| 0 <= m < segs.len() ==> #[trigger] good_seg(segs[m]),
    ensures
        norm_inv(run_norm(st, segs)),
        run_norm(st, segs).cur ==> st.cur,
    decreases segs.len(),
{
    if segs.len() > 0 {
        let g = segs[0];
        let st2 = norm_step(st, g);
        assert(good_seg(g));
        assert(norm_inv(st2));
        assert(forall|m: int| 0 <= m < segs.drop_first().len() ==> #[trigger] good_seg(
            segs.drop_first()[m],
        ));
        lemma_run_norm_inv(st2, segs.drop_first());
    }
}


proof fn lemma_seg_end_offset(pre: Seq<char>, t: Seq<char>, i: int)
    requires
        0 <= i <= t.len(),
    ensures
        seg_end(pre + t, pre.len() + i) == pre.len() + seg_end(t, i),
    decreases t.len() - i,
{
    let u = pre + t;
    if i >= t.len() {
        assert(seg_end(u, pre.len() + i) == u.len());
    } else if t[i] == '/' {
        assert(u[pre.len() + i] == '/');
    } else {
        assert(u[pre.len() + i] != '/');
        lemma_seg_end_offset(pre, t, i + 1);
    }
}

/// The components found after a prefix are the components of the suffix.
proof fn lemma_comps_offset(pre: Seq<char>, t: Seq<char>, i: int)
    requires
        0 <= i <= t.len(),
    ensures
        comps_from(pre + t, pre.len() + i) == comps_from(t, i),
    decreases t.len() - i,
{
    let u = pre + t;
    lemma_seg_end_offset(pre, t, i);
    lemma_seg_end_bounds(t, i);
    lemma_seg_end_bounds(u, pre.len() + i);
    let j = seg_end(t, i);
    assert(u.subrange(pre.len() + i, pre.len() + j) =~= t.subrange(i, j));
    if j < t.len() {
        lemma_comps_offset(pre, t, j + 1);
    }
}

/// Components of a slash-free stretch followed by a separator and a rest:
/// the stretch itself (when kept) and the components of the rest.
proof fn lemma_comps_sep(g: Seq<char>, t: Seq<char>)
    requires
        forall|k: int| 0 <= k < g.len() ==> g[k] != '/',
    ensures
        comps(g + seq!['/'] + t) == if keep_seg(g) {
            seq![g] + comps(t)
        } else {
            comps(t)
        },
{
    let pre = g + seq!['/'];
    let u = pre + t;
    assert(u =~= g + seq!['/'] + t);
    assert(forall|k: int| 0 <= k < g.len() ==> u[k] != '/');
    assert(u[g.len() as int] == '/');
    lemma_seg_end_char(u, 0, g.len() as int);
    assert(u.subrange(0, g.len() as int) =~= g);
    lemma_comps_offset(pre, t, 0);
    assert(comps_from(u, g.len() as int + 1) == comps_from(t, 0));
}

/// Components of a slash-free string alone.
proof fn lemma_comps_single(g: Seq<char>)
    requires
        forall|k: int| 0 <= k < g.len() ==> g[k] != '/',
    ensures
        comps(g) == if keep_seg(g) {
            seq![g]
        } else {
            Seq::<Seq<char>>::empty()
        },
{
    lemma_seg_end_char(g, 0, g.len() as int);
    assert(g.subrange(0, g.len() as int) =~= g);
    if keep_seg(g) {
        assert(comps(g) =~= seq![g]);
    }
}

/// A trailing separator adds no component.
proof fn lemma_comps_trail(x: Seq<char>, i: int)
    requires
        0 <= i <= x.len(),
    ensures
        comps_from(x + seq!['/'], i) == comps_from(x, i),
    decreases x.len() - i,
{
    let u = x + seq!['/'];
    lemma_seg_end_bounds(x, i);
    lemma_seg_end_bounds(u, i);
    let j = seg_end(x, i);
    if j < x.len() {
        lemma_seg_end_char(u, i, j);
        assert(u.subrange(i, j) =~= x.subrange(i, j));
        lemma_comps_trail(x, j + 1);
    } else {
        assert(forall|k: int| i <= k < x.len() ==> x[k] != '/');
        assert(forall|k: int| i <= k < j ==> u[k] != '/');
        assert(u[x.len() as int] == '/');
        lemma_seg_end_char(u, i, x.len() as int);
        assert(u.subrange(i, j) =~= x.subrange(i, j));
        assert(seg_end(u, x.len() as int + 1) == u.len());
        assert(u.subrange(x.len() as int + 1, u.len() as int) =~= Seq::<char>::empty());
        assert(comps_from(u, x.len() as int + 1) =~= Seq::<Seq<char>>::empty());
    }
}

/// A root separator adds no component.
proof fn lemma_comps_root(body: Seq<char>)
    ensures
        comps(seq!['/'] + body) == comps(body),
{
    let u = seq!['/'] + body;
    assert(u[0] == '/');
    assert(seg_end(u, 0) == 0);
    assert(u.subrange(0, 0) =~= Seq::<char>::empty());
    lemma_comps_offset(seq!['/'], body, 0);
    assert(comps_from(u, 1) == comps_from(body, 0));
}

/// Components of a join of good segments: the segments themselves.
proof fn lemma_comps_join_good(parts: Seq<Seq<char>>)
    requires
        forall|m: int| 0 <= m < parts.len() ==> #[trigger] good_seg(parts[m]),
    ensures
        comps(join_comps(parts)) == parts,
    decreases parts.len(),
{
    if parts.len() == 0 {
        assert(seg_end(Seq::<char>::empty(), 0) == 0);
        assert(comps(join_comps(parts)) =~= parts);
    } else if parts.len() == 1 {
        assert(good_seg(parts[0]));
        lemma_comps_single(parts[0]);
        assert(keep_seg(parts[0]));
        assert(comps(join_comps(parts)) =~= parts);
    } else {
        let g = parts[0];
        let rest = parts.drop_first();
        assert(good_seg(parts[0]));
        assert(forall|m: int| 0 <= m < rest.len() ==> #[trigger] good_seg(rest[m]));
        lemma_comps_join_good(rest);
        lemma_comps_sep(g, join_comps(rest));
        assert(keep_seg(g));
        assert(comps(join_comps(parts)) =~= parts);
    }
}


/// Shape of a join of non-empty parts: it starts with the first part and
/// ends with the last character of the last part.
proof fn lemma_join_chars(parts: Seq<Seq<char>>)
    requires
        parts.len() > 0,
        forall|m: int| 0 <= m < parts.len() ==> #[trigger] parts[m].len() > 0,
    ensures
        join_comps(parts).len() >= parts[0].len(),
        forall|k: int|
            0 <= k < parts[0].len() ==> #[trigger] join_comps(parts)[k] == parts[0][k],
        join_comps(parts).len() > 0,
        join_comps(parts)[join_comps(parts).len() - 1] == parts[parts.len() - 1][parts[parts.len()
            - 1].len() - 1],
    decreases parts.len(),
{
    if parts.len() == 1 {
    } else {
        let rest = parts.drop_first();
        assert(forall|m: int| 0 <= m < rest.len() ==> #[trigger] rest[m].len() > 0);
        lemma_join_chars(rest);
        let w = join_comps(parts);
        assert(w == parts[0] + seq!['/'] + join_comps(rest));
        assert(forall|k: int| 0 <= k < parts[0].len() ==> w[k] == parts[0][k]);
        assert(w[w.len() - 1] == join_comps(rest)[join_comps(rest).len() - 1]);
        assert(rest[rest.len() - 1] == parts[parts.len() - 1]);
    }
}

/// A walk over segments none of which is `..` only pushes them.
proof fn lemma_run_norm_pushes(st: NormState, segs: Seq<Seq<char>>)
    requires
        forall|m: int| 0 <= m < segs.len() ==> !is_dotdot(#[trigger] segs[m]),
    ensures
        run_norm(st, segs) == (NormState { cur: st.cur, out: st.out + segs }),
    decreases segs.len(),
{
    if segs.len() == 0 {
        assert(st.out + segs =~= st.out);
    } else {
        let g = segs[0];
        assert(!is_dotdot(g));
        let st2 = norm_step(st, g);
        assert(st2 == NormState { cur: st.cur, out: st.out.push(g) });
        assert(forall|m: int| 0 <= m < segs.drop_first().len() ==> !is_dotdot(
            #[trigger] segs.drop_first()[m],
        ));
        lemma_run_norm_pushes(st2, segs.drop_first());
        assert(st.out.push(g) + segs.drop_first() =~= st.out + segs);
    }
}

/// A walk over the output of a finished walk reproduces it.
proof fn lemma_run_norm_self(st: NormState)
    requires
        norm_inv(st),
    ensures
        run_norm((NormState { cur: st.cur, out: Seq::empty() }), st.out) == st,
{
    let init = NormState { cur: st.cur, out: Seq::<Seq<char>>::empty() };
    if st.out.len() == 0 {
        assert(st.out =~= Seq::<Seq<char>>::empty());
        assert(init == st);
    } else if is_dotdot(st.out[0]) {
        assert(!st.cur);
        let st2 = norm_step(init, st.out[0]);
        assert(st2 == NormState { cur: false, out: seq![st.out[0]] });
        let rest = st.out.drop_first();
        assert(forall|m: int| 0 <= m < rest.len() ==> !is_dotdot(#[trigger] rest[m]));
        lemma_run_norm_unfold(init, st.out, 0);
        assert(st.out.skip(1) =~= rest);
        lemma_run_norm_pushes(st2, rest);
        assert(seq![st.out[0]] + rest =~= st.out);
    } else {
        assert(forall|m: int| 0 <= m < st.out.len() ==> !is_dotdot(#[trigger] st.out[m]));
        lemma_run_norm_pushes(init, st.out);
        assert(Seq::<Seq<char>>::empty() + st.out =~= st.out);
    }
}


/// A rendered normal form normalizes to itself.
proof fn lemma_render_normal(rooted: bool, st: NormState, trail: bool)
    requires
        norm_inv(st),
        rooted ==> !st.cur,
    ensures
        normalize_spec(render_path(rooted, st, trail)) == render_path(rooted, st, trail),
{
    let parts = render_parts(st);
    let body = join_comps(parts);
    let s0 = if rooted {
        seq!['/'] + body
    } else {
        body
    };
    let r = render_path(rooted, st, trail);
    let pushed = trail && s0.len() > 0 && s0[s0.len() - 1] != '/';
    assert(r == if pushed {
        s0.push('/')
    } else {
        s0
    });

    // Every rendered part is a non-empty slash-free segment.
    assert(forall|m: int| 0 <= m < st.out.len() ==> #[trigger] good_seg(st.out[m]));
    assert forall|m: int| 0 <= m < parts.len() implies (#[trigger] parts[m]).len() > 0 && (forall|
        k: int,
    | 0 <= k < parts[m].len() ==> parts[m][k] != '/') by {
        if st.cur {
            if m == 0 {
                assert(parts[0] =~= seq!['.']);
            } else {
                assert(parts[m] == st.out[m - 1]);
                assert(good_seg(st.out[m - 1]));
            }
        } else {
            assert(parts[m] == st.out[m]);
            assert(good_seg(st.out[m]));
        }
    }

    // The components of the rendered string are exactly the walked output.
    assert(comps(body) == st.out) by {
        if st.cur {
            if st.out.len() == 0 {
                assert(parts =~= seq![seq!['.']]);
                assert(body == seq!['.']);
                lemma_comps_single(seq!['.']);
                assert(is_dot(seq!['.']));
                assert(comps(body) =~= st.out);
            } else {
                assert(parts.len() >= 2);
                assert(parts.drop_first() =~= st.out);
                assert(body == parts[0] + seq!['/'] + join_comps(parts.drop_first()));
                assert(parts[0] =~= seq!['.']);
                lemma_comps_sep(seq!['.'], join_comps(st.out));
                assert(is_dot(seq!['.']));
                assert(!keep_seg(seq!['.']));
                lemma_comps_join_good(st.out);
                assert(body =~= seq!['.'] + seq!['/'] + join_comps(st.out));
            }
        } else {
            assert(parts == st.out);
            lemma_comps_join_good(st.out);
        }
    }
    assert(comps(s0) == st.out) by {
        if rooted {
            lemma_comps_root(body);
        }
    }
    assert(comps(r) == st.out) by {
        if pushed {
            assert(r =~= s0 + seq!['/']);
            lemma_comps_trail(s0, 0);
        }
    }

    // Root flag of the rendered string.
    assert(is_rooted(r) == rooted) by {
        if rooted {
            assert(s0[0] == '/');
            assert(r[0] == '/');
        } else {
            if s0.len() == 0 {
                assert(!pushed);
            } else {
                assert(parts.len() > 0);
                lemma_join_chars(parts);
                assert(s0[0] == parts[0][0]);
                if st.cur {
                    assert(parts[0] =~= seq!['.']);
                    assert(s0[0] == '.');
                } else {
                    assert(parts[0] == st.out[0]);
                    assert(good_seg(st.out[0]));
                    assert(s0[0] != '/');
                }
                assert(r[0] == s0[0]);
            }
        }
    }

    // Leading-dot flag of the rendered string.
    assert(has_leading_cur_dir(r) == st.cur) by {
        if st.cur {
            assert(!rooted);
            if st.out.len() == 0 {
                assert(parts =~= seq![seq!['.']]);
                assert(body == seq!['.']);
                assert(s0 == body);
                if pushed {
                    assert(r =~= seq!['.', '/']);
                    assert(r.len() >= 2 && r[0] == '.' && r[1] == '/');
                } else {
                    assert(r == seq!['.']);
                    assert(is_dot(r));
                }
            } else {
                assert(parts.len() >= 2);
                assert(parts.drop_first() =~= st.out);
                assert(body == parts[0] + seq!['/'] + join_comps(parts.drop_first()));
                assert(parts[0] =~= seq!['.']);
                assert(body[0] == '.' && body[1] == '/');
                assert(r[0] == '.' && r[1] == '/');
            }
        } else {
            if rooted {
                assert(is_rooted(r));
            } else if s0.len() == 0 {
                assert(!pushed);
                assert(r.len() == 0);
            } else {
                assert(parts == st.out);
                assert(parts.len() > 0);
                lemma_join_chars(parts);
                assert(good_seg(st.out[0]));
                assert(s0[0] == st.out[0][0]);
                assert(r[0] == s0[0]);
                if st.out[0][0] == '.' {
                    assert(!is_dot(st.out[0]));
                    assert(st.out[0].len() >= 2);
                    assert(s0[1] == st.out[0][1]);
                    assert(r[1] == s0[1]);
                    assert(r[1] != '/');
                    assert(r.len() >= s0.len() >= st.out[0].len() >= 2);
                    assert(!is_dot(r));
                } else {
                    assert(r[0] != '.');
                }
            }
        }
    }

    // The walk over the rendered string reproduces the state.
    assert(norm_state(r) == st) by {
        lemma_run_norm_self(st);
        assert(norm_state(r) == run_norm(
            (NormState { cur: st.cur, out: Seq::<Seq<char>>::empty() }),
            st.out,
        ));
    }

    // Rendering the reproduced state with the rendered trailing flag gives
    // the rendered string back.
    let trail2 = ends_with_slash(r);
    assert(normalize_spec(r) == render_path(rooted, st, trail2));
    if pushed {
        assert(r[r.len() - 1] == '/');
        assert(trail2);
        assert(render_path(rooted, st, trail2) == s0.push('/'));
    } else {
        assert(r == s0);
        if trail2 {
            assert(s0.len() > 0 && s0[s0.len() - 1] == '/');
            assert(render_path(rooted, st, trail2) == s0);
        } else {
            assert(render_path(rooted, st, trail2) == s0);
        }
    }
}

/// Law: normalization is idempotent — normalizing an already normalized
/// path changes nothing.
pub proof fn lemma_normalize_idempotent(s: Seq<char>)
    ensures
        normalize_spec(normalize_spec(s)) == normalize_spec(s),
{
    let st = norm_state(s);
    lemma_comps_good(s, 0);
    assert(norm_inv(NormState { cur: has_leading_cur_dir(s), out: Seq::empty() }));
    lemma_run_norm_inv(NormState { cur: has_leading_cur_dir(s), out: Seq::empty() }, comps(s));
    assert(norm_inv(st));
    assert(is_rooted(s) ==> !has_leading_cur_dir(s));
    assert(is_rooted(s) ==> !st.cur);
    lemma_render_normal(is_rooted(s), st, ends_with_slash(s));
}

} // verus!
