//! Include resolution: parsing the argument list of an `$include`
//! directive into weighted alternatives, choosing one of them, and the
//! recursive, depth-first splicing of included files into the text.
//!
//! An `$include` argument list is one of three shapes: a bare path, a
//! path with a vertical offset (`path : offset`), or one or more
//! weighted alternatives (`path ; weight ; path ; weight ; ...`). The
//! weighted shape is tried first and wins as soon as one
//! `path ; weight` pair parses; a directive that then fails to close
//! with a parenthesis is malformed as a whole.

use crate::text::{dec_val, is_digit, is_space, lemma_dec_val_prefix_general, parse_u64_digits,
    subvec, ws_end};
use crate::route::pat::kw_at;
use crate::text::{find_ws_end, space_char};
use vstd::prelude::*;

verus! {

/// One alternative parsed out of an `$include` directive: the referenced
/// path (trimmed), a vertical offset for downstream consumers, and a
/// weight that matters only when several alternatives are present.
#[derive(Debug, Clone)]
pub struct Include {
    pub file: String,
    pub offset: i64,
    pub weight: i64,
}

/// Mathematical image of an [`Include`].
pub ghost struct IncAlt {
    pub file: Seq<char>,
    pub offset: int,
    pub weight: int,
}

impl View for Include {
    type V = IncAlt;

    open spec fn view(&self) -> IncAlt {
        IncAlt { file: self.file@, offset: self.offset as int, weight: self.weight as int }
    }
}

/// The images of a list of alternatives.
pub open spec fn incs_v(alts: Seq<Include>) -> Seq<IncAlt> {
    alts.map_values(|a: Include| a@)
}

/// Weighted pairs as alternatives: offset zero, the number as weight.
pub open spec fn alts_of_pairs(pairs: Seq<(Seq<char>, int)>) -> Seq<IncAlt> {
    pairs.map_values(|p: (Seq<char>, int)| IncAlt { file: p.0, offset: 0, weight: p.1 })
}

/// End of a run of filename characters: anything but `;`, `:`,
/// parentheses and line breaks may appear in a path.
pub open spec fn fname_end(s: Seq<char>, i: int) -> int
    decreases s.len() - i,
{
    if i < 0 {
        0
    } else if i >= s.len() {
        s.len() as int
    } else if s[i] == ';' || s[i] == ':' || s[i] == '(' || s[i] == ')' || s[i] == '\n' {
        i
    } else {
        fname_end(s, i + 1)
    }
}

pub proof fn lemma_fname_end_bounds(s: Seq<char>, i: int)
    requires
        0 <= i <= s.len(),
    ensures
        i <= fname_end(s, i) <= s.len(),
    decreases s.len() - i,
{
    if i < s.len() && !(s[i] == ';' || s[i] == ':' || s[i] == '(' || s[i] == ')' || s[i]
        == '\n') {
        lemma_fname_end_bounds(s, i + 1);
    }
}

pub fn find_fname_end(s: &Vec<char>, i: usize) -> (r: usize)
    requires
        i <= s@.len(),
    ensures
        r == fname_end(s@, i as int),
        i <= r <= s@.len(),
{
    let mut j = i;
    while j < s.len()
        invariant
            i <= j <= s@.len(),
            fname_end(s@, i as int) == fname_end(s@, j as int),
        decreases s@.len() - j,
    {
        let c = s[j];
        if c == ';' || c == ':' || c == '(' || c == ')' || c == '\n' {
            return j;
        }
        j = j + 1;
    }
    j
}

/// End of a run of number-token characters: digits and minus signs.
pub open spec fn numtok_end(s: Seq<char>, i: int) -> int
    decreases s.len() - i,
{
    if i < 0 {
        0
    } else if i >= s.len() {
        s.len() as int
    } else if is_digit(s[i]) || s[i] == '-' {
        numtok_end(s, i + 1)
    } else {
        i
    }
}

pub proof fn lemma_numtok_end_bounds(s: Seq<char>, i: int)
    requires
        0 <= i <= s.len(),
    ensures
        i <= numtok_end(s, i) <= s.len(),
    decreases s.len() - i,
{
    if i < s.len() && (is_digit(s[i]) || s[i] == '-') {
        lemma_numtok_end_bounds(s, i + 1);
    }
}

pub fn find_numtok_end(s: &Vec<char>, i: usize) -> (r: usize)
    requires
        i <= s@.len(),
    ensures
        r == numtok_end(s@, i as int),
        i <= r <= s@.len(),
{
    let mut j = i;
    while j < s.len()
        invariant
            i <= j <= s@.len(),
            numtok_end(s@, i as int) == numtok_end(s@, j as int),
        decreases s@.len() - j,
    {
        if !(('0' <= s[j] && s[j] <= '9') || s[j] == '-') {
            return j;
        }
        j = j + 1;
    }
    j
}

/// Whether a number token parses as a signed 64-bit integer: an optional
/// leading minus sign, then digits, with the value in range.
pub open spec fn num_ok(t: Seq<char>) -> bool {
    if t.len() == 0 {
        false
    } else if t[0] == '-' {
        &&& t.len() >= 2
        &&& forall|k: int| 1 <= k < t.len() ==> is_digit(t[k])
        &&& dec_val(t.skip(1)) <= 0x8000000000000000
    } else {
        &&& forall|k: int| 0 <= k < t.len() ==> is_digit(t[k])
        &&& dec_val(t) <= i64::MAX
    }
}

pub open spec fn num_val(t: Seq<char>) -> int {
    if t.len() > 0 && t[0] == '-' {
        -(dec_val(t.skip(1)) as int)
    } else {
        dec_val(t) as int
    }
}

/// Parses the token `s[a..b]` as a signed 64-bit integer.
pub fn parse_i64_token(s: &Vec<char>, a: usize, b: usize) -> (r: Option<i64>)
    requires
        a <= b <= s@.len(),
    ensures
        ({
            let t = s@.subrange(a as int, b as int);
            match r {
                Some(v) => num_ok(t) && v as int == num_val(t),
                None => !num_ok(t),
            }
        }),
{
    let ghost t = s@.subrange(a as int, b as int);
    proof {
        assert(forall|j: int| 0 <= j < t.len() ==> t[j] == s@[a + j]);
    }
    if a == b {
        return None;
    }
    if s[a] == '-' {
        if b - a < 2 {
            return None;
        }
        let mut k = a + 1;
        while k < b
            invariant
                a + 1 <= k <= b <= s@.len(),
                forall|j: int| a + 1 <= j < k ==> is_digit(s@[j]),
            decreases b - k,
        {
            if !('0' <= s[k] && s[k] <= '9') {
                proof {
                    let u = s@.subrange(a as int, b as int);
                    assert(u[k - a] == s@[k as int]);
                }
                return None;
            }
            k = k + 1;
        }
        proof {
            assert(forall|j: int| 0 <= j < t.len() ==> t[j] == s@[a + j]);
            assert(t.skip(1) =~= s@.subrange(a as int + 1, b as int));
        }
        match parse_u64_digits(s, a + 1, b) {
            None => {
                proof {
                    assert(dec_val(t.skip(1)) > u64::MAX);
                }
                None
            },
            Some(v) => {
                if v > 0x8000000000000000 {
                    None
                } else if v == 0x8000000000000000 {
                    Some(i64::MIN)
                } else {
                    Some(-(v as i64))
                }
            },
        }
    } else {
        let mut k = a;
        while k < b
            invariant
                a <= k <= b <= s@.len(),
                s@[a as int] != '-',
                forall|j: int| a <= j < k ==> is_digit(s@[j]),
            decreases b - k,
        {
            if !('0' <= s[k] && s[k] <= '9') {
                proof {
                    let u = s@.subrange(a as int, b as int);
                    assert(u[k - a] == s@[k as int]);
                    assert(u[0] == s@[a as int]);
                }
                return None;
            }
            k = k + 1;
        }
        proof {
            assert(forall|j: int| 0 <= j < t.len() ==> t[j] == s@[a + j]);
        }
        proof {
            let u = s@.subrange(a as int, b as int);
            assert(u[0] == s@[a as int]);
            assert(forall|j: int| 0 <= j < u.len() ==> u[j] == s@[a + j]);
        }
        match parse_u64_digits(s, a, b) {
            None => None,
            Some(v) => {
                if v <= 9223372036854775807u64 {
                    Some(v as i64)
                } else {
                    None
                }
            },
        }
    }
}

/// Leading whitespace dropped.
pub open spec fn trim_front(u: Seq<char>) -> Seq<char>
    decreases u.len(),
{
    if u.len() > 0 && is_space(u[0]) {
        trim_front(u.drop_first())
    } else {
        u
    }
}

/// Trailing whitespace dropped.
pub open spec fn trim_back(u: Seq<char>) -> Seq<char>
    decreases u.len(),
{
    if u.len() > 0 && is_space(u.last()) {
        trim_back(u.drop_last())
    } else {
        u
    }
}

/// Whitespace dropped from both ends, as a path is trimmed.
pub open spec fn trimmed(u: Seq<char>) -> Seq<char> {
    trim_back(trim_front(u))
}

proof fn lemma_trim_front_skip(u: Seq<char>, k: int)
    requires
        0 <= k <= u.len(),
        forall|j: int| 0 <= j < k ==> is_space(u[j]),
        k < u.len() ==> !is_space(u[k]),
    ensures
        trim_front(u) == u.skip(k),
    decreases k,
{
    if k == 0 {
        assert(u.skip(0) =~= u);
    } else {
        assert(is_space(u[0]));
        let v = u.drop_first();
        assert(forall|j: int| 0 <= j < k - 1 ==> v[j] == u[j + 1]);
        lemma_trim_front_skip(v, k - 1);
        assert(v.skip(k - 1) =~= u.skip(k));
    }
}

proof fn lemma_trim_back_take(u: Seq<char>, k: int)
    requires
        0 <= k <= u.len(),
        forall|j: int| k <= j < u.len() ==> is_space(u[j]),
        k > 0 ==> !is_space(u[k - 1]),
    ensures
        trim_back(u) == u.take(k),
    decreases u.len() - k,
{
    if k == u.len() {
        assert(u.take(k) =~= u);
    } else {
        assert(is_space(u.last()));
        let v = u.drop_last();
        lemma_trim_back_take(v, k);
        assert(v.take(k) =~= u.take(k));
    }
}

/// Copies `s[a..b]` with surrounding whitespace dropped.
pub fn trimmed_range(s: &Vec<char>, a: usize, b: usize) -> (r: Vec<char>)
    requires
        a <= b <= s@.len(),
    ensures
        r@ == trimmed(s@.subrange(a as int, b as int)),
{
    let ghost u = s@.subrange(a as int, b as int);
    let mut l = a;
    while l < b && space_char(s[l])
        invariant
            a <= l <= b <= s@.len(),
            forall|j: int| a <= j < l ==> is_space(s@[j]),
        decreases b - l,
    {
        l = l + 1;
    }
    let mut rr = b;
    while rr > l && space_char(s[rr - 1])
        invariant
            l <= rr <= b <= s@.len(),
            forall|j: int| rr <= j < b ==> is_space(s@[j]),
        decreases rr,
    {
        rr = rr - 1;
    }
    let out = subvec(s, l, rr);
    proof {
        assert(forall|j: int| 0 <= j < u.len() ==> u[j] == s@[a + j]);
        lemma_trim_front_skip(u, l - a);
        let w = u.skip(l - a);
        assert(forall|j: int| 0 <= j < w.len() ==> w[j] == s@[l + j]);
        if rr == l {
            lemma_trim_back_take(w, 0);
        } else {
            lemma_trim_back_take(w, rr - l);
        }
        assert(out@ =~= w.take(rr - l));
    }
    out
}

} // verus!

use crate::route::errors::PreprocessingError;
use crate::text::{chars_vec, string_from_chars};
use vstd::prelude::*;

verus! {

/// One `path ; weight` pair of a weighted include, starting at `i`:
/// gives the trimmed path, the weight, and the position after the
/// weight's digits.
pub open spec fn pair_at(s: Seq<char>, i: int) -> Option<(Seq<char>, int, int)> {
    let e1 = fname_end(s, i);
    if e1 <= i {
        None
    } else {
        let s1 = ws_end(s, e1);
        if s1 < s.len() && s[s1] == ';' {
            let n0 = ws_end(s, s1 + 1);
            let n1 = numtok_end(s, n0);
            if n1 > n0 && num_ok(s.subrange(n0, n1)) {
                Some((trimmed(s.subrange(i, e1)), num_val(s.subrange(n0, n1)), n1))
            } else {
                None
            }
        } else {
            None
        }
    }
}

pub proof fn lemma_pair_at_bounds(s: Seq<char>, i: int)
    requires
        0 <= i <= s.len(),
        pair_at(s, i) is Some,
    ensures
        i < pair_at(s, i)->Some_0.2 <= s.len(),
{
    lemma_fname_end_bounds(s, i);
    let e1 = fname_end(s, i);
    crate::text::lemma_ws_end_bounds(s, e1);
    let s1 = ws_end(s, e1);
    crate::text::lemma_ws_end_bounds(s, s1 + 1);
    let n0 = ws_end(s, s1 + 1);
    lemma_numtok_end_bounds(s, n0);
}

/// The longest run of `path ; weight` pairs separated by semicolons,
/// starting at `i` where at least one pair stands; gives the pairs and
/// the position after the last one.
pub open spec fn pairs_from(s: Seq<char>, i: int) -> (Seq<(Seq<char>, int)>, int)
    decreases s.len() - i,
    via pairs_from_dec
{
    if !(0 <= i <= s.len()) {
        (Seq::empty(), i)
    } else {
        match pair_at(s, i) {
            None => (Seq::empty(), i),
            Some((f, n, end)) => {
                let k = ws_end(s, end);
                if k < s.len() && s[k] == ';' {
                    let nxt = ws_end(s, k + 1);
                    if pair_at(s, nxt) is Some {
                        let (rest, rend) = pairs_from(s, nxt);
                        (seq![(f, n)] + rest, rend)
                    } else {
                        (seq![(f, n)], end)
                    }
                } else {
                    (seq![(f, n)], end)
                }
            },
        }
    }
}

#[via_fn]
proof fn pairs_from_dec(s: Seq<char>, i: int) {
    if 0 <= i <= s.len() {
        if pair_at(s, i) is Some {
            lemma_pair_at_bounds(s, i);
            let end = pair_at(s, i)->Some_0.2;
            crate::text::lemma_ws_end_bounds(s, end);
            let k = ws_end(s, end);
            if k < s.len() && s[k] == ';' {
                crate::text::lemma_ws_end_bounds(s, k + 1);
            }
        }
    }
}

/// What an `$include` directive's text parses to: `None` when it is
/// malformed, otherwise the list of alternatives. The weighted shape is
/// committed to as soon as one `path ; weight` pair parses; failing
/// that, `path : offset` is tried, then a bare path; in every shape a
/// closing parenthesis must follow.
pub open spec fn parse_include_spec(t: Seq<char>) -> Option<Seq<IncAlt>> {
    let i0 = ws_end(t, 0);
    if !(i0 < t.len() && t[i0] == '$' && kw_at(
        t,
        i0 + 1,
        seq!['i', 'n', 'c', 'l', 'u', 'd', 'e'],
    )) {
        None
    } else {
        let i1 = ws_end(t, i0 + 8);
        if !(i1 < t.len() && t[i1] == '(') {
            None
        } else {
            let i2 = ws_end(t, i1 + 1);
            if pair_at(t, i2) is Some {
                let (pairs, pend) = pairs_from(t, i2);
                let c = ws_end(t, pend);
                if c < t.len() && t[c] == ')' {
                    Some(alts_of_pairs(pairs))
                } else {
                    None
                }
            } else {
                let e1 = fname_end(t, i2);
                if e1 <= i2 {
                    None
                } else {
                    let s1 = ws_end(t, e1);
                    if s1 < t.len() && t[s1] == ':' {
                        let n0 = ws_end(t, s1 + 1);
                        let n1 = numtok_end(t, n0);
                        if n1 > n0 && num_ok(t.subrange(n0, n1)) {
                            let c = ws_end(t, n1);
                            if c < t.len() && t[c] == ')' {
                                Some(
                                    seq![
                                        IncAlt {
                                            file: trimmed(t.subrange(i2, e1)),
                                            offset: num_val(t.subrange(n0, n1)),
                                            weight: 0,
                                        },
                                    ],
                                )
                            } else {
                                None
                            }
                        } else {
                            None
                        }
                    } else if s1 < t.len() && t[s1] == ')' {
                        Some(
                            seq![
                                IncAlt {
                                    file: trimmed(t.subrange(i2, e1)),
                                    offset: 0,
                                    weight: 0,
                                },
                            ],
                        )
                    } else {
                        None
                    }
                }
            }
        }
    }
}

/// Executable image of [`pair_at`].
fn pair_hit(s: &Vec<char>, i: usize) -> (r: Option<(Vec<char>, i64, usize)>)
    requires
        i <= s@.len(),
    ensures
        match r {
            Some((f, n, end)) => pair_at(s@, i as int) == Some(
                (f@, n as int, end as int),
            ) && i < end <= s@.len(),
            None => pair_at(s@, i as int) is None,
        },
{
    let e1 = find_fname_end(s, i);
    if e1 <= i {
        return None;
    }
    let s1 = find_ws_end(s, e1);
    if s1 >= s.len() || s[s1] != ';' {
        return None;
    }
    let n0 = find_ws_end(s, s1 + 1);
    let n1 = find_numtok_end(s, n0);
    if n1 <= n0 {
        return None;
    }
    match parse_i64_token(s, n0, n1) {
        None => None,
        Some(v) => {
            let f = trimmed_range(s, i, e1);
            Some((f, v, n1))
        },
    }
}

/// Parses the text of one `$include` directive (after its own `$rnd`
/// and `$chr` processing) into the list of alternatives; a directive
/// that does not fit the grammar is malformed as a whole.
pub fn parse_include(text: &str) -> (r: Result<Vec<Include>, PreprocessingError>)
    ensures
        match r {
            Ok(alts) => {
                &&& parse_include_spec(text@) is Some
                &&& incs_v(alts@) == parse_include_spec(text@)->Some_0
                &&& alts@.len() >= 1
            },
            Err(e) => parse_include_spec(text@) is None && e@ == (crate::route::errors::ErrV::Malformed { directive: text@ }),
        },
{
    let s = chars_vec(text);
    match parse_include_chars(&s) {
        Some(alts) => Ok(alts),
        None => Err(
            PreprocessingError::MalformedDirective { directive: string_from_chars(&s) },
        ),
    }
}

/// Collects the pairs of a weighted include, mirroring
/// [`pairs_from`].
fn pairs_collect(s: &Vec<char>, i: usize) -> (r: (Vec<Include>, usize))
    requires
        i <= s@.len(),
        pair_at(s@, i as int) is Some,
    ensures
        ({
            let (pairs, end) = pairs_from(s@, i as int);
            &&& incs_v(r.0@) == alts_of_pairs(pairs)
            &&& r.1 == end
            &&& r.0@.len() >= 1
            &&& i < r.1 <= s@.len()
        }),
    decreases s@.len() - i,
{
    let hit = pair_hit(s, i);
    let (f, n, end) = match hit {
        Some(p) => p,
        None => {
            proof {
                assert(false);
            }
            (Vec::new(), 0, 0)
        },
    };
    let first = Include { file: string_from_chars(&f), offset: 0, weight: n };
    let k = find_ws_end(s, end);
    if k < s.len() && s[k] == ';' {
        let nxt = find_ws_end(s, k + 1);
        match pair_hit(s, nxt) {
            Some(_) => {
                let (mut rest, rend) = pairs_collect(s, nxt);
                let ghost restv = rest@;
                let mut v: Vec<Include> = Vec::new();
                v.push(first);
                v.append(&mut rest);
                proof {
                    let (pairs, e) = pairs_from(s@, i as int);
                    assert(v@ =~= seq![first] + restv);
                    assert(pairs =~= seq![(f@, n as int)] + pairs_from(s@, nxt as int).0);
                    assert(incs_v(restv) == alts_of_pairs(pairs_from(s@, nxt as int).0));
                    assert(incs_v(restv).len() == restv.len());
                    assert(alts_of_pairs(pairs_from(s@, nxt as int).0).len() == pairs_from(
                        s@,
                        nxt as int,
                    ).0.len());
                    assert(restv.len() == pairs_from(s@, nxt as int).0.len());
                    assert(v@.len() == 1 + restv.len());
                    assert(pairs.len() == 1 + pairs_from(s@, nxt as int).0.len());
                    assert(first@ == (IncAlt { file: f@, offset: 0, weight: n as int }));
                    assert forall|ii: int| 0 <= ii < v@.len() implies incs_v(v@)[ii]
                        == alts_of_pairs(pairs)[ii] by {
                        if ii > 0 {
                            assert(incs_v(v@)[ii] == v@[ii]@);
                            assert(v@[ii] == restv[ii - 1]);
                            assert(incs_v(restv)[ii - 1] == restv[ii - 1]@);
                            assert(alts_of_pairs(pairs_from(s@, nxt as int).0)[ii - 1]
                                == incs_v(restv)[ii - 1]);
                        }
                    }
                    assert(incs_v(v@).len() == alts_of_pairs(pairs).len());
                    assert(incs_v(v@) =~= alts_of_pairs(pairs));
                }
                (v, rend)
            },
            None => {
                let mut v: Vec<Include> = Vec::new();
                v.push(first);
                proof {
                    let (pairs, e) = pairs_from(s@, i as int);
                    assert(incs_v(v@) =~= alts_of_pairs(pairs));
                }
                (v, end)
            },
        }
    } else {
        let mut v: Vec<Include> = Vec::new();
        v.push(first);
        proof {
            let (pairs, e) = pairs_from(s@, i as int);
            assert(incs_v(v@) =~= alts_of_pairs(pairs));
        }
        (v, end)
    }
}

/// Executable image of [`parse_include_spec`].
pub fn parse_include_chars(s: &Vec<char>) -> (r: Option<Vec<Include>>)
    ensures
        match r {
            Some(alts) => {
                &&& parse_include_spec(s@) is Some
                &&& incs_v(alts@) == parse_include_spec(s@)->Some_0
                &&& alts@.len() >= 1
            },
            None => parse_include_spec(s@) is None,
        },
{
    let i0 = find_ws_end(s, 0);
    if i0 >= s.len() || s[i0] != '$' || !crate::route::pat::kw_check(
        s,
        i0 + 1,
        &['i', 'n', 'c', 'l', 'u', 'd', 'e'],
    ) {
        return None;
    }
    let i1 = find_ws_end(s, i0 + 8);
    if i1 >= s.len() || s[i1] != '(' {
        return None;
    }
    let i2 = find_ws_end(s, i1 + 1);
    match pair_hit(s, i2) {
        Some(_) => {
            let (alts, pend) = pairs_collect(s, i2);
            let c = find_ws_end(s, pend);
            if c < s.len() && s[c] == ')' {
                proof {
                    let (pairs, fullend) = pairs_from(s@, i2 as int);
                    assert(incs_v(alts@) =~= alts_of_pairs(pairs));
                }
                Some(alts)
            } else {
                None
            }
        },
        None => {
            let e1 = find_fname_end(s, i2);
            if e1 <= i2 {
                return None;
            }
            let s1 = find_ws_end(s, e1);
            if s1 < s.len() && s[s1] == ':' {
                let n0 = find_ws_end(s, s1 + 1);
                let n1 = find_numtok_end(s, n0);
                if n1 <= n0 {
                    return None;
                }
                match parse_i64_token(s, n0, n1) {
                    None => None,
                    Some(v) => {
                        let c = find_ws_end(s, n1);
                        if c < s.len() && s[c] == ')' {
                            let f = trimmed_range(s, i2, e1);
                            let mut alts: Vec<Include> = Vec::new();
                            alts.push(
                                Include { file: string_from_chars(&f), offset: v, weight: 0 },
                            );
                            proof {
                                assert(incs_v(alts@)
                                    =~= parse_include_spec(s@)->Some_0);
                            }
                            Some(alts)
                        } else {
                            None
                        }
                    },
                }
            } else if s1 < s.len() && s[s1] == ')' {
                let f = trimmed_range(s, i2, e1);
                let mut alts: Vec<Include> = Vec::new();
                alts.push(Include { file: string_from_chars(&f), offset: 0, weight: 0 });
                proof {
                    assert(incs_v(alts@) =~= parse_include_spec(s@)->Some_0);
                }
                Some(alts)
            } else {
                None
            }
        },
    }
}

} // verus!

use crate::random::{prefix_sums_fit, sample_weighted, sum_prefix, weights_valid};
use crate::route::errors::ErrV;

verus! {

impl Include {
    /// A copy with the same path, offset and weight.
    pub fn duplicate(&self) -> (r: Include)
        ensures
            r@ == self@,
    {
        Include { file: self.file.clone(), offset: self.offset, weight: self.weight }
    }
}

/// The weights of a list of alternatives.
pub open spec fn inc_weights(incs: Seq<Include>) -> Seq<i64> {
    incs.map_values(|inc: Include| inc.weight)
}

/// Whether a weight list can drive a weighted draw: at least one entry,
/// none negative, and a total that is positive and representable.
pub open spec fn sampleable(ws: Seq<i64>) -> bool {
    &&& ws.len() > 0
    &&& forall|k: int| 0 <= k < ws.len() ==> ws[k] >= 0
    &&& 0 < sum_prefix(ws, ws.len() as int) <= i64::MAX
}

proof fn lemma_sum_prefix_mono(ws: Seq<i64>, p: int, q: int)
    requires
        0 <= p <= q <= ws.len(),
        forall|j: int| 0 <= j < q ==> ws[j] >= 0,
    ensures
        sum_prefix(ws, p) <= sum_prefix(ws, q),
    decreases q - p,
{
    if p < q {
        lemma_sum_prefix_mono(ws, p, q - 1);
    }
}

/// Picks one alternative. A single alternative is taken as it stands,
/// without consulting the generator, whatever its weight; several
/// alternatives are drawn by weight, and a list whose weights form no
/// distribution — empty, a negative entry, a zero total, or a total
/// beyond `i64` — yields the random-include diagnostic instead.
#[verifier::loop_isolation(false)]
pub fn choose_include(
    includes: &Vec<Include>,
    rng: &mut rand::rngs::StdRng,
) -> (r: Result<Include, PreprocessingError>)
    ensures
        includes@.len() == 1 ==> r is Ok && r->Ok_0@ == includes@[0]@,
        r is Ok ==> exists|k: int|
            0 <= k < includes@.len() && r->Ok_0@ == #[trigger] includes@[k]@ && (includes@.len()
                != 1 ==> includes@[k].weight > 0),
        includes@.len() != 1 ==> (r is Err <==> !sampleable(inc_weights(includes@))),
        r is Err ==> r->Err_0@ == (ErrV::RandomInclude { weights: inc_weights(includes@) }),
{
    let n = includes.len();
    if n == 1 {
        proof {
            assert(includes@[0]@ == includes@[0]@);
        }
        return Ok(includes[0].duplicate());
    }
    let mut ws: Vec<i64> = Vec::new();
    let mut k: usize = 0;
    while k < n
        invariant
            k <= n == includes@.len(),
            ws@.len() == k,
            forall|j: int| 0 <= j < k ==> ws@[j] == includes@[j].weight,
        decreases n - k,
    {
        ws.push(includes[k].weight);
        k = k + 1;
    }
    proof {
        assert(ws@ =~= inc_weights(includes@));
    }
    // The weighted-index constructor sums the weights with plain
    // addition, stopping at the first negative entry; make sure those
    // partial sums cannot overflow before handing the list over.
    let mut acc: i64 = 0;
    let mut idx: usize = 0;
    let mut neg = false;
    while idx < n && !neg
        invariant
            idx <= n == ws@.len(),
            !neg ==> forall|j: int| 0 <= j < idx ==> ws@[j] >= 0,
            !neg ==> acc == sum_prefix(ws@, idx as int),
            neg ==> idx >= 1 && idx <= n && ws@[idx - 1] < 0 && acc == sum_prefix(
                ws@,
                idx - 1,
            ) && (forall|j: int| 0 <= j < idx - 1 ==> ws@[j] >= 0),
            0 <= acc,
        decreases n - idx,
    {
        let w = ws[idx];
        if w < 0 {
            neg = true;
        } else {
            if acc > i64::MAX - w {
                // A partial sum would overflow: the weights cannot form
                // a distribution.
                proof {
                    assert(sum_prefix(ws@, idx as int + 1) == acc + w > i64::MAX);
                    if forall|j: int| 0 <= j < ws@.len() ==> ws@[j] >= 0 {
                        lemma_sum_prefix_mono(ws@, idx as int + 1, ws@.len() as int);
                        assert(!sampleable(ws@));
                    } else {
                        assert(!sampleable(ws@));
                    }
                }
                return Err(PreprocessingError::RandomIncludeError { weights: ws });
            }
            acc = acc + w;
            proof {
                assert(sum_prefix(ws@, idx as int + 1) == sum_prefix(ws@, idx as int)
                    + ws@[idx as int]);
            }
        }
        idx = idx + 1;
    }
    proof {
        assert forall|p: int|
            0 <= p <= ws@.len() && (forall|j: int| 0 <= j < p ==> ws@[j] >= 0) implies sum_prefix(
            ws@,
            p,
        ) <= i64::MAX by {
            if neg {
                let bad = idx as int - 1;
                if p <= bad {
                    lemma_sum_prefix_mono(ws@, p, bad);
                    assert(sum_prefix(ws@, bad) == acc);
                } else {
                    assert(ws@[bad] < 0);
                }
            } else {
                lemma_sum_prefix_mono(ws@, p, ws@.len() as int);
            }
        }
        assert(prefix_sums_fit(ws@));
    }
    match sample_weighted(&ws, rng) {
        Ok(i) => {
            proof {
                assert(weights_valid(ws@));
                assert(sampleable(ws@));
                assert(includes@[i as int]@ == includes@[i as int]@);
            }
            Ok(includes[i].duplicate())
        },
        Err(_) => {
            proof {
                assert(!weights_valid(ws@));
                assert(!sampleable(ws@));
            }
            Err(PreprocessingError::RandomIncludeError { weights: ws })
        },
    }
}

} // verus!

use crate::route::errors::{errs_v, push_err, RouteError};
use crate::route::pat::{inc_find, lemma_inc_find_props, lemma_inc_match_bounds, IncM};
use crate::route::passes::{chr_out, chr_rewrite, rnd_holds, rnd_pass, rnd_rewrite};
use crate::text::{dec_str_i64, extend_all, push_dec_i64, subvec as subvec_chars};

verus! {

/// How deep include resolution will follow nested files before giving
/// up on a chain and reporting its innermost file as unresolvable.
pub const INCLUDE_DEPTH_LIMIT: u64 = 4096;

/// The table of loadable files as the specification sees it.
pub open spec fn table_v(t: Seq<(String, String)>) -> Seq<(Seq<char>, Seq<char>)> {
    t.map_values(|e: (String, String)| (e.0@, e.1@))
}

/// First table entry whose path equals `f`, searching from `i`.
pub open spec fn tbl_find(t: Seq<(Seq<char>, Seq<char>)>, f: Seq<char>, i: int) -> Option<int>
    decreases t.len() - i,
{
    if i < 0 || i >= t.len() {
        None
    } else if t[i].0 == f {
        Some(i)
    } else {
        tbl_find(t, f, i + 1)
    }
}

pub proof fn lemma_tbl_find_props(t: Seq<(Seq<char>, Seq<char>)>, f: Seq<char>, i: int)
    requires
        0 <= i,
        tbl_find(t, f, i) is Some,
    ensures
        i <= tbl_find(t, f, i)->Some_0 < t.len(),
    decreases t.len() - i,
{
    if i < t.len() && t[i].0 != f {
        lemma_tbl_find_props(t, f, i + 1);
    }
}

/// Looks `name` up in the file table.
fn tbl_lookup(files: &Vec<(String, String)>, name: &String) -> (r: Option<usize>)
    ensures
        match r {
            Some(idx) => tbl_find(table_v(files@), name@, 0) == Some(idx as int) && idx
                < files@.len(),
            None => tbl_find(table_v(files@), name@, 0) is None,
        },
{
    let mut t: usize = 0;
    while t < files.len()
        invariant
            t <= files@.len(),
            tbl_find(table_v(files@), name@, 0) == tbl_find(table_v(files@), name@, t as int),
        decreases files@.len() - t,
    {
        if files[t].0 == *name {
            return Some(t);
        }
        t = t + 1;
    }
    None
}

/// Sum of the first `p` weights of an alternative list.
pub open spec fn alt_sum(alts: Seq<IncAlt>, p: int) -> int
    decreases p,
{
    if p <= 0 {
        0
    } else if p > alts.len() {
        alt_sum(alts, alts.len() as int)
    } else {
        alt_sum(alts, p - 1) + alts[p - 1].weight
    }
}

/// Whether the weights of an alternative list can drive a weighted
/// draw.
pub open spec fn alts_sampleable(alts: Seq<IncAlt>) -> bool {
    &&& alts.len() > 0
    &&& forall|k: int| 0 <= k < alts.len() ==> alts[k].weight >= 0
    &&& 0 < alt_sum(alts, alts.len() as int) <= i64::MAX
}

/// The weights of an alternative list, as machine integers.
pub open spec fn alt_weights(alts: Seq<IncAlt>) -> Seq<i64> {
    alts.map_values(|a: IncAlt| a.weight as i64)
}

proof fn lemma_sum_agree(incs: Seq<Include>, p: int)
    requires
        0 <= p <= incs.len(),
    ensures
        sum_prefix(inc_weights(incs), p) == alt_sum(incs_v(incs), p),
    decreases p,
{
    assert(inc_weights(incs).len() == incs.len());
    assert(incs_v(incs).len() == incs.len());
    if p > 0 {
        lemma_sum_agree(incs, p - 1);
        assert(inc_weights(incs)[p - 1] == incs[p - 1].weight);
        assert(incs_v(incs)[p - 1] == incs[p - 1]@);
    }
}

/// The two sampleability notions agree for a parsed alternative list.
proof fn lemma_sampleable_agree(incs: Seq<Include>)
    ensures
        sampleable(inc_weights(incs)) == alts_sampleable(incs_v(incs)),
        inc_weights(incs) == alt_weights(incs_v(incs)),
{
    assert(inc_weights(incs).len() == incs.len());
    assert(incs_v(incs).len() == incs.len());
    lemma_sum_agree(incs, incs.len() as int);
    assert(forall|k: int|
        0 <= k < incs.len() ==> inc_weights(incs)[k] == incs[k].weight && (#[trigger] incs_v(
            incs,
        )[k]).weight == incs[k].weight as int);
    assert(inc_weights(incs) =~= alt_weights(incs_v(incs)));
}

/// The opening marker spliced before an included file's text.
pub open spec fn open_marker(off: int) -> Seq<char> {
    seq!['\n', '%', 'O'] + dec_str_i64(off) + seq!['%', '\n']
}

/// The closing marker spliced after an included file's text.
pub open spec fn close_marker(off: int) -> Seq<char> {
    seq!['\n', '%', 'O', '-'] + dec_str_i64(off) + seq!['%', '\n']
}

/// Result of modelling include resolution: the rewritten text, the
/// diagnostics, the `$rnd` draws and weighted picks consumed, and
/// whether those oracles are consistent with the scan.
pub ghost struct IncP {
    pub out: Seq<char>,
    pub errs: Seq<ErrV>,
    pub used: nat,
    pub usedw: nat,
    pub ok: bool,
}

/// Include resolution over `s[i..]` against the file table `tbl`, with
/// `fuel` limiting the nesting depth, `ch` the `$rnd` draws and `cw`
/// the weighted picks. Each directive's own text first receives the
/// `$rnd` and `$chr` passes, is then parsed into alternatives, one
/// alternative is chosen (the sole one directly, else by weight), the
/// referenced file is looked up, its contents are resolved recursively
/// (depth-first), and the result is spliced in between offset markers.
/// Any failure along the way elides the directive with a diagnostic and
/// the scan continues after it.
pub open spec fn inc_scan(
    s: Seq<char>,
    i: int,
    tbl: Seq<(Seq<char>, Seq<char>)>,
    fuel: nat,
    ch: Seq<u64>,
    cw: Seq<int>,
) -> IncP
    decreases fuel, s.len() - i,
    via inc_scan_dec
{
    if !(0 <= i <= s.len()) {
        IncP { out: Seq::empty(), errs: Seq::empty(), used: 0, usedw: 0, ok: false }
    } else {
        match inc_find(s, i) {
            None => IncP {
                out: s.subrange(i, s.len() as int),
                errs: Seq::empty(),
                used: 0,
                usedw: 0,
                ok: true,
            },
            Some((j, m)) => {
                let pre = s.subrange(i, j);
                let rp = rnd_pass(s.subrange(j, m.end), 0, ch);
                let dir = chr_out(rp.out, 0);
                let cha = ch.skip(rp.used as int);
                match parse_include_spec(dir) {
                    None => {
                        let rest = inc_scan(s, m.end, tbl, fuel, cha, cw);
                        IncP {
                            out: pre + rest.out,
                            errs: rp.errs + seq![ErrV::Malformed { directive: dir }] + rest.errs,
                            used: rp.used + rest.used,
                            usedw: rest.usedw,
                            ok: rp.ok && rest.ok,
                        }
                    },
                    Some(alts) => {
                        if alts.len() != 1 && !alts_sampleable(alts) {
                            let rest = inc_scan(s, m.end, tbl, fuel, cha, cw);
                            IncP {
                                out: pre + rest.out,
                                errs: rp.errs + seq![
                                    ErrV::RandomInclude { weights: alt_weights(alts) },
                                ] + rest.errs,
                                used: rp.used + rest.used,
                                usedw: rest.usedw,
                                ok: rp.ok && rest.ok,
                            }
                        } else {
                            let one = alts.len() == 1;
                            let pick = if one {
                                0
                            } else {
                                cw[0]
                            };
                            let pick_ok = one || (cw.len() > 0 && 0 <= cw[0] < alts.len()
                                && alts[cw[0]].weight > 0);
                            let cwa = if one {
                                cw
                            } else {
                                cw.skip(1)
                            };
                            let chosen = if 0 <= pick < alts.len() {
                                alts[pick]
                            } else {
                                alts[0]
                            };
                            match tbl_find(tbl, chosen.file, 0) {
                                None => {
                                    let rest = inc_scan(s, m.end, tbl, fuel, cha, cwa);
                                    IncP {
                                        out: pre + rest.out,
                                        errs: rp.errs + seq![
                                            ErrV::NotFound { file: chosen.file },
                                        ] + rest.errs,
                                        used: rp.used + rest.used,
                                        usedw: (if one { 0nat } else { 1nat }) + rest.usedw,
                                        ok: rp.ok && pick_ok && rest.ok,
                                    }
                                },
                                Some(idx) => {
                                    if fuel == 0 {
                                        let rest = inc_scan(s, m.end, tbl, fuel, cha, cwa);
                                        IncP {
                                            out: pre + rest.out,
                                            errs: rp.errs + seq![
                                                ErrV::NotFound { file: chosen.file },
                                            ] + rest.errs,
                                            used: rp.used + rest.used,
                                            usedw: (if one { 0nat } else { 1nat }) + rest.usedw,
                                            ok: rp.ok && pick_ok && rest.ok,
                                        }
                                    } else {
                                        let child = inc_scan(
                                            tbl[idx].1,
                                            0,
                                            tbl,
                                            (fuel - 1) as nat,
                                            cha,
                                            cwa,
                                        );
                                        let rest = inc_scan(
                                            s,
                                            m.end,
                                            tbl,
                                            fuel,
                                            cha.skip(child.used as int),
                                            cwa.skip(child.usedw as int),
                                        );
                                        IncP {
                                            out: pre + open_marker(chosen.offset) + child.out
                                                + close_marker(chosen.offset) + rest.out,
                                            errs: rp.errs + child.errs + rest.errs,
                                            used: rp.used + child.used + rest.used,
                                            usedw: (if one { 0nat } else { 1nat }) + child.usedw
                                                + rest.usedw,
                                            ok: rp.ok && pick_ok && child.ok && rest.ok,
                                        }
                                    }
                                },
                            }
                        }
                    },
                }
            },
        }
    }
}

#[via_fn]
proof fn inc_scan_dec(
    s: Seq<char>,
    i: int,
    tbl: Seq<(Seq<char>, Seq<char>)>,
    fuel: nat,
    ch: Seq<u64>,
    cw: Seq<int>,
) {
    if 0 <= i <= s.len() {
        if inc_find(s, i) is Some {
            lemma_inc_find_props(s, i);
            let (j, m) = inc_find(s, i)->Some_0;
            lemma_inc_match_bounds(s, j);
        }
    }
}

} // verus!

verus! {

/// Appends the opening offset marker.
fn push_open_marker(out: &mut Vec<char>, off: i64)
    ensures
        final(out)@ == old(out)@ + open_marker(off as int),
{
    out.push('\n');
    out.push('%');
    out.push('O');
    push_dec_i64(out, off);
    out.push('%');
    out.push('\n');
    proof {
        assert(final(out)@ =~= old(out)@ + open_marker(off as int));
    }
}

/// Appends the closing offset marker.
fn push_close_marker(out: &mut Vec<char>, off: i64)
    ensures
        final(out)@ == old(out)@ + close_marker(off as int),
{
    out.push('\n');
    out.push('%');
    out.push('O');
    out.push('-');
    push_dec_i64(out, off);
    out.push('%');
    out.push('\n');
    proof {
        assert(final(out)@ =~= old(out)@ + close_marker(off as int));
    }
}

/// What include resolution guarantees, for any extension of the two
/// oracles.
pub open spec fn inc_holds(
    s: Seq<char>,
    from: int,
    tbl: Seq<(Seq<char>, Seq<char>)>,
    fuel: nat,
    ch: Seq<u64>,
    cw: Seq<int>,
    out: Seq<char>,
    errs0: Seq<ErrV>,
    errs1: Seq<ErrV>,
) -> bool {
    forall|e1: Seq<u64>, e2: Seq<int>|
        {
            let p = #[trigger] inc_scan(s, from, tbl, fuel, ch + e1, cw + e2);
            &&& p.ok
            &&& out == p.out
            &&& p.used == ch.len()
            &&& p.usedw == cw.len()
            &&& errs1 == errs0 + p.errs
        }
}

} // verus!

verus! {

/// A directive whose processed text fails to parse, or whose chosen
/// file cannot be found, is elided with one diagnostic and the scan
/// continues after it; this lemma assembles the scan's guarantee for
/// such an arm from the pieces.
#[verifier::spinoff_prover]
#[verifier::rlimit(100)]
proof fn lemma_inc_arm_skip(
    s: Seq<char>,
    from: int,
    j: int,
    end: int,
    tbl: Seq<(Seq<char>, Seq<char>)>,
    fuel: nat,
    chd: Seq<u64>,
    che: Seq<u64>,
    cwe: Seq<int>,
    pickseq: Seq<int>,
    dirv: Seq<char>,
    err: ErrV,
    rest_out: Seq<char>,
    out: Seq<char>,
    errs0: Seq<ErrV>,
    errs1: Seq<ErrV>,
    errs2: Seq<ErrV>,
)
    requires
        0 <= from <= j,
        inc_find(s, from) == Some((j, IncM { end })),
        rnd_holds(s.subrange(j, end), 0, chd, dirv, errs0, errs1),
        ({
            let dir = chr_out(dirv, 0);
            let alts_opt = parse_include_spec(dir);
            match alts_opt {
                None => err == (ErrV::Malformed { directive: dir }) && pickseq
                    == Seq::<int>::empty(),
                Some(alts) => {
                    if alts.len() != 1 && !alts_sampleable(alts) {
                        err == (ErrV::RandomInclude { weights: alt_weights(alts) }) && pickseq
                            == Seq::<int>::empty()
                    } else {
                        exists|k: int|
                            {
                                &&& 0 <= k < alts.len()
                                &&& (alts.len() == 1 ==> k == 0)
                                &&& (alts.len() != 1 ==> #[trigger] alts[k].weight > 0)
                                &&& pickseq == (if alts.len() == 1 {
                                    Seq::<int>::empty()
                                } else {
                                    seq![k]
                                })
                                &&& err == (ErrV::NotFound { file: alts[k].file })
                                &&& (tbl_find(tbl, alts[k].file, 0) is None || fuel == 0)
                            }
                    }
                },
            }
        }),
        inc_holds(s, end, tbl, fuel, che, cwe, rest_out, errs1.push(err), errs2),
        out == s.subrange(from, j) + rest_out,
    ensures
        inc_holds(s, from, tbl, fuel, chd + che, pickseq + cwe, out, errs0, errs2),
{
    lemma_inc_find_props(s, from);
    lemma_inc_match_bounds(s, j);
    let dirtext = s.subrange(j, end);
    let dir = chr_out(dirv, 0);
    assert forall|e1: Seq<u64>, e2: Seq<int>| {
        let p = #[trigger] inc_scan(s, from, tbl, fuel, (chd + che) + e1, (pickseq + cwe) + e2);
        &&& p.ok
        &&& out == p.out
        &&& p.used == (chd + che).len()
        &&& p.usedw == (pickseq + cwe).len()
        &&& errs2 == errs0 + p.errs
    } by {
        assert((chd + che) + e1 =~= chd + (che + e1));
        let rp = rnd_pass(dirtext, 0, chd + (che + e1));
        assert(rp.ok && dirv == rp.out && rp.used == chd.len());
        assert(((chd + che) + e1).skip(rp.used as int) =~= che + e1);
        let pr = inc_scan(s, end, tbl, fuel, che + e1, cwe + e2);
        assert(pr.ok && rest_out == pr.out && pr.used == che.len() && pr.usedw == cwe.len());
        match parse_include_spec(dir) {
            None => {
                assert((pickseq + cwe) + e2 =~= cwe + e2);
                assert(out =~= s.subrange(from, j) + pr.out);
                assert(errs2 =~= errs0 + (rp.errs + seq![err] + pr.errs));
            },
            Some(alts) => {
                if alts.len() != 1 && !alts_sampleable(alts) {
                    assert((pickseq + cwe) + e2 =~= cwe + e2);
                    assert(out =~= s.subrange(from, j) + pr.out);
                    assert(errs2 =~= errs0 + (rp.errs + seq![err] + pr.errs));
                } else {
                    let k = choose|k: int|
                        {
                            &&& 0 <= k < alts.len()
                            &&& (alts.len() == 1 ==> k == 0)
                            &&& (alts.len() != 1 ==> #[trigger] alts[k].weight > 0)
                            &&& pickseq == (if alts.len() == 1 {
                                Seq::<int>::empty()
                            } else {
                                seq![k]
                            })
                            &&& err == (ErrV::NotFound { file: alts[k].file })
                            &&& (tbl_find(tbl, alts[k].file, 0) is None || fuel == 0)
                        };
                    if alts.len() == 1 {
                        assert((pickseq + cwe) + e2 =~= cwe + e2);
                    } else {
                        assert(((pickseq + cwe) + e2)[0] == k);
                        assert(((pickseq + cwe) + e2).skip(1) =~= cwe + e2);
                    }
                    assert(out =~= s.subrange(from, j) + pr.out);
                    assert(errs2 =~= errs0 + (rp.errs + seq![err] + pr.errs));
                }
            },
        }
    }
}

/// Assembles the scan's guarantee for a resolved include: the child's
/// processed text is spliced in between offset markers and the scan
/// continues after the directive.
#[verifier::spinoff_prover]
#[verifier::rlimit(100)]
proof fn lemma_inc_arm_splice(
    s: Seq<char>,
    from: int,
    j: int,
    end: int,
    tbl: Seq<(Seq<char>, Seq<char>)>,
    fuel: nat,
    chd: Seq<u64>,
    chc: Seq<u64>,
    che: Seq<u64>,
    cwc: Seq<int>,
    cwe: Seq<int>,
    pickseq: Seq<int>,
    dirv: Seq<char>,
    k: int,
    idx: int,
    child_out: Seq<char>,
    rest_out: Seq<char>,
    out: Seq<char>,
    errs0: Seq<ErrV>,
    errs1: Seq<ErrV>,
    errs2: Seq<ErrV>,
    errs3: Seq<ErrV>,
)
    requires
        0 <= from <= j,
        inc_find(s, from) == Some((j, IncM { end })),
        rnd_holds(s.subrange(j, end), 0, chd, dirv, errs0, errs1),
        fuel >= 1,
        ({
            let dir = chr_out(dirv, 0);
            match parse_include_spec(dir) {
                Some(alts) => {
                    &&& 0 <= k < alts.len()
                    &&& (alts.len() == 1 ==> k == 0)
                    &&& (alts.len() != 1 ==> alts_sampleable(alts) && alts[k].weight > 0)
                    &&& pickseq == (if alts.len() == 1 {
                        Seq::<int>::empty()
                    } else {
                        seq![k]
                    })
                    &&& tbl_find(tbl, alts[k].file, 0) == Some(idx)
                    &&& 0 <= idx < tbl.len()
                    &&& inc_holds(
                        tbl[idx].1,
                        0,
                        tbl,
                        (fuel - 1) as nat,
                        chc,
                        cwc,
                        child_out,
                        errs1,
                        errs2,
                    )
                    &&& out == s.subrange(from, j) + open_marker(alts[k].offset) + child_out
                        + close_marker(alts[k].offset) + rest_out
                },
                None => false,
            }
        }),
        inc_holds(s, end, tbl, fuel, che, cwe, rest_out, errs2, errs3),
    ensures
        inc_holds(
            s,
            from,
            tbl,
            fuel,
            chd + (chc + che),
            pickseq + (cwc + cwe),
            out,
            errs0,
            errs3,
        ),
{
    lemma_inc_find_props(s, from);
    lemma_inc_match_bounds(s, j);
    let dirtext = s.subrange(j, end);
    let dir = chr_out(dirv, 0);
    let alts = parse_include_spec(dir)->Some_0;
    let ch = chd + (chc + che);
    let cw = pickseq + (cwc + cwe);
    assert forall|e1: Seq<u64>, e2: Seq<int>| {
        let p = #[trigger] inc_scan(s, from, tbl, fuel, ch + e1, cw + e2);
        &&& p.ok
        &&& out == p.out
        &&& p.used == ch.len()
        &&& p.usedw == cw.len()
        &&& errs3 == errs0 + p.errs
    } by {
        assert(ch + e1 =~= chd + (chc + (che + e1)));
        let rp = rnd_pass(dirtext, 0, chd + (chc + (che + e1)));
        assert(rp.ok && dirv == rp.out && rp.used == chd.len());
        assert((ch + e1).skip(rp.used as int) =~= chc + (che + e1));
        assert(cw + e2 =~= pickseq + (cwc + (cwe + e2)));
        if alts.len() != 1 {
            assert((cw + e2)[0] == k);
            assert((cw + e2).skip(1) =~= cwc + (cwe + e2));
        } else {
            assert(cw + e2 =~= cwc + (cwe + e2));
        }
        let cp = inc_scan(tbl[idx].1, 0, tbl, (fuel - 1) as nat, chc + (che + e1), cwc + (cwe
            + e2));
        assert(cp.ok && child_out == cp.out && cp.used == chc.len() && cp.usedw == cwc.len());
        assert((chc + (che + e1)).skip(cp.used as int) =~= che + e1);
        assert((cwc + (cwe + e2)).skip(cp.usedw as int) =~= cwe + e2);
        let pr = inc_scan(s, end, tbl, fuel, che + e1, cwe + e2);
        assert(pr.ok && rest_out == pr.out && pr.used == che.len() && pr.usedw == cwe.len());
        assert(out =~= s.subrange(from, j) + open_marker(alts[k].offset) + cp.out + close_marker(
            alts[k].offset,
        ) + pr.out);
        assert(errs3 =~= errs0 + (rp.errs + cp.errs + pr.errs));
    }
}

} // verus!

verus! {

/// Include resolution, on a character vector.
#[verifier::spinoff_prover]
#[verifier::rlimit(100)]
fn inc_rewrite(
    s: &Vec<char>,
    from: usize,
    fuel: u64,
    files: &Vec<(String, String)>,
    errors: &mut Vec<RouteError>,
    rng: &mut rand::rngs::StdRng,
) -> (r: (Vec<char>, Ghost<Seq<u64>>, Ghost<Seq<int>>))
    requires
        from <= s@.len(),
    ensures
        inc_holds(
            s@,
            from as int,
            table_v(files@),
            fuel as nat,
            r.1@,
            r.2@,
            r.0@,
            errs_v(old(errors)@),
            errs_v(final(errors)@),
        ),
    decreases fuel, s@.len() - from,
{
    let ghost tbl = table_v(files@);
    match crate::route::pat::find_inc(s, from) {
        None => {
            let out = subvec_chars(s, from, s.len());
            proof {
                assert forall|e1: Seq<u64>, e2: Seq<int>| {
                    let p = #[trigger] inc_scan(
                        s@,
                        from as int,
                        tbl,
                        fuel as nat,
                        Seq::empty() + e1,
                        Seq::empty() + e2,
                    );
                    &&& p.ok
                    &&& out@ == p.out
                    &&& p.used == 0
                    &&& p.usedw == 0
                    &&& errs_v(errors@) == errs_v(old(errors)@) + p.errs
                } by {
                    assert(Seq::<u64>::empty() + e1 =~= e1);
                    assert(Seq::<int>::empty() + e2 =~= e2);
                    assert(errs_v(errors@) =~= errs_v(old(errors)@) + Seq::<ErrV>::empty());
                }
            }
            (out, Ghost(Seq::empty()), Ghost(Seq::empty()))
        },
        Some((j, end)) => {
            proof {
                lemma_inc_find_props(s@, from as int);
                lemma_inc_match_bounds(s@, j as int);
            }
            let ghost errs0 = errs_v(errors@);
            let mut out = subvec_chars(s, from, j);
            let dir0 = subvec_chars(s, j, end);
            let (dir_r, chd) = rnd_rewrite(&dir0, 0, errors, rng);
            let dir1 = chr_rewrite(&dir_r, 0);
            let ghost errs1 = errs_v(errors@);
            proof {
                assert(dir0@ == s@.subrange(j as int, end as int));
            }
            match parse_include_chars(&dir1) {
                None => {
                    let directive = string_from_chars(&dir1);
                    let ghost err = (ErrV::Malformed { directive: dir1@ });
                    push_err(errors, PreprocessingError::MalformedDirective { directive });
                    let (rest, che, cwe) = inc_rewrite(s, end, fuel, files, errors, rng);
                    extend_all(&mut out, &rest);
                    proof {
                        lemma_inc_arm_skip(
                            s@,
                            from as int,
                            j as int,
                            end as int,
                            tbl,
                            fuel as nat,
                            chd@,
                            che@,
                            cwe@,
                            Seq::empty(),
                            dir_r@,
                            err,
                            rest@,
                            out@,
                            errs0,
                            errs1,
                            errs_v(errors@),
                        );
                        assert(Seq::<int>::empty() + cwe@ =~= cwe@);
                    }
                    (out, Ghost(chd@ + che@), cwe)
                },
                Some(incs) => {
                    let ghost alts = parse_include_spec(dir1@)->Some_0;
                    proof {
                        lemma_sampleable_agree(incs@);
                    }
                    match choose_include(&incs, rng) {
                        Err(e) => {
                            let ghost err = e@;
                            push_err(errors, e);
                            let (rest, che, cwe) = inc_rewrite(s, end, fuel, files, errors, rng);
                            extend_all(&mut out, &rest);
                            proof {
                                assert(err == (ErrV::RandomInclude {
                                    weights: alt_weights(alts),
                                }));
                                lemma_inc_arm_skip(
                                    s@,
                                    from as int,
                                    j as int,
                                    end as int,
                                    tbl,
                                    fuel as nat,
                                    chd@,
                                    che@,
                                    cwe@,
                                    Seq::empty(),
                                    dir_r@,
                                    err,
                                    rest@,
                                    out@,
                                    errs0,
                                    errs1,
                                    errs_v(errors@),
                                );
                                assert(Seq::<int>::empty() + cwe@ =~= cwe@);
                            }
                            (out, Ghost(chd@ + che@), cwe)
                        },
                        Ok(chosen) => {
                            let ghost k: int = if incs@.len() == 1 {
                                0
                            } else {
                                choose|k: int|
                                    0 <= k < incs@.len() && chosen@ == #[trigger] incs@[k]@ && (
                                    incs@.len() != 1 ==> incs@[k].weight > 0)
                            };
                            let ghost pickseq: Seq<int> = if incs@.len() == 1 {
                                Seq::empty()
                            } else {
                                seq![k]
                            };
                            proof {
                                assert(0 <= k < incs@.len() && chosen@ == incs@[k]@ && (
                                incs@.len() != 1 ==> incs@[k].weight > 0));
                                assert(alts[k] == incs_v(incs@)[k]);
                                assert(alts[k] == chosen@);
                                assert(alts[k].file == chosen.file@);
                            }
                            let found = tbl_lookup(files, &chosen.file);
                            let deep = fuel == 0;
                            match found {
                                Some(idx) if !deep => {
                                    let child_src = chars_vec(files[idx].1.as_str());
                                    let (childv, chc, cwc) = inc_rewrite(
                                        &child_src,
                                        0,
                                        fuel - 1,
                                        files,
                                        errors,
                                        rng,
                                    );
                                    let ghost errs2 = errs_v(errors@);
                                    let (restv, che, cwe) = inc_rewrite(
                                        s,
                                        end,
                                        fuel,
                                        files,
                                        errors,
                                        rng,
                                    );
                                    push_open_marker(&mut out, chosen.offset);
                                    extend_all(&mut out, &childv);
                                    push_close_marker(&mut out, chosen.offset);
                                    extend_all(&mut out, &restv);
                                    proof {
                                        assert(tbl[idx as int].1 == files@[idx as int].1@);
                                        assert(child_src@ == tbl[idx as int].1);
                                        assert(out@ =~= s@.subrange(from as int, j as int)
                                            + open_marker(alts[k].offset) + childv@
                                            + close_marker(alts[k].offset) + restv@);
                                        lemma_inc_arm_splice(
                                            s@,
                                            from as int,
                                            j as int,
                                            end as int,
                                            tbl,
                                            fuel as nat,
                                            chd@,
                                            chc@,
                                            che@,
                                            cwc@,
                                            cwe@,
                                            pickseq,
                                            dir_r@,
                                            k,
                                            idx as int,
                                            childv@,
                                            restv@,
                                            out@,
                                            errs0,
                                            errs1,
                                            errs2,
                                            errs_v(errors@),
                                        );
                                    }
                                    (
                                        out,
                                        Ghost(chd@ + (chc@ + che@)),
                                        Ghost(pickseq + (cwc@ + cwe@)),
                                    )
                                },
                                _ => {
                                    let file = chosen.file.clone();
                                    let ghost err = (ErrV::NotFound { file: chosen.file@ });
                                    push_err(
                                        errors,
                                        PreprocessingError::IncludeFileNotFound { file },
                                    );
                                    let (rest, che, cwe) = inc_rewrite(
                                        s,
                                        end,
                                        fuel,
                                        files,
                                        errors,
                                        rng,
                                    );
                                    extend_all(&mut out, &rest);
                                    proof {
                                        if !deep {
                                            assert(tbl_find(tbl, alts[k].file, 0) is None);
                                        }
                                        lemma_inc_arm_skip(
                                            s@,
                                            from as int,
                                            j as int,
                                            end as int,
                                            tbl,
                                            fuel as nat,
                                            chd@,
                                            che@,
                                            cwe@,
                                            pickseq,
                                            dir_r@,
                                            err,
                                            rest@,
                                            out@,
                                            errs0,
                                            errs1,
                                            errs_v(errors@),
                                        );
                                    }
                                    (out, Ghost(chd@ + che@), Ghost(pickseq + cwe@))
                                },
                            }
                        },
                    }
                },
            }
        },
    }
}

} // verus!

use crate::route::passes::{if_pass, run_chr, run_if, run_rnd, sub_pass};
use crate::route::submap::SubMap;

verus! {

/// Include resolution over a whole script. `file_path` names the
/// requesting file; `files` is the loadable-file table, each entry a
/// resolved path with its contents. Each `$include` directive has its
/// own text randomized, is parsed and resolved, and is replaced by the
/// referenced file's recursively resolved contents between offset
/// markers; a directive that cannot be parsed, chosen from or resolved
/// is elided with one diagnostic.
pub fn run_includes(
    file_path: &str,
    content: &str,
    errors: &mut Vec<RouteError>,
    rng: &mut rand::rngs::StdRng,
    files: &Vec<(String, String)>,
) -> (r: String)
    ensures
        exists|ch: Seq<u64>, cw: Seq<int>|
            #![trigger inc_scan(content@, 0, table_v(files@), INCLUDE_DEPTH_LIMIT as nat, ch, cw)]
            {
                let p = inc_scan(
                    content@,
                    0,
                    table_v(files@),
                    INCLUDE_DEPTH_LIMIT as nat,
                    ch,
                    cw,
                );
                &&& p.ok
                &&& r@ == p.out
                &&& p.used == ch.len()
                &&& p.usedw == cw.len()
                &&& errs_v(final(errors)@) == errs_v(old(errors)@) + p.errs
            },
{
    let s = chars_vec(content);
    let (out, Ghost(ch), Ghost(cw)) = inc_rewrite(&s, 0, INCLUDE_DEPTH_LIMIT, files, errors, rng);
    let r = string_from_chars(&out);
    proof {
        assert(ch + Seq::<u64>::empty() =~= ch);
        assert(cw + Seq::<int>::empty() =~= cw);
        let p = inc_scan(
            content@,
            0,
            table_v(files@),
            INCLUDE_DEPTH_LIMIT as nat,
            ch + Seq::<u64>::empty(),
            cw + Seq::<int>::empty(),
        );
        assert(p.ok && r@ == p.out && p.used == ch.len() && p.usedw == cw.len() && errs_v(
            errors@,
        ) == errs_v(old(errors)@) + p.errs);
    }
    r
}

/// The full preprocessing of one route script against draw oracles:
/// include resolution first, then the conditional pass with a fresh
/// substitution table, then global `$rnd`, then `$chr`.
pub open spec fn preprocess_rel(
    content: Seq<char>,
    tbl: Seq<(Seq<char>, Seq<char>)>,
    ch1: Seq<u64>,
    cw: Seq<int>,
    ch2: Seq<u64>,
    ch3: Seq<u64>,
    out: Seq<char>,
    errs: Seq<ErrV>,
) -> bool {
    let p1 = inc_scan(content, 0, tbl, INCLUDE_DEPTH_LIMIT as nat, ch1, cw);
    let p2 = if_pass(p1.out, Map::empty(), ch2);
    let p3 = rnd_pass(p2.out, 0, ch3);
    &&& p1.ok && p1.used == ch1.len() && p1.usedw == cw.len()
    &&& p2.ok && p2.used == ch2.len()
    &&& p3.ok && p3.used == ch3.len()
    &&& out == chr_out(p3.out, 0)
    &&& errs == p1.errs + p2.errs + p3.errs
}

/// There are draw oracles under which the whole preprocessing of
/// `content` yields exactly this text and these diagnostics.
pub open spec fn preprocess_ensures(
    content: Seq<char>,
    tbl: Seq<(Seq<char>, Seq<char>)>,
    out: Seq<char>,
    errs: Seq<ErrV>,
) -> bool {
    exists|ch1: Seq<u64>, cw: Seq<int>, ch2: Seq<u64>, ch3: Seq<u64>|
        #![trigger preprocess_rel(content, tbl, ch1, cw, ch2, ch3, out, errs)]
        preprocess_rel(content, tbl, ch1, cw, ch2, ch3, out, errs)
}

/// Preprocesses a route script: resolves `$include` directives against
/// the file table, evaluates the conditional language with `$sub`
/// substitution, then evaluates `$rnd` and `$chr` globally, in exactly
/// that order. The call always completes; every anomaly found along the
/// way stands in the returned diagnostics and its directive is elided
/// from the text.
pub fn preprocess_route(
    file_path: &str,
    content: &str,
    rng: &mut rand::rngs::StdRng,
    files: &Vec<(String, String)>,
) -> (r: (String, Vec<RouteError>))
    ensures
        preprocess_ensures(content@, table_v(files@), r.0@, errs_v(r.1@)),
{
    let mut errors: Vec<RouteError> = Vec::new();
    let ghost e0 = errs_v(errors@);
    let resolved = run_includes(file_path, content, &mut errors, rng, files);
    let ghost e1 = errs_v(errors@);
    let mut sub_map = SubMap::new();
    let ghost m0 = sub_map@;
    let conditioned = run_if(resolved.as_str(), &mut errors, rng, &mut sub_map);
    let ghost e2 = errs_v(errors@);
    let randomized = run_rnd(conditioned.as_str(), &mut errors, rng);
    let ghost e3 = errs_v(errors@);
    let finished = run_chr(randomized.as_str(), &mut errors);
    proof {
        let tbl = table_v(files@);
        let (ch1, cw) = choose|ch1: Seq<u64>, cw: Seq<int>|
            #![trigger inc_scan(content@, 0, tbl, INCLUDE_DEPTH_LIMIT as nat, ch1, cw)]
            {
                let p = inc_scan(content@, 0, tbl, INCLUDE_DEPTH_LIMIT as nat, ch1, cw);
                &&& p.ok
                &&& resolved@ == p.out
                &&& p.used == ch1.len()
                &&& p.usedw == cw.len()
                &&& e1 == e0 + p.errs
            };
        let p1 = inc_scan(content@, 0, tbl, INCLUDE_DEPTH_LIMIT as nat, ch1, cw);
        let ch2 = choose|ch2: Seq<u64>|
            #![trigger if_pass(resolved@, m0, ch2)]
            {
                let p = if_pass(resolved@, m0, ch2);
                &&& p.ok
                &&& conditioned@ == p.out
                &&& p.used == ch2.len()
                &&& e2 == e1 + p.errs
            };
        let ch3 = choose|ch3: Seq<u64>|
            #![trigger rnd_pass(conditioned@, 0, ch3)]
            {
                let p = rnd_pass(conditioned@, 0, ch3);
                &&& p.ok
                &&& randomized@ == p.out
                &&& p.used == ch3.len()
                &&& e3 == e2 + p.errs
            };
        let p2 = if_pass(p1.out, Map::empty(), ch2);
        let p3 = rnd_pass(p2.out, 0, ch3);
        assert(m0 =~= Map::<u64, Seq<char>>::empty());
        assert(p2 == if_pass(resolved@, m0, ch2));
        assert(p3 == rnd_pass(conditioned@, 0, ch3));
        assert(e0 =~= Seq::<ErrV>::empty());
        assert(errs_v(errors@) == e3);
        assert(errs_v(errors@) =~= p1.errs + p2.errs + p3.errs);
        assert(finished@ == chr_out(p3.out, 0));
        assert(preprocess_rel(
            content@,
            table_v(files@),
            ch1,
            cw,
            ch2,
            ch3,
            finished@,
            errs_v(errors@),
        ));
    }
    (finished, errors)
}

} // verus!
