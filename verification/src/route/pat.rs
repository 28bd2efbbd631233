//! Recognition of the directive surface syntax: `$chr(n)`, `$rnd(a;b)`,
//! `$sub(n)` with an optional `= value` tail, the `$if`/`$else`/`$endif`
//! family, and `$include(...)`. Keywords are matched case-insensitively
//! and arbitrary whitespace is permitted between the tokens of a
//! directive; the whitespace may span lines, but an argument list never
//! extends past the line it starts on. Each directive kind has a spec
//! match at a position, a spec search for the first match, and executable
//! counterparts proved equal to them.

use crate::text::{ascii_lower, digits_end, is_digit, is_space, lemma_digits_end_bounds,
    lemma_ws_end_bounds, ws_end};
use vstd::prelude::*;

verus! {

/// First position at or after `i` holding a line break (or the end).
pub open spec fn line_end(s: Seq<char>, i: int) -> int
    decreases s.len() - i,
{
    if i < 0 {
        0
    } else if i >= s.len() {
        s.len() as int
    } else if s[i] == '\n' {
        i
    } else {
        line_end(s, i + 1)
    }
}

pub proof fn lemma_line_end_bounds(s: Seq<char>, i: int)
    requires
        0 <= i <= s.len(),
    ensures
        i <= line_end(s, i) <= s.len(),
    decreases s.len() - i,
{
    if i < s.len() && s[i] != '\n' {
        lemma_line_end_bounds(s, i + 1);
    }
}

pub fn find_line_end(s: &Vec<char>, i: usize) -> (r: usize)
    requires
        i <= s@.len(),
    ensures
        r == line_end(s@, i as int),
        i <= r <= s@.len(),
{
    let mut j = i;
    while j < s.len()
        invariant
            i <= j <= s@.len(),
            line_end(s@, i as int) == line_end(s@, j as int),
        decreases s@.len() - j,
    {
        if s[j] == '\n' {
            return j;
        }
        j = j + 1;
    }
    j
}

/// The keyword `kw` appears at `i`, compared without regard to ASCII case.
pub open spec fn kw_at(s: Seq<char>, i: int, kw: Seq<char>) -> bool {
    &&& 0 <= i
    &&& i + kw.len() <= s.len()
    &&& forall|j: int| 0 <= j < kw.len() ==> ascii_lower(s[i + j]) == kw[j]
}

/// A match of `$chr ( digits )`.
pub ghost struct ChrM {
    /// One past the closing parenthesis.
    pub end: int,
    /// The digit run `s[d0..d1]`.
    pub d0: int,
    pub d1: int,
}

pub open spec fn chr_kw() -> Seq<char> {
    seq!['c', 'h', 'r']
}

pub open spec fn chr_match_at(s: Seq<char>, i: int) -> Option<ChrM> {
    if 0 <= i < s.len() && s[i] == '$' && kw_at(s, i + 1, chr_kw()) {
        let p = ws_end(s, i + 4);
        if p < s.len() && s[p] == '(' {
            let d0 = ws_end(s, p + 1);
            let d1 = digits_end(s, d0);
            if d1 > d0 {
                let q = ws_end(s, d1);
                if q < s.len() && s[q] == ')' {
                    Some(ChrM { end: q + 1, d0, d1 })
                } else {
                    None
                }
            } else {
                None
            }
        } else {
            None
        }
    } else {
        None
    }
}

pub proof fn lemma_chr_match_bounds(s: Seq<char>, i: int)
    requires
        chr_match_at(s, i) is Some,
    ensures
        ({
            let m = chr_match_at(s, i)->Some_0;
            &&& i + 4 < m.end <= s.len()
            &&& i < m.d0 < m.d1 < m.end
            &&& forall|k: int| m.d0 <= k < m.d1 ==> is_digit(s[k])
        }),
{
    lemma_ws_end_bounds(s, i + 4);
    let p = ws_end(s, i + 4);
    lemma_ws_end_bounds(s, p + 1);
    let d0 = ws_end(s, p + 1);
    lemma_digits_end_bounds(s, d0);
    let d1 = digits_end(s, d0);
    lemma_ws_end_bounds(s, d1);
}

/// A match of `$rnd ( digits ; digits )`.
pub ghost struct RndM {
    pub end: int,
    /// The first digit run `s[a0..a1]`.
    pub a0: int,
    pub a1: int,
    /// The second digit run `s[b0..b1]`.
    pub b0: int,
    pub b1: int,
}

pub open spec fn rnd_kw() -> Seq<char> {
    seq!['r', 'n', 'd']
}

pub open spec fn rnd_match_at(s: Seq<char>, i: int) -> Option<RndM> {
    if 0 <= i < s.len() && s[i] == '$' && kw_at(s, i + 1, rnd_kw()) {
        let p = ws_end(s, i + 4);
        if p < s.len() && s[p] == '(' {
            let a0 = ws_end(s, p + 1);
            let a1 = digits_end(s, a0);
            if a1 > a0 {
                let sc = ws_end(s, a1);
                if sc < s.len() && s[sc] == ';' {
                    let b0 = ws_end(s, sc + 1);
                    let b1 = digits_end(s, b0);
                    if b1 > b0 {
                        let q = ws_end(s, b1);
                        if q < s.len() && s[q] == ')' {
                            Some(RndM { end: q + 1, a0, a1, b0, b1 })
                        } else {
                            None
                        }
                    } else {
                        None
                    }
                } else {
                    None
                }
            } else {
                None
            }
        } else {
            None
        }
    } else {
        None
    }
}

pub proof fn lemma_rnd_match_bounds(s: Seq<char>, i: int)
    requires
        rnd_match_at(s, i) is Some,
    ensures
        ({
            let m = rnd_match_at(s, i)->Some_0;
            &&& i + 4 < m.end <= s.len()
            &&& i < m.a0 < m.a1 < m.b0 < m.b1 < m.end
            &&& forall|k: int| m.a0 <= k < m.a1 ==> is_digit(s[k])
            &&& forall|k: int| m.b0 <= k < m.b1 ==> is_digit(s[k])
        }),
{
    lemma_ws_end_bounds(s, i + 4);
    let p = ws_end(s, i + 4);
    lemma_ws_end_bounds(s, p + 1);
    let a0 = ws_end(s, p + 1);
    lemma_digits_end_bounds(s, a0);
    let a1 = digits_end(s, a0);
    lemma_ws_end_bounds(s, a1);
    let sc = ws_end(s, a1);
    lemma_ws_end_bounds(s, sc + 1);
    let b0 = ws_end(s, sc + 1);
    lemma_digits_end_bounds(s, b0);
    let b1 = digits_end(s, b0);
    lemma_ws_end_bounds(s, b1);
}

/// A match of `$sub ( digits )`, possibly continued by `= value`.
pub ghost struct SubM {
    pub end: int,
    /// The digit run `s[d0..d1]`: the substitution index.
    pub d0: int,
    pub d1: int,
    /// For an assignment, the value `s[v0..v1]`: the rest of the line
    /// after the equals sign and any whitespace that follows it.
    pub asg: Option<(int, int)>,
}

pub open spec fn sub_kw() -> Seq<char> {
    seq!['s', 'u', 'b']
}

pub open spec fn sub_match_at(s: Seq<char>, i: int) -> Option<SubM> {
    if 0 <= i < s.len() && s[i] == '$' && kw_at(s, i + 1, sub_kw()) {
        let p = ws_end(s, i + 4);
        if p < s.len() && s[p] == '(' {
            let d0 = ws_end(s, p + 1);
            let d1 = digits_end(s, d0);
            if d1 > d0 {
                let q = ws_end(s, d1);
                if q < s.len() && s[q] == ')' {
                    let e = ws_end(s, q + 1);
                    if e < s.len() && s[e] == '=' {
                        let v0 = ws_end(s, e + 1);
                        let v1 = line_end(s, v0);
                        Some(SubM { end: v1, d0, d1, asg: Some((v0, v1)) })
                    } else {
                        Some(SubM { end: q + 1, d0, d1, asg: None })
                    }
                } else {
                    None
                }
            } else {
                None
            }
        } else {
            None
        }
    } else {
        None
    }
}

pub proof fn lemma_sub_match_bounds(s: Seq<char>, i: int)
    requires
        sub_match_at(s, i) is Some,
    ensures
        ({
            let m = sub_match_at(s, i)->Some_0;
            &&& i + 4 < m.end <= s.len()
            &&& i < m.d0 < m.d1 < m.end
            &&& forall|k: int| m.d0 <= k < m.d1 ==> is_digit(s[k])
            &&& match m.asg {
                Some((v0, v1)) => m.d1 < v0 <= v1 == m.end,
                None => true,
            }
        }),
{
    lemma_ws_end_bounds(s, i + 4);
    let p = ws_end(s, i + 4);
    lemma_ws_end_bounds(s, p + 1);
    let d0 = ws_end(s, p + 1);
    lemma_digits_end_bounds(s, d0);
    let d1 = digits_end(s, d0);
    lemma_ws_end_bounds(s, d1);
    let q = ws_end(s, d1);
    lemma_ws_end_bounds(s, q + 1);
    let e = ws_end(s, q + 1);
    if e < s.len() && s[e] == '=' {
        lemma_ws_end_bounds(s, e + 1);
        let v0 = ws_end(s, e + 1);
        lemma_line_end_bounds(s, v0);
    }
}

/// Which keyword of the conditional family a match carries.
pub ghost enum IesKw {
    If,
    Else,
    Endif,
}

/// A match of `$if`, `$else` or `$endif`, each followed by `(` and then
/// everything to the end of the line.
pub ghost struct IesM {
    pub kw: IesKw,
    pub end: int,
}

pub open spec fn if_kw() -> Seq<char> {
    seq!['i', 'f']
}

pub open spec fn else_kw() -> Seq<char> {
    seq!['e', 'l', 's', 'e']
}

pub open spec fn endif_kw() -> Seq<char> {
    seq!['e', 'n', 'd', 'i', 'f']
}

/// Whether keyword `kw` at `i + 1` is followed by whitespace and an
/// opening parenthesis; gives the match end (the end of that line).
pub open spec fn ies_arm(s: Seq<char>, i: int, kw: Seq<char>) -> Option<int> {
    if kw_at(s, i + 1, kw) {
        let p = ws_end(s, i + 1 + kw.len());
        if p < s.len() && s[p] == '(' {
            Some(line_end(s, p))
        } else {
            None
        }
    } else {
        None
    }
}

pub open spec fn ies_match_at(s: Seq<char>, i: int) -> Option<IesM> {
    if 0 <= i < s.len() && s[i] == '$' {
        if ies_arm(s, i, if_kw()) is Some {
            Some(IesM { kw: IesKw::If, end: ies_arm(s, i, if_kw())->Some_0 })
        } else if ies_arm(s, i, else_kw()) is Some {
            Some(IesM { kw: IesKw::Else, end: ies_arm(s, i, else_kw())->Some_0 })
        } else if ies_arm(s, i, endif_kw()) is Some {
            Some(IesM { kw: IesKw::Endif, end: ies_arm(s, i, endif_kw())->Some_0 })
        } else {
            None
        }
    } else {
        None
    }
}

pub proof fn lemma_ies_arm_bounds(s: Seq<char>, i: int, kw: Seq<char>)
    requires
        0 <= i < s.len(),
        kw.len() > 0,
        ies_arm(s, i, kw) is Some,
    ensures
        i + 1 + kw.len() <= ies_arm(s, i, kw)->Some_0 <= s.len(),
{
    lemma_ws_end_bounds(s, i + 1 + kw.len() as int);
    let p = ws_end(s, i + 1 + kw.len() as int);
    lemma_line_end_bounds(s, p);
}

pub proof fn lemma_ies_match_bounds(s: Seq<char>, i: int)
    requires
        ies_match_at(s, i) is Some,
    ensures
        i + 3 <= ies_match_at(s, i)->Some_0.end <= s.len(),
{
    if ies_arm(s, i, if_kw()) is Some {
        lemma_ies_arm_bounds(s, i, if_kw());
    } else if ies_arm(s, i, else_kw()) is Some {
        lemma_ies_arm_bounds(s, i, else_kw());
    } else {
        lemma_ies_arm_bounds(s, i, endif_kw());
    }
}

/// A match of `$include`, whitespace, `(`, and the rest of the line.
pub ghost struct IncM {
    pub end: int,
}

pub open spec fn include_kw() -> Seq<char> {
    seq!['i', 'n', 'c', 'l', 'u', 'd', 'e']
}

pub open spec fn inc_match_at(s: Seq<char>, i: int) -> Option<IncM> {
    if 0 <= i < s.len() && s[i] == '$' && kw_at(s, i + 1, include_kw()) {
        let p = ws_end(s, i + 8);
        if p < s.len() && s[p] == '(' {
            Some(IncM { end: line_end(s, p) })
        } else {
            None
        }
    } else {
        None
    }
}

pub proof fn lemma_inc_match_bounds(s: Seq<char>, i: int)
    requires
        inc_match_at(s, i) is Some,
    ensures
        i + 8 < inc_match_at(s, i)->Some_0.end <= s.len(),
{
    lemma_ws_end_bounds(s, i + 8);
    let p = ws_end(s, i + 8);
    lemma_line_end_bounds(s, p + 1);
    assert(line_end(s, p) == line_end(s, p + 1));
}

} // verus!

use crate::text::{find_digits_end, find_ws_end, lower_char};

verus! {

/// Case-insensitive check for `kw` at position `i`.
pub fn kw_check(s: &Vec<char>, i: usize, kw: &[char]) -> (r: bool)
    requires
        i <= s@.len(),
    ensures
        r == kw_at(s@, i as int, kw@),
{
    if s.len() - i < kw.len() {
        return false;
    }
    assert(s@.len() <= usize::MAX);
    let mut j: usize = 0;
    while j < kw.len()
        invariant
            i + kw@.len() <= s@.len() <= usize::MAX,
            j <= kw@.len(),
            forall|k: int| 0 <= k < j ==> ascii_lower(s@[i + k]) == kw@[k],
        decreases kw@.len() - j,
    {
        if lower_char(s[i + j]) != kw[j] {
            return false;
        }
        j = j + 1;
    }
    true
}

/// Executable image of [`chr_match_at`].
pub fn chr_hit(s: &Vec<char>, i: usize) -> (r: Option<(usize, usize, usize)>)
    requires
        i <= s@.len(),
    ensures
        match r {
            Some((end, d0, d1)) => chr_match_at(s@, i as int) == Some(
                ChrM { end: end as int, d0: d0 as int, d1: d1 as int },
            ),
            None => chr_match_at(s@, i as int) is None,
        },
{
    if i >= s.len() || s[i] != '$' || !kw_check(s, i + 1, &['c', 'h', 'r']) {
        return None;
    }
    let p = find_ws_end(s, i + 4);
    if p >= s.len() || s[p] != '(' {
        return None;
    }
    let d0 = find_ws_end(s, p + 1);
    let d1 = find_digits_end(s, d0);
    if d1 <= d0 {
        return None;
    }
    let q = find_ws_end(s, d1);
    if q >= s.len() || s[q] != ')' {
        return None;
    }
    Some((q + 1, d0, d1))
}

/// Executable image of [`rnd_match_at`].
pub fn rnd_hit(s: &Vec<char>, i: usize) -> (r: Option<(usize, usize, usize, usize, usize)>)
    requires
        i <= s@.len(),
    ensures
        match r {
            Some((end, a0, a1, b0, b1)) => rnd_match_at(s@, i as int) == Some(
                RndM {
                    end: end as int,
                    a0: a0 as int,
                    a1: a1 as int,
                    b0: b0 as int,
                    b1: b1 as int,
                },
            ),
            None => rnd_match_at(s@, i as int) is None,
        },
{
    if i >= s.len() || s[i] != '$' || !kw_check(s, i + 1, &['r', 'n', 'd']) {
        return None;
    }
    let p = find_ws_end(s, i + 4);
    if p >= s.len() || s[p] != '(' {
        return None;
    }
    let a0 = find_ws_end(s, p + 1);
    let a1 = find_digits_end(s, a0);
    if a1 <= a0 {
        return None;
    }
    let sc = find_ws_end(s, a1);
    if sc >= s.len() || s[sc] != ';' {
        return None;
    }
    let b0 = find_ws_end(s, sc + 1);
    let b1 = find_digits_end(s, b0);
    if b1 <= b0 {
        return None;
    }
    let q = find_ws_end(s, b1);
    if q >= s.len() || s[q] != ')' {
        return None;
    }
    Some((q + 1, a0, a1, b0, b1))
}

/// Executable image of [`sub_match_at`].
pub fn sub_hit(s: &Vec<char>, i: usize) -> (r: Option<
    (usize, usize, usize, Option<(usize, usize)>),
>)
    requires
        i <= s@.len(),
    ensures
        match r {
            Some((end, d0, d1, asg)) => sub_match_at(s@, i as int) == Some(
                SubM {
                    end: end as int,
                    d0: d0 as int,
                    d1: d1 as int,
                    asg: match asg {
                        Some((v0, v1)) => Some((v0 as int, v1 as int)),
                        None => None,
                    },
                },
            ),
            None => sub_match_at(s@, i as int) is None,
        },
{
    if i >= s.len() || s[i] != '$' || !kw_check(s, i + 1, &['s', 'u', 'b']) {
        return None;
    }
    let p = find_ws_end(s, i + 4);
    if p >= s.len() || s[p] != '(' {
        return None;
    }
    let d0 = find_ws_end(s, p + 1);
    let d1 = find_digits_end(s, d0);
    if d1 <= d0 {
        return None;
    }
    let q = find_ws_end(s, d1);
    if q >= s.len() || s[q] != ')' {
        return None;
    }
    let e = find_ws_end(s, q + 1);
    if e < s.len() && s[e] == '=' {
        let v0 = find_ws_end(s, e + 1);
        let v1 = find_line_end(s, v0);
        Some((v1, d0, d1, Some((v0, v1))))
    } else {
        Some((q + 1, d0, d1, None))
    }
}

/// Executable image of [`ies_match_at`]; `0`, `1`, `2` stand for the
/// three keywords in the order `$if`, `$else`, `$endif`.
pub fn ies_hit(s: &Vec<char>, i: usize) -> (r: Option<(u8, usize)>)
    requires
        i <= s@.len(),
    ensures
        match r {
            Some((kw, end)) => {
                &&& kw == 0 ==> ies_match_at(s@, i as int) == Some(
                    IesM { kw: IesKw::If, end: end as int },
                )
                &&& kw == 1 ==> ies_match_at(s@, i as int) == Some(
                    IesM { kw: IesKw::Else, end: end as int },
                )
                &&& kw == 2 ==> ies_match_at(s@, i as int) == Some(
                    IesM { kw: IesKw::Endif, end: end as int },
                )
                &&& kw <= 2
            },
            None => ies_match_at(s@, i as int) is None,
        },
{
    if i >= s.len() || s[i] != '$' {
        return None;
    }
    if kw_check(s, i + 1, &['i', 'f']) {
        let p = find_ws_end(s, i + 3);
        if p < s.len() && s[p] == '(' {
            return Some((0, find_line_end(s, p)));
        }
    }
    if kw_check(s, i + 1, &['e', 'l', 's', 'e']) {
        let p = find_ws_end(s, i + 5);
        if p < s.len() && s[p] == '(' {
            return Some((1, find_line_end(s, p)));
        }
    }
    if kw_check(s, i + 1, &['e', 'n', 'd', 'i', 'f']) {
        let p = find_ws_end(s, i + 6);
        if p < s.len() && s[p] == '(' {
            return Some((2, find_line_end(s, p)));
        }
    }
    None
}

/// Executable image of [`inc_match_at`].
pub fn inc_hit(s: &Vec<char>, i: usize) -> (r: Option<usize>)
    requires
        i <= s@.len(),
    ensures
        match r {
            Some(end) => inc_match_at(s@, i as int) == Some(IncM { end: end as int }),
            None => inc_match_at(s@, i as int) is None,
        },
{
    if i >= s.len() || s[i] != '$' || !kw_check(s, i + 1, &['i', 'n', 'c', 'l', 'u', 'd', 'e']) {
        return None;
    }
    let p = find_ws_end(s, i + 8);
    if p >= s.len() || s[p] != '(' {
        return None;
    }
    Some(find_line_end(s, p))
}

} // verus!

verus! {

/// A match of `$if ( digits )`: the form a condition must reduce to for
/// a conditional to evaluate true.
pub ghost struct IfpM {
    pub end: int,
    /// The digit run `s[d0..d1]`.
    pub d0: int,
    pub d1: int,
}

pub open spec fn ifp_match_at(s: Seq<char>, i: int) -> Option<IfpM> {
    if 0 <= i < s.len() && s[i] == '$' && kw_at(s, i + 1, if_kw()) {
        let p = ws_end(s, i + 3);
        if p < s.len() && s[p] == '(' {
            let d0 = ws_end(s, p + 1);
            let d1 = digits_end(s, d0);
            if d1 > d0 {
                let q = ws_end(s, d1);
                if q < s.len() && s[q] == ')' {
                    Some(IfpM { end: q + 1, d0, d1 })
                } else {
                    None
                }
            } else {
                None
            }
        } else {
            None
        }
    } else {
        None
    }
}

pub proof fn lemma_ifp_match_bounds(s: Seq<char>, i: int)
    requires
        ifp_match_at(s, i) is Some,
    ensures
        ({
            let m = ifp_match_at(s, i)->Some_0;
            &&& i + 3 < m.end <= s.len()
            &&& i < m.d0 < m.d1 < m.end
            &&& forall|k: int| m.d0 <= k < m.d1 ==> is_digit(s[k])
        }),
{
    lemma_ws_end_bounds(s, i + 3);
    let p = ws_end(s, i + 3);
    lemma_ws_end_bounds(s, p + 1);
    let d0 = ws_end(s, p + 1);
    lemma_digits_end_bounds(s, d0);
    let d1 = digits_end(s, d0);
    lemma_ws_end_bounds(s, d1);
}

pub fn ifp_hit(s: &Vec<char>, i: usize) -> (r: Option<(usize, usize, usize)>)
    requires
        i <= s@.len(),
    ensures
        match r {
            Some((end, d0, d1)) => ifp_match_at(s@, i as int) == Some(
                IfpM { end: end as int, d0: d0 as int, d1: d1 as int },
            ),
            None => ifp_match_at(s@, i as int) is None,
        },
{
    if i >= s.len() || s[i] != '$' || !kw_check(s, i + 1, &['i', 'f']) {
        return None;
    }
    let p = find_ws_end(s, i + 3);
    if p >= s.len() || s[p] != '(' {
        return None;
    }
    let d0 = find_ws_end(s, p + 1);
    let d1 = find_digits_end(s, d0);
    if d1 <= d0 {
        return None;
    }
    let q = find_ws_end(s, d1);
    if q >= s.len() || s[q] != ')' {
        return None;
    }
    Some((q + 1, d0, d1))
}

/// First `$chr` match at or after `i`.
pub open spec fn chr_find(s: Seq<char>, i: int) -> Option<(int, ChrM)>
    decreases s.len() - i,
{
    if i < 0 || i >= s.len() {
        None
    } else if chr_match_at(s, i) is Some {
        Some((i, chr_match_at(s, i)->Some_0))
    } else {
        chr_find(s, i + 1)
    }
}

pub proof fn lemma_chr_find_props(s: Seq<char>, i: int)
    requires
        0 <= i,
        chr_find(s, i) is Some,
    ensures
        ({
            let (j, m) = chr_find(s, i)->Some_0;
            &&& i <= j < s.len()
            &&& chr_match_at(s, j) == Some(m)
        }),
    decreases s.len() - i,
{
    if i < s.len() && chr_match_at(s, i) is None {
        lemma_chr_find_props(s, i + 1);
    }
}

pub fn find_chr(s: &Vec<char>, from: usize) -> (r: Option<(usize, usize, usize, usize)>)
    requires
        from <= s@.len(),
    ensures
        match r {
            Some((j, end, d0, d1)) => chr_find(s@, from as int) == Some(
                (j as int, ChrM { end: end as int, d0: d0 as int, d1: d1 as int }),
            ),
            None => chr_find(s@, from as int) is None,
        },
{
    let mut j = from;
    while j < s.len()
        invariant
            from <= j <= s@.len(),
            chr_find(s@, from as int) == chr_find(s@, j as int),
        decreases s@.len() - j,
    {
        if let Some((end, d0, d1)) = chr_hit(s, j) {
            return Some((j, end, d0, d1));
        }
        j = j + 1;
    }
    None
}

/// First `$rnd` match at or after `i`.
pub open spec fn rnd_find(s: Seq<char>, i: int) -> Option<(int, RndM)>
    decreases s.len() - i,
{
    if i < 0 || i >= s.len() {
        None
    } else if rnd_match_at(s, i) is Some {
        Some((i, rnd_match_at(s, i)->Some_0))
    } else {
        rnd_find(s, i + 1)
    }
}

pub proof fn lemma_rnd_find_props(s: Seq<char>, i: int)
    requires
        0 <= i,
        rnd_find(s, i) is Some,
    ensures
        ({
            let (j, m) = rnd_find(s, i)->Some_0;
            &&& i <= j < s.len()
            &&& rnd_match_at(s, j) == Some(m)
        }),
    decreases s.len() - i,
{
    if i < s.len() && rnd_match_at(s, i) is None {
        lemma_rnd_find_props(s, i + 1);
    }
}

pub fn find_rnd(s: &Vec<char>, from: usize) -> (r: Option<
    (usize, usize, usize, usize, usize, usize),
>)
    requires
        from <= s@.len(),
    ensures
        match r {
            Some((j, end, a0, a1, b0, b1)) => rnd_find(s@, from as int) == Some(
                (
                    j as int,
                    RndM {
                        end: end as int,
                        a0: a0 as int,
                        a1: a1 as int,
                        b0: b0 as int,
                        b1: b1 as int,
                    },
                ),
            ),
            None => rnd_find(s@, from as int) is None,
        },
{
    let mut j = from;
    while j < s.len()
        invariant
            from <= j <= s@.len(),
            rnd_find(s@, from as int) == rnd_find(s@, j as int),
        decreases s@.len() - j,
    {
        if let Some((end, a0, a1, b0, b1)) = rnd_hit(s, j) {
            return Some((j, end, a0, a1, b0, b1));
        }
        j = j + 1;
    }
    None
}

/// First `$sub` match at or after `i`.
pub open spec fn sub_find(s: Seq<char>, i: int) -> Option<(int, SubM)>
    decreases s.len() - i,
{
    if i < 0 || i >= s.len() {
        None
    } else if sub_match_at(s, i) is Some {
        Some((i, sub_match_at(s, i)->Some_0))
    } else {
        sub_find(s, i + 1)
    }
}

pub proof fn lemma_sub_find_props(s: Seq<char>, i: int)
    requires
        0 <= i,
        sub_find(s, i) is Some,
    ensures
        ({
            let (j, m) = sub_find(s, i)->Some_0;
            &&& i <= j < s.len()
            &&& sub_match_at(s, j) == Some(m)
        }),
    decreases s.len() - i,
{
    if i < s.len() && sub_match_at(s, i) is None {
        lemma_sub_find_props(s, i + 1);
    }
}

pub fn find_sub(s: &Vec<char>, from: usize) -> (r: Option<
    (usize, usize, usize, usize, Option<(usize, usize)>),
>)
    requires
        from <= s@.len(),
    ensures
        match r {
            Some((j, end, d0, d1, asg)) => sub_find(s@, from as int) == Some(
                (
                    j as int,
                    SubM {
                        end: end as int,
                        d0: d0 as int,
                        d1: d1 as int,
                        asg: match asg {
                            Some((v0, v1)) => Some((v0 as int, v1 as int)),
                            None => None,
                        },
                    },
                ),
            ),
            None => sub_find(s@, from as int) is None,
        },
{
    let mut j = from;
    while j < s.len()
        invariant
            from <= j <= s@.len(),
            sub_find(s@, from as int) == sub_find(s@, j as int),
        decreases s@.len() - j,
    {
        if let Some((end, d0, d1, asg)) = sub_hit(s, j) {
            return Some((j, end, d0, d1, asg));
        }
        j = j + 1;
    }
    None
}

/// First `$if`/`$else`/`$endif` match at or after `i`.
pub open spec fn ies_find(s: Seq<char>, i: int) -> Option<(int, IesM)>
    decreases s.len() - i,
{
    if i < 0 || i >= s.len() {
        None
    } else if ies_match_at(s, i) is Some {
        Some((i, ies_match_at(s, i)->Some_0))
    } else {
        ies_find(s, i + 1)
    }
}

pub proof fn lemma_ies_find_props(s: Seq<char>, i: int)
    requires
        0 <= i,
        ies_find(s, i) is Some,
    ensures
        ({
            let (j, m) = ies_find(s, i)->Some_0;
            &&& i <= j < s.len()
            &&& ies_match_at(s, j) == Some(m)
        }),
    decreases s.len() - i,
{
    if i < s.len() && ies_match_at(s, i) is None {
        lemma_ies_find_props(s, i + 1);
    }
}

pub fn find_ies(s: &Vec<char>, from: usize) -> (r: Option<(usize, u8, usize)>)
    requires
        from <= s@.len(),
    ensures
        match r {
            Some((j, kw, end)) => {
                &&& kw <= 2
                &&& kw == 0 ==> ies_find(s@, from as int) == Some(
                    (j as int, IesM { kw: IesKw::If, end: end as int }),
                )
                &&& kw == 1 ==> ies_find(s@, from as int) == Some(
                    (j as int, IesM { kw: IesKw::Else, end: end as int }),
                )
                &&& kw == 2 ==> ies_find(s@, from as int) == Some(
                    (j as int, IesM { kw: IesKw::Endif, end: end as int }),
                )
            },
            None => ies_find(s@, from as int) is None,
        },
{
    let mut j = from;
    while j < s.len()
        invariant
            from <= j <= s@.len(),
            ies_find(s@, from as int) == ies_find(s@, j as int),
        decreases s@.len() - j,
    {
        if let Some((kw, end)) = ies_hit(s, j) {
            return Some((j, kw, end));
        }
        j = j + 1;
    }
    None
}

/// First `$include` match at or after `i`.
pub open spec fn inc_find(s: Seq<char>, i: int) -> Option<(int, IncM)>
    decreases s.len() - i,
{
    if i < 0 || i >= s.len() {
        None
    } else if inc_match_at(s, i) is Some {
        Some((i, inc_match_at(s, i)->Some_0))
    } else {
        inc_find(s, i + 1)
    }
}

pub proof fn lemma_inc_find_props(s: Seq<char>, i: int)
    requires
        0 <= i,
        inc_find(s, i) is Some,
    ensures
        ({
            let (j, m) = inc_find(s, i)->Some_0;
            &&& i <= j < s.len()
            &&& inc_match_at(s, j) == Some(m)
        }),
    decreases s.len() - i,
{
    if i < s.len() && inc_match_at(s, i) is None {
        lemma_inc_find_props(s, i + 1);
    }
}

pub fn find_inc(s: &Vec<char>, from: usize) -> (r: Option<(usize, usize)>)
    requires
        from <= s@.len(),
    ensures
        match r {
            Some((j, end)) => inc_find(s@, from as int) == Some(
                (j as int, IncM { end: end as int }),
            ),
            None => inc_find(s@, from as int) is None,
        },
{
    let mut j = from;
    while j < s.len()
        invariant
            from <= j <= s@.len(),
            inc_find(s@, from as int) == inc_find(s@, j as int),
        decreases s@.len() - j,
    {
        if let Some(end) = inc_hit(s, j) {
            return Some((j, end));
        }
        j = j + 1;
    }
    None
}

/// First `$if ( digits )` match at or after `i`.
pub open spec fn ifp_find(s: Seq<char>, i: int) -> Option<(int, IfpM)>
    decreases s.len() - i,
{
    if i < 0 || i >= s.len() {
        None
    } else if ifp_match_at(s, i) is Some {
        Some((i, ifp_match_at(s, i)->Some_0))
    } else {
        ifp_find(s, i + 1)
    }
}

pub proof fn lemma_ifp_find_props(s: Seq<char>, i: int)
    requires
        0 <= i,
        ifp_find(s, i) is Some,
    ensures
        ({
            let (j, m) = ifp_find(s, i)->Some_0;
            &&& i <= j < s.len()
            &&& ifp_match_at(s, j) == Some(m)
        }),
    decreases s.len() - i,
{
    if i < s.len() && ifp_match_at(s, i) is None {
        lemma_ifp_find_props(s, i + 1);
    }
}

pub fn find_ifp(s: &Vec<char>, from: usize) -> (r: Option<(usize, usize, usize, usize)>)
    requires
        from <= s@.len(),
    ensures
        match r {
            Some((j, end, d0, d1)) => ifp_find(s@, from as int) == Some(
                (j as int, IfpM { end: end as int, d0: d0 as int, d1: d1 as int }),
            ),
            None => ifp_find(s@, from as int) is None,
        },
{
    let mut j = from;
    while j < s.len()
        invariant
            from <= j <= s@.len(),
            ifp_find(s@, from as int) == ifp_find(s@, j as int),
        decreases s@.len() - j,
    {
        if let Some((end, d0, d1)) = ifp_hit(s, j) {
            return Some((j, end, d0, d1));
        }
        j = j + 1;
    }
    None
}

} // verus!
