//! The rewriting passes of the route preprocessor: `$chr` replacement,
//! `$rnd` evaluation, `$sub` substitution and the `$if`/`$else`/`$endif`
//! conditional pass. Each pass has a mathematical model; the random
//! passes are modelled against an explicit sequence of drawn values, and
//! the executable functions promise that such a sequence exists with
//! every draw inside its directive's range.
//!
//! The internal rewriting functions state their contract for every
//! extension of the witness draw sequence: a pass only ever reads the
//! draws it consumes, so appending more draws changes nothing. Stating
//! the contract that way lets the passes nest (a `$sub` read runs the
//! `$rnd` pass over the stored value; the conditional pass runs both
//! over condition text) without any reshuffling of witnesses.

use crate::random::gen_range_u64;
use crate::route::errors::{errs_v, push_err, ErrV, PreprocessingError, RouteError};
use crate::route::pat::{chr_find, find_chr, find_rnd, find_sub, lemma_chr_find_props,
    lemma_chr_match_bounds, lemma_rnd_find_props, lemma_rnd_match_bounds, lemma_sub_find_props,
    lemma_sub_match_bounds, rnd_find, sub_find, ChrM, RndM, SubM};
use crate::route::submap::SubMap;
use crate::text::{chars_vec, dec_str, dec_val, extend_all, extend_range, is_digit,
    parse_u64_digits, push_dec_u64, string_from_chars, subvec};
use vstd::prelude::*;

verus! {

/// Replacement text of one `$chr` directive: `%C<digits>%`.
pub open spec fn chr_repl(s: Seq<char>, m: ChrM) -> Seq<char> {
    seq!['%', 'C'] + s.subrange(m.d0, m.d1) + seq!['%']
}

/// The `$chr` pass over `s[i..]`: every `$chr(n)` occurrence becomes its
/// placeholder; everything else is copied. The pass cannot fail.
pub open spec fn chr_out(s: Seq<char>, i: int) -> Seq<char>
    decreases s.len() - i,
    via chr_out_dec
{
    if !(0 <= i <= s.len()) {
        Seq::empty()
    } else {
        match chr_find(s, i) {
            None => s.subrange(i, s.len() as int),
            Some((j, m)) => s.subrange(i, j) + chr_repl(s, m) + chr_out(s, m.end),
        }
    }
}

#[via_fn]
proof fn chr_out_dec(s: Seq<char>, i: int) {
    if 0 <= i <= s.len() {
        if chr_find(s, i) is Some {
            lemma_chr_find_props(s, i);
            let (j, m) = chr_find(s, i)->Some_0;
            lemma_chr_match_bounds(s, j);
        }
    }
}

/// The `$chr` pass, on a character vector.
pub fn chr_rewrite(s: &Vec<char>, from: usize) -> (r: Vec<char>)
    requires
        from <= s@.len(),
    ensures
        r@ == chr_out(s@, from as int),
    decreases s@.len() - from,
{
    match find_chr(s, from) {
        None => subvec(s, from, s.len()),
        Some((j, end, d0, d1)) => {
            proof {
                lemma_chr_find_props(s@, from as int);
                lemma_chr_match_bounds(s@, j as int);
            }
            let mut out = subvec(s, from, j);
            out.push('%');
            out.push('C');
            extend_range(&mut out, s, d0, d1);
            out.push('%');
            let rest = chr_rewrite(s, end);
            extend_all(&mut out, &rest);
            proof {
                let m = ChrM { end: end as int, d0: d0 as int, d1: d1 as int };
                assert(out@ =~= s@.subrange(from as int, j as int) + chr_repl(s@, m) + chr_out(
                    s@,
                    end as int,
                ));
            }
            out
        },
    }
}

/// Character evaluation: each `$chr(n)` occurrence in `content` becomes
/// the placeholder `%C<n>%`; the rest of the text is untouched. This
/// pass produces no diagnostics.
pub fn run_chr(content: &str, errors: &mut Vec<RouteError>) -> (r: String)
    ensures
        r@ == chr_out(content@, 0),
        final(errors)@ == old(errors)@,
{
    let s = chars_vec(content);
    let out = chr_rewrite(&s, 0);
    string_from_chars(&out)
}

/// Exclusive upper bound handed to the generator for an inclusive bound
/// `b`: `b + 1`, saturating at the largest representable value.
pub open spec fn draw_hi(b: u64) -> int {
    if b == u64::MAX {
        b as int
    } else {
        b as int + 1
    }
}

/// Result of modelling the `$rnd` pass against a sequence of drawn
/// values `ch`: the rewritten text, the diagnostics in order, how many
/// draws were consumed, and whether `ch` is consistent with the pass
/// (each consumed draw lies in its directive's range).
pub ghost struct RndP {
    pub out: Seq<char>,
    pub errs: Seq<ErrV>,
    pub used: nat,
    pub ok: bool,
}

/// The `$rnd` pass over `s[i..]` with draws `ch`. A directive whose
/// bounds do not fit in `u64`, or whose lower bound exceeds its upper
/// bound, is elided with a malformed-directive diagnostic; otherwise it
/// is replaced by the decimal rendering of the next draw.
pub open spec fn rnd_pass(s: Seq<char>, i: int, ch: Seq<u64>) -> RndP
    decreases s.len() - i,
    via rnd_pass_dec
{
    if !(0 <= i <= s.len()) {
        RndP { out: Seq::empty(), errs: Seq::empty(), used: 0, ok: false }
    } else {
        match rnd_find(s, i) {
            None => RndP {
                out: s.subrange(i, s.len() as int),
                errs: Seq::empty(),
                used: 0,
                ok: true,
            },
            Some((j, m)) => {
                let pre = s.subrange(i, j);
                let a = dec_val(s.subrange(m.a0, m.a1));
                let b = dec_val(s.subrange(m.b0, m.b1));
                if a > u64::MAX || b > u64::MAX || a > b {
                    let rest = rnd_pass(s, m.end, ch);
                    RndP {
                        out: pre + rest.out,
                        errs: seq![
                            ErrV::Malformed { directive: s.subrange(j, m.end) },
                        ] + rest.errs,
                        used: rest.used,
                        ok: rest.ok,
                    }
                } else if a < draw_hi(b as u64) {
                    let rest = rnd_pass(s, m.end, ch.skip(1));
                    RndP {
                        out: pre + dec_str(ch[0] as nat) + rest.out,
                        errs: rest.errs,
                        used: rest.used + 1,
                        ok: ch.len() > 0 && a <= ch[0] && ch[0] < draw_hi(b as u64) && rest.ok,
                    }
                } else {
                    let rest = rnd_pass(s, m.end, ch);
                    RndP {
                        out: pre + dec_str(a) + rest.out,
                        errs: rest.errs,
                        used: rest.used,
                        ok: rest.ok,
                    }
                }
            },
        }
    }
}

#[via_fn]
proof fn rnd_pass_dec(s: Seq<char>, i: int, ch: Seq<u64>) {
    if 0 <= i <= s.len() {
        if rnd_find(s, i) is Some {
            lemma_rnd_find_props(s, i);
            let (j, m) = rnd_find(s, i)->Some_0;
            lemma_rnd_match_bounds(s, j);
        }
    }
}

/// What the `$rnd` pass guarantees of a rewrite from `from` that drew
/// `ch` and produced `out`, for any extension of the draw sequence.
pub open spec fn rnd_holds(
    s: Seq<char>,
    from: int,
    ch: Seq<u64>,
    out: Seq<char>,
    errs0: Seq<ErrV>,
    errs1: Seq<ErrV>,
) -> bool {
    forall|ext: Seq<u64>|
        {
            let p = #[trigger] rnd_pass(s, from, ch + ext);
            &&& p.ok
            &&& out == p.out
            &&& p.used == ch.len()
            &&& errs1 == errs0 + p.errs
        }
}

/// The `$rnd` pass, on a character vector, handing back the draws it
/// made as a ghost witness.
pub fn rnd_rewrite(
    s: &Vec<char>,
    from: usize,
    errors: &mut Vec<RouteError>,
    rng: &mut rand::rngs::StdRng,
) -> (r: (Vec<char>, Ghost<Seq<u64>>))
    requires
        from <= s@.len(),
    ensures
        rnd_holds(s@, from as int, r.1@, r.0@, errs_v(old(errors)@), errs_v(final(errors)@)),
    decreases s@.len() - from,
{
    match find_rnd(s, from) {
        None => {
            let out = subvec(s, from, s.len());
            proof {
                assert forall|ext: Seq<u64>| {
                    let p = #[trigger] rnd_pass(s@, from as int, Seq::empty() + ext);
                    &&& p.ok
                    &&& out@ == p.out
                    &&& p.used == 0
                    &&& errs_v(errors@) == errs_v(old(errors)@) + p.errs
                } by {
                    assert(Seq::<u64>::empty() + ext =~= ext);
                    assert(errs_v(errors@) =~= errs_v(old(errors)@) + Seq::<ErrV>::empty());
                }
            }
            (out, Ghost(Seq::empty()))
        },
        Some((j, end, a0, a1, b0, b1)) => {
            proof {
                lemma_rnd_find_props(s@, from as int);
                lemma_rnd_match_bounds(s@, j as int);
            }
            let ghost m = RndM {
                end: end as int,
                a0: a0 as int,
                a1: a1 as int,
                b0: b0 as int,
                b1: b1 as int,
            };
            let mut out = subvec(s, from, j);
            let a_opt = parse_u64_digits(s, a0, a1);
            let b_opt = parse_u64_digits(s, b0, b1);
            let bad = match (a_opt, b_opt) {
                (Some(a), Some(b)) => a > b,
                _ => true,
            };
            if bad {
                let directive = string_from_chars(&subvec(s, j, end));
                push_err(errors, PreprocessingError::MalformedDirective { directive });
                let ghost mid = errs_v(errors@);
                let (rest, ch) = rnd_rewrite(s, end, errors, rng);
                extend_all(&mut out, &rest);
                proof {
                    assert forall|ext: Seq<u64>| {
                        let p = #[trigger] rnd_pass(s@, from as int, ch@ + ext);
                        &&& p.ok
                        &&& out@ == p.out
                        &&& p.used == ch@.len()
                        &&& errs_v(errors@) == errs_v(old(errors)@) + p.errs
                    } by {
                        let pr = rnd_pass(s@, end as int, ch@ + ext);
                        assert(out@ =~= s@.subrange(from as int, j as int) + pr.out);
                        assert(errs_v(errors@) =~= errs_v(old(errors)@) + (seq![
                            ErrV::Malformed { directive: s@.subrange(j as int, end as int) },
                        ] + pr.errs));
                    }
                }
                (out, ch)
            } else {
                let a = match a_opt {
                    Some(a) => a,
                    None => 0,
                };
                let b = match b_opt {
                    Some(b) => b,
                    None => 0,
                };
                let hi: u64 = if b == u64::MAX {
                    b
                } else {
                    b + 1
                };
                if a < hi {
                    let v = gen_range_u64(rng, a, hi);
                    let (rest, ch2) = rnd_rewrite(s, end, errors, rng);
                    push_dec_u64(&mut out, v);
                    extend_all(&mut out, &rest);
                    let ghost ch = seq![v] + ch2@;
                    proof {
                        assert forall|ext: Seq<u64>| {
                            let p = #[trigger] rnd_pass(s@, from as int, ch + ext);
                            &&& p.ok
                            &&& out@ == p.out
                            &&& p.used == ch.len()
                            &&& errs_v(errors@) == errs_v(old(errors)@) + p.errs
                        } by {
                            assert((ch + ext).skip(1) =~= ch2@ + ext);
                            assert((ch + ext)[0] == v);
                            assert((ch + ext).len() > 0);
                            let pr = rnd_pass(s@, end as int, ch2@ + ext);
                            assert(out@ =~= s@.subrange(from as int, j as int) + dec_str(
                                v as nat,
                            ) + pr.out);
                        }
                    }
                    (out, Ghost(ch))
                } else {
                    let (rest, ch) = rnd_rewrite(s, end, errors, rng);
                    push_dec_u64(&mut out, a);
                    extend_all(&mut out, &rest);
                    proof {
                        assert forall|ext: Seq<u64>| {
                            let p = #[trigger] rnd_pass(s@, from as int, ch@ + ext);
                            &&& p.ok
                            &&& out@ == p.out
                            &&& p.used == ch@.len()
                            &&& errs_v(errors@) == errs_v(old(errors)@) + p.errs
                        } by {
                            let pr = rnd_pass(s@, end as int, ch@ + ext);
                            assert(out@ =~= s@.subrange(from as int, j as int) + dec_str(
                                a as nat,
                            ) + pr.out);
                        }
                    }
                    (out, ch)
                }
            }
        },
    }
}

/// Random evaluation: each well-formed `$rnd(a;b)` occurrence is
/// replaced by one integer drawn from `[a, b]` (the upper bound itself
/// stays out of reach only when `b` is the largest `u64`); a directive
/// whose bounds do not parse or are out of order is elided with a
/// malformed-directive diagnostic.
pub fn run_rnd(content: &str, errors: &mut Vec<RouteError>, rng: &mut rand::rngs::StdRng) -> (r:
    String)
    ensures
        exists|ch: Seq<u64>|
            #![trigger rnd_pass(content@, 0, ch)]
            {
                let p = rnd_pass(content@, 0, ch);
                &&& p.ok
                &&& r@ == p.out
                &&& p.used == ch.len()
                &&& errs_v(final(errors)@) == errs_v(old(errors)@) + p.errs
            },
{
    let s = chars_vec(content);
    let (out, Ghost(ch)) = rnd_rewrite(&s, 0, errors, rng);
    let r = string_from_chars(&out);
    proof {
        assert(ch + Seq::<u64>::empty() =~= ch);
        let p = rnd_pass(content@, 0, ch + Seq::<u64>::empty());
        assert(p.ok && r@ == p.out && p.used == ch.len() && errs_v(errors@) == errs_v(
            old(errors)@,
        ) + p.errs);
    }
    r
}

/// Result of modelling the `$sub` pass: the rewritten text, the
/// diagnostics, the draws consumed by `$rnd` inside read values, whether
/// the draws are consistent, and the table as it stands afterwards.
pub ghost struct SubP {
    pub out: Seq<char>,
    pub errs: Seq<ErrV>,
    pub used: nat,
    pub ok: bool,
    pub map: Map<u64, Seq<char>>,
}

/// The `$sub` pass over `s[i..]` with table `m` and draws `ch`. An
/// assignment stores the raw rest of the line and emits nothing; a read
/// emits the stored value with the `$rnd` and `$chr` passes applied to
/// it (an index never assigned reads as empty); an index that does not
/// fit in `u64` is elided with an invalid-argument diagnostic.
pub open spec fn sub_pass(s: Seq<char>, i: int, m: Map<u64, Seq<char>>, ch: Seq<u64>) -> SubP
    decreases s.len() - i,
    via sub_pass_dec
{
    if !(0 <= i <= s.len()) {
        SubP { out: Seq::empty(), errs: Seq::empty(), used: 0, ok: false, map: m }
    } else {
        match sub_find(s, i) {
            None => SubP {
                out: s.subrange(i, s.len() as int),
                errs: Seq::empty(),
                used: 0,
                ok: true,
                map: m,
            },
            Some((j, sm)) => {
                let pre = s.subrange(i, j);
                let digits = s.subrange(sm.d0, sm.d1);
                if dec_val(digits) > u64::MAX {
                    let rest = sub_pass(s, sm.end, m, ch);
                    SubP {
                        out: pre + rest.out,
                        errs: seq![ErrV::InvalidSub { code: digits }] + rest.errs,
                        used: rest.used,
                        ok: rest.ok,
                        map: rest.map,
                    }
                } else {
                    let idx = dec_val(digits) as u64;
                    match sm.asg {
                        Some((v0, v1)) => {
                            let rest = sub_pass(s, sm.end, m.insert(idx, s.subrange(v0, v1)), ch);
                            SubP {
                                out: pre + rest.out,
                                errs: rest.errs,
                                used: rest.used,
                                ok: rest.ok,
                                map: rest.map,
                            }
                        },
                        None => {
                            let value = if m.contains_key(idx) {
                                m[idx]
                            } else {
                                Seq::empty()
                            };
                            let rp = rnd_pass(value, 0, ch);
                            let cv = chr_out(rp.out, 0);
                            let rest = sub_pass(s, sm.end, m, ch.skip(rp.used as int));
                            SubP {
                                out: pre + cv + rest.out,
                                errs: rp.errs + rest.errs,
                                used: rp.used + rest.used,
                                ok: rp.ok && rest.ok,
                                map: rest.map,
                            }
                        },
                    }
                }
            },
        }
    }
}

#[via_fn]
proof fn sub_pass_dec(s: Seq<char>, i: int, m: Map<u64, Seq<char>>, ch: Seq<u64>) {
    if 0 <= i <= s.len() {
        if sub_find(s, i) is Some {
            lemma_sub_find_props(s, i);
            let (j, sm) = sub_find(s, i)->Some_0;
            lemma_sub_match_bounds(s, j);
        }
    }
}

/// What the `$sub` pass guarantees of a rewrite from `from` against the
/// table `m0` that drew `ch`, produced `out` and left the table at `m1`,
/// for any extension of the draw sequence.
pub open spec fn sub_holds(
    s: Seq<char>,
    from: int,
    m0: Map<u64, Seq<char>>,
    ch: Seq<u64>,
    out: Seq<char>,
    errs0: Seq<ErrV>,
    errs1: Seq<ErrV>,
    m1: Map<u64, Seq<char>>,
) -> bool {
    forall|ext: Seq<u64>|
        {
            let p = #[trigger] sub_pass(s, from, m0, ch + ext);
            &&& p.ok
            &&& out == p.out
            &&& p.used == ch.len()
            &&& errs1 == errs0 + p.errs
            &&& m1 == p.map
        }
}

/// The `$sub` pass, on a character vector, against the table `map`.
pub fn sub_rewrite(
    s: &Vec<char>,
    from: usize,
    errors: &mut Vec<RouteError>,
    rng: &mut rand::rngs::StdRng,
    map: &mut SubMap,
) -> (r: (Vec<char>, Ghost<Seq<u64>>))
    requires
        from <= s@.len(),
    ensures
        sub_holds(
            s@,
            from as int,
            old(map)@,
            r.1@,
            r.0@,
            errs_v(old(errors)@),
            errs_v(final(errors)@),
            final(map)@,
        ),
    decreases s@.len() - from,
{
    match find_sub(s, from) {
        None => {
            let out = subvec(s, from, s.len());
            proof {
                assert forall|ext: Seq<u64>| {
                    let p = #[trigger] sub_pass(s@, from as int, old(map)@, Seq::empty() + ext);
                    &&& p.ok
                    &&& out@ == p.out
                    &&& p.used == 0
                    &&& errs_v(errors@) == errs_v(old(errors)@) + p.errs
                    &&& map@ == p.map
                } by {
                    assert(Seq::<u64>::empty() + ext =~= ext);
                    assert(errs_v(errors@) =~= errs_v(old(errors)@) + Seq::<ErrV>::empty());
                }
            }
            (out, Ghost(Seq::empty()))
        },
        Some((j, end, d0, d1, asg)) => {
            proof {
                lemma_sub_find_props(s@, from as int);
                lemma_sub_match_bounds(s@, j as int);
            }
            let mut out = subvec(s, from, j);
            match parse_u64_digits(s, d0, d1) {
                None => {
                    let code = string_from_chars(&subvec(s, d0, d1));
                    push_err(errors, PreprocessingError::InvalidSubArgument { code });
                    let (rest, ch) = sub_rewrite(s, end, errors, rng, map);
                    extend_all(&mut out, &rest);
                    proof {
                        assert forall|ext: Seq<u64>| {
                            let p = #[trigger] sub_pass(s@, from as int, old(map)@, ch@ + ext);
                            &&& p.ok
                            &&& out@ == p.out
                            &&& p.used == ch@.len()
                            &&& errs_v(errors@) == errs_v(old(errors)@) + p.errs
                            &&& map@ == p.map
                        } by {
                            let pr = sub_pass(s@, end as int, old(map)@, ch@ + ext);
                            assert(out@ =~= s@.subrange(from as int, j as int) + pr.out);
                            assert(errs_v(errors@) =~= errs_v(old(errors)@) + (seq![
                                ErrV::InvalidSub { code: s@.subrange(d0 as int, d1 as int) },
                            ] + pr.errs));
                        }
                    }
                    (out, ch)
                },
                Some(idx) => match asg {
                    Some((v0, v1)) => {
                        let value = string_from_chars(&subvec(s, v0, v1));
                        map.insert(idx, value);
                        let (rest, ch) = sub_rewrite(s, end, errors, rng, map);
                        extend_all(&mut out, &rest);
                        proof {
                            let m2 = old(map)@.insert(idx, s@.subrange(v0 as int, v1 as int));
                            assert forall|ext: Seq<u64>| {
                                let p = #[trigger] sub_pass(s@, from as int, old(map)@, ch@ + ext);
                                &&& p.ok
                                &&& out@ == p.out
                                &&& p.used == ch@.len()
                                &&& errs_v(errors@) == errs_v(old(errors)@) + p.errs
                                &&& map@ == p.map
                            } by {
                                let pr = sub_pass(s@, end as int, m2, ch@ + ext);
                                assert(out@ =~= s@.subrange(from as int, j as int) + pr.out);
                            }
                        }
                        (out, ch)
                    },
                    None => {
                        let value_chars: Vec<char> = match map.get(idx) {
                            Some(st) => chars_vec(st.as_str()),
                            None => Vec::new(),
                        };
                        let ghost spec_value = if old(map)@.contains_key(idx) {
                            old(map)@[idx]
                        } else {
                            Seq::<char>::empty()
                        };
                        proof {
                            assert(value_chars@ =~= spec_value);
                        }
                        let (rv, ch1) = rnd_rewrite(&value_chars, 0, errors, rng);
                        let cv = chr_rewrite(&rv, 0);
                        extend_all(&mut out, &cv);
                        let (rest, ch2) = sub_rewrite(s, end, errors, rng, map);
                        extend_all(&mut out, &rest);
                        let ghost ch = ch1@ + ch2@;
                        proof {
                            assert forall|ext: Seq<u64>| {
                                let p = #[trigger] sub_pass(s@, from as int, old(map)@, ch + ext);
                                &&& p.ok
                                &&& out@ == p.out
                                &&& p.used == ch.len()
                                &&& errs_v(errors@) == errs_v(old(errors)@) + p.errs
                                &&& map@ == p.map
                            } by {
                                assert(ch + ext =~= ch1@ + (ch2@ + ext));
                                let rp = rnd_pass(spec_value, 0, ch1@ + (ch2@ + ext));
                                assert(rp.ok && rv@ == rp.out && rp.used == ch1@.len());
                                assert((ch + ext).skip(rp.used as int) =~= ch2@ + ext);
                                let pr = sub_pass(s@, end as int, old(map)@, ch2@ + ext);
                                assert(out@ =~= s@.subrange(from as int, j as int) + chr_out(
                                    rp.out,
                                    0,
                                ) + pr.out);
                                assert(errs_v(errors@) =~= errs_v(old(errors)@) + (rp.errs
                                    + pr.errs));
                            }
                        }
                        (out, Ghost(ch))
                    },
                },
            }
        },
    }
}

/// Variable substitution: assignments `$sub(n) = value` store the rest
/// of the line and are elided; reads `$sub(n)` are replaced by the
/// stored value with `$rnd` and `$chr` applied to it; an index that does
/// not fit produces an invalid-argument diagnostic. The one table is
/// threaded through the whole pass, so a later assignment overrides an
/// earlier one.
pub fn run_sub(
    content: &str,
    errors: &mut Vec<RouteError>,
    rng: &mut rand::rngs::StdRng,
    sub_map: &mut SubMap,
) -> (r: String)
    ensures
        exists|ch: Seq<u64>|
            #![trigger sub_pass(content@, 0, old(sub_map)@, ch)]
            {
                let p = sub_pass(content@, 0, old(sub_map)@, ch);
                &&& p.ok
                &&& r@ == p.out
                &&& p.used == ch.len()
                &&& errs_v(final(errors)@) == errs_v(old(errors)@) + p.errs
                &&& final(sub_map)@ == p.map
            },
{
    let s = chars_vec(content);
    let (out, Ghost(ch)) = sub_rewrite(&s, 0, errors, rng, sub_map);
    let r = string_from_chars(&out);
    proof {
        assert(ch + Seq::<u64>::empty() =~= ch);
        let p = sub_pass(content@, 0, old(sub_map)@, ch + Seq::<u64>::empty());
        assert(p.ok && r@ == p.out && p.used == ch.len() && errs_v(errors@) == errs_v(
            old(errors)@,
        ) + p.errs && sub_map@ == p.map);
    }
    r
}

} // verus!

use crate::route::pat::{find_ies, find_ifp, ies_find, ies_match_at, ifp_find,
    lemma_ies_find_props, lemma_ies_match_bounds, lemma_ifp_find_props, lemma_ifp_match_bounds,
    IesKw, IesM, IfpM};

verus! {

/// Truth of a condition: the processed text must contain `$if(digits)`
/// whose digits parse as a nonzero signed 64-bit value; anything else —
/// a missing or malformed condition included — counts as false.
pub open spec fn if_cond(t: Seq<char>) -> bool {
    match ifp_find(t, 0) {
        Some((j, m)) => {
            let v = dec_val(t.subrange(m.d0, m.d1));
            v <= i64::MAX && v != 0
        },
        None => false,
    }
}

pub fn eval_cond(t: &Vec<char>) -> (r: bool)
    ensures
        r == if_cond(t@),
{
    match find_ifp(t, 0) {
        None => false,
        Some((j, end, d0, d1)) => {
            proof {
                lemma_ifp_find_props(t@, 0);
                lemma_ifp_match_bounds(t@, j as int);
            }
            match parse_u64_digits(t, d0, d1) {
                None => false,
                Some(v) => v <= 9223372036854775807u64 && v != 0,
            }
        },
    }
}

/// Result of modelling the conditional pass: the rewritten text, the
/// diagnostics, the draws consumed, whether the draws are consistent,
/// and the substitution table afterwards.
pub ghost struct IfP {
    pub out: Seq<char>,
    pub errs: Seq<ErrV>,
    pub used: nat,
    pub ok: bool,
    pub map: Map<u64, Seq<char>>,
}

/// The conditional pass over a whole text: a scan starting outside any
/// conditional.
pub open spec fn if_pass(s: Seq<char>, m: Map<u64, Seq<char>>, ch: Seq<u64>) -> IfP
    decreases s.len(), 2int, 0int,
{
    if_scan(s, 0, 0, 0, false, 0, m, ch)
}

/// One step of the conditional scan. `last` is where the copied-through
/// text resumes, `pos` is where the search for the next
/// `$if`/`$else`/`$endif` starts, `depth` counts open conditionals,
/// `ifval` is the truth of the open top-level conditional, and `ifstart`
/// is where its current branch's body starts. Only depth-one directives
/// are acted on: deeper ones stay opaque until the branch that holds
/// them is retained, and are then resolved by re-scanning that branch.
/// Text copied through receives the `$sub` pass; a retained branch is
/// re-scanned recursively; a false branch is dropped, draws and all. At
/// the end of the text, an unterminated true branch is re-scanned as if
/// it were everything after the dangling directive, an unterminated
/// false branch is dropped, and with no conditional open the tail is
/// copied through the `$sub` pass.
pub open spec fn if_scan(
    s: Seq<char>,
    last: int,
    pos: int,
    depth: nat,
    ifval: bool,
    ifstart: int,
    m: Map<u64, Seq<char>>,
    ch: Seq<u64>,
) -> IfP
    decreases s.len(), 1int, s.len() - pos,
    via if_scan_dec
{
    if !(0 <= last <= pos <= s.len() && 0 <= ifstart <= pos) {
        IfP { out: Seq::empty(), errs: Seq::empty(), used: 0, ok: false, map: m }
    } else {
        match ies_find(s, pos) {
            None => {
                if depth == 0 {
                    let sp = sub_pass(s.subrange(last, s.len() as int), 0, m, ch);
                    IfP { out: sp.out, errs: sp.errs, used: sp.used, ok: sp.ok, map: sp.map }
                } else if ifval {
                    if 1 <= last {
                        if_pass(s.subrange(last, s.len() as int), m, ch)
                    } else {
                        IfP { out: Seq::empty(), errs: Seq::empty(), used: 0, ok: false, map: m }
                    }
                } else {
                    IfP { out: Seq::empty(), errs: Seq::empty(), used: 0, ok: true, map: m }
                }
            },
            Some((j, ie)) => match ie.kw {
                IesKw::If => {
                    if depth + 1 != 1 {
                        if_scan(s, last, ie.end, depth + 1, ifval, ifstart, m, ch)
                    } else {
                        let pp = sub_pass(s.subrange(last, j), 0, m, ch);
                        let sp = sub_pass(
                            s.subrange(j, ie.end),
                            0,
                            pp.map,
                            ch.skip(pp.used as int),
                        );
                        let rp = rnd_pass(sp.out, 0, ch.skip(pp.used + sp.used as int));
                        let cond = if_cond(rp.out);
                        let rest = if_scan(
                            s,
                            ie.end,
                            ie.end,
                            1,
                            cond,
                            ie.end,
                            sp.map,
                            ch.skip(pp.used + sp.used + rp.used as int),
                        );
                        IfP {
                            out: pp.out + rest.out,
                            errs: pp.errs + sp.errs + rp.errs + rest.errs,
                            used: pp.used + sp.used + rp.used + rest.used,
                            ok: pp.ok && sp.ok && rp.ok && rest.ok,
                            map: rest.map,
                        }
                    }
                },
                IesKw::Else => {
                    if depth != 1 {
                        if_scan(s, last, ie.end, depth, ifval, ifstart, m, ch)
                    } else if ifval {
                        if 1 <= ifstart <= j {
                            let bp = if_pass(s.subrange(ifstart, j), m, ch);
                            let rest = if_scan(
                                s,
                                ie.end,
                                ie.end,
                                1,
                                false,
                                ie.end,
                                bp.map,
                                ch.skip(bp.used as int),
                            );
                            IfP {
                                out: bp.out + rest.out,
                                errs: bp.errs + rest.errs,
                                used: bp.used + rest.used,
                                ok: bp.ok && rest.ok,
                                map: rest.map,
                            }
                        } else {
                            IfP {
                                out: Seq::empty(),
                                errs: Seq::empty(),
                                used: 0,
                                ok: false,
                                map: m,
                            }
                        }
                    } else {
                        if_scan(s, ie.end, ie.end, 1, true, ie.end, m, ch)
                    }
                },
                IesKw::Endif => {
                    if depth == 0 {
                        if_scan(s, last, ie.end, 0, ifval, ifstart, m, ch)
                    } else if depth != 1 {
                        if_scan(s, last, ie.end, (depth - 1) as nat, ifval, ifstart, m, ch)
                    } else if ifval {
                        if 1 <= ifstart <= j {
                            let bp = if_pass(s.subrange(ifstart, j), m, ch);
                            let rest = if_scan(
                                s,
                                ie.end,
                                ie.end,
                                0,
                                ifval,
                                ifstart,
                                bp.map,
                                ch.skip(bp.used as int),
                            );
                            IfP {
                                out: bp.out + rest.out,
                                errs: bp.errs + rest.errs,
                                used: bp.used + rest.used,
                                ok: bp.ok && rest.ok,
                                map: rest.map,
                            }
                        } else {
                            IfP {
                                out: Seq::empty(),
                                errs: Seq::empty(),
                                used: 0,
                                ok: false,
                                map: m,
                            }
                        }
                    } else {
                        if_scan(s, ie.end, ie.end, 0, ifval, ifstart, m, ch)
                    }
                },
            },
        }
    }
}

#[via_fn]
proof fn if_scan_dec(
    s: Seq<char>,
    last: int,
    pos: int,
    depth: nat,
    ifval: bool,
    ifstart: int,
    m: Map<u64, Seq<char>>,
    ch: Seq<u64>,
) {
    if 0 <= last <= pos <= s.len() && 0 <= ifstart <= pos {
        if ies_find(s, pos) is Some {
            lemma_ies_find_props(s, pos);
            let (j, ie) = ies_find(s, pos)->Some_0;
            lemma_ies_match_bounds(s, j);
        }
    }
}

} // verus!

verus! {

/// What the conditional scan guarantees, for any extension of the draw
/// sequence.
pub open spec fn if_holds(
    s: Seq<char>,
    last: int,
    pos: int,
    depth: nat,
    ifval: bool,
    ifstart: int,
    m0: Map<u64, Seq<char>>,
    ch: Seq<u64>,
    out: Seq<char>,
    errs0: Seq<ErrV>,
    errs1: Seq<ErrV>,
    m1: Map<u64, Seq<char>>,
) -> bool {
    forall|ext: Seq<u64>|
        {
            let p = #[trigger] if_scan(s, last, pos, depth, ifval, ifstart, m0, ch + ext);
            &&& p.ok
            &&& out == p.out
            &&& p.used == ch.len()
            &&& errs1 == errs0 + p.errs
            &&& m1 == p.map
        }
}

/// One step of the conditional scan, on a character vector.
#[verifier::rlimit(100)]
fn if_scan_exec(
    s: &Vec<char>,
    last: usize,
    pos: usize,
    depth: usize,
    ifval: bool,
    ifstart: usize,
    errors: &mut Vec<RouteError>,
    rng: &mut rand::rngs::StdRng,
    map: &mut SubMap,
) -> (r: (Vec<char>, Ghost<Seq<u64>>))
    requires
        last <= pos <= s@.len(),
        ifstart <= pos,
        depth <= pos,
        depth >= 1 ==> 1 <= last && 1 <= ifstart,
    ensures
        if_holds(
            s@,
            last as int,
            pos as int,
            depth as nat,
            ifval,
            ifstart as int,
            old(map)@,
            r.1@,
            r.0@,
            errs_v(old(errors)@),
            errs_v(final(errors)@),
            final(map)@,
        ),
    decreases s@.len(), 1int, s@.len() - pos,
{
    match find_ies(s, pos) {
        None => {
            if depth == 0 {
                let tail = subvec(s, last, s.len());
                let (out, ch) = sub_rewrite(&tail, 0, errors, rng, map);
                proof {
                    assert forall|ext: Seq<u64>| {
                        let p = #[trigger] if_scan(
                            s@,
                            last as int,
                            pos as int,
                            depth as nat,
                            ifval,
                            ifstart as int,
                            old(map)@,
                            ch@ + ext,
                        );
                        &&& p.ok
                        &&& out@ == p.out
                        &&& p.used == ch@.len()
                        &&& errs_v(errors@) == errs_v(old(errors)@) + p.errs
                        &&& map@ == p.map
                    } by {
                        let sp = sub_pass(s@.subrange(last as int, s@.len() as int), 0, old(map)@, ch@ + ext);
                        assert(tail@ == s@.subrange(last as int, s@.len() as int));
                    }
                }
                (out, ch)
            } else if ifval {
                let tail = subvec(s, last, s.len());
                let (out, ch) = if_pass_exec(&tail, errors, rng, map);
                proof {
                    assert forall|ext: Seq<u64>| {
                        let p = #[trigger] if_scan(
                            s@,
                            last as int,
                            pos as int,
                            depth as nat,
                            ifval,
                            ifstart as int,
                            old(map)@,
                            ch@ + ext,
                        );
                        &&& p.ok
                        &&& out@ == p.out
                        &&& p.used == ch@.len()
                        &&& errs_v(errors@) == errs_v(old(errors)@) + p.errs
                        &&& map@ == p.map
                    } by {
                        let q = if_scan(tail@, 0, 0, 0, false, 0, old(map)@, ch@ + ext);
                        assert(tail@ == s@.subrange(last as int, s@.len() as int));
                        assert(if_pass(s@.subrange(last as int, s@.len() as int), old(map)@, ch@ + ext) == q);
                    }
                }
                (out, ch)
            } else {
                let out: Vec<char> = Vec::new();
                proof {
                    assert forall|ext: Seq<u64>| {
                        let p = #[trigger] if_scan(
                            s@,
                            last as int,
                            pos as int,
                            depth as nat,
                            ifval,
                            ifstart as int,
                            old(map)@,
                            Seq::empty() + ext,
                        );
                        &&& p.ok
                        &&& out@ == p.out
                        &&& p.used == 0
                        &&& errs_v(errors@) == errs_v(old(errors)@) + p.errs
                        &&& map@ == p.map
                    } by {
                        assert(out@ =~= Seq::<char>::empty());
                        assert(errs_v(errors@) =~= errs_v(old(errors)@) + Seq::<ErrV>::empty());
                    }
                }
                (out, Ghost(Seq::empty()))
            }
        },
        Some((j, kw, end)) => {
            proof {
                lemma_ies_find_props(s@, pos as int);
                lemma_ies_match_bounds(s@, j as int);
            }
            if kw == 0 {
                if depth != 0 {
                    let (out, ch) = if_scan_exec(s, last, end, depth + 1, ifval, ifstart, errors, rng, map);
                    proof {
                        assert forall|ext: Seq<u64>| {
                            let p = #[trigger] if_scan(
                                s@,
                                last as int,
                                pos as int,
                                depth as nat,
                                ifval,
                                ifstart as int,
                                old(map)@,
                                ch@ + ext,
                            );
                            &&& p.ok
                            &&& out@ == p.out
                            &&& p.used == ch@.len()
                            &&& errs_v(errors@) == errs_v(old(errors)@) + p.errs
                            &&& map@ == p.map
                        } by {
                            let q = if_scan(
                                s@,
                                last as int,
                                end as int,
                                (depth + 1) as nat,
                                ifval,
                                ifstart as int,
                                old(map)@,
                                ch@ + ext,
                            );
                        }
                    }
                    (out, ch)
                } else {
                    let prev = subvec(s, last, j);
                    let (pout, chp) = sub_rewrite(&prev, 0, errors, rng, map);
                    let ghost e1 = errs_v(errors@);
                    let ghost m1 = map@;
                    let stmt = subvec(s, j, end);
                    let (sout, chs) = sub_rewrite(&stmt, 0, errors, rng, map);
                    let ghost e2 = errs_v(errors@);
                    let ghost m2 = map@;
                    let (rout, chd) = rnd_rewrite(&sout, 0, errors, rng);
                    let ghost e3 = errs_v(errors@);
                    let cond = eval_cond(&rout);
                    let (rest, chrest) = if_scan_exec(s, end, end, 1, cond, end, errors, rng, map);
                    let mut out = pout;
                    extend_all(&mut out, &rest);
                    let ghost ch = chp@ + (chs@ + (chd@ + chrest@));
                    proof {
                        assert forall|ext: Seq<u64>| {
                            let p = #[trigger] if_scan(
                                s@,
                                last as int,
                                pos as int,
                                depth as nat,
                                ifval,
                                ifstart as int,
                                old(map)@,
                                ch + ext,
                            );
                            &&& p.ok
                            &&& out@ == p.out
                            &&& p.used == ch.len()
                            &&& errs_v(errors@) == errs_v(old(errors)@) + p.errs
                            &&& map@ == p.map
                        } by {
                            let t3 = chrest@ + ext;
                            let t2 = chd@ + t3;
                            let t1 = chs@ + t2;
                            assert(ch + ext =~= chp@ + t1);
                            let pp = sub_pass(s@.subrange(last as int, j as int), 0, old(map)@, chp@ + t1);
                            assert(prev@ == s@.subrange(last as int, j as int));
                            assert(pp.ok && pout@ == pp.out && pp.used == chp@.len() && e1
                                == errs_v(old(errors)@) + pp.errs && m1 == pp.map);
                            assert((ch + ext).skip(pp.used as int) =~= t1);
                            let sp = sub_pass(s@.subrange(j as int, end as int), 0, pp.map, chs@ + t2);
                            assert(stmt@ == s@.subrange(j as int, end as int));
                            assert(sp.ok && sout@ == sp.out && sp.used == chs@.len() && e2 == e1
                                + sp.errs && m2 == sp.map);
                            assert((ch + ext).skip(pp.used + sp.used as int) =~= t2);
                            let rp = rnd_pass(sp.out, 0, chd@ + t3);
                            assert(rp.ok && rout@ == rp.out && rp.used == chd@.len() && e3 == e2
                                + rp.errs);
                            assert((ch + ext).skip(pp.used + sp.used + rp.used as int) =~= t3);
                            let rest_p = if_scan(s@, end as int, end as int, 1, cond, end as int, sp.map, chrest@ + ext);
                            assert(rest_p.ok && rest@ == rest_p.out && rest_p.used
                                == chrest@.len() && errs_v(errors@) == e3 + rest_p.errs && map@
                                == rest_p.map);
                            assert(out@ =~= pp.out + rest_p.out);
                            assert(errs_v(errors@) =~= errs_v(old(errors)@) + (pp.errs + sp.errs
                                + rp.errs + rest_p.errs));
                            assert(ch.len() == chp@.len() + chs@.len() + chd@.len()
                                + chrest@.len());
                        }
                    }
                    (out, Ghost(ch))
                }
            } else if kw == 1 {
                if depth != 1 {
                    let (out, ch) = if_scan_exec(s, last, end, depth, ifval, ifstart, errors, rng, map);
                    proof {
                        assert forall|ext: Seq<u64>| {
                            let p = #[trigger] if_scan(
                                s@,
                                last as int,
                                pos as int,
                                depth as nat,
                                ifval,
                                ifstart as int,
                                old(map)@,
                                ch@ + ext,
                            );
                            &&& p.ok
                            &&& out@ == p.out
                            &&& p.used == ch@.len()
                            &&& errs_v(errors@) == errs_v(old(errors)@) + p.errs
                            &&& map@ == p.map
                        } by {
                            let q = if_scan(
                                s@,
                                last as int,
                                end as int,
                                depth as nat,
                                ifval,
                                ifstart as int,
                                old(map)@,
                                ch@ + ext,
                            );
                        }
                    }
                    (out, ch)
                } else if ifval {
                    let body = subvec(s, ifstart, j);
                    let (bout, chb) = if_pass_exec(&body, errors, rng, map);
                    let ghost e1 = errs_v(errors@);
                    let ghost m1 = map@;
                    let (rest, chrest) = if_scan_exec(s, end, end, 1, false, end, errors, rng, map);
                    let mut out = bout;
                    extend_all(&mut out, &rest);
                    let ghost ch = chb@ + chrest@;
                    proof {
                        assert forall|ext: Seq<u64>| {
                            let p = #[trigger] if_scan(
                                s@,
                                last as int,
                                pos as int,
                                depth as nat,
                                ifval,
                                ifstart as int,
                                old(map)@,
                                ch + ext,
                            );
                            &&& p.ok
                            &&& out@ == p.out
                            &&& p.used == ch.len()
                            &&& errs_v(errors@) == errs_v(old(errors)@) + p.errs
                            &&& map@ == p.map
                        } by {
                            let t1 = chrest@ + ext;
                            assert(ch + ext =~= chb@ + t1);
                            assert(body@ == s@.subrange(ifstart as int, j as int));
                            let q = if_scan(body@, 0, 0, 0, false, 0, old(map)@, chb@ + t1);
                            let bp = if_pass(s@.subrange(ifstart as int, j as int), old(map)@, chb@ + t1);
                            assert(bp == q);
                            assert(bp.ok && bout@ == bp.out && bp.used == chb@.len() && e1
                                == errs_v(old(errors)@) + bp.errs && m1 == bp.map);
                            assert((ch + ext).skip(bp.used as int) =~= t1);
                            let rest_p = if_scan(s@, end as int, end as int, 1, false, end as int, bp.map, chrest@ + ext);
                            assert(out@ =~= bp.out + rest_p.out);
                            assert(errs_v(errors@) =~= errs_v(old(errors)@) + (bp.errs
                                + rest_p.errs));
                        }
                    }
                    (out, Ghost(ch))
                } else {
                    let (out, ch) = if_scan_exec(s, end, end, 1, true, end, errors, rng, map);
                    proof {
                        assert forall|ext: Seq<u64>| {
                            let p = #[trigger] if_scan(
                                s@,
                                last as int,
                                pos as int,
                                depth as nat,
                                ifval,
                                ifstart as int,
                                old(map)@,
                                ch@ + ext,
                            );
                            &&& p.ok
                            &&& out@ == p.out
                            &&& p.used == ch@.len()
                            &&& errs_v(errors@) == errs_v(old(errors)@) + p.errs
                            &&& map@ == p.map
                        } by {
                            let q = if_scan(s@, end as int, end as int, 1, true, end as int, old(map)@, ch@ + ext);
                        }
                    }
                    (out, ch)
                }
            } else {
                if depth == 0 {
                    let (out, ch) = if_scan_exec(s, last, end, 0, ifval, ifstart, errors, rng, map);
                    proof {
                        assert forall|ext: Seq<u64>| {
                            let p = #[trigger] if_scan(
                                s@,
                                last as int,
                                pos as int,
                                depth as nat,
                                ifval,
                                ifstart as int,
                                old(map)@,
                                ch@ + ext,
                            );
                            &&& p.ok
                            &&& out@ == p.out
                            &&& p.used == ch@.len()
                            &&& errs_v(errors@) == errs_v(old(errors)@) + p.errs
                            &&& map@ == p.map
                        } by {
                            let q = if_scan(
                                s@,
                                last as int,
                                end as int,
                                0,
                                ifval,
                                ifstart as int,
                                old(map)@,
                                ch@ + ext,
                            );
                        }
                    }
                    (out, ch)
                } else if depth != 1 {
                    let (out, ch) = if_scan_exec(s, last, end, depth - 1, ifval, ifstart, errors, rng, map);
                    proof {
                        assert forall|ext: Seq<u64>| {
                            let p = #[trigger] if_scan(
                                s@,
                                last as int,
                                pos as int,
                                depth as nat,
                                ifval,
                                ifstart as int,
                                old(map)@,
                                ch@ + ext,
                            );
                            &&& p.ok
                            &&& out@ == p.out
                            &&& p.used == ch@.len()
                            &&& errs_v(errors@) == errs_v(old(errors)@) + p.errs
                            &&& map@ == p.map
                        } by {
                            let q = if_scan(
                                s@,
                                last as int,
                                end as int,
                                (depth - 1) as nat,
                                ifval,
                                ifstart as int,
                                old(map)@,
                                ch@ + ext,
                            );
                        }
                    }
                    (out, ch)
                } else if ifval {
                    let body = subvec(s, ifstart, j);
                    let (bout, chb) = if_pass_exec(&body, errors, rng, map);
                    let ghost e1 = errs_v(errors@);
                    let ghost m1 = map@;
                    let (rest, chrest) = if_scan_exec(s, end, end, 0, ifval, ifstart, errors, rng, map);
                    let mut out = bout;
                    extend_all(&mut out, &rest);
                    let ghost ch = chb@ + chrest@;
                    proof {
                        assert forall|ext: Seq<u64>| {
                            let p = #[trigger] if_scan(
                                s@,
                                last as int,
                                pos as int,
                                depth as nat,
                                ifval,
                                ifstart as int,
                                old(map)@,
                                ch + ext,
                            );
                            &&& p.ok
                            &&& out@ == p.out
                            &&& p.used == ch.len()
                            &&& errs_v(errors@) == errs_v(old(errors)@) + p.errs
                            &&& map@ == p.map
                        } by {
                            let t1 = chrest@ + ext;
                            assert(ch + ext =~= chb@ + t1);
                            assert(body@ == s@.subrange(ifstart as int, j as int));
                            let q = if_scan(body@, 0, 0, 0, false, 0, old(map)@, chb@ + t1);
                            let bp = if_pass(s@.subrange(ifstart as int, j as int), old(map)@, chb@ + t1);
                            assert(bp == q);
                            assert(bp.ok && bout@ == bp.out && bp.used == chb@.len() && e1
                                == errs_v(old(errors)@) + bp.errs && m1 == bp.map);
                            assert((ch + ext).skip(bp.used as int) =~= t1);
                            let rest_p = if_scan(s@, end as int, end as int, 0, ifval, ifstart as int, bp.map, chrest@ + ext);
                            assert(out@ =~= bp.out + rest_p.out);
                            assert(errs_v(errors@) =~= errs_v(old(errors)@) + (bp.errs
                                + rest_p.errs));
                        }
                    }
                    (out, Ghost(ch))
                } else {
                    let (out, ch) = if_scan_exec(s, end, end, 0, ifval, ifstart, errors, rng, map);
                    proof {
                        assert forall|ext: Seq<u64>| {
                            let p = #[trigger] if_scan(
                                s@,
                                last as int,
                                pos as int,
                                depth as nat,
                                ifval,
                                ifstart as int,
                                old(map)@,
                                ch@ + ext,
                            );
                            &&& p.ok
                            &&& out@ == p.out
                            &&& p.used == ch@.len()
                            &&& errs_v(errors@) == errs_v(old(errors)@) + p.errs
                            &&& map@ == p.map
                        } by {
                            let q = if_scan(
                                s@,
                                end as int,
                                end as int,
                                0,
                                ifval,
                                ifstart as int,
                                old(map)@,
                                ch@ + ext,
                            );
                        }
                    }
                    (out, ch)
                }
            }
        },
    }
}

/// The conditional pass over a whole text, on a character vector.
fn if_pass_exec(
    s: &Vec<char>,
    errors: &mut Vec<RouteError>,
    rng: &mut rand::rngs::StdRng,
    map: &mut SubMap,
) -> (r: (Vec<char>, Ghost<Seq<u64>>))
    ensures
        if_holds(
            s@,
            0,
            0,
            0,
            false,
            0,
            old(map)@,
            r.1@,
            r.0@,
            errs_v(old(errors)@),
            errs_v(final(errors)@),
            final(map)@,
        ),
    decreases s@.len(), 2int, 0int,
{
    if_scan_exec(s, 0, 0, 0, false, 0, errors, rng, map)
}

/// Conditional evaluation: the outermost `$if`/`$else`/`$endif` triplets
/// are resolved against their conditions (each condition has `$sub` and
/// then `$rnd` applied before it is read; failures count as false), the
/// retained branch bodies are re-scanned recursively for nested
/// conditionals, text outside directive matches is copied through the
/// `$sub` pass, an unterminated true branch degrades into a re-scan of
/// the remaining text, and stray `$else`/`$endif` directives are left
/// alone without error.
pub fn run_if(
    content: &str,
    errors: &mut Vec<RouteError>,
    rng: &mut rand::rngs::StdRng,
    sub_map: &mut SubMap,
) -> (r: String)
    ensures
        exists|ch: Seq<u64>|
            #![trigger if_pass(content@, old(sub_map)@, ch)]
            {
                let p = if_pass(content@, old(sub_map)@, ch);
                &&& p.ok
                &&& r@ == p.out
                &&& p.used == ch.len()
                &&& errs_v(final(errors)@) == errs_v(old(errors)@) + p.errs
                &&& final(sub_map)@ == p.map
            },
{
    let s = chars_vec(content);
    let (out, Ghost(ch)) = if_pass_exec(&s, errors, rng, sub_map);
    let r = string_from_chars(&out);
    proof {
        assert(ch + Seq::<u64>::empty() =~= ch);
        let p = if_scan(content@, 0, 0, 0, false, 0, old(sub_map)@, ch + Seq::<u64>::empty());
        assert(p.ok && r@ == p.out && p.used == ch.len() && errs_v(errors@) == errs_v(
            old(errors)@,
        ) + p.errs && sub_map@ == p.map);
        assert(if_pass(content@, old(sub_map)@, ch) == p);
    }
    r
}

} // verus!
