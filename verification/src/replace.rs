//! URL rewriting for proxied page bodies: every occurrence of each source
//! text is replaced by its target, optionally also in the form with
//! escaped slashes that serialized bodies carry.
//!
//! Replacement is leftmost and non-overlapping; an empty source text
//! inserts the target at every character boundary.
use vstd::prelude::*;

use crate::parse_utils::chars_to_string;
use vstd::string::StrSliceExecFns;

verus! {

/// Replacement of the empty source text after the first boundary: each
/// remaining character followed by the target.
pub open spec fn spec_replace_empty_rest(s: Seq<char>, to: Seq<char>) -> Seq<char>
    decreases s.len(),
{
    if s.len() == 0 {
        Seq::empty()
    } else {
        seq![s[0]] + to + spec_replace_empty_rest(s.skip(1), to)
    }
}

/// Replacement of the empty source text: the target at every character
/// boundary, including both ends.
pub open spec fn spec_replace_empty(s: Seq<char>, to: Seq<char>) -> Seq<char> {
    to + spec_replace_empty_rest(s, to)
}

/// Replacement of a non-empty source text, leftmost and non-overlapping.
pub open spec fn spec_replace_from(s: Seq<char>, from: Seq<char>, to: Seq<char>) -> Seq<char>
    recommends
        from.len() > 0,
    decreases s.len(),
{
    if s.len() == 0 || from.len() == 0 {
        Seq::empty()
    } else if s.len() >= from.len() && s.take(from.len() as int) == from {
        to + spec_replace_from(s.skip(from.len() as int), from, to)
    } else {
        seq![s[0]] + spec_replace_from(s.skip(1), from, to)
    }
}

/// Every occurrence of `from` in `s` replaced by `to`.
pub open spec fn spec_replace_all(s: Seq<char>, from: Seq<char>, to: Seq<char>) -> Seq<char> {
    if from.len() == 0 {
        spec_replace_empty(s, to)
    } else {
        spec_replace_from(s, from, to)
    }
}

/// One rewriting step of the body: the plain replacement, then — when
/// escaped forms are asked for — the same replacement with `/` written
/// as `\/` on both sides.
pub open spec fn spec_replace_step(
    body: Seq<char>,
    from: Seq<char>,
    to: Seq<char>,
    esc: bool,
) -> Seq<char> {
    let plain = spec_replace_all(body, from, to);
    if esc {
        spec_replace_all(
            plain,
            spec_replace_all(from, seq!['/'], seq!['\\', '/']),
            spec_replace_all(to, seq!['/'], seq!['\\', '/']),
        )
    } else {
        plain
    }
}

/// The views of the replacement pairs, in order.
pub open spec fn pairs_view(v: Seq<(String, String)>) -> Seq<(Seq<char>, Seq<char>)> {
    Seq::new(v.len(), |i: int| (v[i].0@, v[i].1@))
}

/// The body after every replacement pair has been applied in order,
/// each pair read as (source, target).
pub open spec fn spec_replace_urls(
    body: Seq<char>,
    reps: Seq<(Seq<char>, Seq<char>)>,
    esc: bool,
) -> Seq<char>
    decreases reps.len(),
{
    if reps.len() == 0 {
        body
    } else {
        spec_replace_urls(spec_replace_step(body, reps[0].0, reps[0].1, esc), reps.skip(1), esc)
    }
}

/// The body after every replacement pair has been applied in order,
/// each pair read the other way around: (target, source).
pub open spec fn spec_replace_urls_rev(
    body: Seq<char>,
    reps: Seq<(Seq<char>, Seq<char>)>,
    esc: bool,
) -> Seq<char>
    decreases reps.len(),
{
    if reps.len() == 0 {
        body
    } else {
        spec_replace_urls_rev(
            spec_replace_step(body, reps[0].1, reps[0].0, esc),
            reps.skip(1),
            esc,
        )
    }
}

/// The characters of a string, in order.
fn str_chars(s: &str) -> (r: Vec<char>)
    ensures
        r@ == s@,
{
    let n: usize = s.unicode_len();
    let mut out: Vec<char> = Vec::new();
    let mut i: usize = 0;
    while i < n
        invariant
            0 <= i <= n,
            n == s@.len(),
            out@ == s@.take(i as int),
        decreases n - i,
    {
        out.push(s.get_char(i));
        proof {
            assert(s@.take(i as int).push(s@[i as int]) =~= s@.take(i + 1));
        }
        i += 1;
    }
    proof {
        assert(s@.take(n as int) =~= s@);
    }
    out
}

/// Appends every character of `src` to `dst`.
fn push_all(dst: &mut Vec<char>, src: &Vec<char>)
    ensures
        final(dst)@ == old(dst)@ + src@,
{
    let mut i: usize = 0;
    proof {
        assert(old(dst)@ + src@.take(0) =~= old(dst)@);
    }
    while i < src.len()
        invariant
            0 <= i <= src@.len(),
            dst@ == old(dst)@ + src@.take(i as int),
        decreases src@.len() - i,
    {
        dst.push(src[i]);
        proof {
            assert((old(dst)@ + src@.take(i as int)).push(src@[i as int]) =~= old(dst)@
                + src@.take(i + 1));
        }
        i += 1;
    }
    proof {
        assert(old(dst)@ + src@.take(src@.len() as int) =~= old(dst)@ + src@);
    }
}

/// Every occurrence of `from` in `cs` replaced by `to`, leftmost first.
fn replace_chars(cs: &Vec<char>, from: &Vec<char>, to: &Vec<char>) -> (r: Vec<char>)
    ensures
        r@ == spec_replace_all(cs@, from@, to@),
{
    let mut out: Vec<char> = Vec::new();
    let flen: usize = from.len();
    if flen == 0 {
        // The empty source matches at every character boundary.
        push_all(&mut out, to);
        let mut i: usize = 0;
        proof {
            assert(cs@.skip(0) =~= cs@);
        }
        while i < cs.len()
            invariant
                0 <= i <= cs@.len(),
                spec_replace_empty(cs@, to@) == out@ + spec_replace_empty_rest(
                    cs@.skip(i as int),
                    to@,
                ),
            decreases cs@.len() - i,
        {
            let ghost rest = cs@.skip(i as int);
            out.push(cs[i]);
            push_all(&mut out, to);
            proof {
                assert(rest.skip(1) =~= cs@.skip(i + 1));
                assert(spec_replace_empty_rest(rest, to@) == seq![rest[0]] + to@
                    + spec_replace_empty_rest(rest.skip(1), to@));
            }
            i += 1;
        }
        proof {
            assert(cs@.skip(cs@.len() as int) =~= Seq::<char>::empty());
        }
        return out;
    }
    let mut i: usize = 0;
    proof {
        assert(cs@.skip(0) =~= cs@);
    }
    while i < cs.len()
        invariant
            0 <= i <= cs@.len(),
            flen == from@.len() > 0,
            spec_replace_from(cs@, from@, to@) == out@ + spec_replace_from(
                cs@.skip(i as int),
                from@,
                to@,
            ),
        decreases cs@.len() - i,
    {
        let ghost rest = cs@.skip(i as int);
        // Does the source text start here?
        let mut matches_here: bool = true;
        let mut k: usize = 0;
        if flen > cs.len() - i {
            matches_here = false;
            proof {
                assert(rest.len() < from@.len());
            }
        } else {
            let limit: usize = i + flen;
            while k < flen
                invariant
                    0 <= k <= flen,
                    flen == from@.len(),
                    0 <= i,
                    limit == i + flen,
                    i + flen <= cs@.len(),
                    rest == cs@.skip(i as int),
                    matches_here ==> forall|j: int| 0 <= j < k ==> rest[j] == from@[j],
                    !matches_here ==> (exists|j: int|
                        0 <= j < from@.len() && rest[j] != from@[j]),
                ensures
                    matches_here ==> forall|j: int| 0 <= j < from@.len() ==> rest[j] == from@[j],
                    !matches_here ==> (exists|j: int|
                        0 <= j < from@.len() && rest[j] != from@[j]),
                decreases flen - k,
            {
                proof {
                    assert(i + k < cs@.len());
                }
                if cs[i + k] != from[k] {
                    matches_here = false;
                    proof {
                        assert(rest[k as int] != from@[k as int]);
                    }
                    break ;
                }
                k += 1;
            }
        }
        if matches_here {
            push_all(&mut out, to);
            proof {
                assert(rest.take(flen as int) =~= from@);
                assert(rest.skip(flen as int) =~= cs@.skip(i + flen));
            }
            i += flen;
        } else {
            proof {
                if rest.len() >= from@.len() && rest.take(flen as int) == from@ {
                    let j = choose|j: int| 0 <= j < from@.len() && rest[j] != from@[j];
                    assert(rest.take(flen as int)[j] == from@[j]);
                }
                assert(rest.skip(1) =~= cs@.skip(i + 1));
            }
            out.push(cs[i]);
            i += 1;
        }
    }
    proof {
        assert(cs@.skip(cs@.len() as int) =~= Seq::<char>::empty());
    }
    out
}

/// Rewrites a page body: for each pair, every occurrence of the source
/// text becomes the target; with `replace_escaped`, the forms with `/`
/// escaped as `\/` are rewritten as well.
pub fn replace_urls(
    str_body: String,
    replacements: Vec<(String, String)>,
    replace_escaped: bool,
) -> (r: String)
    ensures
        r@ == spec_replace_urls(str_body@, pairs_view(replacements@), replace_escaped),
{
    let mut body: Vec<char> = str_chars(str_body.as_str());
    let mut k: usize = 0;
    proof {
        assert(pairs_view(replacements@).skip(0) =~= pairs_view(replacements@));
    }
    while k < replacements.len()
        invariant
            0 <= k <= replacements@.len(),
            spec_replace_urls(str_body@, pairs_view(replacements@), replace_escaped)
                == spec_replace_urls(
                body@,
                pairs_view(replacements@).skip(k as int),
                replace_escaped,
            ),
        decreases replacements@.len() - k,
    {
        let ghost reps = pairs_view(replacements@).skip(k as int);
        let from = str_chars(replacements[k].0.as_str());
        let to = str_chars(replacements[k].1.as_str());
        body = replace_chars(&body, &from, &to);
        if replace_escaped {
            let mut slash: Vec<char> = Vec::new();
            slash.push('/');
            let mut escaped: Vec<char> = Vec::new();
            escaped.push('\\');
            escaped.push('/');
            proof {
                assert(slash@ =~= seq!['/']);
                assert(escaped@ =~= seq!['\\', '/']);
            }
            let from_esc = replace_chars(&from, &slash, &escaped);
            let to_esc = replace_chars(&to, &slash, &escaped);
            body = replace_chars(&body, &from_esc, &to_esc);
        }
        proof {
            assert(reps[0] == (replacements@[k as int].0@, replacements@[k as int].1@));
            assert(reps.skip(1) =~= pairs_view(replacements@).skip(k + 1));
        }
        k += 1;
    }
    proof {
        assert(pairs_view(replacements@).skip(replacements@.len() as int) =~= Seq::<
            (Seq<char>, Seq<char>),
        >::empty());
    }
    chars_to_string(&body)
}

/// Rewrites a page body the other way around: each pair is read as
/// (target, source), so occurrences of the second component become the
/// first.
pub fn replace_urls_rev(
    str_body: String,
    replacements: Vec<(String, String)>,
    replace_escaped: bool,
) -> (r: String)
    ensures
        r@ == spec_replace_urls_rev(str_body@, pairs_view(replacements@), replace_escaped),
{
    let mut body: Vec<char> = str_chars(str_body.as_str());
    let mut k: usize = 0;
    proof {
        assert(pairs_view(replacements@).skip(0) =~= pairs_view(replacements@));
    }
    while k < replacements.len()
        invariant
            0 <= k <= replacements@.len(),
            spec_replace_urls_rev(str_body@, pairs_view(replacements@), replace_escaped)
                == spec_replace_urls_rev(
                body@,
                pairs_view(replacements@).skip(k as int),
                replace_escaped,
            ),
        decreases replacements@.len() - k,
    {
        let ghost reps = pairs_view(replacements@).skip(k as int);
        let to = str_chars(replacements[k].0.as_str());
        let from = str_chars(replacements[k].1.as_str());
        body = replace_chars(&body, &from, &to);
        if replace_escaped {
            let mut slash: Vec<char> = Vec::new();
            slash.push('/');
            let mut escaped: Vec<char> = Vec::new();
            escaped.push('\\');
            escaped.push('/');
            proof {
                assert(slash@ =~= seq!['/']);
                assert(escaped@ =~= seq!['\\', '/']);
            }
            let from_esc = replace_chars(&from, &slash, &escaped);
            let to_esc = replace_chars(&to, &slash, &escaped);
            body = replace_chars(&body, &from_esc, &to_esc);
        }
        proof {
            assert(reps[0] == (replacements@[k as int].0@, replacements@[k as int].1@));
            assert(reps.skip(1) =~= pairs_view(replacements@).skip(k + 1));
        }
        k += 1;
    }
    proof {
        assert(pairs_view(replacements@).skip(replacements@.len() as int) =~= Seq::<
            (Seq<char>, Seq<char>),
        >::empty());
    }
    chars_to_string(&body)
}

} // verus!
