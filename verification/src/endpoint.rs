//! Normal form of endpoints: runs of `/` collapsed to one, and a `/` at
//! both ends.
use vstd::prelude::*;

use crate::text::{chars_of, string_of};

verus! {

/// `s` with every `/` that directly follows another `/` removed.
pub open spec fn collapse_slashes(s: Seq<char>) -> Seq<char>
    decreases s.len(),
{
    if s.len() == 0 {
        s
    } else {
        let prev = collapse_slashes(s.drop_last());
        if s.last() == '/' && prev.len() > 0 && prev.last() == '/' {
            prev
        } else {
            prev.push(s.last())
        }
    }
}

/// The normal form of an endpoint: slashes collapsed, then a `/` put in front
/// and at the end where there is none.
pub open spec fn normalized_endpoint(s: Seq<char>) -> Seq<char> {
    let c = collapse_slashes(s);
    let c1 = if c.len() > 0 && c[0] == '/' {
        c
    } else {
        seq!['/'] + c
    };
    if c1.last() == '/' {
        c1
    } else {
        c1.push('/')
    }
}

/// No two `/` stand next to each other in `s`.
pub open spec fn no_double_slash(s: Seq<char>) -> bool {
    forall|i: int| 0 <= i < s.len() - 1 ==> !(#[trigger] s[i] == '/' && s[i + 1] == '/')
}

/// `s` is in the normal form of an endpoint.
pub open spec fn is_normal_endpoint(s: Seq<char>) -> bool {
    &&& s.len() > 0
    &&& s[0] == '/'
    &&& s.last() == '/'
    &&& no_double_slash(s)
}

/// The characters of `s` other than `/`, in order.
pub open spec fn non_slash_chars(s: Seq<char>) -> Seq<char>
    decreases s.len(),
{
    if s.len() == 0 {
        s
    } else if s.last() == '/' {
        non_slash_chars(s.drop_last())
    } else {
        non_slash_chars(s.drop_last()).push(s.last())
    }
}

proof fn lemma_collapse_facts(s: Seq<char>)
    ensures
        no_double_slash(collapse_slashes(s)),
        collapse_slashes(s).len() > 0 <==> s.len() > 0,
        s.len() > 0 ==> collapse_slashes(s).last() == s.last(),
        s.len() > 0 ==> collapse_slashes(s)[0] == s[0],
        non_slash_chars(collapse_slashes(s)) == non_slash_chars(s),
    decreases s.len(),
{
    if s.len() > 0 {
        let prev = collapse_slashes(s.drop_last());
        lemma_collapse_facts(s.drop_last());
        if s.last() == '/' && prev.len() > 0 && prev.last() == '/' {
        } else {
            let r = prev.push(s.last());
            assert(r.drop_last() =~= prev);
            assert forall|i: int| 0 <= i < r.len() - 1 implies !(#[trigger] r[i] == '/' && r[i
                + 1] == '/') by {
                if i < prev.len() - 1 {
                    assert(r[i] == prev[i] && r[i + 1] == prev[i + 1]);
                }
            }
            if s.len() > 1 {
                assert(s.drop_last()[0] == s[0]);
            }
        }
    }
}

pub(crate) proof fn lemma_collapse_fixes(t: Seq<char>)
    requires
        no_double_slash(t),
    ensures
        collapse_slashes(t) == t,
    decreases t.len(),
{
    if t.len() > 0 {
        let p = t.drop_last();
        assert(no_double_slash(p)) by {
            assert forall|i: int| 0 <= i < p.len() - 1 implies !(#[trigger] p[i] == '/' && p[i
                + 1] == '/') by {
                assert(p[i] == t[i] && p[i + 1] == t[i + 1]);
            }
        }
        lemma_collapse_fixes(p);
        if t.last() == '/' && p.len() > 0 && p.last() == '/' {
            assert(t[t.len() - 2] == '/' && t[t.len() - 1] == '/');
        }
        assert(p.push(t.last()) =~= t);
    }
}

proof fn lemma_non_slash_prepend_slash(c: Seq<char>)
    ensures
        non_slash_chars(seq!['/'] + c) == non_slash_chars(c),
    decreases c.len(),
{
    if c.len() > 0 {
        lemma_non_slash_prepend_slash(c.drop_last());
        assert((seq!['/'] + c).drop_last() =~= seq!['/'] + c.drop_last());
        assert((seq!['/'] + c).last() == c.last());
    } else {
        assert(seq!['/'] + c =~= seq!['/']);
        assert(seq!['/'].drop_last() =~= Seq::<char>::empty());
        assert(non_slash_chars(seq!['/']) == non_slash_chars(Seq::<char>::empty()));
    }
}

/// The normal form of an endpoint starts and ends with `/`, and holds no
/// two `/` side by side.
pub proof fn lemma_normalized_endpoint_shape(s: Seq<char>)
    ensures
        is_normal_endpoint(normalized_endpoint(s)),
{
    lemma_collapse_facts(s);
    let c = collapse_slashes(s);
    let c1 = if c.len() > 0 && c[0] == '/' {
        c
    } else {
        seq!['/'] + c
    };
    assert(no_double_slash(c1)) by {
        if !(c.len() > 0 && c[0] == '/') {
            assert forall|i: int| 0 <= i < c1.len() - 1 implies !(#[trigger] c1[i] == '/' && c1[i
                + 1] == '/') by {
                if i > 0 {
                    assert(c1[i] == c[i - 1] && c1[i + 1] == c[i]);
                } else {
                    assert(c1[1] == c[0]);
                }
            }
        }
    }
    if c1.last() != '/' {
        let r = c1.push('/');
        assert forall|i: int| 0 <= i < r.len() - 1 implies !(#[trigger] r[i] == '/' && r[i + 1]
            == '/') by {
            if i < c1.len() - 1 {
                assert(r[i] == c1[i] && r[i + 1] == c1[i + 1]);
            } else {
                assert(r[i] == c1.last());
            }
        }
    }
}

/// Normalizing an endpoint that is already in normal form changes nothing.
pub proof fn lemma_normal_endpoint_is_fixed(s: Seq<char>)
    requires
        is_normal_endpoint(s),
    ensures
        normalized_endpoint(s) == s,
{
    lemma_collapse_fixes(s);
}

/// Normalizing an endpoint twice gives what normalizing it once gives.
pub proof fn lemma_normalize_endpoint_idempotent(s: Seq<char>)
    ensures
        normalized_endpoint(normalized_endpoint(s)) == normalized_endpoint(s),
{
    lemma_normalized_endpoint_shape(s);
    lemma_normal_endpoint_is_fixed(normalized_endpoint(s));
}

/// Normalizing an endpoint only adds and removes `/`: the other characters
/// stay, in their order.
pub proof fn lemma_normalize_endpoint_keeps_other_chars(s: Seq<char>)
    ensures
        non_slash_chars(normalized_endpoint(s)) == non_slash_chars(s),
{
    lemma_collapse_facts(s);
    let c = collapse_slashes(s);
    let c1 = if c.len() > 0 && c[0] == '/' {
        c
    } else {
        seq!['/'] + c
    };
    lemma_non_slash_prepend_slash(c);
    if c1.last() != '/' {
        assert(c1.push('/').drop_last() =~= c1);
    }
}

/// An endpoint with one more `/` at its end has the same normal form.
pub proof fn lemma_normalize_endpoint_trailing_slash(s: Seq<char>)
    ensures
        normalized_endpoint(s.push('/')) == normalized_endpoint(s),
{
    let t = s.push('/');
    assert(t.drop_last() =~= s);
    lemma_collapse_facts(s);
    lemma_collapse_facts(t);
    let c = collapse_slashes(s);
    let ct = collapse_slashes(t);
    if c.len() > 0 {
        assert(ct[0] == c[0]) by {
            if !(c.last() == '/') {
                assert(ct == c.push('/'));
            }
        }
        if c.last() == '/' {
            assert(ct == c);
        } else {
            assert(ct == c.push('/'));
            if c[0] == '/' {
                assert(normalized_endpoint(t) =~= c.push('/'));
            } else {
                assert(normalized_endpoint(t) =~= (seq!['/'] + c).push('/'));
                assert((seq!['/'] + c).last() == c.last());
            }
        }
    } else {
        assert(s.len() == 0);
        assert(ct =~= seq!['/']);
        assert(normalized_endpoint(t) =~= seq!['/']);
        assert(normalized_endpoint(s) =~= seq!['/']);
    }
}

/// Scanning `s` from the left: the `/`-separated non-empty segments
/// completed so far, and the segment being read.
pub open spec fn segment_scan(s: Seq<char>) -> (Seq<Seq<char>>, Seq<char>)
    decreases s.len(),
{
    if s.len() == 0 {
        (Seq::empty(), Seq::empty())
    } else {
        let (done, cur) = segment_scan(s.drop_last());
        if s.last() == '/' {
            if cur.len() > 0 {
                (done.push(cur), Seq::empty())
            } else {
                (done, cur)
            }
        } else {
            (done, cur.push(s.last()))
        }
    }
}

/// The non-empty `/`-separated segments of a path, in order.
pub open spec fn path_segments(s: Seq<char>) -> Seq<Seq<char>> {
    let (done, cur) = segment_scan(s);
    if cur.len() > 0 {
        done.push(cur)
    } else {
        done
    }
}

/// Each segment followed by a `/`, one after the other.
pub open spec fn joined_segments(segs: Seq<Seq<char>>) -> Seq<char>
    decreases segs.len(),
{
    if segs.len() == 0 {
        Seq::empty()
    } else {
        joined_segments(segs.drop_last()) + segs.last() + seq!['/']
    }
}

/// A non-empty segment holding no `/`.
pub open spec fn is_segment(t: Seq<char>) -> bool {
    t.len() > 0 && forall|i: int| 0 <= i < t.len() ==> t[i] != '/'
}

/// `/` where `s` starts with one, else nothing.
pub open spec fn leading_slash(s: Seq<char>) -> Seq<char> {
    if s.len() > 0 && s[0] == '/' {
        seq!['/']
    } else {
        Seq::empty()
    }
}

proof fn lemma_joined_shape(segs: Seq<Seq<char>>)
    requires
        forall|i: int| 0 <= i < segs.len() ==> is_segment(#[trigger] segs[i]),
    ensures
        joined_segments(segs).len() > 0 ==> joined_segments(segs).last() == '/',
        joined_segments(segs).len() > 0 ==> joined_segments(segs)[0] != '/',
        segs.len() > 0 ==> joined_segments(segs).len() > 0,
    decreases segs.len(),
{
    if segs.len() > 0 {
        let p = segs.drop_last();
        assert forall|i: int| 0 <= i < p.len() implies is_segment(#[trigger] p[i]) by {
            assert(p[i] == segs[i]);
        }
        lemma_joined_shape(p);
        let j = joined_segments(segs);
        assert(is_segment(segs[segs.len() - 1]));
        if joined_segments(p).len() == 0 {
            assert(j[0] == segs.last()[0]);
        } else {
            assert(j[0] == joined_segments(p)[0]);
        }
    }
}

proof fn lemma_collapse_by_segments(s: Seq<char>)
    ensures
        collapse_slashes(s) == leading_slash(s) + joined_segments(segment_scan(s).0)
            + segment_scan(s).1,
        forall|i: int|
            0 <= i < segment_scan(s).0.len() ==> is_segment(#[trigger] segment_scan(s).0[i]),
        forall|i: int| 0 <= i < segment_scan(s).1.len() ==> segment_scan(s).1[i] != '/',
    decreases s.len(),
{
    if s.len() > 0 {
        let p = s.drop_last();
        let c = s.last();
        lemma_collapse_by_segments(p);
        lemma_collapse_facts(p);
        let (d, u) = segment_scan(p);
        lemma_joined_shape(d);
        if p.len() == 0 {
            assert(d =~= Seq::<Seq<char>>::empty());
            assert(u =~= Seq::<char>::empty());
            assert(collapse_slashes(p) =~= Seq::<char>::empty());
            if c == '/' {
                assert(collapse_slashes(s) =~= seq!['/']);
                assert(leading_slash(s) =~= seq!['/']);
            } else {
                assert(collapse_slashes(s) =~= seq![c]);
                assert(leading_slash(s) =~= Seq::<char>::empty());
            }
            assert(collapse_slashes(s) =~= leading_slash(s) + joined_segments(segment_scan(s).0)
                + segment_scan(s).1);
        } else {
            assert(p[0] == s[0]);
            assert(leading_slash(s) == leading_slash(p));
            let prev = collapse_slashes(p);
            if c == '/' {
                if u.len() > 0 {
                    assert(prev.last() == u.last());
                    let d2 = d.push(u);
                    assert(d2.drop_last() =~= d);
                    assert(joined_segments(d2) == joined_segments(d) + u + seq!['/']);
                    assert(collapse_slashes(s) =~= leading_slash(s) + joined_segments(d2));
                    assert forall|i: int| 0 <= i < d2.len() implies is_segment(#[trigger] d2[i]) by {
                        if i < d.len() {
                            assert(d2[i] == d[i]);
                        }
                    }
                    assert(segment_scan(s).1 =~= Seq::<char>::empty());
                    assert(collapse_slashes(s) =~= leading_slash(s) + joined_segments(
                        segment_scan(s).0,
                    ) + segment_scan(s).1);
                } else {
                    assert(prev =~= leading_slash(p) + joined_segments(d));
                    assert(prev.len() > 0);
                    assert(prev.last() == '/') by {
                        if joined_segments(d).len() > 0 {
                            assert(prev.last() == joined_segments(d).last());
                        } else {
                            assert(prev =~= leading_slash(p));
                        }
                    }
                    assert(collapse_slashes(s) == prev);
                }
            } else {
                assert(collapse_slashes(s) =~= leading_slash(s) + joined_segments(d) + u.push(c));
                assert forall|i: int| 0 <= i < u.push(c).len() implies u.push(c)[i] != '/' by {
                    if i < u.len() {
                        assert(u.push(c)[i] == u[i]);
                    }
                }
            }
        }
    }
}

/// The normal form of an endpoint is a `/` followed by each segment of it
/// with a `/` after.
pub proof fn lemma_normalized_by_segments(s: Seq<char>)
    ensures
        normalized_endpoint(s) == seq!['/'] + joined_segments(path_segments(s)),
{
    lemma_collapse_by_segments(s);
    let (d, u) = segment_scan(s);
    lemma_joined_shape(d);
    let c = collapse_slashes(s);
    let body = joined_segments(d) + u;
    assert(body.len() > 0 ==> body[0] != '/') by {
        if joined_segments(d).len() == 0 && u.len() > 0 {
            assert(body[0] == u[0]);
        } else if joined_segments(d).len() > 0 {
            assert(body[0] == joined_segments(d)[0]);
        }
    }
    let c1 = if c.len() > 0 && c[0] == '/' {
        c
    } else {
        seq!['/'] + c
    };
    assert(c1 =~= seq!['/'] + body) by {
        if leading_slash(s).len() > 0 {
            assert(c =~= seq!['/'] + body);
        } else {
            assert(c =~= body);
        }
    }
    if u.len() > 0 {
        assert(c1.last() == u.last());
        let d2 = d.push(u);
        assert(d2.drop_last() =~= d);
        assert(normalized_endpoint(s) =~= seq!['/'] + joined_segments(d2));
    } else {
        assert(c1.last() == '/') by {
            if joined_segments(d).len() > 0 {
                assert(c1.last() == joined_segments(d).last());
            }
        }
        assert(normalized_endpoint(s) =~= seq!['/'] + joined_segments(d));
    }
}

/// Two paths with the same segments have the same normal form: only the
/// segments of a path matter, not repeated, leading or trailing `/`.
pub proof fn lemma_same_segments_same_normal_form(a: Seq<char>, b: Seq<char>)
    requires
        path_segments(a) == path_segments(b),
    ensures
        normalized_endpoint(a) == normalized_endpoint(b),
{
    lemma_normalized_by_segments(a);
    lemma_normalized_by_segments(b);
}

/// Puts `endpoint` in the normal form of an endpoint, in place.
pub fn normalize_endpoint(endpoint: &mut String)
    ensures
        final(endpoint)@ == normalized_endpoint(old(endpoint)@),
{
    let cs = chars_of(endpoint.as_str());
    let mut out: Vec<char> = Vec::new();
    let mut i: usize = 0;
    while i < cs.len()
        invariant
            i <= cs@.len(),
            out@ == collapse_slashes(cs@.take(i as int)),
        decreases cs.len() - i,
    {
        assert(cs@.take(i + 1).drop_last() =~= cs@.take(i as int));
        let c = cs[i];
        let n = out.len();
        if c == '/' && n > 0 && out[n - 1] == '/' {
        } else {
            out.push(c);
        }
        i = i + 1;
    }
    assert(cs@.take(cs@.len() as int) =~= cs@);
    let mut fixed: Vec<char> = Vec::new();
    if out.len() == 0 || out[0] != '/' {
        fixed.push('/');
    }
    let mut j: usize = 0;
    while j < out.len()
        invariant
            j <= out@.len(),
            fixed@ == (if out@.len() > 0 && out@[0] == '/' {
                Seq::<char>::empty()
            } else {
                seq!['/']
            }) + out@.take(j as int),
        decreases out.len() - j,
    {
        fixed.push(out[j]);
        j = j + 1;
        assert(out@.take(j as int) =~= out@.take(j - 1).push(out@[j - 1]));
    }
    assert(out@.take(out@.len() as int) =~= out@);
    let m = fixed.len();
    if fixed[m - 1] != '/' {
        fixed.push('/');
    }
    *endpoint = string_of(fixed.as_slice(), 0, fixed.len());
    assert(endpoint@ =~= normalized_endpoint(cs@));
}

} // verus!
