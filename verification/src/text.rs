//! Character-sequence engine: exact substring search, leftmost
//! non-overlapping replacement, separator splitting, and guarded attribute
//! injection, each proved against a recursive specification.

use vstd::prelude::*;

verus! {

/// True when `pat` occurs in `s` starting at index `i`.
pub open spec fn occurs_at(s: Seq<char>, pat: Seq<char>, i: int) -> bool {
    0 <= i && i + pat.len() <= s.len() && s.subrange(i, i + pat.len() as int) == pat
}

/// True when `pre` is a prefix of `s`.
pub open spec fn is_prefix(pre: Seq<char>, s: Seq<char>) -> bool {
    pre.len() <= s.len() && s.subrange(0, pre.len() as int) == pre
}

/// True when the character `c` does not occur in `s`.
pub open spec fn lacks(s: Seq<char>, c: char) -> bool {
    forall|i: int| 0 <= i < s.len() ==> s[i] != c
}

/// The views of a sequence of character vectors.
pub open spec fn views_of(ps: Seq<Vec<char>>) -> Seq<Seq<char>> {
    ps.map_values(|p: Vec<char>| p@)
}

/// The views of a sequence of strings.
pub open spec fn str_views(ss: Seq<String>) -> Seq<Seq<char>> {
    ss.map_values(|s: String| s@)
}

/// The characters of a string slice, as a vector.
pub fn str_to_chars(s: &str) -> (v: Vec<char>)
    ensures
        v@ == s@,
{
    let n: usize = s.unicode_len();
    let mut v: Vec<char> = Vec::new();
    let mut i: usize = 0;
    while i < n
        invariant
            i <= n,
            n == s@.len(),
            v@ == s@.subrange(0, i as int),
        decreases n - i,
    {
        let c = s.get_char(i);
        v.push(c);
        proof {
            assert(s@.subrange(0, i + 1) =~= s@.subrange(0, i as int).push(s@[i as int]));
        }
        i = i + 1;
    }
    proof {
        assert(s@.subrange(0, n as int) =~= s@);
    }
    v
}

/// Relies on String::push: appends exactly the given character to the string.
#[verifier::external_body]
fn push_char(s: &mut String, c: char)
    ensures
        final(s)@ == old(s)@.push(c),
{
    s.push(c);
}

/// A string holding exactly the given characters.
pub fn chars_to_string(v: &Vec<char>) -> (s: String)
    ensures
        s@ == v@,
{
    let mut s = String::new();
    let mut i: usize = 0;
    while i < v.len()
        invariant
            i <= v@.len(),
            s@ == v@.subrange(0, i as int),
        decreases v@.len() - i,
    {
        push_char(&mut s, v[i]);
        proof {
            assert(v@.subrange(0, i + 1) =~= v@.subrange(0, i as int).push(v@[i as int]));
        }
        i = i + 1;
    }
    proof {
        assert(v@.subrange(0, v@.len() as int) =~= v@);
    }
    s
}

/// Appends all characters of `src` to `out`.
pub fn push_all(out: &mut Vec<char>, src: &Vec<char>)
    ensures
        final(out)@ == old(out)@ + src@,
{
    let mut j: usize = 0;
    while j < src.len()
        invariant
            j <= src@.len(),
            out@ == old(out)@ + src@.subrange(0, j as int),
        decreases src@.len() - j,
    {
        out.push(src[j]);
        proof {
            assert(old(out)@ + src@.subrange(0, j + 1) =~= (old(out)@ + src@.subrange(
                0,
                j as int,
            )).push(src@[j as int]));
        }
        j = j + 1;
    }
    proof {
        assert(src@.subrange(0, src@.len() as int) =~= src@);
    }
}

/// A copy of the character vector.
pub fn copy_chars(s: &Vec<char>) -> (r: Vec<char>)
    ensures
        r@ == s@,
{
    let mut r: Vec<char> = Vec::new();
    push_all(&mut r, s);
    proof {
        assert(Seq::<char>::empty() + s@ =~= s@);
    }
    r
}

/// Whether `pat` occurs in `s` at index `i`.
pub fn matches_at(s: &Vec<char>, pat: &Vec<char>, i: usize) -> (r: bool)
    requires
        i <= s@.len(),
    ensures
        r == occurs_at(s@, pat@, i as int),
{
    let slen: usize = s.len();
    let plen: usize = pat.len();
    if slen - i < plen {
        return false;
    }
    let mut j: usize = 0;
    while j < plen
        invariant
            slen == s@.len(),
            plen == pat@.len(),
            i + plen <= slen,
            j <= plen,
            forall|q: int| 0 <= q < j ==> s@[i + q] == pat@[q],
        decreases plen - j,
    {
        if s[i + j] != pat[j] {
            proof {
                assert(s@.subrange(i as int, i + pat@.len() as int)[j as int] == s@[i + j]);
            }
            return false;
        }
        j = j + 1;
    }
    proof {
        assert(s@.subrange(i as int, i + pat@.len() as int) =~= pat@);
    }
    true
}

/// Leftmost non-overlapping replacement of `pat` by `sub` in `s`; an empty
/// pattern leaves `s` unchanged.
pub open spec fn replace_spec(s: Seq<char>, pat: Seq<char>, sub: Seq<char>) -> Seq<char>
    decreases s.len(),
{
    if pat.len() == 0 || s.len() < pat.len() {
        s
    } else if s.subrange(0, pat.len() as int) == pat {
        sub + replace_spec(s.skip(pat.len() as int), pat, sub)
    } else {
        seq![s[0]] + replace_spec(s.skip(1), pat, sub)
    }
}

/// Replaces every leftmost non-overlapping occurrence of `pat` in `s` by `sub`.
pub fn replace_chars(s: &Vec<char>, pat: &Vec<char>, sub: &Vec<char>) -> (r: Vec<char>)
    ensures
        r@ == replace_spec(s@, pat@, sub@),
{
    if pat.len() == 0 {
        return copy_chars(s);
    }
    let mut out: Vec<char> = Vec::new();
    let mut i: usize = 0;
    proof {
        assert(s@.skip(0) =~= s@);
        assert(Seq::<char>::empty() + replace_spec(s@, pat@, sub@) =~= replace_spec(
            s@,
            pat@,
            sub@,
        ));
    }
    while i < s.len()
        invariant
            i <= s@.len(),
            pat@.len() > 0,
            replace_spec(s@, pat@, sub@) == out@ + replace_spec(s@.skip(i as int), pat@, sub@),
        decreases s@.len() - i,
    {
        if matches_at(s, pat, i) {
            push_all(&mut out, sub);
            proof {
                assert(s@.skip(i as int).subrange(0, pat@.len() as int) =~= s@.subrange(
                    i as int,
                    i + pat@.len() as int,
                ));
                assert(s@.skip(i as int).skip(pat@.len() as int) =~= s@.skip(
                    i + pat@.len() as int,
                ));
            }
            i = i + pat.len();
        } else {
            out.push(s[i]);
            proof {
                if s@.len() - i < pat@.len() {
                    assert(replace_spec(s@.skip(i as int), pat@, sub@) == s@.skip(i as int));
                    assert(replace_spec(s@.skip(i + 1), pat@, sub@) == s@.skip(i + 1));
                    assert(s@.skip(i as int) =~= seq![s@[i as int]] + s@.skip(i + 1));
                } else {
                    assert(s@.skip(i as int).subrange(0, pat@.len() as int) =~= s@.subrange(
                        i as int,
                        i + pat@.len() as int,
                    ));
                    assert(s@.skip(i as int).skip(1) =~= s@.skip(i + 1));
                    assert(s@.skip(i as int)[0] == s@[i as int]);
                }
            }
            i = i + 1;
        }
    }
    proof {
        assert(s@.skip(s@.len() as int).len() == 0);
        assert(replace_spec(s@.skip(s@.len() as int), pat@, sub@) == s@.skip(s@.len() as int));
        assert(out@ + s@.skip(s@.len() as int) =~= out@);
    }
    out
}

/// Splitting `s` at every leftmost non-overlapping occurrence of `sep`; an
/// empty separator yields the whole of `s` as the only piece.
pub open spec fn split_spec(s: Seq<char>, sep: Seq<char>) -> Seq<Seq<char>>
    decreases s.len(),
{
    if sep.len() == 0 || s.len() < sep.len() {
        seq![s]
    } else if s.subrange(0, sep.len() as int) == sep {
        seq![Seq::<char>::empty()] + split_spec(s.skip(sep.len() as int), sep)
    } else {
        let rest = split_spec(s.skip(1), sep);
        seq![seq![s[0]] + rest[0]] + rest.skip(1)
    }
}

/// The split of a sequence always has at least one piece.
pub proof fn lemma_split_nonempty(s: Seq<char>, sep: Seq<char>)
    ensures
        split_spec(s, sep).len() >= 1,
    decreases s.len(),
{
    if sep.len() == 0 || s.len() < sep.len() {
    } else if s.subrange(0, sep.len() as int) == sep {
    } else {
        lemma_split_nonempty(s.skip(1), sep);
    }
}

/// The remaining pieces once the piece under construction is prepended to the
/// first piece of `rest`.
spec fn pieces_from(cur: Seq<char>, rest: Seq<Seq<char>>) -> Seq<Seq<char>> {
    seq![cur + rest[0]] + rest.skip(1)
}

/// Splits `s` at every occurrence of `sep`, leftmost first.
pub fn split_chars(s: &Vec<char>, sep: &Vec<char>) -> (r: Vec<Vec<char>>)
    ensures
        views_of(r@) == split_spec(s@, sep@),
{
    if sep.len() == 0 {
        let mut r: Vec<Vec<char>> = Vec::new();
        r.push(copy_chars(s));
        proof {
            assert(views_of(r@) =~= seq![s@]);
        }
        return r;
    }
    let mut pieces: Vec<Vec<char>> = Vec::new();
    let mut cur: Vec<char> = Vec::new();
    let mut i: usize = 0;
    proof {
        lemma_split_nonempty(s@, sep@);
        assert(s@.skip(0) =~= s@);
        let rest = split_spec(s@, sep@);
        assert(Seq::<char>::empty() + rest[0] =~= rest[0]);
        assert(pieces_from(Seq::<char>::empty(), rest) =~= rest);
        assert(views_of(Seq::<Vec<char>>::empty()) =~= Seq::<Seq<char>>::empty());
        assert(Seq::<Seq<char>>::empty() + rest =~= rest);
    }
    while i < s.len()
        invariant
            i <= s@.len(),
            sep@.len() > 0,
            split_spec(s@, sep@) == views_of(pieces@) + pieces_from(
                cur@,
                split_spec(s@.skip(i as int), sep@),
            ),
        decreases s@.len() - i,
    {
        if matches_at(s, sep, i) {
            proof {
                lemma_split_nonempty(s@.skip(i + sep@.len() as int), sep@);
                assert(s@.skip(i as int).subrange(0, sep@.len() as int) =~= s@.subrange(
                    i as int,
                    i + sep@.len() as int,
                ));
                assert(s@.skip(i as int).skip(sep@.len() as int) =~= s@.skip(
                    i + sep@.len() as int,
                ));
                let rest = split_spec(s@.skip(i + sep@.len() as int), sep@);
                assert(pieces_from(cur@, seq![Seq::<char>::empty()] + rest) =~= seq![cur@ + Seq::<
                    char,
                >::empty()] + rest);
                assert(cur@ + Seq::<char>::empty() =~= cur@);
                assert(views_of(pieces@.push(cur)) =~= views_of(pieces@).push(cur@));
                assert(views_of(pieces@).push(cur@) + pieces_from(Seq::<char>::empty(), rest)
                    =~= views_of(pieces@) + (seq![cur@] + rest));
                assert(Seq::<char>::empty() + rest[0] =~= rest[0]);
                assert(pieces_from(Seq::<char>::empty(), rest) =~= rest);
            }
            pieces.push(cur);
            cur = Vec::new();
            i = i + sep.len();
        } else {
            proof {
                let t = s@.skip(i as int);
                if s@.len() - i < sep@.len() {
                    assert(split_spec(t, sep@) == seq![t]);
                    assert(split_spec(s@.skip(i + 1), sep@) == seq![s@.skip(i + 1)]);
                    assert(t =~= seq![s@[i as int]] + s@.skip(i + 1));
                    assert(pieces_from(cur@, seq![t])[0] == cur@ + t);
                    assert(pieces_from(cur@.push(s@[i as int]), seq![s@.skip(i + 1)]) =~= seq![
                        cur@.push(s@[i as int]) + s@.skip(i + 1)]);
                    assert(cur@.push(s@[i as int]) + s@.skip(i + 1) =~= cur@ + t);
                    assert(pieces_from(cur@, seq![t]) =~= seq![cur@ + t]);
                } else {
                    assert(t.subrange(0, sep@.len() as int) =~= s@.subrange(
                        i as int,
                        i + sep@.len() as int,
                    ));
                    assert(t.skip(1) =~= s@.skip(i + 1));
                    assert(t[0] == s@[i as int]);
                    let rest = split_spec(s@.skip(i + 1), sep@);
                    lemma_split_nonempty(s@.skip(i + 1), sep@);
                    assert(split_spec(t, sep@) == seq![seq![t[0]] + rest[0]] + rest.skip(1));
                    assert(pieces_from(cur@, split_spec(t, sep@)) =~= seq![cur@ + (seq![t[0]]
                        + rest[0])] + rest.skip(1));
                    assert(cur@.push(s@[i as int]) + rest[0] =~= cur@ + (seq![t[0]] + rest[0]));
                    assert(pieces_from(cur@.push(s@[i as int]), rest) =~= seq![cur@.push(
                        s@[i as int],
                    ) + rest[0]] + rest.skip(1));
                }
            }
            let c = s[i];
            cur.push(c);
            i = i + 1;
        }
    }
    proof {
        let t = s@.skip(s@.len() as int);
        assert(t.len() == 0);
        assert(split_spec(t, sep@) == seq![t]);
        assert(cur@ + t =~= cur@);
        assert(pieces_from(cur@, seq![t]) =~= seq![cur@]);
        assert(views_of(pieces@.push(cur)) =~= views_of(pieces@) + seq![cur@]);
    }
    pieces.push(cur);
    pieces
}

/// Index of the first pattern in `pats` that is a nonempty prefix of `s`,
/// or -1 when none is.
pub open spec fn first_match(s: Seq<char>, pats: Seq<Seq<char>>) -> int
    decreases pats.len(),
{
    if pats.len() == 0 {
        -1
    } else if pats[0].len() > 0 && is_prefix(pats[0], s) {
        0
    } else {
        let r = first_match(s, pats.skip(1));
        if r < 0 {
            -1
        } else {
            r + 1
        }
    }
}

/// What `first_match` returns: the first qualifying index, or -1.
pub proof fn lemma_first_match_props(s: Seq<char>, pats: Seq<Seq<char>>)
    ensures
        first_match(s, pats) == -1 ==> forall|j: int|
            0 <= j < pats.len() ==> !(#[trigger] pats[j].len() > 0 && is_prefix(pats[j], s)),
        first_match(s, pats) != -1 ==> {
            let k = first_match(s, pats);
            &&& 0 <= k < pats.len()
            &&& pats[k].len() > 0
            &&& is_prefix(pats[k], s)
            &&& forall|j: int|
                0 <= j < k ==> !(#[trigger] pats[j].len() > 0 && is_prefix(pats[j], s))
        },
    decreases pats.len(),
{
    if pats.len() == 0 {
    } else if pats[0].len() > 0 && is_prefix(pats[0], s) {
    } else {
        lemma_first_match_props(s, pats.skip(1));
        assert forall|j: int| 1 <= j < pats.len() implies pats.skip(1)[j - 1] == pats[j] by {}
    }
}

/// `first_match` returns `k` when `k` qualifies and no earlier index does.
pub proof fn lemma_first_match_is(s: Seq<char>, pats: Seq<Seq<char>>, k: int)
    requires
        0 <= k < pats.len(),
        pats[k].len() > 0,
        is_prefix(pats[k], s),
        forall|j: int| 0 <= j < k ==> !(#[trigger] pats[j].len() > 0 && is_prefix(pats[j], s)),
    ensures
        first_match(s, pats) == k,
    decreases pats.len(),
{
    if k == 0 {
    } else {
        assert(!(pats[0].len() > 0 && is_prefix(pats[0], s)));
        assert(pats.skip(1)[k - 1] == pats[k]);
        assert forall|j: int| 0 <= j < k - 1 implies !(#[trigger] pats.skip(1)[j].len() > 0
            && is_prefix(pats.skip(1)[j], s)) by {
            assert(pats.skip(1)[j] == pats[j + 1]);
        }
        lemma_first_match_is(s, pats.skip(1), k - 1);
    }
}

/// `first_match` returns -1 when no index qualifies.
pub proof fn lemma_first_match_none(s: Seq<char>, pats: Seq<Seq<char>>)
    requires
        forall|j: int| 0 <= j < pats.len() ==> !(#[trigger] pats[j].len() > 0 && is_prefix(
            pats[j],
            s,
        )),
    ensures
        first_match(s, pats) == -1,
    decreases pats.len(),
{
    if pats.len() == 0 {
    } else {
        assert forall|j: int| 0 <= j < pats.skip(1).len() implies !(#[trigger] pats.skip(
            1,
        )[j].len() > 0 && is_prefix(pats.skip(1)[j], s)) by {
            assert(pats.skip(1)[j] == pats[j + 1]);
        }
        lemma_first_match_none(s, pats.skip(1));
    }
}

/// A well-formed opening pattern: a '<' followed by characters that are
/// neither '<' nor ' '.
pub open spec fn wf_open(p: Seq<char>) -> bool {
    &&& p.len() >= 1
    &&& p[0] == '<'
    &&& forall|i: int| 1 <= i < p.len() ==> p[i] != '<' && p[i] != ' '
}

/// All patterns are well-formed opening patterns.
pub open spec fn wf_opens(pats: Seq<Seq<char>>) -> bool {
    forall|k: int| 0 <= k < pats.len() ==> wf_open(#[trigger] pats[k])
}

/// Guarded injection: scanning left to right, at the first pattern of `pats`
/// found, the pattern is kept and `add` is inserted after it unless `probe`
/// already follows; scanning resumes after the pattern.
pub open spec fn inject_spec(
    s: Seq<char>,
    pats: Seq<Seq<char>>,
    probe: Seq<char>,
    add: Seq<char>,
) -> Seq<char>
    decreases s.len(),
{
    if s.len() == 0 {
        s
    } else {
        let k = first_match(s, pats);
        if 0 <= k < pats.len() && 0 < pats[k].len() <= s.len() {
            let p = pats[k];
            if is_prefix(probe, s.skip(p.len() as int)) {
                p + inject_spec(s.skip(p.len() as int), pats, probe, add)
            } else {
                p + add + inject_spec(s.skip(p.len() as int), pats, probe, add)
            }
        } else {
            seq![s[0]] + inject_spec(s.skip(1), pats, probe, add)
        }
    }
}

/// First index of `pats` matching in `s` at `i`, shortest-circuited in list
/// order, as `first_match` on the tail of `s` starting at `i`.
fn first_match_at(s: &Vec<char>, pats: &Vec<Vec<char>>, i: usize) -> (r: Option<usize>)
    requires
        i <= s@.len(),
    ensures
        match r {
            Some(k) => k < pats@.len() && first_match(s@.skip(i as int), views_of(pats@))
                == k as int,
            None => first_match(s@.skip(i as int), views_of(pats@)) == -1,
        },
{
    let ghost t = s@.skip(i as int);
    let ghost vp = views_of(pats@);
    let mut k: usize = 0;
    while k < pats.len()
        invariant
            i <= s@.len(),
            k <= pats@.len(),
            t == s@.skip(i as int),
            vp == views_of(pats@),
            forall|j: int| 0 <= j < k ==> !(#[trigger] vp[j].len() > 0 && is_prefix(vp[j], t)),
        decreases pats@.len() - k,
    {
        let hit = pats[k].len() > 0 && matches_at(s, &pats[k], i);
        proof {
            assert(vp[k as int] == pats@[k as int]@);
            if occurs_at(s@, pats@[k as int]@, i as int) {
                assert(t.subrange(0, vp[k as int].len() as int) =~= s@.subrange(
                    i as int,
                    i + vp[k as int].len() as int,
                ));
            }
            if is_prefix(vp[k as int], t) {
                assert(s@.subrange(i as int, i + vp[k as int].len() as int) =~= t.subrange(
                    0,
                    vp[k as int].len() as int,
                ));
            }
        }
        if hit {
            proof {
                lemma_first_match_is(t, vp, k as int);
            }
            return Some(k);
        }
        k = k + 1;
    }
    proof {
        lemma_first_match_none(t, vp);
    }
    None
}

/// Injects `add` after each scanned occurrence of a pattern of `pats` that is
/// not already followed by `probe`.
pub fn inject_chars(s: &Vec<char>, pats: &Vec<Vec<char>>, probe: &Vec<char>, add: &Vec<char>) -> (r:
    Vec<char>)
    ensures
        r@ == inject_spec(s@, views_of(pats@), probe@, add@),
{
    let ghost vp = views_of(pats@);
    let mut out: Vec<char> = Vec::new();
    let mut i: usize = 0;
    proof {
        assert(s@.skip(0) =~= s@);
        assert(Seq::<char>::empty() + inject_spec(s@, vp, probe@, add@) =~= inject_spec(
            s@,
            vp,
            probe@,
            add@,
        ));
    }
    while i < s.len()
        invariant
            i <= s@.len(),
            vp == views_of(pats@),
            inject_spec(s@, vp, probe@, add@) == out@ + inject_spec(
                s@.skip(i as int),
                vp,
                probe@,
                add@,
            ),
        decreases s@.len() - i,
    {
        let ghost t = s@.skip(i as int);
        match first_match_at(s, pats, i) {
            Some(k) => {
                proof {
                    lemma_first_match_props(t, vp);
                    assert(vp[k as int] == pats@[k as int]@);
                }
                let plen = pats[k].len();
                push_all(&mut out, &pats[k]);
                let tagged = matches_at(s, probe, i + plen);
                proof {
                    assert(t.skip(plen as int) =~= s@.skip(i + plen));
                    if occurs_at(s@, probe@, i + plen) {
                        assert(t.skip(plen as int).subrange(0, probe@.len() as int)
                            =~= s@.subrange(i + plen, i + plen + probe@.len() as int));
                    }
                    if is_prefix(probe@, t.skip(plen as int)) {
                        assert(s@.subrange(i + plen, i + plen + probe@.len() as int) =~= t.skip(
                            plen as int,
                        ).subrange(0, probe@.len() as int));
                    }
                }
                if !tagged {
                    push_all(&mut out, add);
                }
                i = i + plen;
            },
            None => {
                out.push(s[i]);
                proof {
                    assert(t.skip(1) =~= s@.skip(i + 1));
                    assert(t[0] == s@[i as int]);
                }
                i = i + 1;
            },
        }
    }
    proof {
        assert(s@.skip(s@.len() as int).len() == 0);
        assert(out@ + s@.skip(s@.len() as int) =~= out@);
    }
    out
}

/// Injection leaves any '<'-free prefix of its input in place.
proof fn lemma_inject_keeps_prefix(
    s: Seq<char>,
    pats: Seq<Seq<char>>,
    probe: Seq<char>,
    add: Seq<char>,
    x: Seq<char>,
)
    requires
        wf_opens(pats),
        is_prefix(x, s),
        lacks(x, '<'),
    ensures
        is_prefix(x, inject_spec(s, pats, probe, add)),
    decreases s.len(),
{
    let r = inject_spec(s, pats, probe, add);
    if s.len() == 0 {
        assert(x.len() == 0);
        assert(r.subrange(0, 0) =~= x);
    } else {
        let k = first_match(s, pats);
        lemma_first_match_props(s, pats);
        if k != -1 {
            assert(wf_open(pats[k]));
            assert(pats[k][0] == '<');
            assert(s[0] == pats[k][0]);
            if x.len() > 0 {
                assert(x[0] == s[0]);
                assert(false);
            }
            assert(r.subrange(0, 0) =~= x);
        } else {
            let w = inject_spec(s.skip(1), pats, probe, add);
            assert(r == seq![s[0]] + w);
            if x.len() == 0 {
                assert(r.subrange(0, 0) =~= x);
            } else {
                let x1 = x.skip(1);
                assert(lacks(x1, '<')) by {
                    assert(forall|i: int| 0 <= i < x1.len() ==> x1[i] == x[i + 1]);
                }
                assert(is_prefix(x1, s.skip(1))) by {
                    assert(s.skip(1).subrange(0, x1.len() as int) =~= x1) by {
                        assert(forall|i: int|
                            0 <= i < x1.len() ==> s.skip(1).subrange(0, x1.len() as int)[i] == s[i
                                + 1]);
                        assert(forall|i: int| 0 <= i < x.len() ==> x[i] == s[i]);
                    }
                }
                lemma_inject_keeps_prefix(s.skip(1), pats, probe, add, x1);
                assert(x.len() <= 1 + w.len());
                assert(r.subrange(0, x.len() as int) =~= x) by {
                    assert(x[0] == s[0]);
                    assert(forall|i: int| 0 <= i < x1.len() ==> w[i] == x1[i]);
                    assert(forall|i: int| 1 <= i < x.len() ==> r[i] == w[i - 1]);
                    assert(forall|i: int| 1 <= i < x.len() ==> x1[i - 1] == x[i]);
                }
            }
        }
    }
}

/// A '<'-free prefix of an injection result was already a prefix of the
/// input.
proof fn lemma_inject_prefix_reflect(
    s: Seq<char>,
    pats: Seq<Seq<char>>,
    probe: Seq<char>,
    add: Seq<char>,
    x: Seq<char>,
)
    requires
        wf_opens(pats),
        lacks(x, '<'),
        is_prefix(x, inject_spec(s, pats, probe, add)),
    ensures
        is_prefix(x, s),
    decreases s.len(),
{
    let r = inject_spec(s, pats, probe, add);
    if s.len() == 0 {
        assert(x.len() == 0);
        assert(s.subrange(0, 0) =~= x);
    } else {
        let k = first_match(s, pats);
        lemma_first_match_props(s, pats);
        if k != -1 {
            assert(wf_open(pats[k]));
            if x.len() > 0 {
                assert(r[0] == pats[k][0]);
                assert(x[0] == r[0]);
                assert(false);
            }
            assert(s.subrange(0, 0) =~= x);
        } else {
            let w = inject_spec(s.skip(1), pats, probe, add);
            assert(r == seq![s[0]] + w);
            if x.len() == 0 {
                assert(s.subrange(0, 0) =~= x);
            } else {
                let x1 = x.skip(1);
                assert(lacks(x1, '<')) by {
                    assert(forall|i: int| 0 <= i < x1.len() ==> x1[i] == x[i + 1]);
                }
                assert(is_prefix(x1, w)) by {
                    assert(w.subrange(0, x1.len() as int) =~= x1) by {
                        assert(forall|i: int| 0 <= i < x.len() ==> x[i] == r[i]);
                        assert(forall|i: int| 1 <= i < x.len() ==> r[i] == w[i - 1]);
                        assert(forall|i: int| 0 <= i < x1.len() ==> x1[i] == x[i + 1]);
                    }
                }
                lemma_inject_prefix_reflect(s.skip(1), pats, probe, add, x1);
                assert(s.subrange(0, x.len() as int) =~= x) by {
                    assert(x[0] == r[0]);
                    assert(r[0] == s[0]);
                    assert(forall|i: int| 0 <= i < x1.len() ==> s.skip(1)[i] == x1[i]);
                    assert(forall|i: int| 1 <= i < x.len() ==> s[i] == s.skip(1)[i - 1]);
                    assert(forall|i: int| 1 <= i < x.len() ==> x1[i - 1] == x[i]);
                }
            }
        }
    }
}

/// Injection passes over a '<'-free front unchanged.
proof fn lemma_inject_concat_lacks(
    w: Seq<char>,
    u: Seq<char>,
    pats: Seq<Seq<char>>,
    probe: Seq<char>,
    add: Seq<char>,
)
    requires
        wf_opens(pats),
        lacks(w, '<'),
    ensures
        inject_spec(w + u, pats, probe, add) == w + inject_spec(u, pats, probe, add),
    decreases w.len(),
{
    if w.len() == 0 {
        assert(w + u =~= u);
        assert(w + inject_spec(u, pats, probe, add) =~= inject_spec(u, pats, probe, add));
    } else {
        let t = w + u;
        assert(t.len() > 0);
        assert forall|j: int| 0 <= j < pats.len() implies !(#[trigger] pats[j].len() > 0
            && is_prefix(pats[j], t)) by {
            if pats[j].len() > 0 && is_prefix(pats[j], t) {
                assert(wf_open(pats[j]));
                assert(pats[j][0] == t[0]);
                assert(t[0] == w[0]);
                assert(false);
            }
        }
        lemma_first_match_none(t, pats);
        assert(t.skip(1) =~= w.skip(1) + u);
        assert(lacks(w.skip(1), '<')) by {
            assert(forall|i: int| 0 <= i < w.skip(1).len() ==> w.skip(1)[i] == w[i + 1]);
        }
        lemma_inject_concat_lacks(w.skip(1), u, pats, probe, add);
        assert(inject_spec(t, pats, probe, add) == seq![t[0]] + (w.skip(1) + inject_spec(
            u,
            pats,
            probe,
            add,
        )));
        assert(seq![t[0]] + (w.skip(1) + inject_spec(u, pats, probe, add)) =~= w + inject_spec(
            u,
            pats,
            probe,
            add,
        ));
    }
}

/// After a matched pattern followed by text that begins with a space, the
/// same pattern is still the first match.
proof fn lemma_first_match_after_open(s: Seq<char>, pats: Seq<Seq<char>>, k: int, w: Seq<char>)
    requires
        wf_opens(pats),
        first_match(s, pats) == k,
        0 <= k < pats.len(),
        w.len() > 0,
        w[0] == ' ',
    ensures
        first_match(pats[k] + w, pats) == k,
{
    lemma_first_match_props(s, pats);
    let p = pats[k];
    let t = p + w;
    assert(is_prefix(p, t)) by {
        assert(t.subrange(0, p.len() as int) =~= p);
    }
    assert forall|j: int| 0 <= j < k implies !(#[trigger] pats[j].len() > 0 && is_prefix(
        pats[j],
        t,
    )) by {
        if pats[j].len() > 0 && is_prefix(pats[j], t) {
            if pats[j].len() <= p.len() {
                assert(is_prefix(pats[j], s)) by {
                    assert(forall|i: int| 0 <= i < pats[j].len() ==> pats[j][i] == t[i]);
                    assert(forall|i: int| 0 <= i < p.len() ==> t[i] == p[i]);
                    assert(forall|i: int| 0 <= i < p.len() ==> p[i] == s[i]);
                    assert(s.subrange(0, pats[j].len() as int) =~= pats[j]);
                }
                assert(false);
            } else {
                assert(wf_open(pats[j]));
                assert(pats[j][p.len() as int] == t[p.len() as int]);
                assert(t[p.len() as int] == w[0]);
                assert(false);
            }
        }
    }
    lemma_first_match_is(t, pats, k);
}

/// Running the guarded injection over its own output changes nothing: a
/// pattern occurrence that already carries the probe is never tagged again,
/// whatever fresh text a second run would insert.
pub proof fn lemma_inject_idempotent(
    s: Seq<char>,
    pats: Seq<Seq<char>>,
    probe: Seq<char>,
    add: Seq<char>,
    add2: Seq<char>,
)
    requires
        wf_opens(pats),
        probe.len() > 0,
        probe[0] == ' ',
        lacks(probe, '<'),
        is_prefix(probe, add),
        lacks(add, '<'),
        is_prefix(probe, add2),
        lacks(add2, '<'),
    ensures
        inject_spec(inject_spec(s, pats, probe, add), pats, probe, add2) == inject_spec(
            s,
            pats,
            probe,
            add,
        ),
    decreases s.len(),
{
    if s.len() == 0 {
    } else {
        let k = first_match(s, pats);
        lemma_first_match_props(s, pats);
        if k != -1 {
            let p = pats[k];
            let lp = p.len() as int;
            let rest = s.skip(lp);
            let u = inject_spec(rest, pats, probe, add);
            lemma_inject_idempotent(rest, pats, probe, add, add2);
            if is_prefix(probe, rest) {
                assert(inject_spec(s, pats, probe, add) == p + u);
                lemma_inject_keeps_prefix(rest, pats, probe, add, probe);
                assert(u.len() > 0 && u[0] == ' ') by {
                    assert(u[0] == probe[0]);
                }
                lemma_first_match_after_open(s, pats, k, u);
                let t2 = p + u;
                assert(first_match(t2, pats) == k);
                assert(t2.skip(lp) =~= u);
                assert(inject_spec(t2, pats, probe, add2) == p + inject_spec(
                    u,
                    pats,
                    probe,
                    add2,
                ));
            } else {
                let au = add + u;
                assert(inject_spec(s, pats, probe, add) == p + add + u);
                assert(add.len() > 0 && au[0] == ' ') by {
                    assert(add[0] == probe[0]);
                    assert(au[0] == add[0]);
                }
                lemma_first_match_after_open(s, pats, k, au);
                let t2 = p + au;
                assert(p + add + u =~= t2);
                assert(first_match(t2, pats) == k);
                assert(t2.skip(lp) =~= au);
                assert(is_prefix(probe, au)) by {
                    assert(au.subrange(0, probe.len() as int) =~= probe) by {
                        assert(forall|i: int| 0 <= i < probe.len() ==> add[i] == probe[i]);
                        assert(forall|i: int| 0 <= i < add.len() ==> au[i] == add[i]);
                    }
                }
                assert(inject_spec(t2, pats, probe, add2) == p + inject_spec(
                    au,
                    pats,
                    probe,
                    add2,
                ));
                lemma_inject_concat_lacks(add, u, pats, probe, add2);
                assert(p + (add + u) =~= p + add + u);
            }
        } else {
            let u = inject_spec(s.skip(1), pats, probe, add);
            assert(inject_spec(s, pats, probe, add) == seq![s[0]] + u);
            lemma_inject_idempotent(s.skip(1), pats, probe, add, add2);
            let t2 = seq![s[0]] + u;
            assert forall|j: int| 0 <= j < pats.len() implies !(#[trigger] pats[j].len() > 0
                && is_prefix(pats[j], t2)) by {
                if pats[j].len() > 0 && is_prefix(pats[j], t2) {
                    assert(wf_open(pats[j]));
                    assert(pats[j][0] == t2[0]);
                    assert(t2[0] == s[0]);
                    if pats[j].len() == 1 {
                        assert(is_prefix(pats[j], s)) by {
                            assert(s.subrange(0, 1) =~= pats[j]);
                        }
                        assert(false);
                    } else {
                        let x = pats[j].skip(1);
                        assert(lacks(x, '<')) by {
                            assert(forall|i: int| 0 <= i < x.len() ==> x[i] == pats[j][i + 1]);
                        }
                        assert(is_prefix(x, u)) by {
                            assert(u.subrange(0, x.len() as int) =~= x) by {
                                assert(forall|i: int|
                                    0 <= i < pats[j].len() ==> pats[j][i] == t2[i]);
                                assert(forall|i: int| 1 <= i < t2.len() ==> t2[i] == u[i - 1]);
                                assert(forall|i: int| 0 <= i < x.len() ==> x[i] == pats[j][i + 1]);
                            }
                        }
                        lemma_inject_prefix_reflect(s.skip(1), pats, probe, add, x);
                        assert forall|i: int| 1 <= i < pats[j].len() implies s[i] == pats[j][i] by {
                            assert(s.skip(1).subrange(0, x.len() as int)[i - 1] == x[i - 1]);
                            assert(s.skip(1)[i - 1] == s[i]);
                            assert(x[i - 1] == pats[j][i]);
                        }
                        assert(is_prefix(pats[j], s)) by {
                            assert(s.subrange(0, pats[j].len() as int) =~= pats[j]);
                        }
                        assert(false);
                    }
                }
            }
            lemma_first_match_none(t2, pats);
            assert(t2.len() > 0);
            assert(t2.skip(1) =~= u);
            assert(t2[0] == s[0]);
            assert(inject_spec(t2, pats, probe, add2) == seq![s[0]] + inject_spec(
                u,
                pats,
                probe,
                add2,
            ));
        }
    }
}

} // verus!
