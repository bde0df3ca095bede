//! Character-level string operations used to assemble and take apart URLs,
//! cookies and terminal output, each stated over `Seq<char>`.

use vstd::prelude::*;

verus! {

/// `p` occurs in `s` starting at index `i`.
pub open spec fn occurs_at(s: Seq<char>, p: Seq<char>, i: int) -> bool {
    0 <= i && i + p.len() <= s.len() && s.subrange(i, i + p.len()) == p
}

/// `s` begins with `p`.
pub open spec fn has_prefix(s: Seq<char>, p: Seq<char>) -> bool {
    occurs_at(s, p, 0)
}

/// Every non-overlapping occurrence of `pat` in `s`, scanning from the left,
/// replaced by `rep`.
pub open spec fn replace_all(s: Seq<char>, pat: Seq<char>, rep: Seq<char>) -> Seq<char>
    decreases s.len(),
{
    if pat.len() == 0 || s.len() == 0 {
        s
    } else if has_prefix(s, pat) {
        rep + replace_all(s.skip(pat.len() as int), pat, rep)
    } else {
        seq![s[0]] + replace_all(s.drop_first(), pat, rep)
    }
}

/// `s` with every trailing `c` removed.
pub open spec fn trim_end(s: Seq<char>, c: char) -> Seq<char>
    decreases s.len(),
{
    if s.len() > 0 && s.last() == c {
        trim_end(s.drop_last(), c)
    } else {
        s
    }
}

/// The part of `s` before the first `c` (all of `s` when there is none).
pub open spec fn before_char(s: Seq<char>, c: char) -> Seq<char>
    decreases s.len(),
{
    if s.len() == 0 {
        s
    } else if s[0] == c {
        Seq::empty()
    } else {
        seq![s[0]] + before_char(s.drop_first(), c)
    }
}

/// The index of the last occurrence of `p` in `s`, if any.
pub open spec fn is_last_occurrence(s: Seq<char>, p: Seq<char>, i: int) -> bool {
    occurs_at(s, p, i) && forall|j: int| i < j ==> !occurs_at(s, p, j)
}

/// Whether the characters of `p` stand in `s` at index `i`.
pub fn matches_at(s: &str, p: &str, i: usize) -> (r: bool)
    ensures
        r == occurs_at(s@, p@, i as int),
{
    let slen = s.unicode_len();
    let plen = p.unicode_len();
    if plen > slen || i > slen - plen {
        return false;
    }
    let mut k: usize = 0;
    while k < plen
        invariant
            slen == s@.len(),
            plen == p@.len(),
            i + plen <= slen,
            k <= plen,
            forall|j: int| 0 <= j < k ==> s@[i + j] == p@[j],
        decreases plen - k,
    {
        if s.get_char(i + k) != p.get_char(k) {
            assert(s@.subrange(i as int, i + plen)[k as int] != p@[k as int]);
            return false;
        }
        k = k + 1;
    }
    assert(s@.subrange(i as int, i + plen) =~= p@);
    true
}

/// Whether `s` begins with `p`.
pub fn starts_with(s: &str, p: &str) -> (r: bool)
    ensures
        r == has_prefix(s@, p@),
{
    matches_at(s, p, 0)
}

proof fn lemma_replace_all_unfold_step(s: Seq<char>, pat: Seq<char>, rep: Seq<char>, i: int)
    requires
        pat.len() > 0,
        0 <= i < s.len(),
        !has_prefix(s.skip(i), pat),
    ensures
        replace_all(s.skip(i), pat, rep) == seq![s[i]] + replace_all(s.skip(i + 1), pat, rep),
{
    assert(s.skip(i).drop_first() =~= s.skip(i + 1));
}

/// `s` with every occurrence of `pat` replaced by `rep`, scanning from the
/// left (the behaviour of `str::replace`).
pub(crate) fn replace_str(s: &str, pat: &str, rep: &str) -> (r: String)
    requires
        pat@.len() > 0,
    ensures
        r@ == replace_all(s@, pat@, rep@),
{
    let slen = s.unicode_len();
    let plen = pat.unicode_len();
    let mut out = String::new();
    let mut i: usize = 0;
    assert(s@.skip(0) =~= s@);
    while i < slen
        invariant
            slen == s@.len(),
            plen == pat@.len(),
            plen > 0,
            i <= slen,
            replace_all(s@, pat@, rep@) == out@ + replace_all(s@.skip(i as int), pat@, rep@),
        decreases slen - i,
    {
        if matches_at(s, pat, i) {
            proof {
                assert(s@.skip(i as int).subrange(0, plen as int) =~= s@.subrange(i as int, i + plen));
                assert(s@.skip(i as int).skip(plen as int) =~= s@.skip(i + plen));
            }
            out.append(rep);
            i = i + plen;
        } else {
            proof {
                if has_prefix(s@.skip(i as int), pat@) {
                    assert(s@.skip(i as int).subrange(0, plen as int) =~= s@.subrange(i as int, i + plen));
                }
                lemma_replace_all_unfold_step(s@, pat@, rep@, i as int);
            }
            let c = s.substring_char(i, i + 1);
            assert(c@ =~= seq![s@[i as int]]);
            out.append(c);
            i = i + 1;
        }
    }
    assert(s@.skip(slen as int).len() == 0);
    out
}

/// The maximal non-empty runs of characters other than `c` in `s`, in order
/// (the non-empty pieces of `s.split(c)`).
pub open spec fn pieces(s: Seq<char>, c: char) -> Seq<Seq<char>>
    decreases s.len(),
{
    if s.len() == 0 {
        Seq::empty()
    } else {
        let rest = pieces(s.drop_last(), c);
        if s.last() == c {
            rest
        } else if s.len() >= 2 && s[s.len() - 2] != c {
            rest.update(rest.len() - 1, rest.last().push(s.last()))
        } else {
            rest.push(seq![s.last()])
        }
    }
}

/// `s` with every trailing `c` removed (the behaviour of `str::trim_end_matches`
/// with a single character).
pub fn trim_end_char(s: &str, c: char) -> (r: String)
    ensures
        r@ == trim_end(s@, c),
{
    let mut n = s.unicode_len();
    assert(s@.take(n as int) =~= s@);
    while n > 0 && s.get_char(n - 1) == c
        invariant
            n <= s@.len(),
            trim_end(s@, c) == trim_end(s@.take(n as int), c),
        decreases n,
    {
        assert(s@.take(n as int).drop_last() =~= s@.take(n - 1));
        n = n - 1;
    }
    let r = s.substring_char(0, n);
    assert(r@ =~= s@.take(n as int));
    String::from_str(r)
}

/// The part of `s` before the first `c` (the first item of `s.split(c)`).
pub fn before_first_char(s: &str, c: char) -> (r: String)
    ensures
        r@ == before_char(s@, c),
{
    let len = s.unicode_len();
    let mut i: usize = 0;
    assert(s@.skip(0) =~= s@);
    assert(s@.take(0) =~= Seq::<char>::empty());
    while i < len && s.get_char(i) != c
        invariant
            len == s@.len(),
            i <= len,
            before_char(s@, c) == s@.take(i as int) + before_char(s@.skip(i as int), c),
        decreases len - i,
    {
        assert(s@.skip(i as int).drop_first() =~= s@.skip(i + 1));
        assert(s@.take(i + 1) =~= s@.take(i as int).push(s@[i as int]));
        i = i + 1;
    }
    assert(before_char(s@.skip(i as int), c) =~= Seq::<char>::empty());
    let r = s.substring_char(0, i);
    assert(r@ =~= s@.take(i as int));
    String::from_str(r)
}

/// `s` without its prefix `p`, if `s` begins with `p`.
pub fn strip_prefix(s: &str, p: &str) -> (r: Option<String>)
    ensures
        has_prefix(s@, p@) <==> r is Some,
        r matches Some(rest) ==> rest@ == s@.skip(p@.len() as int) && s@ == p@ + rest@,
{
    if starts_with(s, p) {
        let plen = p.unicode_len();
        let slen = s.unicode_len();
        let rest = s.substring_char(plen, slen);
        assert(s@ =~= p@ + rest@);
        Some(String::from_str(rest))
    } else {
        None
    }
}

/// The index of the last occurrence of `p` in `s` (the behaviour of
/// `str::rfind`, counted in characters).
pub fn rfind(s: &str, p: &str) -> (r: Option<usize>)
    ensures
        r matches Some(i) ==> is_last_occurrence(s@, p@, i as int),
        r is None ==> forall|j: int| !occurs_at(s@, p@, j),
{
    let slen = s.unicode_len();
    let plen = p.unicode_len();
    if plen > slen {
        return None;
    }
    let mut i: usize = slen - plen;
    loop
        invariant
            slen == s@.len(),
            plen == p@.len(),
            plen <= slen,
            i <= slen - plen,
            forall|j: int| i < j ==> !occurs_at(s@, p@, j),
        decreases i,
    {
        if matches_at(s, p, i) {
            return Some(i);
        }
        if i == 0 {
            return None;
        }
        i = i - 1;
    }
}

proof fn lemma_pieces_step(s: Seq<char>, c: char, n: int)
    requires
        0 < n <= s.len(),
    ensures
        pieces(s.take(n), c) == {
            let rest = pieces(s.take(n - 1), c);
            if s[n - 1] == c {
                rest
            } else if n >= 2 && s[n - 2] != c {
                rest.update(rest.len() - 1, rest.last().push(s[n - 1]))
            } else {
                rest.push(seq![s[n - 1]])
            }
        },
{
    assert(s.take(n).drop_last() =~= s.take(n - 1));
}

/// The non-empty pieces of `s` between occurrences of `c`.
pub fn split_pieces(s: &str, c: char) -> (r: Vec<String>)
    ensures
        r@.map_values(|x: String| x@) == pieces(s@, c),
{
    let len = s.unicode_len();
    let mut done: Vec<String> = Vec::new();
    let mut cur = String::new();
    let mut i: usize = 0;
    assert(s@.take(0) =~= Seq::<char>::empty());
    while i < len
        invariant
            len == s@.len(),
            i <= len,
            pieces(s@.take(i as int), c) == done@.map_values(|x: String| x@) + (if cur@.len() > 0 {
                seq![cur@]
            } else {
                Seq::empty()
            }),
            cur@.len() > 0 ==> i > 0 && s@[i - 1] != c,
            i > 0 && s@[i - 1] != c ==> cur@.len() > 0,
        decreases len - i,
    {
        let ch = s.get_char(i);
        proof {
            lemma_pieces_step(s@, c, i + 1);
        }
        if ch == c {
            if cur.unicode_len() > 0 {
                let ghost before = done@.map_values(|x: String| x@);
                let piece = cur;
                cur = String::new();
                done.push(piece);
                assert(done@.map_values(|x: String| x@) =~= before + seq![piece@]);
            }
        } else {
            let ghost before = done@.map_values(|x: String| x@);
            let ghost cur_before = cur@;
            let one = s.substring_char(i, i + 1);
            assert(one@ =~= seq![ch]);
            cur.append(one);
            proof {
                let rest = pieces(s@.take(i as int), c);
                if i >= 1 && s@[i - 1] != c {
                    assert(rest =~= before + seq![cur_before]);
                    assert(cur@ =~= cur_before.push(ch));
                    assert(rest.update(rest.len() - 1, rest.last().push(ch)) =~= before + seq![cur@]);
                } else {
                    assert(rest.push(seq![ch]) =~= before + seq![cur@]);
                }
            }
        }
        i = i + 1;
    }
    assert(s@.take(len as int) =~= s@);
    if cur.unicode_len() > 0 {
        let ghost before = done@.map_values(|x: String| x@);
        done.push(cur);
        assert(done@.map_values(|x: String| x@) =~= before + seq![cur@]);
    } else {
        assert(done@.map_values(|x: String| x@) =~= done@.map_values(|x: String| x@) + Seq::<Seq<char>>::empty());
    }
    done
}

/// `s` ends with the character `c`.
pub open spec fn ends_with_char(s: Seq<char>, c: char) -> bool {
    s.len() > 0 && s.last() == c
}

/// Trimming leaves no trailing `c`, and only `c`s were removed.
pub proof fn lemma_trim_end(s: Seq<char>, c: char)
    ensures
        !ends_with_char(trim_end(s, c), c),
        trim_end(s, c).len() <= s.len(),
        s.take(trim_end(s, c).len() as int) == trim_end(s, c),
        forall|i: int| trim_end(s, c).len() <= i < s.len() ==> s[i] == c,
    decreases s.len(),
{
    if s.len() > 0 && s.last() == c {
        lemma_trim_end(s.drop_last(), c);
        let t = trim_end(s, c);
        assert(s.take(t.len() as int) =~= s.drop_last().take(t.len() as int));
        assert forall|i: int| t.len() <= i < s.len() implies s[i] == c by {
            if i < s.len() - 1 {
                assert(s.drop_last()[i] == s[i]);
            }
        }
    } else {
        assert(s.take(s.len() as int) =~= s);
    }
}

/// Trimming twice is trimming once.
pub proof fn lemma_trim_end_idempotent(s: Seq<char>, c: char)
    ensures
        trim_end(trim_end(s, c), c) == trim_end(s, c),
{
    lemma_trim_end(s, c);
}

/// A match at the start is replaced.
pub proof fn lemma_replace_all_match(s: Seq<char>, pat: Seq<char>, rep: Seq<char>)
    requires
        pat.len() > 0,
        has_prefix(s, pat),
    ensures
        replace_all(s, pat, rep) == rep + replace_all(s.skip(pat.len() as int), pat, rep),
{
}

/// Where no match starts before index `k`, the first `k` characters are kept.
pub proof fn lemma_replace_all_keeps_prefix(s: Seq<char>, pat: Seq<char>, rep: Seq<char>, k: int)
    requires
        pat.len() > 0,
        0 <= k <= s.len(),
        forall|i: int| 0 <= i < k ==> !occurs_at(s, pat, i),
    ensures
        replace_all(s, pat, rep) == s.take(k) + replace_all(s.skip(k), pat, rep),
    decreases k,
{
    if k == 0 {
        assert(s.skip(0) =~= s);
        assert(s.take(0) =~= Seq::<char>::empty());
    } else {
        lemma_replace_all_keeps_prefix(s, pat, rep, k - 1);
        assert(!occurs_at(s, pat, k - 1));
        if has_prefix(s.skip(k - 1), pat) {
            assert(s.skip(k - 1).subrange(0, pat.len() as int) =~= s.subrange(
                k - 1,
                k - 1 + pat.len(),
            ));
        }
        lemma_replace_all_unfold_step(s, pat, rep, k - 1);
        assert(s.take(k) =~= s.take(k - 1) + seq![s[k - 1]]);
    }
}

/// When `s` does not end with the last character of `pat`, replacing keeps
/// the last character of `s`.
pub proof fn lemma_replace_all_last(s: Seq<char>, pat: Seq<char>, rep: Seq<char>)
    requires
        pat.len() > 0,
        s.len() > 0,
        s.last() != pat.last(),
    ensures
        replace_all(s, pat, rep).len() > 0,
        replace_all(s, pat, rep).last() == s.last(),
    decreases s.len(),
{
    if has_prefix(s, pat) {
        let rest = s.skip(pat.len() as int);
        if rest.len() == 0 {
            assert(s.subrange(0, pat.len() as int) =~= s);
            assert(s.last() == pat.last());
        } else {
            lemma_replace_all_last(rest, pat, rep);
            assert(rest.last() == s.last());
            let r = replace_all(rest, pat, rep);
            assert((rep + r).last() == r.last());
        }
    } else {
        let rest = s.drop_first();
        if rest.len() > 0 {
            lemma_replace_all_last(rest, pat, rep);
            assert(rest.last() == s.last());
            let r = replace_all(rest, pat, rep);
            assert((seq![s[0]] + r).last() == r.last());
        } else {
            assert(replace_all(rest, pat, rep) =~= Seq::<char>::empty());
            assert((seq![s[0]] + replace_all(rest, pat, rep)) =~= seq![s[0]]);
        }
    }
}

/// The pieces of a string are non-empty and hold no separator.
pub proof fn lemma_pieces_clean(s: Seq<char>, c: char)
    ensures
        forall|i: int|
            0 <= i < pieces(s, c).len() ==> #[trigger] pieces(s, c)[i].len() > 0 && !pieces(
                s,
                c,
            )[i].contains(c),
    decreases s.len(),
{
    if s.len() > 0 {
        lemma_pieces_clean(s.drop_last(), c);
        let rest = pieces(s.drop_last(), c);
        if s.last() != c && s.len() >= 2 && s[s.len() - 2] != c {
            if rest.len() == 0 {
                // the previous character is not a separator, so it stands in a piece
                lemma_pieces_last_char(s.drop_last(), c);
            }
            let p = rest.last().push(s.last());
            assert forall|j: int| 0 <= j < p.len() implies p[j] != c by {
                if j < p.len() - 1 {
                    assert(rest.last().contains(rest.last()[j]) ==> rest.last()[j] != c);
                }
            }
        }
    }
}

/// A string that ends in a non-separator has at least one piece, and its
/// last piece ends with that character.
pub proof fn lemma_pieces_last_char(s: Seq<char>, c: char)
    requires
        s.len() > 0,
        s.last() != c,
    ensures
        pieces(s, c).len() > 0,
        pieces(s, c).last().len() > 0,
        pieces(s, c).last().last() == s.last(),
    decreases s.len(),
{
    let rest = pieces(s.drop_last(), c);
    if s.len() >= 2 && s[s.len() - 2] != c {
        lemma_pieces_last_char(s.drop_last(), c);
    }
}

/// `p` stands somewhere in `s`.
pub open spec fn occurs_in(s: Seq<char>, p: Seq<char>) -> bool {
    exists|i: int| occurs_at(s, p, i)
}

proof fn lemma_occurs_in_longer(t: Seq<char>, s: Seq<char>, p: Seq<char>, i: int)
    requires
        t.len() <= s.len(),
        t == s.take(t.len() as int),
        occurs_at(t, p, i),
    ensures
        occurs_at(s, p, i),
{
    assert(s.subrange(i, i + p.len()) =~= t.subrange(i, i + p.len()));
}

/// Every piece of a string stands in it; when the string does not end with
/// the separator, its last piece is its suffix.
pub proof fn lemma_pieces_occur(s: Seq<char>, c: char)
    ensures
        forall|k: int|
            0 <= k < pieces(s, c).len() ==> occurs_in(s, #[trigger] pieces(s, c)[k]),
        s.len() > 0 && s.last() != c ==> pieces(s, c).len() > 0 && occurs_at(
            s,
            pieces(s, c).last(),
            s.len() - pieces(s, c).last().len(),
        ),
    decreases s.len(),
{
    if s.len() > 0 {
        let t = s.drop_last();
        lemma_pieces_occur(t, c);
        assert(t =~= s.take(t.len() as int));
        let rest = pieces(t, c);
        let ps = pieces(s, c);
        if s.last() == c {
            assert forall|k: int| 0 <= k < ps.len() implies occurs_in(s, #[trigger] pieces(s, c)[k]) by {
                assert(ps[k] == rest[k]);
                assert(occurs_in(t, rest[k]));
                    let i = choose|i: int| occurs_at(t, rest[k], i);
                lemma_occurs_in_longer(t, s, rest[k], i);
                assert(occurs_at(s, ps[k], i));
            }
        } else if s.len() >= 2 && s[s.len() - 2] != c {
            let last = rest.last();
            let n = last.len();
            assert(occurs_at(t, last, t.len() - n));
            assert(s.subrange(s.len() - (n + 1), s.len() as int) =~= last.push(s.last()));
            assert forall|k: int| 0 <= k < ps.len() implies occurs_in(s, #[trigger] pieces(s, c)[k]) by {
                if k < ps.len() - 1 {
                    assert(ps[k] == rest[k]);
                    assert(occurs_in(t, rest[k]));
                    let i = choose|i: int| occurs_at(t, rest[k], i);
                    lemma_occurs_in_longer(t, s, rest[k], i);
                    assert(occurs_at(s, ps[k], i));
                } else {
                    assert(occurs_at(s, ps[k], s.len() - (n + 1)));
                }
            }
        } else {
            assert(s.subrange(s.len() - 1, s.len() as int) =~= seq![s.last()]);
            assert forall|k: int| 0 <= k < ps.len() implies occurs_in(s, #[trigger] pieces(s, c)[k]) by {
                if k < ps.len() - 1 {
                    assert(ps[k] == rest[k]);
                    assert(occurs_in(t, rest[k]));
                    let i = choose|i: int| occurs_at(t, rest[k], i);
                    lemma_occurs_in_longer(t, s, rest[k], i);
                    assert(occurs_at(s, ps[k], i));
                } else {
                    assert(occurs_at(s, ps[k], s.len() - 1));
                }
            }
        }
    }
}

} // verus!
