//! Non-overlapping substring replacement.

use vstd::prelude::*;

verus! {

/// `s` with every non-overlapping occurrence of `pat` replaced by `rep`,
/// scanning left to right. An empty pattern matches at every character
/// boundary, so `rep` is inserted before, between and after the characters.
pub open spec fn replace_all(s: Seq<char>, pat: Seq<char>, rep: Seq<char>) -> Seq<char>
    decreases s.len(),
{
    if pat.len() == 0 {
        if s.len() == 0 {
            rep
        } else {
            rep + seq![s[0]] + replace_all(s.skip(1), pat, rep)
        }
    } else if s.len() < pat.len() {
        s
    } else if s.take(pat.len() as int) == pat {
        rep + replace_all(s.skip(pat.len() as int), pat, rep)
    } else {
        seq![s[0]] + replace_all(s.skip(1), pat, rep)
    }
}

/// `t` with `rep` inserted after every character; together with one leading
/// `rep` this is what replacement with an empty pattern produces.
spec fn interleave_after(t: Seq<char>, rep: Seq<char>) -> Seq<char>
    decreases t.len(),
{
    if t.len() == 0 {
        Seq::<char>::empty()
    } else {
        seq![t[0]] + rep + interleave_after(t.skip(1), rep)
    }
}

proof fn lemma_replace_all_empty_pat(t: Seq<char>, rep: Seq<char>)
    ensures
        replace_all(t, Seq::<char>::empty(), rep) == rep + interleave_after(t, rep),
    decreases t.len(),
{
    if t.len() == 0 {
        assert(rep + interleave_after(t, rep) =~= rep);
    } else {
        lemma_replace_all_empty_pat(t.skip(1), rep);
        assert(rep + seq![t[0]] + (rep + interleave_after(t.skip(1), rep)) =~= rep
            + interleave_after(t, rep));
    }
}

/// Whether `pat` occurs in `s` at position `i`.
fn matches_at(s: &str, i: usize, pat: &str, pat_len: usize) -> (m: bool)
    requires
        pat_len == pat@.len(),
        i + pat_len <= s@.len() <= usize::MAX,
    ensures
        m == (s@.subrange(i as int, i + pat@.len()) == pat@),
{
    let mut j: usize = 0;
    while j < pat_len
        invariant
            pat_len == pat@.len(),
            i + pat_len <= s@.len() <= usize::MAX,
            j <= pat_len,
            forall|k: int| 0 <= k < j ==> s@[i + k] == pat@[k],
        decreases pat_len - j,
    {
        if s.get_char(i + j) != pat.get_char(j) {
            proof {
                assert(s@.subrange(i as int, i + pat@.len())[j as int] != pat@[j as int]);
            }
            return false;
        }
        j = j + 1;
    }
    proof {
        assert(s@.subrange(i as int, i + pat@.len()) =~= pat@);
    }
    true
}

/// Replaces every non-overlapping occurrence of `pattern` in `source` by
/// `replacement`, scanning left to right. An empty pattern matches at every
/// character boundary, so `replacement` is inserted before, between and after
/// the characters of `source`.
pub fn sub(source: &String, pattern: &str, replacement: &str) -> (replaced: String)
    ensures
        replaced@ == replace_all(source@, pattern@, replacement@),
{
    let src: &str = source.as_str();
    let len = src.unicode_len();
    let pat_len = pattern.unicode_len();
    let mut out = String::new();
    let mut i: usize = 0;
    if pat_len == 0 {
        out.append(replacement);
        proof {
            assert(pattern@ =~= Seq::<char>::empty());
            lemma_replace_all_empty_pat(src@, replacement@);
            assert(src@.skip(0) =~= src@);
            assert(out@ =~= replacement@);
        }
        while i < len
            invariant
                len == src@.len(),
                src@ == source@,
                pattern@.len() == 0,
                i <= len,
                replace_all(source@, pattern@, replacement@) == out@ + interleave_after(
                    src@.skip(i as int),
                    replacement@,
                ),
            decreases len - i,
        {
            let c = src.substring_char(i, i + 1);
            out.append(c);
            out.append(replacement);
            proof {
                let tail = src@.skip(i as int);
                assert(c@ =~= seq![tail[0]]);
                assert(tail.skip(1) =~= src@.skip(i + 1));
                assert(out@ + interleave_after(src@.skip(i + 1), replacement@)
                    =~= replace_all(source@, pattern@, replacement@));
            }
            i = i + 1;
        }
        proof {
            lemma_replace_all_empty_pat(src@, replacement@);
            assert(pattern@ =~= Seq::<char>::empty());
            assert(interleave_after(src@.skip(len as int), replacement@) =~= Seq::<char>::empty());
            assert(out@ =~= replace_all(source@, pattern@, replacement@));
        }
        return out;
    }
    proof {
        assert(src@.skip(0) =~= src@);
    }
    while i < len
        invariant
            len == src@.len(),
            src@ == source@,
            pat_len == pattern@.len(),
            pat_len > 0,
            i <= len,
            replace_all(source@, pattern@, replacement@) == out@ + replace_all(
                src@.skip(i as int),
                pattern@,
                replacement@,
            ),
        decreases len - i,
    {
        let ghost tail = src@.skip(i as int);
        if pat_len <= len - i && matches_at(src, i, pattern, pat_len) {
            out.append(replacement);
            proof {
                assert(tail.take(pat_len as int) =~= src@.subrange(i as int, i + pat_len));
                assert(tail.skip(pat_len as int) =~= src@.skip(i + pat_len));
                assert(replace_all(tail, pattern@, replacement@) == replacement@ + replace_all(
                    src@.skip(i + pat_len),
                    pattern@,
                    replacement@,
                ));
                assert(out@ + replace_all(src@.skip(i + pat_len), pattern@, replacement@)
                    =~= replace_all(source@, pattern@, replacement@));
            }
            i = i + pat_len;
        } else {
            let c = src.substring_char(i, i + 1);
            out.append(c);
            proof {
                assert(c@ =~= seq![tail[0]]);
                assert(tail.skip(1) =~= src@.skip(i + 1));
                if tail.len() < pattern@.len() {
                    assert(replace_all(tail, pattern@, replacement@) =~= seq![tail[0]]
                        + replace_all(tail.skip(1), pattern@, replacement@));
                } else {
                    assert(tail.take(pat_len as int) =~= src@.subrange(i as int, i + pat_len));
                    assert(tail.take(pat_len as int) != pattern@);
                }
                assert(out@ + replace_all(src@.skip(i + 1), pattern@, replacement@)
                    =~= replace_all(source@, pattern@, replacement@));
            }
            i = i + 1;
        }
    }
    proof {
        assert(src@.skip(len as int) =~= Seq::<char>::empty());
        assert(out@ =~= replace_all(source@, pattern@, replacement@));
    }
    out
}

} // verus!
