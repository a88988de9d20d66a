//! Splitting text into lines or into single characters.

use vstd::prelude::*;

verus! {

/// The fragments of `s` between occurrences of the delimiter `d`, in order.
/// Every fragment is kept: leading, trailing and consecutive delimiters all
/// produce empty fragments, so the result holds one more fragment than `s`
/// holds delimiters.
pub open spec fn split_on(s: Seq<char>, d: char) -> Seq<Seq<char>>
    decreases s.len(),
{
    if s.len() == 0 {
        seq![Seq::<char>::empty()]
    } else if s[0] == d {
        seq![Seq::<char>::empty()] + split_on(s.skip(1), d)
    } else {
        let rest = split_on(s.skip(1), d);
        seq![seq![s[0]] + rest[0]] + rest.skip(1)
    }
}

/// The fragments of `s` split at every character boundary: one empty fragment,
/// then one single-character fragment per character, then one empty fragment.
pub open spec fn split_at_chars(s: Seq<char>) -> Seq<Seq<char>> {
    seq![Seq::<char>::empty()] + Seq::new(s.len(), |i: int| seq![s[i]]) + seq![
        Seq::<char>::empty(),
    ]
}

/// Where `s` holds no delimiter at all, it is its own single fragment.
proof fn lemma_split_on_free(s: Seq<char>, d: char)
    requires
        forall|j: int| 0 <= j < s.len() ==> s[j] != d,
    ensures
        split_on(s, d) == seq![s],
    decreases s.len(),
{
    if s.len() == 0 {
        assert(s =~= Seq::<char>::empty());
    } else {
        assert(forall|j: int| 0 <= j < s.skip(1).len() ==> s.skip(1)[j] != d);
        lemma_split_on_free(s.skip(1), d);
        let rest = split_on(s.skip(1), d);
        assert(seq![s[0]] + rest[0] =~= s);
        assert(split_on(s, d) =~= seq![s]);
    }
}

/// Where the first delimiter of `s` stands at `k`, the first fragment is
/// everything before `k` and the rest is the split of everything after `k`.
proof fn lemma_split_on_first(s: Seq<char>, d: char, k: int)
    requires
        0 <= k < s.len(),
        s[k] == d,
        forall|j: int| 0 <= j < k ==> s[j] != d,
    ensures
        split_on(s, d) == seq![s.take(k)] + split_on(s.skip(k + 1), d),
    decreases k,
{
    if k == 0 {
        assert(s.take(0) =~= Seq::<char>::empty());
        assert(split_on(s, d) =~= seq![s.take(0)] + split_on(s.skip(1), d));
    } else {
        assert(forall|j: int| 0 <= j < k - 1 ==> s.skip(1)[j] != d);
        lemma_split_on_first(s.skip(1), d, k - 1);
        let rest = split_on(s.skip(1), d);
        assert(s.skip(1).skip(k) =~= s.skip(k + 1));
        assert(rest == seq![s.skip(1).take(k - 1)] + split_on(s.skip(k + 1), d));
        assert(seq![s[0]] + rest[0] =~= s.take(k));
        assert(rest.skip(1) =~= split_on(s.skip(k + 1), d));
        assert(split_on(s, d) =~= seq![s.take(k)] + split_on(s.skip(k + 1), d));
    }
}

/// Splits text (typically a whole file's contents) into its lines: the
/// fragments between newline characters, every fragment kept, so text that
/// ends in a newline yields a final empty fragment.
pub fn read_file_into_line_vec(content: &str) -> (lines: Vec<String>)
    ensures
        lines.deep_view() == split_on(content@, '\n'),
{
    let mut lines: Vec<String> = Vec::new();
    let len = content.unicode_len();
    let mut start: usize = 0;
    let mut i: usize = 0;
    proof {
        assert(content@.skip(0) =~= content@);
        assert(lines.deep_view() =~= Seq::<Seq<char>>::empty());
        assert(split_on(content@, '\n') =~= lines.deep_view() + split_on(content@.skip(0), '\n'));
    }
    while i < len
        invariant
            len == content@.len(),
            start <= i <= len,
            forall|j: int| start <= j < i ==> content@[j] != '\n',
            split_on(content@, '\n') == lines.deep_view() + split_on(
                content@.skip(start as int),
                '\n',
            ),
        decreases len - i,
    {
        if content.get_char(i) == '\n' {
            let frag = content.substring_char(start, i);
            lines.push(String::from_str(frag));
            proof {
                let tail = content@.skip(start as int);
                assert(forall|j: int| 0 <= j < i - start ==> tail[j] != '\n');
                lemma_split_on_first(tail, '\n', i - start);
                assert(tail.take(i - start) =~= frag@);
                assert(tail.skip(i - start + 1) =~= content@.skip(i + 1));
                assert(lines.deep_view() =~= lines.deep_view().take(
                    lines.deep_view().len() - 1,
                ) + seq![frag@]);
                assert(split_on(content@, '\n') =~= lines.deep_view() + split_on(
                    content@.skip(i + 1),
                    '\n',
                ));
            }
            start = i + 1;
        }
        i = i + 1;
    }
    let frag = content.substring_char(start, len);
    lines.push(String::from_str(frag));
    proof {
        let tail = content@.skip(start as int);
        assert(tail =~= frag@);
        lemma_split_on_free(tail, '\n');
        assert(lines.deep_view() =~= lines.deep_view().take(lines.deep_view().len() - 1) + seq![
            frag@,
        ]);
        assert(lines.deep_view() =~= split_on(content@, '\n'));
    }
    lines
}

/// Splits text (typically a whole file's contents) at every character
/// boundary: an empty fragment, then one fragment per character, then an
/// empty fragment, exactly as splitting on the empty pattern does.
pub fn read_file_into_char_vec(content: &str) -> (chars: Vec<String>)
    ensures
        chars.deep_view() == split_at_chars(content@),
{
    let mut chars: Vec<String> = Vec::new();
    chars.push(String::new());
    let len = content.unicode_len();
    let mut i: usize = 0;
    while i < len
        invariant
            len == content@.len(),
            i <= len,
            chars.deep_view() == seq![Seq::<char>::empty()] + Seq::new(
                i as nat,
                |j: int| seq![content@[j]],
            ),
        decreases len - i,
    {
        let ghost pre = chars.deep_view();
        let frag = content.substring_char(i, i + 1);
        chars.push(String::from_str(frag));
        proof {
            assert(frag@ =~= seq![content@[i as int]]);
            assert(chars.deep_view() =~~= pre.push(frag@));
            assert(pre.push(frag@) =~~= seq![Seq::<char>::empty()] + Seq::new(
                (i + 1) as nat,
                |j: int| seq![content@[j]],
            ));
        }
        i = i + 1;
    }
    chars.push(String::new());
    proof {
        assert(chars.deep_view() =~= split_at_chars(content@));
    }
    chars
}

} // verus!
