//! The two string primitives the sink resolver needs: cutting the listing
//! text into lines, and case-sensitive substring containment.

use vstd::prelude::*;

verus! {

/// Splitting a character sequence at every newline, the way the listing text
/// is cut into lines: the empty text yields one empty line, and a trailing
/// newline yields a final empty line.
pub open spec fn spec_split_lines(s: Seq<char>) -> Seq<Seq<char>>
    decreases s.len(),
{
    if s.len() == 0 {
        seq![Seq::<char>::empty()]
    } else if s.last() == '\n' {
        spec_split_lines(s.drop_last()).push(Seq::<char>::empty())
    } else {
        let rest = spec_split_lines(s.drop_last());
        rest.update(rest.len() - 1, rest.last().push(s.last()))
    }
}

/// Splitting always yields at least one line.
pub proof fn lemma_split_lines_nonempty(s: Seq<char>)
    ensures
        spec_split_lines(s).len() >= 1,
    decreases s.len(),
{
    if s.len() > 0 {
        lemma_split_lines_nonempty(s.drop_last());
    }
}

/// Relies on String::push: appends one character at the end of the string.
#[verifier::external_body]
fn push_char(s: &mut String, c: char)
    ensures
        final (s)@ == old(s)@.push(c),
{
    s.push(c)
}

/// Cuts `text` at every newline, keeping empty pieces, exactly as
/// `spec_split_lines` describes.
pub fn split_lines(text: &str) -> (r: Vec<String>)
    ensures
        r@.map_values(|l: String| l@) == spec_split_lines(text@),
{
    let len = text.unicode_len();
    let mut result: Vec<String> = Vec::new();
    let mut current = String::new();
    let mut i: usize = 0;
    proof {
        assert(text@.take(0) =~= Seq::<char>::empty());
        assert(result@.map_values(|l: String| l@).push(current@) =~= spec_split_lines(
            text@.take(0),
        ));
    }
    while i < len
        invariant
            len == text@.len(),
            0 <= i <= len,
            result@.map_values(|l: String| l@).push(current@) == spec_split_lines(
                text@.take(i as int),
            ),
        decreases len - i,
    {
        proof {
            assert(text@.take(i + 1).drop_last() =~= text@.take(i as int));
            assert(text@.take(i + 1).last() == text@[i as int]);
            lemma_split_lines_nonempty(text@.take(i as int));
        }
        let c = text.get_char(i);
        if c == '\n' {
            result.push(current);
            current = String::new();
            proof {
                assert(result@.map_values(|l: String| l@).push(current@) =~= spec_split_lines(
                    text@.take(i as int),
                ).push(Seq::<char>::empty()));
            }
        } else {
            let ghost prev = result@.map_values(|l: String| l@).push(current@);
            push_char(&mut current, c);
            proof {
                assert(result@.map_values(|l: String| l@).push(current@) =~= prev.update(
                    prev.len() - 1,
                    prev.last().push(text@[i as int]),
                ));
            }
        }
        i += 1;
    }
    proof {
        assert(text@.take(len as int) =~= text@);
    }
    result.push(current);
    proof {
        assert(result@.map_values(|l: String| l@) =~= spec_split_lines(text@));
    }
    result
}

/// `needle` occurs in `hay` starting at position `i`.
pub open spec fn occurs_at(hay: Seq<char>, needle: Seq<char>, i: int) -> bool {
    0 <= i && i + needle.len() <= hay.len() && hay.subrange(i, i + needle.len() as int)
        == needle
}

/// `needle` occurs somewhere in `hay` (case-sensitive containment).
pub open spec fn contains_seq(hay: Seq<char>, needle: Seq<char>) -> bool {
    exists|i: int| occurs_at(hay, needle, i)
}

/// Compares `needle` against `hay` at one position.
fn occurs_at_exec(hay: &str, needle: &str, i: usize) -> (r: bool)
    requires
        i + needle@.len() <= hay@.len(),
    ensures
        r == occurs_at(hay@, needle@, i as int),
{
    let h = hay.unicode_len();
    let n = needle.unicode_len();
    let mut j: usize = 0;
    while j < n
        invariant
            h == hay@.len(),
            n == needle@.len(),
            i + n <= h,
            0 <= j <= n,
            forall|k: int| 0 <= k < j ==> hay@[i + k] == needle@[k],
        decreases n - j,
    {
        if hay.get_char(i + j) != needle.get_char(j) {
            assert(!occurs_at(hay@, needle@, i as int)) by {
                if hay@.subrange(i as int, i + needle@.len() as int) == needle@ {
                    assert(hay@.subrange(i as int, i + needle@.len() as int)[j as int]
                        == hay@[i + j]);
                }
            }
            return false;
        }
        j += 1;
    }
    assert(hay@.subrange(i as int, i + needle@.len() as int) =~= needle@);
    true
}

/// Scans `hay` left to right for `needle`; reports whether it occurs at all.
pub fn contains_substring(hay: &str, needle: &str) -> (r: bool)
    ensures
        r == contains_seq(hay@, needle@),
{
    let h = hay.unicode_len();
    let n = needle.unicode_len();
    if n > h {
        assert(!contains_seq(hay@, needle@)) by {
            assert(forall|i: int| #[trigger] occurs_at(hay@, needle@, i) ==> i + needle@.len()
                <= hay@.len());
        }
        return false;
    }
    if n == 0 {
        assert(occurs_at(hay@, needle@, 0)) by {
            assert(hay@.subrange(0, 0) =~= needle@);
        }
        return true;
    }
    let bound = h - n + 1;
    let mut i: usize = 0;
    while i < bound
        invariant
            h == hay@.len(),
            n == needle@.len(),
            1 <= n <= h,
            bound == h - n + 1,
            0 <= i <= bound,
            forall|k: int| 0 <= k < i ==> !occurs_at(hay@, needle@, k),
        decreases bound - i,
    {
        if occurs_at_exec(hay, needle, i) {
            return true;
        }
        i += 1;
    }
    assert(!contains_seq(hay@, needle@)) by {
        assert(forall|k: int| #[trigger] occurs_at(hay@, needle@, k) ==> 0 <= k <= h - n);
    }
    false
}

} // verus!
