use vstd::prelude::*;

verus! {

/// ASCII whitespace, the characters stripped from both ends of a token
/// before it is examined.
pub open spec fn is_space(c: char) -> bool {
    c == ' ' || c == '\t' || c == '\n' || c == '\r' || c == '\u{0b}' || c == '\u{0c}'
}

/// A sequence with its leading whitespace removed.
pub open spec fn trim_front(s: Seq<char>) -> Seq<char>
    decreases s.len(),
{
    if s.len() > 0 && is_space(s[0]) {
        trim_front(s.drop_first())
    } else {
        s
    }
}

/// A sequence with its trailing whitespace removed.
pub open spec fn trim_back(s: Seq<char>) -> Seq<char>
    decreases s.len(),
{
    if s.len() > 0 && is_space(s.last()) {
        trim_back(s.drop_last())
    } else {
        s
    }
}

/// A sequence with whitespace removed from both ends.
pub open spec fn trim_spec(s: Seq<char>) -> Seq<char> {
    trim_back(trim_front(s))
}

/// Splitting at every occurrence of either separator, keeping empty pieces:
/// an empty input yields one empty piece, and each further character either
/// opens a new piece (a separator) or extends the last one.
pub open spec fn split_seps(s: Seq<char>, a: char, b: char) -> Seq<Seq<char>>
    decreases s.len(),
{
    if s.len() == 0 {
        seq![Seq::<char>::empty()]
    } else if s.last() == a || s.last() == b {
        split_seps(s.drop_last(), a, b).push(Seq::<char>::empty())
    } else {
        let r = split_seps(s.drop_last(), a, b);
        r.update(r.len() - 1, r.last().push(s.last()))
    }
}

/// Strips ASCII whitespace from both ends of a string.
#[verifier::loop_isolation(false)]
pub fn trim_str(s: &str) -> (r: String)
    ensures
        r@ == trim_spec(s@),
{
    let n = s.unicode_len();
    proof {
        assert(s@.subrange(0, n as int) =~= s@);
    }
    let mut start: usize = 0;
    while start < n && is_space_exec(s.get_char(start))
        invariant
            0 <= start <= n,
            n == s@.len(),
            trim_front(s@) == trim_front(s@.subrange(start as int, n as int)),
        decreases n - start,
    {
        proof {
            let cur = s@.subrange(start as int, n as int);
            assert(cur[0] == s@[start as int]);
            assert(cur.drop_first() =~= s@.subrange(start as int + 1, n as int));
        }
        start = start + 1;
    }
    proof {
        let cur = s@.subrange(start as int, n as int);
        assert(trim_front(cur) == cur);
        assert(trim_front(s@) == s@.subrange(start as int, n as int));
    }
    let mut end: usize = n;
    while end > start && is_space_exec(s.get_char(end - 1))
        invariant
            start <= end <= n,
            n == s@.len(),
            trim_front(s@) == s@.subrange(start as int, n as int),
            trim_back(s@.subrange(start as int, n as int)) == trim_back(
                s@.subrange(start as int, end as int),
            ),
        decreases end,
    {
        proof {
            let cur = s@.subrange(start as int, end as int);
            assert(cur.last() == s@[end - 1]);
            assert(cur.drop_last() =~= s@.subrange(start as int, end as int - 1));
        }
        end = end - 1;
    }
    proof {
        let cur = s@.subrange(start as int, end as int);
        assert(trim_back(cur) == cur);
    }
    let piece = s.substring_char(start, end);
    String::from_str(piece)
}

/// Whether the character is ASCII whitespace.
pub fn is_space_exec(c: char) -> (r: bool)
    ensures
        r == is_space(c),
{
    c == ' ' || c == '\t' || c == '\n' || c == '\r' || c == '\u{0b}' || c == '\u{0c}'
}

proof fn lemma_deep_view_push(v: Seq<String>, e: String)
    ensures
        v.push(e).map_values(|t: String| t@) =~= v.map_values(|t: String| t@).push(e@),
{
}

/// The deep view of a vector of strings: each element as its character
/// sequence.
pub open spec fn strings_view(v: Seq<String>) -> Seq<Seq<char>> {
    v.map_values(|t: String| t@)
}

/// Splits a line at every occurrence of either separator, keeping empty
/// pieces, as the splitter of the inbound line format asks.
#[verifier::loop_isolation(false)]
pub fn split_line(s: &str, a: char, b: char) -> (r: Vec<String>)
    ensures
        strings_view(r@) == split_seps(s@, a, b),
        r@.len() >= 1,
{
    let n = s.unicode_len();
    let mut out: Vec<String> = Vec::new();
    let mut cur = String::new();
    let mut start: usize = 0;
    let mut i: usize = 0;
    while i < n
        invariant
            0 <= start <= i <= n,
            n == s@.len(),
            cur@ == s@.subrange(start as int, i as int),
            split_seps(s@.subrange(0, i as int), a, b) == strings_view(out@).push(cur@),
        decreases n - i,
    {
        let c = s.get_char(i);
        proof {
            let pre = s@.subrange(0, i as int);
            let pre1 = s@.subrange(0, i as int + 1);
            assert(pre1.drop_last() =~= pre);
            assert(pre1.last() == s@[i as int]);
        }
        if c == a || c == b {
            proof {
                lemma_deep_view_push(out@, cur);
                assert(split_seps(s@.subrange(0, i as int + 1), a, b) =~= strings_view(
                    out@.push(cur),
                ).push(Seq::<char>::empty()));
            }
            out.push(cur);
            cur = String::new();
            start = i + 1;
            proof {
                assert(cur@ =~= s@.subrange(start as int, start as int));
            }
        } else {
            proof {
                let r = strings_view(out@).push(cur@);
                assert(r.last() == cur@);
                assert(r.update(r.len() - 1, cur@.push(s@[i as int])) =~= strings_view(
                    out@,
                ).push(cur@.push(s@[i as int])));
                assert(cur@.push(s@[i as int]) =~= s@.subrange(start as int, i as int + 1));
            }
            let piece = s.substring_char(i, i + 1);
            cur.append(piece);
            proof {
                assert(s@.subrange(i as int, i as int + 1) =~= seq![s@[i as int]]);
                assert(cur@ =~= s@.subrange(start as int, i as int + 1));
            }
        }
        i = i + 1;
    }
    proof {
        assert(s@.subrange(0, n as int) =~= s@);
        lemma_deep_view_push(out@, cur);
    }
    out.push(cur);
    out
}

} // verus!
