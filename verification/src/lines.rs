//! Splitting a byte stream into lines, inclusive of the line-feed
//! delimiter; a final partial line without a delimiter is still a line.

use vstd::prelude::*;

verus! {

/// The lines of a stream: each line ends with the line-feed byte, except
/// possibly the last, which is the non-empty remainder of the stream.
/// The lines concatenate back to the stream exactly.
pub open spec fn spec_lines(s: Seq<u8>) -> Seq<Seq<u8>>
    decreases s.len(),
{
    if s.len() == 0 {
        Seq::empty()
    } else if s[0] == 10 {
        seq![seq![10u8]] + spec_lines(s.drop_first())
    } else {
        let rest = spec_lines(s.drop_first());
        if rest.len() == 0 {
            seq![seq![s[0]]]
        } else {
            seq![seq![s[0]] + rest[0]] + rest.drop_first()
        }
    }
}

/// The concatenation of a sequence of byte sequences.
pub open spec fn spec_concat(parts: Seq<Seq<u8>>) -> Seq<u8>
    decreases parts.len(),
{
    if parts.len() == 0 {
        Seq::empty()
    } else {
        parts[0] + spec_concat(parts.drop_first())
    }
}

/// The views of a sequence of byte vectors.
pub open spec fn seq_views(parts: Seq<Vec<u8>>) -> Seq<Seq<u8>> {
    parts.map_values(|p: Vec<u8>| p@)
}

/// A non-empty stream has at least one line.
pub proof fn lemma_lines_nonempty_stream(s: Seq<u8>)
    requires
        s.len() > 0,
    ensures
        spec_lines(s).len() > 0,
    decreases s.len(),
{
    if s[0] != 10 && spec_lines(s.drop_first()).len() != 0 {
    }
}

/// There are no more lines than bytes.
pub proof fn lemma_lines_count(s: Seq<u8>)
    ensures
        spec_lines(s).len() <= s.len(),
    decreases s.len(),
{
    if s.len() == 0 {
    } else {
        lemma_lines_count(s.drop_first());
    }
}

/// Every line is non-empty.
pub proof fn lemma_lines_nonempty(s: Seq<u8>)
    ensures
        forall|k: int|
            0 <= k < spec_lines(s).len() ==> (#[trigger] spec_lines(s)[k]).len() > 0,
    decreases s.len(),
{
    if s.len() == 0 {
    } else {
        lemma_lines_nonempty(s.drop_first());
        let rest = spec_lines(s.drop_first());
        let ls = spec_lines(s);
        if s[0] == 10 {
            assert forall|k: int| 0 <= k < ls.len() implies (#[trigger] ls[k]).len() > 0 by {
                if k > 0 {
                    assert(ls[k] == rest[k - 1]);
                }
            }
        } else if rest.len() == 0 {
        } else {
            assert forall|k: int| 0 <= k < ls.len() implies (#[trigger] ls[k]).len() > 0 by {
                if k > 0 {
                    assert(ls[k] == rest.drop_first()[k - 1]);
                    assert(rest.drop_first()[k - 1] == rest[k]);
                }
            }
        }
    }
}

/// The lines of a stream concatenate back to the stream.
pub proof fn lemma_lines_concat(s: Seq<u8>)
    ensures
        spec_concat(spec_lines(s)) == s,
    decreases s.len(),
{
    if s.len() == 0 {
        assert(spec_concat(spec_lines(s)) =~= s);
    } else if s[0] == 10 {
        lemma_lines_concat(s.drop_first());
        let ls = spec_lines(s);
        assert(ls[0] =~= seq![10u8]);
        assert(ls.drop_first() =~= spec_lines(s.drop_first()));
        assert(spec_concat(ls) =~= s);
    } else {
        lemma_lines_concat(s.drop_first());
        let rest = spec_lines(s.drop_first());
        if rest.len() == 0 {
            // Then the remainder of the stream is empty, so the stream is a
            // single byte forming the only (partial) line.
            if s.drop_first().len() > 0 {
                lemma_lines_nonempty_stream(s.drop_first());
            }
            assert(s.drop_first().len() == 0);
            let ls = spec_lines(s);
            assert(ls =~= seq![seq![s[0]]]);
            assert(ls.drop_first() =~= Seq::<Seq<u8>>::empty());
            assert(spec_concat(ls) =~= s);
        } else {
            let ls = spec_lines(s);
            assert(ls[0] =~= seq![s[0]] + rest[0]);
            assert(ls.drop_first() =~= rest.drop_first());
            // spec_concat(rest) == rest[0] + spec_concat(rest.drop_first())
            assert(spec_concat(ls) =~= seq![s[0]] + spec_concat(rest));
            assert(seq![s[0]] + s.drop_first() =~= s);
        }
    }
}

/// A maximal delimited line: if the bytes from `i` up to `j` hold no line
/// feed and `s[j]` is one, the bytes from `i` through `j` are the first
/// line of the stream's suffix at `i`.
pub proof fn lemma_lines_delimited(s: Seq<u8>, i: int, j: int)
    requires
        0 <= i <= j < s.len(),
        s[j] == 10,
        forall|k: int| i <= k < j ==> s[k] != 10,
    ensures
        spec_lines(s.skip(i)) == seq![s.subrange(i, j + 1)] + spec_lines(s.skip(j + 1)),
    decreases j - i,
{
    let t = s.skip(i);
    if i == j {
        assert(t[0] == 10);
        assert(t.drop_first() =~= s.skip(i + 1));
        assert(seq![10u8] =~= s.subrange(i, j + 1));
        assert(spec_lines(t) =~= seq![s.subrange(i, j + 1)] + spec_lines(s.skip(j + 1)));
    } else {
        assert(t[0] == s[i]);
        assert(t[0] != 10);
        lemma_lines_delimited(s, i + 1, j);
        assert(t.drop_first() =~= s.skip(i + 1));
        let rest = spec_lines(s.skip(i + 1));
        assert(rest == seq![s.subrange(i + 1, j + 1)] + spec_lines(s.skip(j + 1)));
        assert(rest.len() > 0);
        assert(rest[0] == s.subrange(i + 1, j + 1));
        assert(seq![t[0]] + rest[0] =~= s.subrange(i, j + 1));
        assert(rest.drop_first() =~= spec_lines(s.skip(j + 1)));
        assert(spec_lines(t) =~= seq![s.subrange(i, j + 1)] + spec_lines(s.skip(j + 1)));
    }
}

/// A final partial line: if no line feed stands at or after `i`, the
/// suffix at `i` is one single line.
pub proof fn lemma_lines_partial(s: Seq<u8>, i: int)
    requires
        0 <= i < s.len(),
        forall|k: int| i <= k < s.len() ==> s[k] != 10,
    ensures
        spec_lines(s.skip(i)) == seq![s.skip(i)],
    decreases s.len() - i,
{
    let t = s.skip(i);
    assert(t[0] == s[i]);
    assert(t[0] != 10);
    assert(t.drop_first() =~= s.skip(i + 1));
    if i + 1 == s.len() {
        assert(s.skip(i + 1).len() == 0);
        assert(spec_lines(s.skip(i + 1)) =~= Seq::<Seq<u8>>::empty());
        assert(seq![t[0]] =~= s.skip(i));
        assert(spec_lines(t) =~= seq![s.skip(i)]);
    } else {
        lemma_lines_partial(s, i + 1);
        let rest = spec_lines(s.skip(i + 1));
        assert(rest.len() == 1);
        assert(rest[0] == s.skip(i + 1));
        assert(seq![t[0]] + rest[0] =~= s.skip(i));
        assert(rest.drop_first() =~= Seq::<Seq<u8>>::empty());
        assert(spec_lines(t) =~= seq![s.skip(i)]);
    }
}

/// Split a stream into its lines, each inclusive of its delimiter.
pub fn split_lines(input: &Vec<u8>) -> (r: Vec<Vec<u8>>)
    ensures
        seq_views(r@) == spec_lines(input@),
{
    let n = input.len();
    let mut r: Vec<Vec<u8>> = Vec::new();
    let mut i: usize = 0;
    proof {
        assert(input@.skip(0) =~= input@);
        assert(seq_views(r@) + spec_lines(input@) =~= spec_lines(input@));
    }
    while i < n
        invariant
            i <= n,
            n == input@.len(),
            spec_lines(input@) == seq_views(r@) + spec_lines(input@.skip(i as int)),
        decreases n - i,
    {
        let mut j: usize = i;
        while j < n && input[j] != 10
            invariant
                i <= j <= n,
                n == input@.len(),
                forall|k: int| i <= k < j ==> input@[k] != 10,
            decreases n - j,
        {
            j = j + 1;
        }
        let end: usize = if j < n {
            j + 1
        } else {
            n
        };
        let mut line: Vec<u8> = Vec::new();
        let mut k: usize = i;
        while k < end
            invariant
                i <= k <= end,
                end <= n,
                n == input@.len(),
                line@ == input@.subrange(i as int, k as int),
            decreases end - k,
        {
            line.push(input[k]);
            proof {
                assert(input@.subrange(i as int, k as int).push(input@[k as int])
                    =~= input@.subrange(i as int, k as int + 1));
            }
            k = k + 1;
        }
        proof {
            if j < n {
                lemma_lines_delimited(input@, i as int, j as int);
            } else {
                lemma_lines_partial(input@, i as int);
                assert(input@.subrange(i as int, n as int) =~= input@.skip(i as int));
                assert(spec_lines(input@.skip(n as int)) =~= Seq::<Seq<u8>>::empty());
            }
            assert(seq_views(r@.push(line)) =~= seq_views(r@).push(line@));
            assert(seq_views(r@) + (seq![line@] + spec_lines(input@.skip(end as int)))
                =~= seq_views(r@).push(line@) + spec_lines(input@.skip(end as int)));
        }
        r.push(line);
        i = end;
    }
    proof {
        assert(spec_lines(input@.skip(n as int)) =~= Seq::<Seq<u8>>::empty());
        assert(seq_views(r@) + Seq::<Seq<u8>>::empty() =~= seq_views(r@));
    }
    r
}

} // verus!
