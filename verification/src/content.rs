use vstd::prelude::*;

verus! {

/// The text that joining a batch of values with a separator gives, in
/// order: empty when there are no values, otherwise the values with exactly
/// one separator between each adjacent pair.
pub open spec fn join_with(vals: Seq<Seq<char>>, sep: Seq<char>) -> Seq<char>
    decreases vals.len(),
{
    if vals.len() == 0 {
        Seq::empty()
    } else if vals.len() == 1 {
        vals[0]
    } else {
        join_with(vals.drop_last(), sep) + sep + vals.last()
    }
}

/// The content-match heuristic's decision: raw external text corresponds to
/// a cached batch exactly when it equals that batch joined with the
/// separator, in order. In particular an empty batch matches only empty
/// text.
pub open spec fn content_matches(vals: Seq<Seq<char>>, sep: Seq<char>, text: Seq<char>) -> bool {
    text == join_with(vals, sep)
}

/// Law: a batch always matches the text obtained by joining that same batch
/// with the same separator, so multi-value content sent to the clipboard is
/// recognised again when the clipboard hands it back unchanged.
pub proof fn lemma_join_matches_itself(vals: Seq<Seq<char>>, sep: Seq<char>)
    ensures
        content_matches(vals, sep, join_with(vals, sep)),
{
}

/// Joins the values of a batch with the separator into one flat text.
pub fn join_values(batch: &Vec<String>, sep: &str) -> (r: String)
    ensures
        r@ == join_with(batch.deep_view(), sep@),
{
    let ghost dv = batch.deep_view();
    let mut acc = String::new();
    let mut i: usize = 0;
    while i < batch.len()
        invariant
            0 <= i <= batch.len(),
            dv == batch.deep_view(),
            acc@ == join_with(dv.take(i as int), sep@),
        decreases batch.len() - i,
    {
        if i > 0 {
            acc.append(sep);
        }
        acc.append(batch[i].as_str());
        proof {
            assert(dv.take(i + 1).drop_last() =~= dv.take(i as int));
            assert(dv.take(i + 1).last() == dv[i as int]);
            if i == 0 {
                assert(acc@ =~= join_with(dv.take(1), sep@));
            } else {
                assert(acc@ == join_with(dv.take(i + 1), sep@));
            }
        }
        i += 1;
    }
    proof {
        assert(dv.take(batch.len() as int) =~= dv);
    }
    acc
}

/// Whether a position holds the first line feed of a text.
pub open spec fn first_newline_at(s: Seq<char>, i: int) -> bool {
    &&& 0 <= i < s.len()
    &&& s[i] == '\n'
    &&& forall|j: int| 0 <= j < i ==> s[j] != '\n'
}

/// A line cut at a line feed loses one carriage return from its end, that
/// pair being a two-character line ending.
pub open spec fn strip_trailing_cr(p: Seq<char>) -> Seq<char> {
    if p.len() > 0 && p.last() == '\r' {
        p.drop_last()
    } else {
        p
    }
}

/// The first line of a text value: the characters before the first line
/// feed, less a carriage return directly before it; the whole text when no
/// line feed occurs.
pub open spec fn first_line(s: Seq<char>) -> Seq<char> {
    if exists|i: int| first_newline_at(s, i) {
        strip_trailing_cr(s.subrange(0, choose|i: int| first_newline_at(s, i)))
    } else {
        s
    }
}

/// The first line of a text value, as owned text.
pub fn first_line_of(s: &str) -> (r: String)
    ensures
        r@ == first_line(s@),
{
    let n = s.unicode_len();
    let mut i: usize = 0;
    while i < n
        invariant
            i <= n,
            n == s@.len(),
            forall|j: int| 0 <= j < i ==> s@[j] != '\n',
        decreases n - i,
    {
        if s.get_char(i) == '\n' {
            proof {
                assert(first_newline_at(s@, i as int));
                let k = choose|k: int| first_newline_at(s@, k);
                if k < i as int {
                    assert(s@[k] == '\n');
                }
                if k > i as int {
                    assert(s@[i as int] != '\n');
                }
                assert(k == i as int);
            }
            let end = if i > 0 && s.get_char(i - 1) == '\r' {
                i - 1
            } else {
                i
            };
            let line = s.substring_char(0, end);
            proof {
                if end < i {
                    assert(s@.subrange(0, i as int).last() == '\r');
                    assert(line@ =~= strip_trailing_cr(s@.subrange(0, i as int)));
                } else {
                    assert(line@ =~= strip_trailing_cr(s@.subrange(0, i as int)));
                }
            }
            return line.to_owned();
        }
        i += 1;
    }
    proof {
        if exists|k: int| first_newline_at(s@, k) {
            let k = choose|k: int| first_newline_at(s@, k);
            assert(s@[k] == '\n');
        }
    }
    s.to_owned()
}

/// Decides whether raw external clipboard text could have come from joining
/// the cached batch with the separator: it must carry the first
/// value, then each later value behind one separator, with nothing missing
/// and nothing left over. An empty batch is matched only by empty text.
pub fn contents_are_saved(batch: &Vec<String>, sep: &str, contents: &str) -> (r: bool)
    ensures
        r == content_matches(batch.deep_view(), sep@, contents@),
{
    let joined = join_values(batch, sep);
    let fetched = contents.to_owned();
    joined == fetched
}

} // verus!
