use vstd::prelude::*;
use vstd::std_specs::iter::IteratorSpec;

verus! {

/// The pieces of `s` between line feeds; there is always at least one.
pub open spec fn segments(s: Seq<char>) -> Seq<Seq<char>>
    decreases s.len(),
{
    if s.len() == 0 {
        seq![Seq::<char>::empty()]
    } else {
        let prev = segments(s.drop_last());
        if s.last() == '\n' {
            prev.push(Seq::<char>::empty())
        } else {
            prev.update(prev.len() - 1, prev.last().push(s.last()))
        }
    }
}

/// A line that was ended by a line feed loses a carriage return before it.
pub open spec fn strip_cr(l: Seq<char>) -> Seq<char> {
    if l.len() > 0 && l.last() == '\r' {
        l.drop_last()
    } else {
        l
    }
}

/// The lines of a text: split at line feeds, with "\r\n" taken as one line
/// end, and no empty line after a final line end.
pub open spec fn lines_of(s: Seq<char>) -> Seq<Seq<char>> {
    let segs = segments(s);
    let n = if segs.last().len() == 0 {
        segs.len() - 1
    } else {
        segs.len() as int
    };
    Seq::new(
        n as nat,
        |i: int|
            if i < segs.len() - 1 {
                strip_cr(segs[i])
            } else {
                segs[i]
            },
    )
}

/// The characters of `s`, in order.
pub fn chars_of(s: &str) -> (r: Vec<char>)
    ensures
        r@ == s@,
{
    let mut it = s.chars();
    let mut out: Vec<char> = Vec::new();
    loop
        invariant
            out@ + it.remaining() == s@,
            it.decrease() is Some,
        decreases it.decrease()->0,
    {
        match it.next() {
            Some(c) => {
                out.push(c);
            },
            None => {
                assert(out@ =~= s@);
                return out;
            },
        }
    }
}

/// Where each line of `c` lies in it: line `i` is `c[r[i].0 .. r[i].1]`.
pub fn line_ranges(c: &Vec<char>) -> (r: Vec<(usize, usize)>)
    ensures
        r@.len() == lines_of(c@).len(),
        forall|i: int|
            0 <= i < r@.len() ==> {
                &&& (#[trigger] r@[i]).0 <= r@[i].1 <= c@.len()
                &&& c@.subrange(r@[i].0 as int, r@[i].1 as int) == lines_of(c@)[i]
            },
{
    let mut done: Vec<(usize, usize)> = Vec::new();
    let mut start: usize = 0;
    let mut i: usize = 0;
    while i < c.len()
        invariant
            start <= i <= c@.len(),
            segments(c@.subrange(0, i as int)).len() == done@.len() + 1,
            segments(c@.subrange(0, i as int)).last() == c@.subrange(start as int, i as int),
            forall|j: int|
                0 <= j < done@.len() ==> {
                    &&& (#[trigger] done@[j]).0 <= done@[j].1 <= start
                    &&& c@.subrange(done@[j].0 as int, done@[j].1 as int) == strip_cr(
                        segments(c@.subrange(0, i as int))[j],
                    )
                },
        decreases c@.len() - i,
    {
        let ghost prev = segments(c@.subrange(0, i as int));
        let ghost pre = c@.subrange(0, i as int + 1);
        assert(pre.drop_last() =~= c@.subrange(0, i as int));
        assert(pre.last() == c@[i as int]);
        if c[i] == '\n' {
            let mut end = i;
            if i > start && c[i - 1] == '\r' {
                end = i - 1;
                assert(c@.subrange(start as int, end as int) =~= c@.subrange(
                    start as int,
                    i as int,
                ).drop_last());
            }
            done.push((start, end));
            start = i + 1;
            assert(segments(pre) == prev.push(Seq::<char>::empty()));
            assert(c@.subrange(start as int, i as int + 1) =~= Seq::<char>::empty());
        } else {
            assert(segments(pre) == prev.update(prev.len() - 1, prev.last().push(c@[i as int])));
            assert(c@.subrange(start as int, i as int + 1) =~= c@.subrange(
                start as int,
                i as int,
            ).push(c@[i as int]));
        }
        i = i + 1;
    }
    assert(c@.subrange(0, i as int) =~= c@);
    let ghost segs = segments(c@);
    if start < c.len() {
        done.push((start, c.len()));
    }
    assert(done@.len() == lines_of(c@).len());
    assert forall|j: int| 0 <= j < done@.len() implies c@.subrange(
        done@[j].0 as int,
        done@[j].1 as int,
    ) == lines_of(c@)[j] by {
        if j < segs.len() - 1 {
            assert(lines_of(c@)[j] == strip_cr(segs[j]));
        }
    }
    done
}

} // verus!
