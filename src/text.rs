use vstd::prelude::*;
use crate::model::keys_view;

verus! {

broadcast use {
    vstd::seq::group_seq_axioms,
    vstd::std_specs::vec::group_vec_axioms,
};

/// The first index at or after `i` where `d` occurs in `s`, or -1.
pub open spec fn find_from(s: Seq<char>, d: Seq<char>, i: int) -> int
    decreases s.len() + 1 - i,
{
    if i < 0 || i + d.len() > s.len() {
        -1
    } else if s.subrange(i, i + d.len()) == d {
        i
    } else {
        find_from(s, d, i + 1)
    }
}

/// Finds the first occurrence of `d` in `s`, counted in characters.
pub fn find_delimiter(s: &str, d: &str) -> (r: Option<usize>)
    ensures
        match r {
            Some(i) => i as int == find_from(s@, d@, 0) && i + d@.len() <= s@.len(),
            None => find_from(s@, d@, 0) == -1,
        },
{
    let n = s.unicode_len();
    let dl = d.unicode_len();
    if dl > n {
        return None;
    }
    let target = String::from_str(d);
    let last = n - dl;
    let mut i: usize = 0;
    loop
        invariant
            n == s@.len(),
            dl == d@.len(),
            last == n - dl,
            target@ == d@,
            i <= last,
            find_from(s@, d@, 0) == find_from(s@, d@, i as int),
        decreases last - i,
    {
        let window = String::from_str(s.substring_char(i, i + dl));
        if window == target {
            return Some(i);
        }
        if i == last {
            assert(find_from(s@, d@, i + 1) == -1);
            return None;
        }
        i = i + 1;
    }
}

/// The segments of a dotted path: each dot begins a new segment, every other
/// character extends the last one. There is always at least one segment.
pub open spec fn split_dots(s: Seq<char>) -> Seq<Seq<char>>
    decreases s.len(),
{
    if s.len() == 0 {
        seq![Seq::empty()]
    } else {
        let prev = split_dots(s.drop_last());
        if s.last() == '.' {
            prev.push(Seq::empty())
        } else {
            prev.update(prev.len() - 1, prev.last().push(s.last()))
        }
    }
}

/// Splits a dotted path into its segments.
pub fn split_path(s: &str) -> (r: Vec<String>)
    ensures
        keys_view(r@) == split_dots(s@),
        r@.len() > 0,
{
    let n = s.unicode_len();
    let mut segs: Vec<String> = Vec::new();
    let mut start: usize = 0;
    let mut i: usize = 0;
    proof {
        assert(s@.subrange(0, 0) =~= Seq::<char>::empty());
        assert(keys_view(segs@).push(s@.subrange(0, 0)) =~= seq![Seq::<char>::empty()]);
    }
    while i < n
        invariant
            n == s@.len(),
            start <= i <= n,
            split_dots(s@.subrange(0, i as int)) == keys_view(segs@).push(
                s@.subrange(start as int, i as int),
            ),
        decreases n - i,
    {
        let c = s.get_char(i);
        let ghost sub = s@.subrange(0, i + 1);
        assert(sub.drop_last() =~= s@.subrange(0, i as int));
        assert(sub.last() == c);
        if c == '.' {
            let seg = String::from_str(s.substring_char(start, i));
            let ghost before = segs@;
            segs.push(seg);
            proof {
                assert(keys_view(segs@) =~= keys_view(before).push(seg@));
                assert(s@.subrange(i + 1, i + 1) =~= Seq::<char>::empty());
            }
            start = i + 1;
        } else {
            assert(s@.subrange(start as int, i + 1) =~= s@.subrange(start as int, i as int).push(c));
        }
        i = i + 1;
    }
    let seg = String::from_str(s.substring_char(start, n));
    let ghost before = segs@;
    segs.push(seg);
    proof {
        assert(keys_view(segs@) =~= keys_view(before).push(seg@));
        assert(s@.subrange(0, n as int) =~= s@);
    }
    segs
}

} // verus!
