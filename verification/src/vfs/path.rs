//! Splitting slash-separated paths into their components.

use vstd::prelude::*;

verus! {

/// The components of `s` still to come, given the partial component `acc`
/// already read: pieces between slashes, empty pieces dropped, and with
/// `skip_dot` also the pieces that are a single `.`.
pub open spec fn comps_acc(s: Seq<char>, acc: Seq<char>, skip_dot: bool) -> Seq<Seq<char>>
    decreases s.len(),
{
    if s.len() == 0 {
        flush(acc, skip_dot)
    } else if s[0] == '/' {
        flush(acc, skip_dot) + comps_acc(s.skip(1), Seq::empty(), skip_dot)
    } else {
        comps_acc(s.skip(1), acc.push(s[0]), skip_dot)
    }
}

/// A finished piece, as a list of zero or one component.
pub open spec fn flush(acc: Seq<char>, skip_dot: bool) -> Seq<Seq<char>> {
    if acc.len() == 0 || (skip_dot && acc == seq!['.']) {
        Seq::empty()
    } else {
        seq![acc]
    }
}

/// The non-empty components of a path (what `split('/')` keeps after
/// dropping empty pieces), and with `skip_dot` also without `.` pieces.
pub open spec fn components(s: Seq<char>, skip_dot: bool) -> Seq<Seq<char>> {
    comps_acc(s, Seq::empty(), skip_dot)
}

/// Is the piece `s[start..end]` a component to keep?
fn keep_piece(s: &str, start: usize, end: usize, skip_dot: bool) -> (r: bool)
    requires
        start <= end <= s@.len(),
    ensures
        r == (flush(s@.subrange(start as int, end as int), skip_dot).len() == 1),
{
    if start == end {
        return false;
    }
    if skip_dot && end - start == 1 && s.get_char(start) == '.' {
        assert(s@.subrange(start as int, end as int) =~= seq!['.']);
        return false;
    }
    proof {
        if skip_dot && s@.subrange(start as int, end as int) == seq!['.'] {
            assert(s@.subrange(start as int, end as int).len() == 1);
            assert(s@.subrange(start as int, end as int)[0] == s@[start as int]);
        }
    }
    true
}

/// Characters `rg.0 .. rg.1` of `s` are its `i`-th component.
pub open spec fn range_is_component(s: Seq<char>, skip_dot: bool, rg: (usize, usize), i: int) -> bool {
    rg.0 <= rg.1 <= s.len() && s.subrange(rg.0 as int, rg.1 as int) == components(s, skip_dot)[i]
}

/// Where each component of a path lies, as character ranges (see
/// [`components`]).
pub fn component_ranges(path: &str, skip_dot: bool) -> (r: Vec<(usize, usize)>)
    ensures
        r@.len() == components(path@, skip_dot).len(),
        forall|i: int| 0 <= i < r@.len() ==> range_is_component(path@, skip_dot, #[trigger] r@[i], i),
{
    let n = path.unicode_len();
    let ghost s = path@;
    let mut out: Vec<(usize, usize)> = Vec::new();
    let mut start: usize = 0;
    let mut i: usize = 0;
    assert(s.skip(0) =~= s);
    assert(s.subrange(0, 0) =~= Seq::<char>::empty());
    while i < n
        invariant
            n == s.len(),
            s == path@,
            start <= i <= n,
            forall|k: int| start <= k < i ==> s[k] != '/',
            out@.len() + comps_acc(s.skip(i as int), s.subrange(start as int, i as int), skip_dot).len()
                == components(s, skip_dot).len(),
            forall|k: int| 0 <= k < out@.len() ==> #[trigger] out@[k].0 <= out@[k].1 <= n
                && s.subrange(out@[k].0 as int, out@[k].1 as int) == components(s, skip_dot)[k],
            forall|k: int| 0 <= k < comps_acc(s.skip(i as int), s.subrange(start as int, i as int), skip_dot).len() ==>
                #[trigger] comps_acc(s.skip(i as int), s.subrange(start as int, i as int), skip_dot)[k]
                    == components(s, skip_dot)[out@.len() + k],
        decreases n - i,
    {
        let c = path.get_char(i);
        let ghost rest = s.skip(i as int);
        let ghost acc = s.subrange(start as int, i as int);
        assert(rest[0] == c);
        assert(rest.skip(1) =~= s.skip(i + 1));
        if c == '/' {
            let keep = keep_piece(path, start, i, skip_dot);
            let ghost f = flush(acc, skip_dot);
            let ghost tail = comps_acc(s.skip(i + 1), Seq::empty(), skip_dot);
            assert(comps_acc(rest, acc, skip_dot) == f + tail);
            assert(s.subrange(i + 1, i + 1) =~= Seq::<char>::empty());
            if keep {
                let piece = (start, i);
                assert(f == seq![acc]);
                assert((f + tail)[0] == acc);
                let ghost old_len = out@.len();
                out.push(piece);
                assert forall|k: int| 0 <= k < tail.len() implies
                    #[trigger] tail[k] == components(s, skip_dot)[out@.len() + k] by {
                    assert((f + tail)[k + 1] == tail[k]);
                }
            } else {
                assert(f.len() == 0);
                assert(f + tail =~= tail);
            }
            start = i + 1;
        } else {
            assert(acc.push(c) =~= s.subrange(start as int, i + 1));
        }
        i = i + 1;
    }
    proof {
        let acc = s.subrange(start as int, n as int);
        assert(s.skip(n as int) =~= Seq::<char>::empty());
    }
    let keep = keep_piece(path, start, n, skip_dot);
    let ghost acc = s.subrange(start as int, n as int);
    assert(comps_acc(s.skip(n as int), acc, skip_dot) == flush(acc, skip_dot));
    if keep {
        let piece = (start, n);
        let ghost old_len = out@.len();
        assert(flush(acc, skip_dot)[0] == acc);
        assert(components(s, skip_dot)[old_len as int] == acc);
        out.push(piece);
        assert(s.subrange(out@[old_len as int].0 as int, out@[old_len as int].1 as int) == acc);
    } else {
        assert(flush(acc, skip_dot).len() == 0);
    }
    assert(out@.len() == components(s, skip_dot).len());
    assert forall|k: int| 0 <= k < out@.len() implies range_is_component(path@, skip_dot, #[trigger] out@[k], k) by {
    }
    out
}

/// Split a path into its components (see [`components`]).
pub fn split_components(path: &str, skip_dot: bool) -> (r: Vec<String>)
    ensures
        r@.len() == components(path@, skip_dot).len(),
        forall|i: int| 0 <= i < r@.len() ==> #[trigger] r@[i]@ == components(path@, skip_dot)[i],
{
    let ranges = component_ranges(path, skip_dot);
    let mut out: Vec<String> = Vec::new();
    let mut i: usize = 0;
    while i < ranges.len()
        invariant
            i <= ranges@.len(),
            out@.len() == i,
            ranges@.len() == components(path@, skip_dot).len(),
            forall|k: int| 0 <= k < ranges@.len() ==> range_is_component(path@, skip_dot, #[trigger] ranges@[k], k),
            forall|k: int| 0 <= k < i ==> #[trigger] out@[k]@ == components(path@, skip_dot)[k],
        decreases ranges@.len() - i,
    {
        let (a, b) = ranges[i];
        out.push(path.substring_char(a, b).to_owned());
        i = i + 1;
    }
    out
}

/// A piece read to its end, with no slash in it, is flushed whole.
proof fn lemma_comps_acc_piece(s: Seq<char>, acc: Seq<char>, skip_dot: bool)
    requires
        forall|k: int| 0 <= k < s.len() ==> s[k] != '/',
    ensures
        comps_acc(s, acc, skip_dot) == flush(acc + s, skip_dot),
    decreases s.len(),
{
    if s.len() == 0 {
        assert(acc + s =~= acc);
    } else {
        lemma_comps_acc_piece(s.skip(1), acc.push(s[0]), skip_dot);
        assert(acc.push(s[0]) + s.skip(1) =~= acc + s);
    }
}

/// Reading on past a slash: the pieces before it, then those after.
proof fn lemma_comps_acc_split(a: Seq<char>, b: Seq<char>, acc: Seq<char>, skip_dot: bool)
    ensures
        comps_acc(a + seq!['/'] + b, acc, skip_dot) == comps_acc(a, acc, skip_dot) + comps_acc(b, Seq::empty(), skip_dot),
    decreases a.len(),
{
    let s = a + seq!['/'] + b;
    if a.len() == 0 {
        assert(s.skip(1) =~= b);
        assert(s[0] == '/');
        assert(comps_acc(a, acc, skip_dot) == flush(acc, skip_dot));
    } else {
        assert(s[0] == a[0]);
        assert(s.skip(1) =~= a.skip(1) + seq!['/'] + b);
        if a[0] == '/' {
            lemma_comps_acc_split(a.skip(1), b, Seq::empty(), skip_dot);
            assert(flush(acc, skip_dot) + (comps_acc(a.skip(1), Seq::empty(), skip_dot) + comps_acc(b, Seq::empty(), skip_dot))
                =~= (flush(acc, skip_dot) + comps_acc(a.skip(1), Seq::empty(), skip_dot)) + comps_acc(b, Seq::empty(), skip_dot));
        } else {
            lemma_comps_acc_split(a.skip(1), b, acc.push(a[0]), skip_dot);
        }
    }
}

/// The components of a path are those of each slash-separated piece in
/// order: a piece with no slash is one component unless it is empty or,
/// with `skip_dot`, a single `.` (so `..`, like every other name, is kept);
/// and the components of `a/b` are those of `a` followed by those of `b`.
pub proof fn lemma_components(a: Seq<char>, b: Seq<char>, skip_dot: bool)
    ensures
        components(a + seq!['/'] + b, skip_dot) == components(a, skip_dot) + components(b, skip_dot),
        (forall|k: int| 0 <= k < a.len() ==> a[k] != '/') ==> components(a, skip_dot) == (
            if a.len() == 0 || (skip_dot && a == seq!['.']) { Seq::<Seq<char>>::empty() } else { seq![a] }),
        components(seq!['.', '.'], skip_dot) == seq![seq!['.', '.']],
{
    lemma_comps_acc_split(a, b, Seq::empty(), skip_dot);
    if forall|k: int| 0 <= k < a.len() ==> a[k] != '/' {
        lemma_comps_acc_piece(a, Seq::empty(), skip_dot);
        assert(Seq::<char>::empty() + a =~= a);
    }
    let dd = seq!['.', '.'];
    lemma_comps_acc_piece(dd, Seq::empty(), skip_dot);
    assert(Seq::<char>::empty() + dd =~= dd);
    assert(dd != seq!['.']) by {
        assert(dd.len() != seq!['.'].len());
    }
}

} // verus!
