//! The initial user stack of a new process: argc, the argv and envp
//! pointer arrays and the strings they point to (System V AMD64 entry
//! layout).

use vstd::prelude::*;
use crate::encoding::{le32, le64, write_le32};

verus! {

/// Bytes the strings `ss` take on the stack, each with its NUL.
pub open spec fn strs_len(ss: Seq<Seq<u8>>) -> int
    decreases ss.len(),
{
    if ss.len() == 0 { 0 } else { strs_len(ss.drop_last()) + ss.last().len() + 1 }
}

/// The string block: argv strings at the top of the stack, envp strings
/// just below them, each list in order of rising addresses.
pub open spec fn strings_start(top: int, argv: Seq<Seq<u8>>, envp: Seq<Seq<u8>>) -> int {
    top - strs_len(argv) - strs_len(envp)
}

/// Address of the copy of `argv[i]`.
pub open spec fn arg_addr(top: int, argv: Seq<Seq<u8>>, i: int) -> int {
    top - strs_len(argv) + strs_len(argv.take(i))
}

/// Address of the copy of `envp[i]`.
pub open spec fn env_addr(top: int, argv: Seq<Seq<u8>>, envp: Seq<Seq<u8>>, i: int) -> int {
    strings_start(top, argv, envp) + strs_len(envp.take(i))
}

/// Bytes of the argc, argv and envp block, rounded up to 16.
pub open spec fn block_len(n: int, m: int) -> int {
    (8 * (n + m + 3) + 15) / 16 * 16
}

/// Where the stack pointer starts: the string block's start rounded down
/// to 16, less the pointer block.
pub open spec fn initial_rsp(top: int, argv: Seq<Seq<u8>>, envp: Seq<Seq<u8>>) -> int {
    let s = strings_start(top, argv, envp);
    s - s % 16 - block_len(argv.len() as int, envp.len() as int)
}

/// `img` holds the stack from `rsp` up to `top`: argc at `rsp`, then the
/// argv pointers and a null one, then the envp pointers and a null one,
/// zeros up to the strings, then each envp and argv string with its NUL at
/// the address its pointer gives.
pub open spec fn stack_image(top: int, argv: Seq<Seq<u8>>, envp: Seq<Seq<u8>>, rsp: int, img: Seq<u8>) -> bool {
    let n = argv.len() as int;
    let m = envp.len() as int;
    &&& rsp == initial_rsp(top, argv, envp)
    &&& rsp % 16 == 0
    &&& img.len() == top - rsp
    &&& le64(img, 0) == n
    &&& forall|i: int| 0 <= i < n ==> #[trigger] le64(img, 8 + 8 * i) == arg_addr(top, argv, i)
    &&& le64(img, 8 + 8 * n) == 0
    &&& forall|i: int| 0 <= i < m ==> #[trigger] le64(img, 8 * (n + 2 + i)) == env_addr(top, argv, envp, i)
    &&& le64(img, 8 * (n + 2 + m)) == 0
    &&& forall|j: int| 8 * (n + m + 3) <= j < strings_start(top, argv, envp) - rsp ==> #[trigger] img[j] == 0u8
    &&& forall|i: int, j: int| 0 <= i < m && 0 <= j < envp[i].len() ==>
        #[trigger] img[env_addr(top, argv, envp, i) - rsp + j] == envp[i][j]
    &&& forall|i: int| 0 <= i < m ==> #[trigger] img[env_addr(top, argv, envp, i) - rsp + envp[i].len()] == 0u8
    &&& forall|i: int, j: int| 0 <= i < n && 0 <= j < argv[i].len() ==>
        #[trigger] img[arg_addr(top, argv, i) - rsp + j] == argv[i][j]
    &&& forall|i: int| 0 <= i < n ==> #[trigger] img[arg_addr(top, argv, i) - rsp + argv[i].len()] == 0u8
}


/// The byte vectors of `v` as sequences.
pub open spec fn views(v: Seq<Vec<u8>>) -> Seq<Seq<u8>> {
    Seq::new(v.len(), |i: int| v[i]@)
}

/// The strings `ss` one after another, each followed by a NUL.
pub open spec fn cstrs(ss: Seq<Seq<u8>>) -> Seq<u8>
    decreases ss.len(),
{
    if ss.len() == 0 { Seq::empty() } else { cstrs(ss.drop_last()) + ss.last().push(0u8) }
}

/// The stack has room for the image below `top`: the strings, then the
/// pointer block under the strings' start rounded down to 16.
pub open spec fn fits_stack(top: int, argv: Seq<Seq<u8>>, envp: Seq<Seq<u8>>) -> bool {
    let s = strings_start(top, argv, envp);
    &&& strs_len(argv) + strs_len(envp) <= top
    &&& block_len(argv.len() as int, envp.len() as int) <= s - s % 16
}

/// One more string adds its bytes and a NUL.
proof fn lemma_strs_step(ss: Seq<Seq<u8>>, i: int)
    requires
        0 <= i < ss.len(),
    ensures
        strs_len(ss.take(i + 1)) == strs_len(ss.take(i)) + ss[i].len() + 1,
        cstrs(ss.take(i + 1)) == cstrs(ss.take(i)) + ss[i].push(0u8),
{
    assert(ss.take(i + 1).drop_last() =~= ss.take(i));
    assert(ss.take(i + 1).last() == ss[i]);
}

/// A prefix takes no more room than the whole list, and `cstrs` is as
/// long as `strs_len` says.
proof fn lemma_strs_len(ss: Seq<Seq<u8>>, i: int)
    requires
        0 <= i <= ss.len(),
    ensures
        0 <= strs_len(ss.take(i)) <= strs_len(ss),
        cstrs(ss).len() == strs_len(ss),
    decreases ss.len(),
{
    if ss.len() > 0 {
        let d = ss.drop_last();
        if i == ss.len() {
            assert(ss.take(i) =~= ss);
            lemma_strs_len(d, 0);
        } else {
            assert(ss.take(i) =~= d.take(i));
            lemma_strs_len(d, i);
        }
    } else {
        assert(ss.take(i) =~= ss);
    }
}

/// Where string `k` and its NUL sit in `cstrs(ss)`.
proof fn lemma_cstrs_at(ss: Seq<Seq<u8>>, k: int, j: int)
    requires
        0 <= k < ss.len(),
        0 <= j <= ss[k].len(),
    ensures
        strs_len(ss.take(k)) + j < cstrs(ss).len(),
        cstrs(ss)[strs_len(ss.take(k)) + j] == (if j < ss[k].len() { ss[k][j] } else { 0u8 }),
    decreases ss.len(),
{
    let d = ss.drop_last();
    lemma_strs_len(d, 0);
    lemma_strs_len(ss, 0);
    let tail = ss.last().push(0u8);
    assert(cstrs(ss) == cstrs(d) + tail);
    assert(cstrs(d).len() == strs_len(d));
    if k == ss.len() - 1 {
        assert(ss.take(k) =~= d);
        assert((cstrs(d) + tail)[strs_len(d) + j] == tail[j]);
    } else {
        assert(ss.take(k) =~= d.take(k));
        assert(d[k] == ss[k]);
        lemma_cstrs_at(d, k, j);
        assert(strs_len(d.take(k)) + j < cstrs(d).len());
        assert(0 <= strs_len(d.take(k))) by { lemma_strs_len(d, k); }
        assert((cstrs(d) + tail)[strs_len(d.take(k)) + j] == cstrs(d)[strs_len(d.take(k)) + j]);
    }
}

/// The sum of the string lengths of `ss`: None past `u64::MAX`.
fn strs_total(ss: &Vec<Vec<u8>>) -> (r: Option<u64>)
    ensures
        match r {
            Some(t) => t == strs_len(views(ss@)),
            None => strs_len(views(ss@)) > u64::MAX,
        },
{
    let ghost v = views(ss@);
    let mut acc: u64 = 0;
    let mut i: usize = 0;
    assert(v.take(0) =~= Seq::<Seq<u8>>::empty());
    while i < ss.len()
        invariant
            v == views(ss@),
            i <= ss@.len(),
            acc == strs_len(v.take(i as int)),
        decreases ss@.len() - i,
    {
        proof {
            lemma_strs_step(v, i as int);
            lemma_strs_len(v, i + 1);
        }
        let l = ss[i].len() as u64;
        let a = match acc.checked_add(l) {
            Some(a) => a,
            None => return None,
        };
        acc = match a.checked_add(1) {
            Some(a) => a,
            None => return None,
        };
        i = i + 1;
    }
    assert(v.take(i as int) =~= v);
    Some(acc)
}

/// Append the bytes of `s` and a NUL.
fn push_cstr(img: &mut Vec<u8>, s: &Vec<u8>)
    ensures
        final(img)@ == old(img)@ + s@.push(0u8),
{
    let ghost b0 = img@;
    let mut k: usize = 0;
    while k < s.len()
        invariant
            k <= s@.len(),
            img@ == b0 + s@.take(k as int),
        decreases s@.len() - k,
    {
        img.push(s[k]);
        assert(s@.take(k + 1) =~= s@.take(k as int).push(s@[k as int]));
        k = k + 1;
    }
    img.push(0u8);
    assert(s@.take(k as int) =~= s@);
}

/// Eight bytes read the same in a longer sequence that starts the same.
pub(crate) proof fn lemma_le64_prefix(a: Seq<u8>, b: Seq<u8>, p: int)
    requires
        0 <= p,
        p + 8 <= a.len() <= b.len(),
        forall|j: int| 0 <= j < a.len() ==> #[trigger] b[j] == a[j],
    ensures
        le64(b, p) == le64(a, p),
{
    assert(b[p] == a[p] && b[p + 1] == a[p + 1] && b[p + 2] == a[p + 2] && b[p + 3] == a[p + 3]);
    assert(b[p + 4] == a[p + 4] && b[p + 5] == a[p + 5] && b[p + 6] == a[p + 6] && b[p + 7] == a[p + 7]);
}


/// The pieces `user_stack_image` builds make the stack image: the pointer
/// block `img2`, zeros up to the strings (`img3`), then the envp and argv
/// strings.
proof fn lemma_image_assembled(
    top: int,
    av: Seq<Seq<u8>>,
    ev: Seq<Seq<u8>>,
    rsp: int,
    img2: Seq<u8>,
    img3: Seq<u8>,
    img: Seq<u8>,
)
    requires
        fits_stack(top, av, ev),
        rsp == initial_rsp(top, av, ev),
        rsp % 16 == 0,
        img2.len() == 8 * (av.len() + ev.len() + 3),
        le64(img2, 0) == av.len(),
        forall|i: int| 0 <= i < av.len() ==> #[trigger] le64(img2, 8 + 8 * i) == arg_addr(top, av, i),
        le64(img2, 8 + 8 * (av.len() as int)) == 0,
        forall|i: int| 0 <= i < ev.len() ==> #[trigger] le64(img2, 8 * (av.len() as int + 2 + i)) == env_addr(top, av, ev, i),
        le64(img2, 8 * (av.len() as int + 2 + ev.len() as int)) == 0,
        img3.len() == strings_start(top, av, ev) - rsp,
        forall|j: int| 0 <= j < img2.len() ==> #[trigger] img3[j] == img2[j],
        forall|j: int| img2.len() <= j < img3.len() ==> #[trigger] img3[j] == 0u8,
        img == img3 + cstrs(ev) + cstrs(av),
    ensures
        stack_image(top, av, ev, rsp, img),
{
    let n = av.len() as int;
    let m = ev.len() as int;
    lemma_strs_len(av, 0);
    lemma_strs_len(ev, 0);
    let mid = img3 + cstrs(ev);
    assert(img.len() == top - rsp);
    assert forall|j: int| 0 <= j < img2.len() implies #[trigger] img[j] == img2[j] by {
        assert(img[j] == mid[j]);
        assert(mid[j] == img3[j]);
    }
    lemma_le64_prefix(img2, img, 0);
    lemma_le64_prefix(img2, img, 8 + 8 * n);
    lemma_le64_prefix(img2, img, 8 * (n + 2 + m));
    assert forall|i: int| 0 <= i < n implies #[trigger] le64(img, 8 + 8 * i) == arg_addr(top, av, i) by {
        lemma_le64_prefix(img2, img, 8 + 8 * i);
    }
    assert forall|i: int| 0 <= i < m implies #[trigger] le64(img, 8 * (n + 2 + i)) == env_addr(top, av, ev, i) by {
        assert(le64(img2, 8 * (av.len() as int + 2 + i)) == env_addr(top, av, ev, i));
        lemma_le64_prefix(img2, img, 8 * (n + 2 + i));
    }
    assert forall|j: int| 8 * (n + m + 3) <= j < strings_start(top, av, ev) - rsp implies #[trigger] img[j] == 0u8 by {
        assert(img[j] == mid[j]);
        assert(mid[j] == img3[j]);
    }
    assert forall|i: int, j: int| 0 <= i < m && 0 <= j <= ev[i].len() implies
        #[trigger] img[env_addr(top, av, ev, i) - rsp + j] == (if j < ev[i].len() { ev[i][j] } else { 0u8 }) by {
        lemma_cstrs_at(ev, i, j);
        lemma_strs_len(ev, i);
        let x = strs_len(ev.take(i)) + j;
        assert(env_addr(top, av, ev, i) - rsp + j == img3.len() + x);
        assert(img[img3.len() + x] == mid[img3.len() + x]);
        assert(mid[img3.len() + x] == cstrs(ev)[x]);
    }
    assert forall|i: int, j: int| 0 <= i < n && 0 <= j <= av[i].len() implies
        #[trigger] img[arg_addr(top, av, i) - rsp + j] == (if j < av[i].len() { av[i][j] } else { 0u8 }) by {
        lemma_cstrs_at(av, i, j);
        lemma_strs_len(av, i);
        let x = strs_len(av.take(i)) + j;
        assert(arg_addr(top, av, i) - rsp + j == mid.len() + x);
        assert(img[mid.len() + x] == cstrs(av)[x]);
    }
    assert forall|i: int, j: int| 0 <= i < m && 0 <= j < ev[i].len() implies
        #[trigger] img[env_addr(top, av, ev, i) - rsp + j] == ev[i][j] by {
        assert(img[env_addr(top, av, ev, i) - rsp + j] == (if j < ev[i].len() { ev[i][j] } else { 0u8 }));
    }
    assert forall|i: int| 0 <= i < m implies #[trigger] img[env_addr(top, av, ev, i) - rsp + ev[i].len()] == 0u8 by {
        let j = ev[i].len() as int;
        assert(img[env_addr(top, av, ev, i) - rsp + j] == (if j < ev[i].len() { ev[i][j] } else { 0u8 }));
    }
    assert forall|i: int, j: int| 0 <= i < n && 0 <= j < av[i].len() implies
        #[trigger] img[arg_addr(top, av, i) - rsp + j] == av[i][j] by {
        assert(img[arg_addr(top, av, i) - rsp + j] == (if j < av[i].len() { av[i][j] } else { 0u8 }));
    }
    assert forall|i: int| 0 <= i < n implies #[trigger] img[arg_addr(top, av, i) - rsp + av[i].len()] == 0u8 by {
        let j = av[i].len() as int;
        assert(img[arg_addr(top, av, i) - rsp + j] == (if j < av[i].len() { av[i][j] } else { 0u8 }));
    }
}

/// The initial user stack of a process started with the arguments `argv`
/// and the environment `envp`, below `stack_top`: the stack pointer it
/// starts with (16-byte aligned) and the bytes from there up to
/// `stack_top` (see [`stack_image`]); None when they do not fit below
/// `stack_top` (see [`fits_stack`]).
pub fn user_stack_image(stack_top: u64, argv: &Vec<Vec<u8>>, envp: &Vec<Vec<u8>>) -> (r: Option<(u64, Vec<u8>)>)
    ensures
        r is Some <==> fits_stack(stack_top as int, views(argv@), views(envp@)),
        r matches Some((rsp, img)) ==> stack_image(stack_top as int, views(argv@), views(envp@), rsp as int, img@),
{
    let ghost av = views(argv@);
    let ghost ev = views(envp@);
    let ghost top = stack_top as int;
    let n = argv.len();
    let m = envp.len();
    proof {
        lemma_strs_len(av, 0);
        lemma_strs_len(ev, 0);
    }
    let a = match strs_total(argv) {
        Some(a) => a,
        None => return None,
    };
    let e = match strs_total(envp) {
        Some(e) => e,
        None => return None,
    };
    proof {
        lemma_strs_len(av, 0);
        lemma_strs_len(ev, 0);
    }
    if a > stack_top || e > stack_top - a {
        return None;
    }
    let s = stack_top - a - e;
    let sa = s - s % 16;
    let blk: u128 = (8 * (n as u128 + m as u128 + 3) + 15) / 16 * 16;
    if blk > sa as u128 {
        return None;
    }
    assert(blk % 16 == 0) by (nonlinear_arith)
        requires
            blk == (8 * (n as u128 + m as u128 + 3) + 15) / 16 * 16,
    ;
    assert(blk >= 8 * (n + m + 3)) by (nonlinear_arith)
        requires
            blk == (8 * (n as u128 + m as u128 + 3) + 15) / 16 * 16,
    ;
    let rsp = sa - blk as u64;
    assert(rsp % 16 == 0);
    // argc and the argv pointers.
    let mut img: Vec<u8> = Vec::new();
    push_le64(&mut img, n as u64);
    let mut p: u64 = stack_top - a;
    let mut i: usize = 0;
    assert(av.take(0) =~= Seq::<Seq<u8>>::empty());
    while i < n
        invariant
            n == argv@.len(),
            av == views(argv@),
            a == strs_len(av),
            a <= stack_top,
            top == stack_top,
            i <= n,
            img@.len() == 8 + 8 * i,
            le64(img@, 0) == n,
            forall|k: int| 0 <= k < i ==> #[trigger] le64(img@, 8 + 8 * k) == arg_addr(top, av, k),
            p == arg_addr(top, av, i as int),
        decreases n - i,
    {
        let ghost before = img@;
        push_le64(&mut img, p);
        proof {
            lemma_le64_prefix(before, img@, 0);
            assert forall|k: int| 0 <= k < i implies #[trigger] le64(img@, 8 + 8 * k) == arg_addr(top, av, k) by {
                lemma_le64_prefix(before, img@, 8 + 8 * k);
            }
            lemma_strs_step(av, i as int);
            lemma_strs_len(av, i + 1);
        }
        p = p + argv[i].len() as u64 + 1;
        i = i + 1;
    }
    let ghost before = img@;
    push_le64(&mut img, 0);
    proof {
        lemma_le64_prefix(before, img@, 0);
        assert forall|k: int| 0 <= k < n implies #[trigger] le64(img@, 8 + 8 * k) == arg_addr(top, av, k) by {
            lemma_le64_prefix(before, img@, 8 + 8 * k);
        }
    }
    let ghost img1 = img@;
    // The envp pointers.
    let mut q: u64 = s;
    let mut i: usize = 0;
    assert(ev.take(0) =~= Seq::<Seq<u8>>::empty());
    while i < m
        invariant
            m == envp@.len(),
            ev == views(envp@),
            e == strs_len(ev),
            s == stack_top - a - e,
            top == stack_top,
            img1.len() == 8 * (n + 2),
            i <= m,
            img@.len() == 8 * (n + 2 + i),
            forall|j: int| 0 <= j < img1.len() ==> #[trigger] img@[j] == img1[j],
            forall|k: int| 0 <= k < i ==> #[trigger] le64(img@, 8 * (n + 2 + k)) == env_addr(top, av, ev, k),
            q == env_addr(top, av, ev, i as int),
            q + strs_len(ev) - strs_len(ev.take(i as int)) == stack_top - a,
        decreases m - i,
    {
        let ghost before = img@;
        push_le64(&mut img, q);
        proof {
            assert forall|k: int| 0 <= k < i implies #[trigger] le64(img@, 8 * (n + 2 + k)) == env_addr(top, av, ev, k) by {
                lemma_le64_prefix(before, img@, 8 * (n + 2 + k));
            }
            lemma_strs_step(ev, i as int);
            lemma_strs_len(ev, i + 1);
        }
        q = q + envp[i].len() as u64 + 1;
        i = i + 1;
    }
    let ghost before = img@;
    push_le64(&mut img, 0);
    let ghost img2 = img@;
    proof {
        assert forall|j: int| 0 <= j < img1.len() implies #[trigger] img2[j] == img1[j] by {
            assert(img2[j] == before[j]);
        }
        lemma_le64_prefix(img1, img2, 0);
        lemma_le64_prefix(img1, img2, 8 + 8 * n);
        assert forall|k: int| 0 <= k < n implies #[trigger] le64(img2, 8 + 8 * k) == arg_addr(top, av, k) by {
            lemma_le64_prefix(img1, img2, 8 + 8 * k);
        }
        assert forall|k: int| 0 <= k < m implies #[trigger] le64(img2, 8 * (n + 2 + k)) == env_addr(top, av, ev, k) by {
            lemma_le64_prefix(before, img2, 8 * (n + 2 + k));
        }
    }
    // Zeros up to the strings.
    let target: u64 = s - rsp;
    while (img.len() as u64) < target
        invariant
            img2.len() == 8 * (n + m + 3),
            8 * (n + m + 3) <= target,
            img2.len() <= img@.len() <= target,
            target == s - rsp,
            forall|j: int| 0 <= j < img2.len() ==> #[trigger] img@[j] == img2[j],
            forall|j: int| img2.len() <= j < img@.len() ==> #[trigger] img@[j] == 0u8,
        decreases target - img@.len(),
    {
        img.push(0u8);
    }
    let ghost img3 = img@;
    // The envp strings, then the argv strings.
    let mut i: usize = 0;
    assert(img@ =~= img3 + cstrs(ev.take(0)));
    while i < m
        invariant
            m == envp@.len(),
            ev == views(envp@),
            i <= m,
            img@ == img3 + cstrs(ev.take(i as int)),
        decreases m - i,
    {
        push_cstr(&mut img, &envp[i]);
        proof { lemma_strs_step(ev, i as int); }
        i = i + 1;
    }
    assert(ev.take(m as int) =~= ev);
    let ghost img4 = img@;
    let mut i: usize = 0;
    assert(img@ =~= img4 + cstrs(av.take(0)));
    while i < n
        invariant
            n == argv@.len(),
            av == views(argv@),
            i <= n,
            img@ == img4 + cstrs(av.take(i as int)),
        decreases n - i,
    {
        push_cstr(&mut img, &argv[i]);
        proof { lemma_strs_step(av, i as int); }
        i = i + 1;
    }
    assert(av.take(n as int) =~= av);
    proof {
        lemma_image_assembled(top, av, ev, rsp as int, img2, img3, img@);
    }
    Some((rsp, img))
}

/// Append `x` little-endian.
pub(crate) fn push_le64(img: &mut Vec<u8>, x: u64)
    ensures
        final(img)@.len() == old(img)@.len() + 8,
        forall|j: int| 0 <= j < old(img)@.len() ==> #[trigger] final(img)@[j] == old(img)@[j],
        le64(final(img)@, old(img)@.len() as int) == x,
{
    let mut b = [0u8; 8];
    let lo = (x % 0x1_0000_0000) as u32;
    let hi = (x / 0x1_0000_0000) as u32;
    write_le32(&mut b, 0, lo);
    write_le32(&mut b, 4, hi);
    assert(x == lo + hi * 0x1_0000_0000) by (nonlinear_arith)
        requires
            lo == x % 0x1_0000_0000,
            hi == x / 0x1_0000_0000,
    ;
    let ghost o = img@.len() as int;
    let ghost b0 = img@;
    let mut k: usize = 0;
    while k < 8
        invariant
            k <= 8,
            o == b0.len(),
            b@.len() == 8,
            img@.len() == o + k,
            forall|j: int| 0 <= j < o ==> #[trigger] img@[j] == b0[j],
            forall|j: int| 0 <= j < k ==> #[trigger] img@[o + j] == b@[j],
        decreases 8 - k,
    {
        let ghost before = img@;
        img.push(b[k]);
        assert forall|j: int| 0 <= j < k + 1 implies #[trigger] img@[o + j] == b@[j] by {
            if j < k {
                assert(img@[o + j] == before[o + j]);
            }
        }
        assert forall|j: int| 0 <= j < o implies #[trigger] img@[j] == b0[j] by {
            assert(img@[j] == before[j]);
        }
        k = k + 1;
    }
    assert(img@[o] == b@[0] && img@[o + 1] == b@[1] && img@[o + 2] == b@[2] && img@[o + 3] == b@[3]);
    assert(img@[o + 4] == b@[4] && img@[o + 5] == b@[5] && img@[o + 6] == b@[6] && img@[o + 7] == b@[7]);
    assert(le32(img@, o) == le32(b@, 0));
    assert(le32(img@, o + 4) == le32(b@, 4));
}

} // verus!
