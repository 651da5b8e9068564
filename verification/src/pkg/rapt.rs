//! rapt: the repository index model, dependency tokens and install
//! planning (dependencies before the packages that use them).

use vstd::prelude::*;
use crate::encoding::{is_ws, is_whitespace, trim, trim_str};

verus! {

/// A package record of the repository index.
#[derive(Debug, Clone, PartialEq, Eq)]
pub struct RepoPackage {
    pub name: String,
    pub version: String,
    pub arch: String,
    pub filename: String,
    /// Dependencies such as "libc-lite >= 0.1.0" or "zlib".
    pub depends: Vec<String>,
}

/// A parsed dependency token.
#[derive(Debug, Clone, PartialEq, Eq)]
pub struct DepSpec {
    pub name: String,
    pub constraint: Option<String>,
}

/// One package to install, in plan order.
#[derive(Debug, Clone, PartialEq, Eq)]
pub struct InstallStep {
    pub name: String,
    pub version: String,
    pub filename: String,
}

/// Why a dependency or a plan was refused.
#[derive(Debug, Clone, PartialEq, Eq)]
pub enum Error {
    EmptyName,
    MissingPackage(String),
    CyclicDependency,
}

/// An error as seen by the contracts.
pub enum ErrorView {
    EmptyName,
    MissingPackage(Seq<char>),
    CyclicDependency,
}

/// The view of an error.
pub open spec fn error_view(e: Error) -> ErrorView {
    match e {
        Error::EmptyName => ErrorView::EmptyName,
        Error::MissingPackage(s) => ErrorView::MissingPackage(s@),
        Error::CyclicDependency => ErrorView::CyclicDependency,
    }
}

/// The position of the first whitespace character of `s`.
pub open spec fn first_ws(s: Seq<char>) -> Option<int>
    decreases s.len(),
{
    if s.len() == 0 {
        None
    } else {
        match first_ws(s.drop_last()) {
            Some(i) => Some(i),
            None => if is_ws(s.last()) { Some(s.len() - 1) } else { None },
        }
    }
}

/// What `parse_dep` makes of a token: the trimmed token up to its first
/// whitespace is the name, the trimmed rest (if any) the constraint; None
/// for a token that is empty once trimmed.
pub open spec fn dep_spec(dep: Seq<char>) -> Option<(Seq<char>, Option<Seq<char>>)> {
    let d = trim(dep);
    if d.len() == 0 {
        None
    } else {
        match first_ws(d) {
            Some(i) => {
                let name = trim(d.subrange(0, i));
                let rest = trim(d.subrange(i, d.len() as int));
                if name.len() == 0 {
                    None
                } else {
                    Some((name, if rest.len() == 0 { None } else { Some(rest) }))
                }
            },
            None => Some((d, None)),
        }
    }
}

/// Parse a dependency token such as "libc-lite >= 0.1.0": the name, and
/// the rest as the version constraint; EmptyName for a blank token.
pub fn parse_dep(dep: &str) -> (r: Result<DepSpec, Error>)
    ensures
        dep_spec(dep@) is None ==> r is Err && r->Err_0 == Error::EmptyName,
        dep_spec(dep@) matches Some(ds) ==> r is Ok && r->Ok_0.name@ == ds.0 && (match ds.1 {
            None => r->Ok_0.constraint is None,
            Some(c) => r->Ok_0.constraint is Some && r->Ok_0.constraint->0@ == c,
        }),
{
    let d = trim_str(dep);
    let n = d.unicode_len();
    if n == 0 {
        return Err(Error::EmptyName);
    }
    let mut i: usize = 0;
    while i < n
        invariant
            n == d@.len(),
            d@ == trim(dep@),
            i <= n,
            first_ws(d@.take(i as int)) is None,
        decreases n - i,
    {
        assert(d@.take(i + 1).drop_last() =~= d@.take(i as int));
        assert(d@.take(i + 1).last() == d@[i as int]);
        if is_whitespace(d.get_char(i)) {
            assert(is_ws(d@.take(i + 1).last()));
            assert(first_ws(d@.take(i + 1)) == Some(i as int));
            proof { lemma_first_ws_prefix(d@, i + 1); }
            assert(first_ws(d@) == Some(i as int));
            let name = trim_str(d.substring_char(0, i));
            if name.unicode_len() == 0 {
                return Err(Error::EmptyName);
            }
            let rest = trim_str(d.substring_char(i, n));
            let constraint = if rest.unicode_len() == 0 { None } else { Some(rest.to_owned()) };
            return Ok(DepSpec { name: name.to_owned(), constraint });
        }
        i = i + 1;
    }
    assert(d@.take(n as int) =~= d@);
    Ok(DepSpec { name: d.to_owned(), constraint: None })
}

/// A whitespace found in a prefix is the first one of the whole string.
proof fn lemma_first_ws_prefix(s: Seq<char>, j: int)
    requires
        0 <= j <= s.len(),
        first_ws(s.take(j)) is Some,
    ensures
        first_ws(s) == first_ws(s.take(j)),
    decreases s.len() - j,
{
    if j == s.len() {
        assert(s.take(j) =~= s);
    } else {
        assert(s.take(j + 1).drop_last() =~= s.take(j));
        lemma_first_ws_prefix(s, j + 1);
    }
}

/// A package record as seen by the contracts.
pub ghost struct PkgView {
    pub name: Seq<char>,
    pub version: Seq<char>,
    pub filename: Seq<char>,
    pub depends: Seq<Seq<char>>,
}

/// The view of a package record.
pub open spec fn pkg_view(p: RepoPackage) -> PkgView {
    PkgView { name: p.name@, version: p.version@, filename: p.filename@, depends: strs(p.depends@) }
}

/// The views of an index.
pub open spec fn index_view(index: Seq<RepoPackage>) -> Seq<PkgView> {
    index.map_values(|p: RepoPackage| pkg_view(p))
}

/// The characters of each string.
pub open spec fn strs(v: Seq<String>) -> Seq<Seq<char>> {
    v.map_values(|s: String| s@)
}

/// Positions as integers.
pub open spec fn ints(v: Seq<usize>) -> Seq<int> {
    v.map_values(|x: usize| x as int)
}

/// The first record of the index with that name (the one a plan uses).
pub open spec fn first_pos(idx: Seq<PkgView>, name: Seq<char>) -> Option<int>
    decreases idx.len(),
{
    if idx.len() == 0 {
        None
    } else {
        match first_pos(idx.drop_last(), name) {
            Some(p) => Some(p),
            None => if idx.last().name == name { Some(idx.len() - 1) } else { None },
        }
    }
}

/// The name a dependency token gives (empty for a blank token).
pub open spec fn token_name(d: Seq<char>) -> Seq<char> {
    match dep_spec(d) {
        Some((name, _)) => name,
        None => Seq::empty(),
    }
}

/// The names of a list of dependency tokens; None if one of them is blank.
pub open spec fn dep_names(deps: Seq<Seq<char>>) -> Option<Seq<Seq<char>>>
    decreases deps.len(),
{
    if deps.len() == 0 {
        Some(Seq::empty())
    } else {
        match (dep_names(deps.drop_last()), dep_spec(deps.last())) {
            (Some(ns), Some(ds)) => Some(ns.push(ds.0)),
            _ => None,
        }
    }
}

/// Positions below `n`, each at most once.
pub open spec fn distinct_below(s: Seq<int>, n: int) -> bool {
    s.no_duplicates() && forall|i: int| 0 <= i < s.len() ==> 0 <= #[trigger] s[i] < n
}

/// Which packages a plan needs, found breadth-first from the names still
/// queued at `head`: a name whose record is already needed is skipped; a
/// name without a record stops the search with MissingPackage; otherwise
/// its record is needed and the names of its dependencies are queued (a
/// blank dependency token stops the search with EmptyName). The result
/// lists the needed records in the order they were found.
pub open spec fn discover(idx: Seq<PkgView>, queue: Seq<Seq<char>>, head: int, needed: Seq<int>) -> Result<Seq<int>, ErrorView>
    decreases idx.len() - needed.len(), queue.len() - head
        when 0 <= head && distinct_below(needed, idx.len() as int)
{
    if head >= queue.len() {
        Ok(needed)
    } else {
        match first_pos(idx, queue[head]) {
            None => Err(ErrorView::MissingPackage(queue[head])),
            Some(p) => if needed.contains(p) {
                discover(idx, queue, head + 1, needed)
            } else {
                match dep_names(idx[p].depends) {
                    None => Err(ErrorView::EmptyName),
                    Some(ns) => {
                        proof {
                            lemma_first_pos_in(idx, queue[head]);
                            lemma_distinct_below(needed, idx.len() as int, p);
                        }
                        discover(idx, queue + ns, head + 1, needed.push(p))
                    },
                }
            },
        }
    }
}

/// A record found by name is one of the index, and has that name.
pub proof fn lemma_first_pos_in(idx: Seq<PkgView>, name: Seq<char>)
    ensures
        first_pos(idx, name) matches Some(p) ==> 0 <= p < idx.len() && idx[p].name == name,
    decreases idx.len(),
{
    if idx.len() > 0 {
        lemma_first_pos_in(idx.drop_last(), name);
    }
}

/// Distinct positions below `n`: at most `n` of them, fewer when one
/// position below `n` is missing.
pub proof fn lemma_distinct_below(s: Seq<int>, n: int, v: int)
    requires
        distinct_below(s, n),
        n >= 0,
    ensures
        s.len() <= n,
        0 <= v < n && !s.contains(v) ==> s.len() < n,
{
    let r = vstd::set_lib::set_int_range(0, n);
    vstd::set_lib::lemma_int_range(0, n);
    s.unique_seq_to_set();
    assert forall|x: int| s.to_set().contains(x) implies r.contains(x) by {
        let i = s.index_of(x);
        assert(s[i] == x);
    }
    vstd::set_lib::lemma_len_subset(s.to_set(), r);
    if 0 <= v < n && !s.contains(v) {
        let t = s.push(v);
        assert forall|i: int, j: int| 0 <= i < j < t.len() implies t[i] != t[j] by {
            if j == s.len() {
                assert(s.contains(s[i]));
            }
        }
        assert(t.no_duplicates());
        t.unique_seq_to_set();
        assert forall|x: int| t.to_set().contains(x) implies r.contains(x) by {
            let i = t.index_of(x);
            assert(t[i] == x);
            if i < s.len() {
                assert(s[i] == x);
            }
        }
        vstd::set_lib::lemma_len_subset(t.to_set(), r);
    }
}

/// The first record of `index` called `name`.
fn find_package(index: &[RepoPackage], name: &String) -> (r: Option<usize>)
    ensures
        match r {
            Some(p) => first_pos(index_view(index@), name@) == Some(p as int),
            None => first_pos(index_view(index@), name@) is None,
        },
{
    let ghost idx = index_view(index@);
    let mut k: usize = 0;
    assert(idx.take(0) =~= Seq::<PkgView>::empty());
    while k < index.len()
        invariant
            k <= index@.len(),
            idx == index_view(index@),
            first_pos(idx.take(k as int), name@) is None,
        decreases index@.len() - k,
    {
        assert(idx.take(k + 1).drop_last() =~= idx.take(k as int));
        assert(idx.take(k + 1).last() == pkg_view(index@[k as int]));
        if index[k].name == *name {
            assert(first_pos(idx.take(k + 1), name@) == Some(k as int));
            proof { lemma_first_pos_prefix(idx, k + 1, name@); }
            return Some(k);
        }
        k = k + 1;
    }
    assert(idx.take(k as int) =~= idx);
    None
}

/// Once a prefix of the index has a record of that name, the whole index
/// has the same first one.
proof fn lemma_first_pos_prefix(idx: Seq<PkgView>, j: int, name: Seq<char>)
    requires
        0 <= j <= idx.len(),
        first_pos(idx.take(j), name) is Some,
    ensures
        first_pos(idx, name) == first_pos(idx.take(j), name),
    decreases idx.len() - j,
{
    if j == idx.len() {
        assert(idx.take(j) =~= idx);
    } else {
        assert(idx.take(j + 1).drop_last() =~= idx.take(j));
        lemma_first_pos_prefix(idx, j + 1, name);
    }
}

/// Is `x` among `v`?
fn contains_pos(v: &Vec<usize>, x: usize) -> (r: bool)
    ensures
        r == ints(v@).contains(x as int),
{
    let mut k: usize = 0;
    while k < v.len()
        invariant
            k <= v@.len(),
            forall|m: int| 0 <= m < k ==> v@[m] != x,
        decreases v@.len() - k,
    {
        if v[k] == x {
            assert(ints(v@)[k as int] == x as int);
            return true;
        }
        k = k + 1;
    }
    assert forall|m: int| 0 <= m < ints(v@).len() implies ints(v@)[m] != x as int by {
        assert(v@[m] != x);
    }
    false
}

/// Queue the names of `pkg`'s dependencies, in order; EmptyName (with
/// part of them queued) when one token is blank.
fn queue_dep_names(pkg: &RepoPackage, queue: &mut Vec<String>) -> (r: Result<(), Error>)
    ensures
        dep_names(pkg_view(*pkg).depends) is None ==> r is Err && r->Err_0 == Error::EmptyName,
        dep_names(pkg_view(*pkg).depends) matches Some(ns) ==> r is Ok
            && strs(final(queue)@) == strs(old(queue)@) + ns,
{
    let ghost deps = pkg_view(*pkg).depends;
    let ghost q0 = strs(queue@);
    let mut k: usize = 0;
    assert(deps.take(0) =~= Seq::<Seq<char>>::empty());
    assert(q0 + Seq::<Seq<char>>::empty() =~= q0);
    while k < pkg.depends.len()
        invariant
            k <= pkg.depends@.len(),
            deps == pkg_view(*pkg).depends,
            deps.len() == pkg.depends@.len(),
            q0 == strs(old(queue)@),
            dep_names(deps.take(k as int)) matches Some(ns) && strs(queue@) == q0 + ns,
        decreases pkg.depends@.len() - k,
    {
        let ghost pre = deps.take(k as int);
        let ghost ns = dep_names(pre)->0;
        assert(deps.take(k + 1).drop_last() =~= pre);
        assert(deps.take(k + 1).last() == pkg.depends@[k as int]@);
        match parse_dep(pkg.depends[k].as_str()) {
            Err(e) => {
                proof { lemma_dep_names_prefix_none(deps, k + 1); }
                return Err(e);
            }
            Ok(ds) => {
                let ghost qbefore = strs(queue@);
                queue.push(ds.name);
                assert(strs(queue@) =~= qbefore.push(ds.name@));
                assert(q0 + ns.push(ds.name@) =~= (q0 + ns).push(ds.name@));
            }
        }
        k = k + 1;
    }
    assert(deps.take(k as int) =~= deps);
    Ok(())
}

/// A blank token in a prefix makes the whole list fail.
proof fn lemma_dep_names_prefix_none(deps: Seq<Seq<char>>, j: int)
    requires
        0 <= j <= deps.len(),
        dep_names(deps.take(j)) is None,
    ensures
        dep_names(deps) is None,
    decreases deps.len() - j,
{
    if j == deps.len() {
        assert(deps.take(j) =~= deps);
    } else {
        assert(deps.take(j + 1).drop_last() =~= deps.take(j));
        lemma_dep_names_prefix_none(deps, j + 1);
    }
}

/// The records a plan for `requested` needs, in the order the search
/// finds them (see [`discover`]).
fn needed_packages(index: &[RepoPackage], requested: &[&str]) -> (r: Result<Vec<usize>, Error>)
    ensures
        match discover(index_view(index@), requested_view(requested@), 0, Seq::empty()) {
            Ok(nd) => r is Ok && ints(r->Ok_0@) == nd,
            Err(e) => r is Err && error_view(r->Err_0) == e,
        },
{
    let ghost idx = index_view(index@);
    let ghost req = requested_view(requested@);
    let mut queue: Vec<String> = Vec::new();
    let mut k: usize = 0;
    while k < requested.len()
        invariant
            k <= requested@.len(),
            strs(queue@) == req.take(k as int),
            req == requested_view(requested@),
        decreases requested@.len() - k,
    {
        let ghost before = strs(queue@);
        queue.push(requested[k].to_owned());
        assert(strs(queue@) =~= before.push(requested@[k as int]@));
        assert(req.take(k + 1) =~= req.take(k as int).push(req[k as int]));
        k = k + 1;
    }
    assert(req.take(k as int) =~= req);
    let mut needed: Vec<usize> = Vec::new();
    let mut head: usize = 0;
    assert(ints(needed@) =~= Seq::<int>::empty());
    while head < queue.len()
        invariant
            idx == index_view(index@),
            req == requested_view(requested@),
            idx.len() == index@.len(),
            head <= queue@.len(),
            distinct_below(ints(needed@), idx.len() as int),
            discover(idx, strs(queue@), head as int, ints(needed@)) == discover(idx, req, 0, Seq::empty()),
        decreases idx.len() - needed@.len(), queue@.len() - head,
    {
        let ghost q = strs(queue@);
        let ghost nd = ints(needed@);
        let name = queue[head].clone();
        assert(q[head as int] == name@);
        match find_package(index, &name) {
            None => {
                return Err(Error::MissingPackage(name));
            }
            Some(p) => {
                proof { lemma_first_pos_in(idx, name@); }
                if contains_pos(&needed, p) {
                    head = head + 1;
                } else {
                    proof { lemma_distinct_below(nd, idx.len() as int, p as int); }
                    assert(pkg_view(index@[p as int]) == idx[p as int]);
                    match queue_dep_names(&index[p], &mut queue) {
                        Err(e) => {
                            return Err(e);
                        }
                        Ok(()) => {}
                    }
                    needed.push(p);
                    assert(ints(needed@) =~= nd.push(p as int));
                    head = head + 1;
                    proof {
                        assert forall|i: int, j: int| 0 <= i < j < ints(needed@).len() implies
                            ints(needed@)[i] != ints(needed@)[j] by {
                            if j == nd.len() {
                                assert(nd.contains(nd[i]));
                            }
                        }
                    }
                }
            }
        }
    }
    Ok(needed)
}

/// The requested names.
pub open spec fn requested_view(requested: Seq<&str>) -> Seq<Seq<char>> {
    requested.map_values(|s: &str| s@)
}

/// Record `needed[i]` depends on record `needed[j]`: one of its
/// dependency names finds that record.
#[verifier::opaque]
pub open spec fn dep_edge(idx: Seq<PkgView>, needed: Seq<int>, i: int, j: int) -> bool {
    let ns = dep_names(idx[needed[i]].depends)->0;
    exists|k: int| 0 <= k < ns.len() && first_pos(idx, #[trigger] ns[k]) == Some(needed[j])
}

/// `o` is an install order of the needed records, given by their places in
/// `needed`: each exactly once, each after every needed record it depends
/// on.
pub open spec fn is_order(idx: Seq<PkgView>, needed: Seq<int>, o: Seq<int>) -> bool {
    &&& o.len() == needed.len()
    &&& distinct_below(o, needed.len() as int)
    &&& forall|m: int, j: int| 0 <= m < o.len() && 0 <= j < needed.len() && #[trigger] dep_edge(idx, needed, o[m], j)
            ==> o.take(m).contains(j)
}

/// The needed records can be put in an install order (their dependencies
/// have no cycle).
pub open spec fn has_order(idx: Seq<PkgView>, needed: Seq<int>) -> bool {
    exists|o: Seq<int>| is_order(idx, needed, o)
}

/// `steps` installs the needed records in the order `o`.
pub open spec fn plan_matches(idx: Seq<PkgView>, needed: Seq<int>, o: Seq<int>, steps: Seq<InstallStep>) -> bool {
    &&& steps.len() == o.len()
    &&& forall|m: int| 0 <= m < steps.len() ==> {
        &&& (#[trigger] steps[m]).name@ == idx[needed[o[m]]].name
        &&& steps[m].version@ == idx[needed[o[m]]].version
        &&& steps[m].filename@ == idx[needed[o[m]]].filename
    }
}

/// What the search finds: distinct records whose dependency tokens all
/// parse.
proof fn lemma_discover_ok(idx: Seq<PkgView>, queue: Seq<Seq<char>>, head: int, needed: Seq<int>)
    requires
        0 <= head,
        distinct_below(needed, idx.len() as int),
        forall|i: int| 0 <= i < needed.len() ==> dep_names(idx[#[trigger] needed[i]].depends) is Some,
    ensures
        discover(idx, queue, head, needed) matches Ok(nd) ==> distinct_below(nd, idx.len() as int)
            && forall|i: int| 0 <= i < nd.len() ==> dep_names(idx[#[trigger] nd[i]].depends) is Some,
    decreases idx.len() - needed.len(), queue.len() - head,
{
    if head < queue.len() {
        match first_pos(idx, queue[head]) {
            None => {}
            Some(p) => {
                if needed.contains(p) {
                    lemma_discover_ok(idx, queue, head + 1, needed);
                } else {
                    match dep_names(idx[p].depends) {
                        None => {}
                        Some(ns) => {
                            lemma_first_pos_in(idx, queue[head]);
                            lemma_distinct_below(needed, idx.len() as int, p);
                            let nd2 = needed.push(p);
                            assert forall|i: int, j: int| 0 <= i < j < nd2.len() implies nd2[i] != nd2[j] by {
                                if j == needed.len() {
                                    assert(needed.contains(needed[i]));
                                }
                            }
                            assert forall|i: int| 0 <= i < nd2.len() implies
                                dep_names(idx[#[trigger] nd2[i]].depends) is Some by {
                                if i < needed.len() {
                                    assert(nd2[i] == needed[i]);
                                }
                            }
                            lemma_discover_ok(idx, queue + ns, head + 1, nd2);
                        }
                    }
                }
            }
        }
    }
}

/// When the names of a list of tokens exist, each token parses and gives
/// its name, in order.
proof fn lemma_dep_names_some(deps: Seq<Seq<char>>)
    requires
        dep_names(deps) is Some,
    ensures
        dep_names(deps)->0.len() == deps.len(),
        forall|k: int| 0 <= k < deps.len() ==> dep_spec(#[trigger] deps[k]) is Some
            && dep_names(deps)->0[k] == token_name(deps[k]),
    decreases deps.len(),
{
    if deps.len() > 0 {
        lemma_dep_names_some(deps.drop_last());
        assert forall|k: int| 0 <= k < deps.len() implies dep_spec(#[trigger] deps[k]) is Some
            && dep_names(deps)->0[k] == token_name(deps[k]) by {
            if k < deps.len() - 1 {
                assert(deps.drop_last()[k] == deps[k]);
            }
        }
    }
}

/// The place of record `q` in `needed`.
fn slot_of(needed: &Vec<usize>, q: usize) -> (r: Option<usize>)
    ensures
        r matches Some(j) ==> j < needed@.len() && needed@[j as int] == q,
        r is None ==> !ints(needed@).contains(q as int),
{
    let mut j: usize = 0;
    while j < needed.len()
        invariant
            j <= needed@.len(),
            forall|m: int| 0 <= m < j ==> needed@[m] != q,
        decreases needed@.len() - j,
    {
        if needed[j] == q {
            return Some(j);
        }
        j = j + 1;
    }
    assert forall|m: int| 0 <= m < ints(needed@).len() implies ints(needed@)[m] != q as int by {
        assert(needed@[m] != q);
    }
    None
}

/// The places in `needed` of the records that `needed[i]` depends on.
fn dependency_slots(index: &[RepoPackage], needed: &Vec<usize>, i: usize) -> (r: Vec<usize>)
    requires
        i < needed@.len(),
        distinct_below(ints(needed@), index@.len() as int),
        dep_names(index_view(index@)[needed@[i as int] as int].depends) is Some,
    ensures
        forall|m: int| 0 <= m < r@.len() ==> #[trigger] r@[m] < needed@.len(),
        forall|j: int| 0 <= j < needed@.len() ==>
            (#[trigger] ints(r@).contains(j) <==> dep_edge(index_view(index@), ints(needed@), i as int, j)),
{
    let ghost idx = index_view(index@);
    let ghost nd = ints(needed@);
    let p = needed[i];
    assert(nd[i as int] == p as int);
    assert((p as int) < index@.len());
    let pkg = &index[p];
    assert(pkg_view(*pkg) == idx[p as int]);
    let ghost deps = idx[p as int].depends;
    let ghost ns = dep_names(deps)->0;
    proof {
        lemma_dep_names_some(deps);
        reveal(dep_edge);
    }
    let mut out: Vec<usize> = Vec::new();
    let mut k: usize = 0;
    while k < pkg.depends.len()
        invariant
            k <= pkg.depends@.len(),
            deps == pkg_view(*pkg).depends,
            deps.len() == pkg.depends@.len(),
            ns == dep_names(deps)->0,
            ns.len() == deps.len(),
            forall|kk: int| 0 <= kk < deps.len() ==> dep_spec(#[trigger] deps[kk]) is Some
                && ns[kk] == token_name(deps[kk]),
            idx == index_view(index@),
            nd == ints(needed@),
            nd[i as int] == p as int,
            distinct_below(nd, index@.len() as int),
            forall|m: int| 0 <= m < out@.len() ==> #[trigger] out@[m] < needed@.len(),
            forall|j: int| 0 <= j < needed@.len() ==> (ints(out@).contains(j) <==>
                exists|kk: int| 0 <= kk < k && first_pos(idx, #[trigger] ns[kk]) == Some(nd[j])),
        decreases pkg.depends@.len() - k,
    {
        assert(deps[k as int] == pkg.depends@[k as int]@);
        if let Ok(ds) = parse_dep(pkg.depends[k].as_str()) {
            assert(ds.name@ == ns[k as int]);
            match find_package(index, &ds.name) {
                Some(q) => {
                    match slot_of(needed, q) {
                        Some(j) => {
                            let ghost before = out@;
                            out.push(j);
                            assert(ints(out@) =~= ints(before).push(j as int));
                            assert forall|jj: int| 0 <= jj < needed@.len() implies (ints(out@).contains(jj) <==>
                                exists|kk: int| 0 <= kk < k + 1 && first_pos(idx, #[trigger] ns[kk]) == Some(nd[jj])) by {
                                if ints(out@).contains(jj) && !ints(before).contains(jj) {
                                    assert(jj == j);
                                    assert(first_pos(idx, ns[k as int]) == Some(nd[jj]));
                                }
                                if exists|kk: int| 0 <= kk < k + 1 && first_pos(idx, #[trigger] ns[kk]) == Some(nd[jj]) {
                                    let kk = choose|kk: int| 0 <= kk < k + 1 && first_pos(idx, #[trigger] ns[kk]) == Some(nd[jj]);
                                    if kk == k {
                                        assert(nd[jj] == nd[j as int]);
                                        assert(jj == j);
                                        assert(ints(out@)[before.len() as int] == j);
                                    } else {
                                        assert(ints(before).contains(jj));
                                        let w = ints(before).index_of(jj);
                                        assert(ints(out@)[w] == jj);
                                    }
                                }
                            }
                        }
                        None => {
                            assert forall|jj: int| 0 <= jj < needed@.len() implies (ints(out@).contains(jj) <==>
                                exists|kk: int| 0 <= kk < k + 1 && first_pos(idx, #[trigger] ns[kk]) == Some(nd[jj])) by {
                                if exists|kk: int| 0 <= kk < k + 1 && first_pos(idx, #[trigger] ns[kk]) == Some(nd[jj]) {
                                    let kk = choose|kk: int| 0 <= kk < k + 1 && first_pos(idx, #[trigger] ns[kk]) == Some(nd[jj]);
                                    if kk == k {
                                        assert(nd.contains(nd[jj]));
                                        assert(false);
                                    }
                                }
                            }
                        }
                    }
                }
                None => {}
            }
        }
        k = k + 1;
    }
    out
}

/// Are all the dependencies of place `v` done?
pub open spec fn deps_done(deps: Seq<Vec<usize>>, done: Seq<bool>, v: int) -> bool {
    forall|m: int| 0 <= m < deps[v]@.len() ==> done[#[trigger] deps[v]@[m] as int]
}

/// Are all the places in `slots` marked done?
fn all_done(slots: &Vec<usize>, done: &Vec<bool>) -> (r: bool)
    requires
        forall|m: int| 0 <= m < slots@.len() ==> #[trigger] slots@[m] < done@.len(),
    ensures
        r == (forall|m: int| 0 <= m < slots@.len() ==> done@[#[trigger] slots@[m] as int]),
{
    let mut m: usize = 0;
    while m < slots.len()
        invariant
            m <= slots@.len(),
            forall|mm: int| 0 <= mm < slots@.len() ==> #[trigger] slots@[mm] < done@.len(),
            forall|mm: int| 0 <= mm < m ==> done@[#[trigger] slots@[mm] as int],
        decreases slots@.len() - m,
    {
        if !done[slots[m]] {
            return false;
        }
        m = m + 1;
    }
    true
}

/// Queue, in order of place, every place not queued yet whose
/// dependencies are all done.
fn queue_ready(deps: &Vec<Vec<usize>>, done: &Vec<bool>, queued: &mut Vec<bool>, ready: &mut Vec<usize>)
    requires
        done@.len() == deps@.len(),
        old(queued)@.len() == deps@.len(),
        forall|v: int, m: int| 0 <= v < deps@.len() && 0 <= m < deps@[v]@.len() ==> #[trigger] deps@[v]@[m] < deps@.len(),
        distinct_below(ints(old(ready)@), deps@.len() as int),
        forall|v: int| 0 <= v < deps@.len() ==> (old(queued)@[v] <==> ints(old(ready)@).contains(v)),
    ensures
        final(queued)@.len() == deps@.len(),
        distinct_below(ints(final(ready)@), deps@.len() as int),
        forall|v: int| 0 <= v < deps@.len() ==> (final(queued)@[v] <==> ints(final(ready)@).contains(v)),
        final(ready)@.len() >= old(ready)@.len(),
        final(ready)@.subrange(0, old(ready)@.len() as int) == old(ready)@,
        forall|m: int| old(ready)@.len() <= m < final(ready)@.len() ==> deps_done(deps@, done@, #[trigger] final(ready)@[m] as int),
        forall|v: int| 0 <= v < deps@.len() && !final(queued)@[v] ==> !deps_done(deps@, done@, v),
{
    let n = deps.len();
    let ghost r0 = ready@;
    let mut v: usize = 0;
    while v < n
        invariant
            n == deps@.len(),
            v <= n,
            done@.len() == n,
            queued@.len() == n,
            forall|w: int, m: int| 0 <= w < n && 0 <= m < deps@[w]@.len() ==> #[trigger] deps@[w]@[m] < n,
            distinct_below(ints(ready@), n as int),
            forall|w: int| 0 <= w < n ==> (queued@[w] <==> ints(ready@).contains(w)),
            ready@.len() >= r0.len(),
            ready@.subrange(0, r0.len() as int) == r0,
            r0 == old(ready)@,
            forall|m: int| r0.len() <= m < ready@.len() ==> deps_done(deps@, done@, #[trigger] ready@[m] as int),
            forall|w: int| 0 <= w < v && !queued@[w] ==> !deps_done(deps@, done@, w),
        decreases n - v,
    {
        if !queued[v] {
            proof {
                assert forall|m: int| 0 <= m < deps@[v as int]@.len() implies #[trigger] deps@[v as int]@[m] < done@.len() by {}
            }
            if all_done(&deps[v], done) {
                assert(deps_done(deps@, done@, v as int));
                let ghost before = ready@;
                queued.set(v, true);
                ready.push(v);
                proof {
                    assert(ints(ready@) =~= ints(before).push(v as int));
                    assert(!ints(before).contains(v as int));
                    assert forall|i: int, j: int| 0 <= i < j < ints(ready@).len() implies
                        ints(ready@)[i] != ints(ready@)[j] by {
                        if j == before.len() {
                            assert(ints(before).contains(ints(before)[i]));
                        }
                    }
                    assert(ready@.subrange(0, r0.len() as int) =~= before.subrange(0, r0.len() as int));
                    assert forall|w: int| 0 <= w < n implies (queued@[w] <==> ints(ready@).contains(w)) by {
                        if w != v {
                            if ints(ready@).contains(w) {
                                let k = ints(ready@).index_of(w);
                                assert(k < before.len());
                                assert(ints(before)[k] == w);
                            }
                            if ints(before).contains(w) {
                                let k = ints(before).index_of(w);
                                assert(ints(ready@)[k] == w);
                            }
                        } else {
                            assert(ints(ready@)[before.len() as int] == v);
                        }
                    }
                }
            }
        }
        v = v + 1;
    }
}

/// Distinct positions below `n` that are `n` many hold every one.
pub proof fn lemma_distinct_full(s: Seq<int>, n: int)
    requires
        distinct_below(s, n),
        n >= 0,
        (forall|v: int| 0 <= v < n ==> s.contains(v)),
    ensures
        s.len() == n,
{
    let r = vstd::set_lib::set_int_range(0, n);
    vstd::set_lib::lemma_int_range(0, n);
    s.unique_seq_to_set();
    lemma_distinct_below(s, n, 0);
    assert forall|x: int| r.contains(x) implies s.to_set().contains(x) by {
        assert(s.contains(x));
    }
    vstd::set_lib::lemma_len_subset(r, s.to_set());
}

/// In an install order, every record lies in `done` when each record
/// outside `done` depends on another outside `done`.
proof fn lemma_order_in(idx: Seq<PkgView>, nd: Seq<int>, o: Seq<int>, done: Seq<int>, m: int)
    requires
        is_order(idx, nd, o),
        0 <= m < o.len(),
        forall|v: int| 0 <= v < nd.len() && !done.contains(v) ==>
            exists|j: int| 0 <= j < nd.len() && #[trigger] dep_edge(idx, nd, v, j) && !done.contains(j),
    ensures
        done.contains(o[m]),
    decreases m,
{
    if !done.contains(o[m]) {
        let v = o[m];
        let j = choose|j: int| 0 <= j < nd.len() && #[trigger] dep_edge(idx, nd, v, j) && !done.contains(j);
        assert(o.take(m).contains(j));
        let m2 = o.take(m).index_of(j);
        assert(o[m2] == j);
        lemma_order_in(idx, nd, o, done, m2);
    }
}

/// When some record lies outside `done` and each one outside depends on
/// another outside, the records have no install order.
proof fn lemma_stuck_no_order(idx: Seq<PkgView>, nd: Seq<int>, done: Seq<int>, v0: int)
    requires
        0 <= v0 < nd.len(),
        !done.contains(v0),
        forall|v: int| 0 <= v < nd.len() && !done.contains(v) ==>
            exists|j: int| 0 <= j < nd.len() && #[trigger] dep_edge(idx, nd, v, j) && !done.contains(j),
    ensures
        !has_order(idx, nd),
{
    if has_order(idx, nd) {
        let o = choose|o: Seq<int>| is_order(idx, nd, o);
        if !o.contains(v0) {
            lemma_distinct_below(o, nd.len() as int, v0);
        }
        let w = o.index_of(v0);
        lemma_order_in(idx, nd, o, done, w);
    }
}

/// Place `v` depends on place `j`.
pub open spec fn slot_dep(deps: Seq<Vec<usize>>, v: int, j: int) -> bool {
    ints(deps[v]@).contains(j)
}

/// Order the places `0..deps.len()` so that each comes after the places it
/// depends on: first the places without dependencies, then, each time a
/// place is taken, the places whose dependencies are now all taken
/// (Kahn's method). Places on or behind a dependency cycle are left out:
/// each place left out depends on another place left out.
fn order_places(deps: &Vec<Vec<usize>>) -> (r: Vec<usize>)
    requires
        forall|v: int, m: int| 0 <= v < deps@.len() && 0 <= m < deps@[v]@.len() ==> #[trigger] deps@[v]@[m] < deps@.len(),
    ensures
        distinct_below(ints(r@), deps@.len() as int),
        forall|m: int, j: int| 0 <= m < r@.len() && 0 <= j < deps@.len() && #[trigger] slot_dep(deps@, r@[m] as int, j)
            ==> ints(r@).take(m).contains(j),
        forall|v: int| 0 <= v < deps@.len() && !ints(r@).contains(v) ==>
            exists|j: int| 0 <= j < deps@.len() && #[trigger] slot_dep(deps@, v, j) && !ints(r@).contains(j),
{
    let n = deps.len();
    let mut queued: Vec<bool> = Vec::new();
    let mut done: Vec<bool> = Vec::new();
    let mut k: usize = 0;
    while k < n
        invariant
            k <= n,
            queued@.len() == k,
            done@.len() == k,
            forall|w: int| 0 <= w < k ==> !queued@[w] && !done@[w],
        decreases n - k,
    {
        queued.push(false);
        done.push(false);
        k = k + 1;
    }
    let mut ready: Vec<usize> = Vec::new();
    assert(ints(ready@) =~= Seq::<int>::empty());
    queue_ready(deps, &done, &mut queued, &mut ready);
    let mut rhead: usize = 0;
    assert(ints(ready@).take(0) =~= Seq::<int>::empty());
    while rhead < ready.len()
        invariant
            n == deps@.len(),
            forall|v: int, m: int| 0 <= v < n && 0 <= m < deps@[v]@.len() ==> #[trigger] deps@[v]@[m] < n,
            queued@.len() == n,
            done@.len() == n,
            distinct_below(ints(ready@), n as int),
            forall|v: int| 0 <= v < n ==> (queued@[v] <==> ints(ready@).contains(v)),
            rhead <= ready@.len(),
            forall|v: int| 0 <= v < n ==> (done@[v] <==> ints(ready@).take(rhead as int).contains(v)),
            forall|m: int, j: int| 0 <= m < ready@.len() && 0 <= j < n && #[trigger] slot_dep(deps@, ready@[m] as int, j)
                ==> ints(ready@).take(m).contains(j),
            forall|v: int| 0 <= v < n && !queued@[v] ==> !deps_done(deps@, done@, v),
        decreases n - rhead,
    {
        proof { lemma_distinct_below(ints(ready@), n as int, 0); }
        let ghost r0 = ints(ready@);
        let v = ready[rhead];
        assert(r0[rhead as int] == v as int);
        done.set(v, true);
        rhead = rhead + 1;
        proof {
            assert(r0.take(rhead as int) =~= r0.take(rhead - 1).push(v as int));
            assert forall|w: int| 0 <= w < n implies (done@[w] <==> r0.take(rhead as int).contains(w)) by {
                if w != v as int {
                    if r0.take(rhead as int).contains(w) {
                        let q = r0.take(rhead as int).index_of(w);
                        assert(q < rhead - 1);
                        assert(r0.take(rhead - 1)[q] == w);
                    }
                    if r0.take(rhead - 1).contains(w) {
                        let q = r0.take(rhead - 1).index_of(w);
                        assert(r0.take(rhead as int)[q] == w);
                    }
                } else {
                    assert(r0.take(rhead as int)[rhead - 1] == w);
                }
            }
        }
        let ghost ready_before = ready@;
        queue_ready(deps, &done, &mut queued, &mut ready);
        proof {
            let r1 = ints(ready@);
            assert(r1.take(r0.len() as int) =~= r0) by {
                assert forall|m: int| 0 <= m < r0.len() implies r1[m] == r0[m] by {
                    assert(ready@.subrange(0, ready_before.len() as int)[m] == ready_before[m]);
                }
            }
            assert(r1.take(rhead as int) =~= r0.take(rhead as int));
            assert forall|m: int, j: int| 0 <= m < r1.len() && 0 <= j < n && #[trigger] slot_dep(deps@, ready@[m] as int, j)
                implies r1.take(m).contains(j) by {
                if m < r0.len() {
                    assert(ready@[m] == ready_before[m]);
                    assert(r1.take(m) =~= r0.take(m));
                } else {
                    let w = ready@[m] as int;
                    assert(deps_done(deps@, done@, w));
                    let mm = ints(deps@[w]@).index_of(j);
                    assert(deps@[w]@[mm] as int == j);
                    assert(done@[deps@[w]@[mm] as int]);
                    assert(r0.take(rhead as int).contains(j));
                    let q = r0.take(rhead as int).index_of(j);
                    assert(r1.take(m)[q] == j);
                }
            }
        }
    }
    let ghost rr = ints(ready@);
    assert(rr.take(rhead as int) =~= rr);
    assert forall|v: int| 0 <= v < n && !rr.contains(v) implies
        exists|j: int| 0 <= j < n && #[trigger] slot_dep(deps@, v, j) && !rr.contains(j) by {
        assert(!queued@[v]);
        assert(!deps_done(deps@, done@, v));
        let mm = choose|mm: int| 0 <= mm < deps@[v]@.len() && !done@[#[trigger] deps@[v]@[mm] as int];
        let j = deps@[v]@[mm] as int;
        assert(ints(deps@[v]@)[mm] == j);
        assert(slot_dep(deps@, v, j));
    }
    assert forall|m: int, j: int| 0 <= m < ready@.len() && 0 <= j < n && #[trigger] slot_dep(deps@, ready@[m] as int, j)
        implies rr.take(m).contains(j) by {}
    ready
}

/// For each needed record, the places in `needed` of the records it
/// depends on.
fn dependency_table(index: &[RepoPackage], needed: &Vec<usize>) -> (deps: Vec<Vec<usize>>)
    requires
        distinct_below(ints(needed@), index@.len() as int),
        forall|ii: int| 0 <= ii < needed@.len() ==> dep_names(index_view(index@)[#[trigger] needed@[ii] as int].depends) is Some,
    ensures
        deps@.len() == needed@.len(),
        forall|v: int, m: int| 0 <= v < deps@.len() && 0 <= m < deps@[v]@.len() ==> #[trigger] deps@[v]@[m] < deps@.len(),
        forall|v: int, j: int| 0 <= v < deps@.len() && 0 <= j < deps@.len() ==>
            (#[trigger] slot_dep(deps@, v, j) <==> dep_edge(index_view(index@), ints(needed@), v, j)),
{
    let ghost idx = index_view(index@);
    let ghost nd = ints(needed@);
    let n = needed.len();
    let mut deps: Vec<Vec<usize>> = Vec::new();
    let mut i: usize = 0;
    while i < n
        invariant
            n == needed@.len(),
            nd == ints(needed@),
            idx == index_view(index@),
            distinct_below(nd, index@.len() as int),
            forall|ii: int| 0 <= ii < needed@.len() ==> dep_names(idx[#[trigger] needed@[ii] as int].depends) is Some,
            i <= n,
            deps@.len() == i,
            forall|v: int, m: int| 0 <= v < i && 0 <= m < deps@[v]@.len() ==> #[trigger] deps@[v]@[m] < n,
            forall|v: int, j: int| 0 <= v < i && 0 <= j < n ==>
                (#[trigger] slot_dep(deps@, v, j) <==> dep_edge(idx, nd, v, j)),
        decreases n - i,
    {
        let ds = dependency_slots(index, needed, i);
        let ghost dsv = ds@;
        let ghost before = deps@;
        deps.push(ds);
        assert(deps@[i as int]@ == dsv);
        assert forall|v: int, j: int| 0 <= v < i + 1 && 0 <= j < n implies
            (#[trigger] slot_dep(deps@, v, j) <==> dep_edge(idx, nd, v, j)) by {
            if v < i {
                assert(deps@[v] == before[v]);
                assert(slot_dep(before, v, j) <==> dep_edge(idx, nd, v, j));
                assert(slot_dep(before, v, j) == slot_dep(deps@, v, j));
            } else {
                assert(ints(dsv).contains(j) <==> dep_edge(idx, nd, v, j));
            }
        }
        i = i + 1;
    }
    deps
}

/// The install steps of the needed records at the places `order`.
fn install_steps(index: &[RepoPackage], needed: &Vec<usize>, order: &Vec<usize>) -> (out: Vec<InstallStep>)
    requires
        distinct_below(ints(needed@), index@.len() as int),
        distinct_below(ints(order@), needed@.len() as int),
    ensures
        plan_matches(index_view(index@), ints(needed@), ints(order@), out@),
{
    let ghost idx = index_view(index@);
    let ghost nd = ints(needed@);
    let ghost o = ints(order@);
    let mut out: Vec<InstallStep> = Vec::new();
    let mut m: usize = 0;
    while m < order.len()
        invariant
            nd == ints(needed@),
            idx == index_view(index@),
            distinct_below(nd, index@.len() as int),
            o == ints(order@),
            distinct_below(o, needed@.len() as int),
            m <= order@.len(),
            plan_matches(idx, nd, o.take(m as int), out@),
        decreases order@.len() - m,
    {
        let v = order[m];
        assert(o[m as int] == v as int);
        let p = needed[v];
        assert(nd[v as int] == p as int);
        assert(pkg_view(index@[p as int]) == idx[p as int]);
        out.push(InstallStep {
            name: index[p].name.clone(),
            version: index[p].version.clone(),
            filename: index[p].filename.clone(),
        });
        assert(o.take(m + 1) =~= o.take(m as int).push(v as int));
        m = m + 1;
    }
    assert(o.take(m as int) =~= o);
    out
}

/// Plan the installation of `requested`: the records they need (the first
/// record of each name, with the names their dependencies give, found
/// breadth-first), each once, every one after the records it depends on.
/// MissingPackage or EmptyName when the search meets a name without a
/// record or a blank dependency token (see [`discover`]),
/// CyclicDependency when the records cannot be ordered.
pub fn plan_install(index: &[RepoPackage], requested: &[&str]) -> (r: Result<Vec<InstallStep>, Error>)
    ensures
        match discover(index_view(index@), requested_view(requested@), 0, Seq::empty()) {
            Err(e) => r is Err && error_view(r->Err_0) == e,
            Ok(nd) => if has_order(index_view(index@), nd) {
                r is Ok && exists|o: Seq<int>| is_order(index_view(index@), nd, o)
                    && plan_matches(index_view(index@), nd, o, r->Ok_0@)
            } else {
                r is Err && r->Err_0 == Error::CyclicDependency
            },
        },
{
    let ghost idx = index_view(index@);
    let ghost req = requested_view(requested@);
    let needed = match needed_packages(index, requested) {
        Err(e) => return Err(e),
        Ok(nd) => nd,
    };
    let ghost nd = ints(needed@);
    proof {
        assert(distinct_below(Seq::<int>::empty(), idx.len() as int));
        lemma_discover_ok(idx, req, 0, Seq::empty());
    }
    let n = needed.len();
    assert forall|ii: int| 0 <= ii < needed@.len() implies
        dep_names(idx[#[trigger] needed@[ii] as int].depends) is Some by {
        assert(nd[ii] == needed@[ii] as int);
    }
    let deps = dependency_table(index, &needed);
    let order = order_places(&deps);
    let out = install_steps(index, &needed, &order);
    if out.len() == n {
        proof { lemma_plan_full(idx, nd, deps@, ints(order@)); }
        Ok(out)
    } else {
        proof {
            let o = ints(order@);
            if forall|v: int| 0 <= v < n ==> o.contains(v) {
                lemma_distinct_full(o, n as int);
            }
            let v0 = choose|v: int| 0 <= v < n && !o.contains(v);
            lemma_plan_stuck(idx, nd, deps@, o, v0);
        }
        Err(Error::CyclicDependency)
    }
}

/// An order of places that holds all of them is an install order.
proof fn lemma_plan_full(idx: Seq<PkgView>, nd: Seq<int>, deps: Seq<Vec<usize>>, o: Seq<int>)
    requires
        deps.len() == nd.len(),
        forall|v: int, j: int| 0 <= v < deps.len() && 0 <= j < deps.len() ==>
            (#[trigger] slot_dep(deps, v, j) <==> dep_edge(idx, nd, v, j)),
        distinct_below(o, deps.len() as int),
        forall|m: int, j: int| 0 <= m < o.len() && 0 <= j < deps.len() && #[trigger] slot_dep(deps, o[m], j)
            ==> o.take(m).contains(j),
        o.len() == nd.len(),
    ensures
        is_order(idx, nd, o),
{
    let n = nd.len() as int;
    assert forall|mm: int, j: int| 0 <= mm < o.len() && 0 <= j < n && #[trigger] dep_edge(idx, nd, o[mm], j)
        implies o.take(mm).contains(j) by {
        assert(slot_dep(deps, o[mm], j));
    }
}

/// When the order of places leaves some out, each depending on another
/// left out, the records have no install order.
proof fn lemma_plan_stuck(idx: Seq<PkgView>, nd: Seq<int>, deps: Seq<Vec<usize>>, o: Seq<int>, v0: int)
    requires
        deps.len() == nd.len(),
        forall|v: int, j: int| 0 <= v < deps.len() && 0 <= j < deps.len() ==>
            (#[trigger] slot_dep(deps, v, j) <==> dep_edge(idx, nd, v, j)),
        forall|v: int| 0 <= v < deps.len() && !o.contains(v) ==>
            exists|j: int| 0 <= j < deps.len() && #[trigger] slot_dep(deps, v, j) && !o.contains(j),
        0 <= v0 < nd.len(),
        !o.contains(v0),
    ensures
        !has_order(idx, nd),
{
    let n = nd.len() as int;
    lemma_stuck_no_order(idx, nd, o, v0);
}

} // verus!
