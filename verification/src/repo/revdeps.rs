//! The lines of a reverse dependency report: for one package, each package version that
//! depends on it, marked where it blocks it, with the USE flags its dependency asks for.

use vstd::prelude::*;

use crate::dep::version::{consistent, valid_version, version_text, VerOrder};
use crate::dep::{Cpn, Cpv, CpvView, UseDep, UseDepView};
use crate::pkgsh::metadata::{key_lower, Key};
use crate::repo::iter::{cpv_compare, cpv_order, cpv_order_consistent, cpv_order_flips};

verus! {

/// The view of a report entry: the depending version, whether it blocks, its USE flags.
pub type EntryView = (CpvView, bool, Seq<UseDepView>);

/// The views of report entries.
pub open spec fn entry_views(v: Seq<(Cpv, bool, Vec<UseDep>)>) -> Seq<EntryView> {
    Seq::new(v.len(), |i: int| (v[i].0@, v[i].1, use_dep_views(v[i].2@)))
}

/// The views of USE dependencies.
pub open spec fn use_dep_views(v: Seq<UseDep>) -> Seq<UseDepView> {
    Seq::new(v.len(), |i: int| v[i]@)
}

/// The order of report entries: by version, then those that do not block first.
pub open spec fn entry_order(a: EntryView, b: EntryView) -> VerOrder {
    let c = cpv_order(a.0, b.0);
    if c != VerOrder::Equal {
        c
    } else if a.1 == b.1 {
        VerOrder::Equal
    } else if !a.1 {
        VerOrder::Less
    } else {
        VerOrder::Greater
    }
}

/// Whether no entry comes after the next one.
pub open spec fn entries_ordered(s: Seq<EntryView>) -> bool {
    forall|i: int| 0 <= i < s.len() - 1 ==> #[trigger] not_after_next(s, i)
}

/// Whether the `i`th entry does not come after the next.
pub open spec fn not_after_next(s: Seq<EntryView>, i: int) -> bool {
    entry_order(s[i], s[i + 1]) != VerOrder::Greater
}

/// Whether no two entries are for the same version and blocking.
pub open spec fn distinct_keys(s: Seq<EntryView>) -> bool {
    forall|i: int, j: int|
        0 <= i < j < s.len() ==> (#[trigger] s[i]).0 != (#[trigger] s[j]).0 || s[i].1 != s[j].1
}

/// A package version as written: `category/package-version`.
pub open spec fn cpv_text(c: CpvView) -> Seq<char> {
    c.category + "/"@ + c.package + "-"@ + version_text(c.version)
}

/// A USE flag as a report writes it: `!` before a disabled one.
pub open spec fn flag_text(u: UseDepView) -> Seq<char> {
    if u.enabled {
        u.flag
    } else {
        "!"@ + u.flag
    }
}

/// USE flags joined with `+`.
pub open spec fn joined_flags(us: Seq<UseDepView>) -> Seq<char>
    decreases us.len(),
{
    if us.len() == 0 {
        seq![]
    } else if us.len() == 1 {
        flag_text(us[0])
    } else {
        joined_flags(us.drop_last()) + "+"@ + flag_text(us.last())
    }
}

/// The line of one entry: `[B]` for a blocker, the version, then `:` and its USE flags
/// where it has any.
pub open spec fn entry_line(e: EntryView) -> Seq<char> {
    (if e.1 {
        "[B]"@
    } else {
        seq![]
    }) + cpv_text(e.0) + if e.2.len() > 0 {
        ":"@ + joined_flags(e.2)
    } else {
        seq![]
    }
}

/// Comparing two entries the other way round gives the opposite outcome.
proof fn lemma_entry_flip(a: EntryView, b: EntryView)
    ensures
        entry_order(a, b) == VerOrder::Less ==> entry_order(b, a) == VerOrder::Greater,
        entry_order(a, b) == VerOrder::Greater ==> entry_order(b, a) == VerOrder::Less,
        entry_order(a, b) == VerOrder::Equal ==> entry_order(b, a) == VerOrder::Equal,
{
    cpv_order_flips(a.0, b.0);
}

/// Whether no entry comes after any later one.
pub open spec fn entries_sorted(s: Seq<EntryView>) -> bool {
    forall|i: int, j: int|
        0 <= i < j < s.len() ==> entry_order(#[trigger] s[i], #[trigger] s[j]) != VerOrder::Greater
}

/// Whether every entry's version is well formed.
pub open spec fn entries_valid(s: Seq<EntryView>) -> bool {
    forall|k: int| 0 <= k < s.len() ==> valid_version(#[trigger] s[k].0.version)
}

proof fn lemma_entry_consistent(a: EntryView, b: EntryView, c: EntryView)
    requires
        valid_version(a.0.version),
        valid_version(b.0.version),
        valid_version(c.0.version),
    ensures
        consistent(entry_order(a, b), entry_order(b, c), entry_order(a, c)),
{
    cpv_order_consistent(a.0, b.0, c.0);
}

proof fn lemma_entries_chain(s: Seq<EntryView>, i: int, j: int)
    requires
        entries_ordered(s),
        entries_valid(s),
        0 <= i < j < s.len(),
    ensures
        entry_order(s[i], s[j]) != VerOrder::Greater,
    decreases j - i,
{
    assert(not_after_next(s, j - 1));
    if j > i + 1 {
        lemma_entries_chain(s, i, j - 1);
        lemma_entry_consistent(s[i], s[j - 1], s[j]);
    }
}

/// Entries with well-formed versions where none comes after the next are sorted
/// throughout.
pub proof fn ordered_entries_sorted(s: Seq<EntryView>)
    requires
        entries_ordered(s),
        entries_valid(s),
    ensures
        entries_sorted(s),
{
    assert forall|i: int, j: int| 0 <= i < j < s.len() implies entry_order(
        #[trigger] s[i],
        #[trigger] s[j],
    ) != VerOrder::Greater by {
        lemma_entries_chain(s, i, j);
    }
}

/// Sequences with the same elements agree on whether all their versions are well formed.
proof fn lemma_valid_multiset(s: Seq<EntryView>, t: Seq<EntryView>)
    requires
        s.to_multiset() =~= t.to_multiset(),
        entries_valid(t),
    ensures
        entries_valid(s),
{
    broadcast use vstd::seq_lib::group_to_multiset_ensures;

    assert forall|k: int| 0 <= k < s.len() implies valid_version(#[trigger] s[k].0.version) by {
        assert(s.contains(s[k]));
        assert(s.to_multiset().count(s[k]) > 0);
        assert(t.contains(s[k]));
        let q = choose|q: int| 0 <= q < t.len() && t[q] == s[k];
        assert(valid_version(t[q].0.version));
    }
}

/// A package version as written.
pub fn cpv_string(c: &Cpv) -> (s: String)
    ensures
        s@ == cpv_text(c@),
{
    let mut s = c.category.clone();
    s.append("/");
    s.append(c.package.as_str());
    s.append("-");
    let v = c.version.text();
    s.append(v.as_str());
    proof {
        reveal_strlit("/");
        reveal_strlit("-");
    }
    s
}

/// The line of one report entry.
pub fn entry_string(cpv: &Cpv, blocker: bool, use_deps: &Vec<UseDep>) -> (s: String)
    ensures
        s@ == entry_line((cpv@, blocker, use_dep_views(use_deps@))),
{
    let ghost us = use_dep_views(use_deps@);
    let mut s = String::new();
    if blocker {
        s.append("[B]");
    }
    let c = cpv_string(cpv);
    s.append(c.as_str());
    proof {
        reveal_strlit("[B]");
        reveal_strlit(":");
        reveal_strlit("+");
        reveal_strlit("!");
        assert(s@ == (if blocker {
            "[B]"@
        } else {
            seq![]
        }) + cpv_text(cpv@));
    }
    let ghost head = s@;
    if use_deps.len() > 0 {
        s.append(":");
        let mut k: usize = 0;
        while k < use_deps.len()
            invariant
                k <= use_deps.len(),
                us == use_dep_views(use_deps@),
                use_deps.len() > 0,
                s@ == head + ":"@ + joined_flags(us.take(k as int)),
            decreases use_deps.len() - k,
        {
            if k > 0 {
                s.append("+");
            }
            let u = &use_deps[k];
            if !u.enabled {
                s.append("!");
            }
            s.append(u.flag.as_str());
            proof {
                reveal_strlit("+");
                reveal_strlit("!");
                assert(us.take(k + 1).drop_last() =~= us.take(k as int));
                assert(us.take(k + 1).last() == u@);
                if k == 0 {
                    assert(us.take(0) =~= Seq::<UseDepView>::empty());
                }
            }
            k = k + 1;
        }
        assert(us.take(use_deps.len() as int) =~= us);
    }
    s
}

/// Adds an entry to an ordered list, before the first entry it does not come after.
fn insert_entry(out: &mut Vec<(Cpv, bool, Vec<UseDep>)>, x: (Cpv, bool, Vec<UseDep>))
    requires
        entries_ordered(entry_views(old(out)@)),
    ensures
        entries_ordered(entry_views(final(out)@)),
        entry_views(final(out)@).to_multiset() =~= entry_views(old(out)@).to_multiset().insert(
            (x.0@, x.1, use_dep_views(x.2@)),
        ),
{
    let ghost ov = entry_views(out@);
    let ghost xv = (x.0@, x.1, use_dep_views(x.2@));
    let mut p: usize = 0;
    while p < out.len() && entry_after(&x, &out[p])
        invariant
            p <= out.len(),
            ov == entry_views(out@),
            xv == (x.0@, x.1, use_dep_views(x.2@)),
            entries_ordered(ov),
            forall|i: int| 0 <= i < p ==> entry_order(xv, #[trigger] ov[i]) == VerOrder::Greater,
        decreases out.len() - p,
    {
        p = p + 1;
    }
    proof {
        let t = ov.insert(p as int, xv);
        assert forall|i: int| 0 <= i < t.len() - 1 implies #[trigger] not_after_next(t, i) by {
            if i + 1 < p {
                assert(not_after_next(ov, i));
                assert(t[i] == ov[i] && t[i + 1] == ov[i + 1]);
            } else if i + 1 == p {
                assert(t[i] == ov[i] && t[i + 1] == xv);
                lemma_entry_flip(xv, ov[i]);
            } else if i == p {
                assert(t[i] == xv && t[i + 1] == ov[i]);
            } else {
                assert(not_after_next(ov, i - 1));
                assert(t[i] == ov[i - 1] && t[i + 1] == ov[i]);
            }
        }
        lemma_insert_multiset(ov, p as int, xv);
    }
    out.insert(p, x);
    assert(entry_views(out@) =~= ov.insert(p as int, xv));
}

/// Inserting an element adds it to the multiset of the sequence.
proof fn lemma_insert_multiset(s: Seq<EntryView>, p: int, x: EntryView)
    requires
        0 <= p <= s.len(),
    ensures
        s.insert(p, x).to_multiset() =~= s.to_multiset().insert(x),
{
    broadcast use vstd::seq_lib::group_to_multiset_ensures;

    let t = s.insert(p, x);
    assert(t.remove(p) =~= s);
    assert(t[p] == x);
    assert(t.contains(x));
    assert(t.to_multiset().count(x) > 0);
}

/// Whether the entry `a` comes after the entry `b`.
fn entry_after(a: &(Cpv, bool, Vec<UseDep>), b: &(Cpv, bool, Vec<UseDep>)) -> (r: bool)
    ensures
        r == (entry_order((a.0@, a.1, use_dep_views(a.2@)), (b.0@, b.1, use_dep_views(b.2@)))
            == VerOrder::Greater),
{
    let c = cpv_compare(&a.0, &b.0);
    if c != VerOrder::Equal {
        c == VerOrder::Greater
    } else {
        a.1 && !b.1
    }
}

/// The entries of a reverse dependency report in the order it writes them: by version,
/// those that do not block before those that do; each entry comes no later than the next,
/// and where all versions are well formed, no entry comes after any later one.
pub fn order_entries(entries: Vec<(Cpv, bool, Vec<UseDep>)>) -> (s: Vec<(Cpv, bool, Vec<UseDep>)>)
    ensures
        entries_ordered(entry_views(s@)),
        entry_views(s@).to_multiset() =~= entry_views(entries@).to_multiset(),
        entries_valid(entry_views(entries@)) ==> entries_sorted(entry_views(s@)),
{
    broadcast use vstd::seq_lib::group_to_multiset_ensures;

    let ghost ev = entry_views(entries@);
    let mut out: Vec<(Cpv, bool, Vec<UseDep>)> = Vec::new();
    let mut rest = entries;
    assert(entry_views(out@) =~= Seq::<EntryView>::empty());
    assert(entry_views(rest@) =~= ev);
    while rest.len() > 0
        invariant
            entries_ordered(entry_views(out@)),
            entry_views(out@).to_multiset().add(entry_views(rest@).to_multiset()) =~= ev.to_multiset(),
        decreases rest.len(),
    {
        let ghost rv = entry_views(rest@);
        let ghost om = entry_views(out@).to_multiset();
        let x = rest.pop().unwrap();
        let ghost xv = (x.0@, x.1, use_dep_views(x.2@));
        proof {
            assert(entry_views(rest@) =~= rv.drop_last());
            assert(rv.drop_last().push(rv.last()) =~= rv);
            assert(rv.last() == xv);
            rv.drop_last().to_multiset_ensures();
            assert(rv.drop_last().push(xv).to_multiset() =~= rv.drop_last().to_multiset().insert(xv));
        }
        insert_entry(&mut out, x);
        proof {
            assert(entry_views(out@).to_multiset() =~= om.insert(xv));
            assert(rv.to_multiset() =~= entry_views(rest@).to_multiset().insert(xv));
        }
    }
    proof {
        if entries_valid(ev) {
            lemma_valid_multiset(entry_views(out@), ev);
            ordered_entries_sorted(entry_views(out@));
        }
    }
    out
}

/// The lines that a reverse dependency report holds for one package, given its entries
/// (one per depending version and blocking): the entries ordered by version, those that
/// do not block before those that do, each written as `[B]` for a blocker, the version,
/// and `:` with its USE flags, disabled ones after `!`, joined with `+`.
pub fn revdep_lines(entries: Vec<(Cpv, bool, Vec<UseDep>)>) -> (r: Vec<String>)
    ensures
        exists|s: Seq<EntryView>|
            #[trigger] entries_ordered(s) && s.to_multiset() =~= entry_views(entries@).to_multiset()
                && (entries_valid(entry_views(entries@)) ==> entries_sorted(s)) && r@.len()
                == s.len() && forall|i: int|
                0 <= i < s.len() ==> #[trigger] r@[i]@ == entry_line(s[i]),
{
    let ghost ev = entry_views(entries@);
    let out = order_entries(entries);
    let ghost ov = entry_views(out@);
    let mut lines: Vec<String> = Vec::new();
    let mut i: usize = 0;
    while i < out.len()
        invariant
            i <= out.len(),
            ov == entry_views(out@),
            lines.len() == i,
            forall|k: int| 0 <= k < i ==> #[trigger] lines@[k]@ == entry_line(ov[k]),
        decreases out.len() - i,
    {
        let e = &out[i];
        lines.push(entry_string(&e.0, e.1, &e.2));
        i = i + 1;
    }
    assert(entries_ordered(ov));
    lines
}


/// A package version that depends on a package: the version, whether its dependency
/// blocks the package, the USE flags the dependency conditions on, and the dependency
/// keys it stands under.
pub struct RevDep {
    pub cpv: Cpv,
    pub blocker: bool,
    pub use_deps: Vec<UseDep>,
    pub keys: Vec<Key>,
}

/// The mathematical form of a reverse dependency.
pub struct RevDepView {
    pub cpv: CpvView,
    pub blocker: bool,
    pub use_deps: Seq<UseDepView>,
    pub keys: Seq<Key>,
}

impl View for RevDep {
    type V = RevDepView;

    open spec fn view(&self) -> RevDepView {
        RevDepView {
            cpv: self.cpv@,
            blocker: self.blocker,
            use_deps: use_dep_views(self.use_deps@),
            keys: self.keys@,
        }
    }
}

/// A package name as a pair of category and name.
pub type CpnView = (Seq<char>, Seq<char>);

/// The views of a reverse dependency cache: each package with the versions that depend on
/// it.
pub open spec fn cache_views(c: Seq<(Cpn, Vec<RevDep>)>) -> Seq<(CpnView, Seq<RevDepView>)> {
    Seq::new(c.len(), |i: int| (c[i].0@, Seq::new(c[i].1@.len(), |j: int| c[i].1@[j]@)))
}

/// One report record: the lower-case dependency key, the package depended on, the
/// depending version, whether it blocks, and its USE flags.
pub type Record = (Seq<char>, CpnView, CpvView, bool, Seq<UseDepView>);

/// The records of one reverse dependency, one per dependency key.
pub open spec fn revdep_records(cpn: CpnView, rd: RevDepView) -> Seq<Record> {
    Seq::new(rd.keys.len(), |k: int| (key_lower(rd.keys[k]), cpn, rd.cpv, rd.blocker, rd.use_deps))
}

/// The records of the reverse dependencies of one package, in order.
pub open spec fn package_records(cpn: CpnView, rds: Seq<RevDepView>) -> Seq<Record>
    decreases rds.len(),
{
    if rds.len() == 0 {
        seq![]
    } else {
        package_records(cpn, rds.drop_last()) + revdep_records(cpn, rds.last())
    }
}

/// The records of a whole cache, in order.
pub open spec fn cache_records(c: Seq<(CpnView, Seq<RevDepView>)>) -> Seq<Record>
    decreases c.len(),
{
    if c.len() == 0 {
        seq![]
    } else {
        cache_records(c.drop_last()) + package_records(c.last().0, c.last().1)
    }
}

/// `a` followed by each of `b` that it does not hold yet, in order.
pub open spec fn uses_union(a: Seq<UseDepView>, b: Seq<UseDepView>) -> Seq<UseDepView>
    decreases b.len(),
{
    if b.len() == 0 {
        a
    } else {
        let r = uses_union(a, b.drop_last());
        if r.contains(b.last()) {
            r
        } else {
            r.push(b.last())
        }
    }
}

/// The position of the first entry for the version `v` and blocking `b` from `i` on, or
/// `-1`.
pub open spec fn entry_pos(es: Seq<EntryView>, v: CpvView, b: bool, i: int) -> int
    decreases es.len() - i,
{
    if i < 0 || i >= es.len() {
        -1
    } else if es[i].0 == v && es[i].1 == b {
        i
    } else {
        entry_pos(es, v, b, i + 1)
    }
}

/// The entries after adding a record's version, blocking and USE flags: an entry for the
/// same version and blocking takes in the flags it lacks; otherwise a new entry goes
/// last, with the flags each once.
pub open spec fn add_entry(es: Seq<EntryView>, v: CpvView, b: bool, us: Seq<UseDepView>) -> Seq<
    EntryView,
> {
    let p = entry_pos(es, v, b, 0);
    if p >= 0 {
        es.update(p, (v, b, uses_union(es[p].2, us)))
    } else {
        es.push((v, b, uses_union(seq![], us)))
    }
}

/// One group of a report: the lower-case dependency key, the package, and its entries.
pub type Group = (Seq<char>, CpnView, Seq<EntryView>);

/// The position of the first group for the key `k` and package `c` from `i` on, or `-1`.
pub open spec fn group_pos(gs: Seq<Group>, k: Seq<char>, c: CpnView, i: int) -> int
    decreases gs.len() - i,
{
    if i < 0 || i >= gs.len() {
        -1
    } else if gs[i].0 == k && gs[i].1 == c {
        i
    } else {
        group_pos(gs, k, c, i + 1)
    }
}

/// The groups after adding a record: it joins the group for its key and package, or
/// starts a new one last.
pub open spec fn add_record(gs: Seq<Group>, r: Record) -> Seq<Group> {
    let p = group_pos(gs, r.0, r.1, 0);
    if p >= 0 {
        gs.update(p, (r.0, r.1, add_entry(gs[p].2, r.2, r.3, r.4)))
    } else {
        gs.push((r.0, r.1, add_entry(seq![], r.2, r.3, r.4)))
    }
}

/// The groups of a report from its records, taken in order.
pub open spec fn report_groups(rs: Seq<Record>) -> Seq<Group>
    decreases rs.len(),
{
    if rs.len() == 0 {
        seq![]
    } else {
        add_record(report_groups(rs.drop_last()), rs.last())
    }
}

/// The views of report groups.
pub open spec fn group_views(v: Seq<(String, Cpn, Vec<(Cpv, bool, Vec<UseDep>)>)>) -> Seq<Group> {
    Seq::new(v.len(), |i: int| (v[i].0@, v[i].1@, entry_views(v[i].2@)))
}

proof fn lemma_entry_pos(es: Seq<EntryView>, v: CpvView, b: bool, i: int)
    requires
        0 <= i,
    ensures
        entry_pos(es, v, b, i) == -1 ==> forall|e: int|
            i <= e < es.len() ==> !((#[trigger] es[e]).0 == v && es[e].1 == b),
        entry_pos(es, v, b, i) == -1 || (0 <= i <= entry_pos(es, v, b, i) < es.len() && es[entry_pos(
            es,
            v,
            b,
            i,
        )].0 == v && es[entry_pos(es, v, b, i)].1 == b),
    decreases es.len() - i,
{
    if 0 <= i < es.len() && !(es[i].0 == v && es[i].1 == b) {
        lemma_entry_pos(es, v, b, i + 1);
    }
}

proof fn lemma_group_pos(gs: Seq<Group>, k: Seq<char>, c: CpnView, i: int)
    requires
        0 <= i,
    ensures
        group_pos(gs, k, c, i) == -1 ==> forall|p: int|
            i <= p < gs.len() ==> !((#[trigger] gs[p]).0 == k && gs[p].1 == c),
        group_pos(gs, k, c, i) == -1 || (0 <= i <= group_pos(gs, k, c, i) < gs.len() && gs[group_pos(
            gs,
            k,
            c,
            i,
        )].0 == k && gs[group_pos(gs, k, c, i)].1 == c),
    decreases gs.len() - i,
{
    if 0 <= i < gs.len() && !(gs[i].0 == k && gs[i].1 == c) {
        lemma_group_pos(gs, k, c, i + 1);
    }
}

/// Adds to `a` each of `b` that it does not hold yet.
fn union_into(a: &mut Vec<UseDep>, b: &Vec<UseDep>)
    ensures
        use_dep_views(final(a)@) == uses_union(use_dep_views(old(a)@), use_dep_views(b@)),
{
    let ghost av = use_dep_views(a@);
    let ghost bv = use_dep_views(b@);
    let mut j: usize = 0;
    assert(bv.take(0) =~= Seq::<UseDepView>::empty());
    while j < b.len()
        invariant
            j <= b.len(),
            bv == use_dep_views(b@),
            use_dep_views(a@) == uses_union(av, bv.take(j as int)),
        decreases b.len() - j,
    {
        assert(bv.take(j + 1).drop_last() =~= bv.take(j as int));
        assert(bv.take(j + 1).last() == b@[j as int]@);
        let ghost cur = use_dep_views(a@);
        let mut k: usize = 0;
        let mut found = false;
        while k < a.len()
            invariant
                k <= a.len(),
                j < b.len(),
                cur == use_dep_views(a@),
                found ==> cur.contains(b@[j as int]@),
                !found ==> forall|q: int| 0 <= q < k ==> cur[q] != b@[j as int]@,
            decreases a.len() - k,
        {
            if a[k].same(&b[j]) {
                assert(cur[k as int] == b@[j as int]@);
                found = true;
            }
            k = k + 1;
        }
        if !found {
            let u = b[j].duplicate();
            a.push(u);
            assert(use_dep_views(a@) =~= cur.push(b@[j as int]@));
        }
        j = j + 1;
    }
    assert(bv.take(b.len() as int) =~= bv);
}

/// The position of the first entry for a version and blocking.
fn find_entry(es: &Vec<(Cpv, bool, Vec<UseDep>)>, v: &Cpv, b: bool) -> (r: Option<usize>)
    ensures
        match r {
            Some(p) => entry_pos(entry_views(es@), v@, b, 0) == p && p < es.len(),
            None => entry_pos(entry_views(es@), v@, b, 0) == -1,
        },
{
    let ghost ev = entry_views(es@);
    let mut i: usize = 0;
    while i < es.len()
        invariant
            i <= es.len(),
            ev == entry_views(es@),
            entry_pos(ev, v@, b, 0) == entry_pos(ev, v@, b, i as int),
        decreases es.len() - i,
    {
        if es[i].0.same(v) && es[i].1 == b {
            return Some(i);
        }
        i = i + 1;
    }
    None
}

/// Adds a record's version, blocking and USE flags to entries.
fn add_to_entries(es: &mut Vec<(Cpv, bool, Vec<UseDep>)>, v: &Cpv, b: bool, us: &Vec<UseDep>)
    ensures
        entry_views(final(es)@) == add_entry(entry_views(old(es)@), v@, b, use_dep_views(us@)),
{
    let ghost ev = entry_views(es@);
    match find_entry(es, v, b) {
        Some(p) => {
            proof {
                lemma_entry_pos(ev, v@, b, 0);
            }
            let mut e = es.remove(p);
            union_into(&mut e.2, us);
            es.insert(p, e);
            assert(entry_views(es@) =~= ev.update(
                p as int,
                (v@, b, uses_union(ev[p as int].2, use_dep_views(us@))),
            ));
        },
        None => {
            let mut u: Vec<UseDep> = Vec::new();
            assert(use_dep_views(u@) =~= Seq::<UseDepView>::empty());
            union_into(&mut u, us);
            es.push((v.duplicate(), b, u));
            assert(entry_views(es@) =~= ev.push((v@, b, uses_union(seq![], use_dep_views(us@)))));
        },
    }
}

/// The position of the first group for a key and package.
fn find_group(gs: &Vec<(String, Cpn, Vec<(Cpv, bool, Vec<UseDep>)>)>, k: &str, c: &Cpn) -> (r:
    Option<usize>)
    ensures
        match r {
            Some(p) => group_pos(group_views(gs@), k@, c@, 0) == p && p < gs.len(),
            None => group_pos(group_views(gs@), k@, c@, 0) == -1,
        },
{
    let ghost gv = group_views(gs@);
    let mut i: usize = 0;
    while i < gs.len()
        invariant
            i <= gs.len(),
            gv == group_views(gs@),
            group_pos(gv, k@, c@, 0) == group_pos(gv, k@, c@, i as int),
        decreases gs.len() - i,
    {
        if crate::text::str_eq(gs[i].0.as_str(), k) && gs[i].1.same(c) {
            return Some(i);
        }
        i = i + 1;
    }
    None
}

/// Adds one record to the groups.
fn add_group_record(
    gs: &mut Vec<(String, Cpn, Vec<(Cpv, bool, Vec<UseDep>)>)>,
    k: &str,
    c: &Cpn,
    rd: &RevDep,
)
    ensures
        group_views(final(gs)@) == add_record(
            group_views(old(gs)@),
            (k@, c@, rd.cpv@, rd.blocker, use_dep_views(rd.use_deps@)),
        ),
{
    let ghost gv = group_views(gs@);
    match find_group(gs, k, c) {
        Some(p) => {
            proof {
                lemma_group_pos(gv, k@, c@, 0);
            }
            let mut g = gs.remove(p);
            add_to_entries(&mut g.2, &rd.cpv, rd.blocker, &rd.use_deps);
            gs.insert(p, g);
            assert(group_views(gs@) =~= gv.update(
                p as int,
                (k@, c@, add_entry(gv[p as int].2, rd.cpv@, rd.blocker, use_dep_views(rd.use_deps@))),
            ));
        },
        None => {
            let mut es: Vec<(Cpv, bool, Vec<UseDep>)> = Vec::new();
            assert(entry_views(es@) =~= Seq::<EntryView>::empty());
            add_to_entries(&mut es, &rd.cpv, rd.blocker, &rd.use_deps);
            gs.push((crate::text::to_owned(k), c.duplicate(), es));
            assert(group_views(gs@) =~= gv.push(
                (k@, c@, add_entry(seq![], rd.cpv@, rd.blocker, use_dep_views(rd.use_deps@))),
            ));
        },
    }
}

/// The groups of a reverse dependency report from a cache of reverse dependencies: one
/// group per lower-case dependency key and package depended on, in the order they first
/// occur; within a group, one entry per depending version and blocking, in the order
/// they first occur, holding the USE flags of all its records, each once, in the order
/// they come: no two groups share a key and package, no two entries of a group share a
/// version and blocking, an entry's flags are exactly those of its records, and every
/// record has its entry. Each group's entries are what `revdep_lines` writes to the report file of
/// that key and package.
pub fn revdep_report(cache: &Vec<(Cpn, Vec<RevDep>)>) -> (r: Vec<(String, Cpn, Vec<(Cpv, bool, Vec<UseDep>)>)>)
    ensures
        group_views(r@) == report_groups(cache_records(cache_views(cache@))),
        report_holds(cache_records(cache_views(cache@)), group_views(r@)),
{
    let ghost cv = cache_views(cache@);
    let mut gs: Vec<(String, Cpn, Vec<(Cpv, bool, Vec<UseDep>)>)> = Vec::new();
    assert(group_views(gs@) =~= Seq::<Group>::empty());
    assert(cv.take(0) =~= Seq::<(CpnView, Seq<RevDepView>)>::empty());
    let mut i: usize = 0;
    while i < cache.len()
        invariant
            i <= cache.len(),
            cv == cache_views(cache@),
            group_views(gs@) == report_groups(cache_records(cv.take(i as int))),
        decreases cache.len() - i,
    {
        let cpn = &cache[i].0;
        let rds = &cache[i].1;
        let ghost rv = cv[i as int].1;
        let ghost base = cache_records(cv.take(i as int));
        assert(cv.take(i + 1).drop_last() =~= cv.take(i as int));
        assert(cv.take(i + 1).last() == cv[i as int]);
        let mut j: usize = 0;
        assert(rv.take(0) =~= Seq::<RevDepView>::empty());
        assert(base + package_records(cpn@, rv.take(0)) =~= base);
        while j < rds.len()
            invariant
                j <= rds.len(),
                cv == cache_views(cache@),
                i < cache.len(),
                rds == &cache@[i as int].1,
                cpn == &cache@[i as int].0,
                rv == cv[i as int].1,
                rv.len() == rds.len(),
                forall|q: int| 0 <= q < rds.len() ==> rv[q] == (#[trigger] rds@[q])@,
                base == cache_records(cv.take(i as int)),
                group_views(gs@) == report_groups(base + package_records(cpn@, rv.take(j as int))),
            decreases rds.len() - j,
        {
            let rd = &rds[j];
            assert(rv.take(j + 1).drop_last() =~= rv.take(j as int));
            assert(rv.take(j + 1).last() == rd@);
            let ghost before = base + package_records(cpn@, rv.take(j as int));
            let ghost recs = revdep_records(cpn@, rd@);
            let mut k: usize = 0;
            assert(before + recs.take(0) =~= before);
            while k < rd.keys.len()
                invariant
                    k <= rd.keys.len(),
                    recs == revdep_records(cpn@, rd@),
                    group_views(gs@) == report_groups(before + recs.take(k as int)),
                decreases rd.keys.len() - k,
            {
                let key = rd.keys[k].lower_name();
                add_group_record(&mut gs, key, cpn, rd);
                assert((before + recs.take(k + 1)).drop_last() =~= before + recs.take(k as int));
                assert((before + recs.take(k + 1)).last() == recs[k as int]);
                k = k + 1;
            }
            assert(recs.take(rd.keys.len() as int) =~= recs);
            assert(before + recs =~= base + package_records(cpn@, rv.take(j + 1)));
            j = j + 1;
        }
        assert(rv.take(rds.len() as int) =~= rv);
        i = i + 1;
    }
    assert(cv.take(cache.len() as int) =~= cv);
    proof {
        report_groups_merge(cache_records(cv));
    }
    gs
}


proof fn lemma_union_contains(a: Seq<UseDepView>, b: Seq<UseDepView>, u: UseDepView)
    ensures
        uses_union(a, b).contains(u) <==> (a.contains(u) || b.contains(u)),
    decreases b.len(),
{
    if b.len() > 0 {
        lemma_union_contains(a, b.drop_last(), u);
        let r = uses_union(a, b.drop_last());
        if b.drop_last().contains(u) {
            let q = choose|q: int| 0 <= q < b.drop_last().len() && b.drop_last()[q] == u;
            assert(b[q] == u);
        }
        if b.contains(u) && !b.drop_last().contains(u) {
            let q = choose|q: int| 0 <= q < b.len() && b[q] == u;
            if q < b.len() - 1 {
                assert(b.drop_last()[q] == u);
            }
            assert(b.last() == u);
        }
        if !r.contains(b.last()) {
            assert(r.push(b.last())[r.len() as int] == b.last());
            if r.contains(u) {
                let q = choose|q: int| 0 <= q < r.len() && r[q] == u;
                assert(r.push(b.last())[q] == u);
            }
            if r.push(b.last()).contains(u) {
                let q = choose|q: int| 0 <= q < r.len() + 1 && r.push(b.last())[q] == u;
                if q < r.len() {
                    assert(r[q] == u);
                }
            }
        }
        if b.last() == u {
            assert(b[b.len() - 1] == u);
        }
    }
}

/// Whether no two entries are for the same version and blocking.
pub open spec fn entry_keys_distinct(es: Seq<EntryView>) -> bool {
    forall|e: int, f: int|
        0 <= e < f < es.len() ==> !((#[trigger] es[e]).0 == (#[trigger] es[f]).0 && es[e].1
            == es[f].1)
}

/// Whether no two groups are for the same key and package.
pub open spec fn group_keys_distinct(gs: Seq<Group>) -> bool {
    forall|p: int, q: int|
        0 <= p < q < gs.len() ==> !((#[trigger] gs[p]).0 == (#[trigger] gs[q]).0 && gs[p].1
            == gs[q].1)
}

/// Whether the records hold one with the group's key and package, the entry's version and
/// blocking, and the USE flag `u`.
pub open spec fn flag_recorded(rs: Seq<Record>, g: Group, e: EntryView, u: UseDepView) -> bool {
    exists|m: int|
        0 <= m < rs.len() && (#[trigger] rs[m]).0 == g.0 && rs[m].1 == g.1 && rs[m].2 == e.0
            && rs[m].3 == e.1 && rs[m].4.contains(u)
}

/// Whether the groups hold an entry for the record's key, package, version and blocking.
pub open spec fn record_grouped(gs: Seq<Group>, r: Record) -> bool {
    exists|p: int, e: int|
        0 <= p < gs.len() && 0 <= e < gs[p].2.len() && (#[trigger] gs[p]).0 == r.0 && gs[p].1
            == r.1 && (#[trigger] gs[p].2[e]).0 == r.2 && gs[p].2[e].1 == r.3
}

/// What the report groups hold, given that the groups before hold it for the records
/// before: the invariant of `report_groups`.
pub open spec fn report_holds(rs: Seq<Record>, gs: Seq<Group>) -> bool {
    &&& group_keys_distinct(gs)
    &&& forall|p: int| 0 <= p < gs.len() ==> entry_keys_distinct(#[trigger] gs[p].2)
    &&& forall|p: int, e: int, u: UseDepView|
        #![trigger gs[p].2[e].2.contains(u)]
        #![trigger flag_recorded(rs, gs[p], gs[p].2[e], u)]
        0 <= p < gs.len() && 0 <= e < gs[p].2.len() ==> (gs[p].2[e].2.contains(u)
            <==> flag_recorded(rs, gs[p], gs[p].2[e], u))
    &&& forall|m: int| 0 <= m < rs.len() ==> record_grouped(gs, #[trigger] rs[m])
}


proof fn lemma_add_record(rs: Seq<Record>)
    requires
        rs.len() > 0,
        report_holds(rs.drop_last(), report_groups(rs.drop_last())),
    ensures
        report_holds(rs, report_groups(rs)),
{
    let rs0 = rs.drop_last();
    let r = rs.last();
    let gs0 = report_groups(rs0);
    let gs = report_groups(rs);
    assert(gs == add_record(gs0, r));
    lemma_group_pos(gs0, r.0, r.1, 0);
    let pg = group_pos(gs0, r.0, r.1, 0);
    let es0 = if pg >= 0 {
        gs0[pg].2
    } else {
        seq![]
    };
    lemma_entry_pos(es0, r.2, r.3, 0);
    let pe = entry_pos(es0, r.2, r.3, 0);
    let es = add_entry(es0, r.2, r.3, r.4);
    let pg2 = if pg >= 0 {
        pg
    } else {
        gs0.len() as int
    };
    let pe2 = if pe >= 0 {
        pe
    } else {
        es0.len() as int
    };
    assert(gs[pg2] == (r.0, r.1, es));
    assert(gs.len() == gs0.len() || gs.len() == gs0.len() + 1);
    assert forall|p: int| 0 <= p < gs.len() && p != pg2 implies #[trigger] gs[p] == gs0[p] by {}
    assert(es[pe2].0 == r.2 && es[pe2].1 == r.3);
    assert forall|e: int| 0 <= e < es.len() && e != pe2 implies #[trigger] es[e] == es0[e] by {}
    // a record before this one is grouped where it was
    assert forall|m: int| 0 <= m < rs0.len() implies record_grouped(gs, #[trigger] rs0[m]) by {
        assert(record_grouped(gs0, rs0[m]));
        let (p, e) = choose|p: int, e: int|
            0 <= p < gs0.len() && 0 <= e < gs0[p].2.len() && (#[trigger] gs0[p]).0 == rs0[m].0
                && gs0[p].1 == rs0[m].1 && (#[trigger] gs0[p].2[e]).0 == rs0[m].2 && gs0[p].2[e].1
                == rs0[m].3;
        if p == pg2 {
            assert(es[e].0 == gs0[p].2[e].0 && es[e].1 == gs0[p].2[e].1);
            assert(gs[p].2[e] == es[e]);
        } else {
            assert(gs[p] == gs0[p]);
        }
    }
    // groups stay distinct
    assert forall|p: int, q: int| 0 <= p < q < gs.len() implies !((#[trigger] gs[p]).0
        == (#[trigger] gs[q]).0 && gs[p].1 == gs[q].1) by {
        if p != pg2 && q != pg2 {
            assert(gs[p] == gs0[p] && gs[q] == gs0[q]);
        } else if p == pg2 {
            assert(gs[q] == gs0[q]);
        } else {
            assert(gs[p] == gs0[p]);
        }
    }
    // entries stay distinct
    assert forall|p: int| 0 <= p < gs.len() implies entry_keys_distinct(#[trigger] gs[p].2) by {
        if p == pg2 {
            assert forall|e: int, f: int| 0 <= e < f < es.len() implies !((#[trigger] es[e]).0
                == (#[trigger] es[f]).0 && es[e].1 == es[f].1) by {
                if e != pe2 && f != pe2 {
                    assert(es[e] == es0[e] && es[f] == es0[f]);
                } else if e == pe2 {
                    assert(es[f] == es0[f]);
                } else {
                    assert(es[e] == es0[e]);
                }
            }
        } else {
            assert(gs[p] == gs0[p]);
        }
    }
    // the flags of each entry are those of its records
    assert forall|p: int, e: int, u: UseDepView|
        0 <= p < gs.len() && 0 <= e < gs[p].2.len() implies (gs[p].2[e].2.contains(u)
        <==> flag_recorded(rs, gs[p], gs[p].2[e], u)) by {
        let g = gs[p];
        let en = g.2[e];
        let matches = g.0 == r.0 && g.1 == r.1 && en.0 == r.2 && en.1 == r.3;
        if flag_recorded(rs0, g, en, u) {
            let m = choose|m: int|
                0 <= m < rs0.len() && (#[trigger] rs0[m]).0 == g.0 && rs0[m].1 == g.1 && rs0[m].2
                    == en.0 && rs0[m].3 == en.1 && rs0[m].4.contains(u);
            assert(rs[m] == rs0[m]);
        }
        if flag_recorded(rs, g, en, u) {
            let m = choose|m: int|
                0 <= m < rs.len() && (#[trigger] rs[m]).0 == g.0 && rs[m].1 == g.1 && rs[m].2
                    == en.0 && rs[m].3 == en.1 && rs[m].4.contains(u);
            if m < rs0.len() {
                assert(rs0[m] == rs[m]);
                assert(flag_recorded(rs0, g, en, u));
            } else {
                assert(rs[m] == r);
            }
        }
        if matches && r.4.contains(u) {
            assert(rs[rs.len() - 1] == r);
            assert(flag_recorded(rs, g, en, u));
        }
        // flag_recorded(rs, ..) is flag_recorded(rs0, ..) or, where the entry is the record's,
        // the record's own flags
        assert(flag_recorded(rs, g, en, u) <==> (flag_recorded(rs0, g, en, u) || (matches
            && r.4.contains(u))));
        if p == pg2 && e == pe2 {
            let old_flags = if pe >= 0 {
                es0[pe].2
            } else {
                seq![]
            };
            assert(en.2 == uses_union(old_flags, r.4));
            lemma_union_contains(old_flags, r.4, u);
            if pe >= 0 {
                assert(gs0[pg].2[pe].2.contains(u) <==> flag_recorded(rs0, gs0[pg], gs0[pg].2[pe], u));
            } else {
                if flag_recorded(rs0, g, en, u) {
                    let m = choose|m: int|
                        0 <= m < rs0.len() && (#[trigger] rs0[m]).0 == g.0 && rs0[m].1 == g.1
                            && rs0[m].2 == en.0 && rs0[m].3 == en.1 && rs0[m].4.contains(u);
                    assert(record_grouped(gs0, rs0[m]));
                    let (p1, e1) = choose|p1: int, e1: int|
                        0 <= p1 < gs0.len() && 0 <= e1 < gs0[p1].2.len() && (#[trigger] gs0[p1]).0
                            == rs0[m].0 && gs0[p1].1 == rs0[m].1 && (#[trigger] gs0[p1].2[e1]).0
                            == rs0[m].2 && gs0[p1].2[e1].1 == rs0[m].3;
                    if pg >= 0 {
                        assert(p1 == pg);
                        assert(!(es0[e1].0 == r.2 && es0[e1].1 == r.3));
                    }
                }
                assert(!old_flags.contains(u));
            }
        } else if p == pg2 {
            assert(pg >= 0);
            assert(en == es0[e]);
            if pe >= 0 {
                assert(!(es0[e].0 == es0[pe].0 && es0[e].1 == es0[pe].1));
            }
            assert(!matches);
            assert(gs0[pg].2[e].2.contains(u) <==> flag_recorded(rs0, gs0[pg], gs0[pg].2[e], u));
        } else {
            assert(g == gs0[p]);
            if pg >= 0 {
                assert(!(gs0[p].0 == gs0[pg].0 && gs0[p].1 == gs0[pg].1));
            }
            assert(!matches);
            assert(gs0[p].2[e].2.contains(u) <==> flag_recorded(rs0, gs0[p], gs0[p].2[e], u));
        }
    }
    // this record is grouped
    assert(gs[pg2].2[pe2].0 == r.2);
    assert(record_grouped(gs, r));
    assert forall|m: int| 0 <= m < rs.len() implies record_grouped(gs, #[trigger] rs[m]) by {
        if m < rs0.len() {
            assert(rs[m] == rs0[m]);
        }
    }
}

/// The groups of a report from any records: no two for the same key and package; within
/// a group no two entries for the same version and blocking; each entry's USE flags are
/// exactly the flags of the records for its key, package, version and blocking; and every
/// record has its entry.
pub proof fn report_groups_merge(rs: Seq<Record>)
    ensures
        report_holds(rs, report_groups(rs)),
    decreases rs.len(),
{
    if rs.len() > 0 {
        report_groups_merge(rs.drop_last());
        lemma_add_record(rs);
    }
}

} // verus!
