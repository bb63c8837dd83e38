//! Repository metadata files: the license groups of `profiles/license_groups` and the
//! mirrors of `profiles/thirdpartymirrors`.

use vstd::prelude::*;

use indexmap::{IndexMap, IndexSet};

use crate::collections::{
    group_entries, group_get, group_insert, group_pos, group_values, has_group, groups_get, groups_insert, groups_iter,
    groups_new, set_add, set_contains, set_extend, set_extended, set_insert, set_items, set_new,
    set_pop, set_values,
};
use crate::text::{
    chars_to_string, split_tokens, str_eq, str_to_chars, to_owned, trim, trimmed, whitespace_split,
};
use crate::pkgsh::builtins::econf::{lines_of, text_lines};
use crate::types::{dedup, string_views};

use vstd::string::StrSliceExecFns;

verus! {

/// Whether a token names a group alias: it starts with `@`.
pub open spec fn is_alias_token(t: Seq<char>) -> bool {
    t.len() > 0 && t[0] == '@'
}

/// The known licenses among the tokens, each kept once, where it first occurs.
pub open spec fn line_licenses(ts: Seq<Seq<char>>, known: Seq<Seq<char>>) -> Seq<Seq<char>>
    decreases ts.len(),
{
    if ts.len() == 0 {
        seq![]
    } else {
        let rest = line_licenses(ts.drop_last(), known);
        let t = ts.last();
        if !is_alias_token(t) && known.contains(t) {
            set_add(rest, t)
        } else {
            rest
        }
    }
}

/// The aliased group names among the tokens: those after a `@`; a lone `@` names none.
pub open spec fn line_aliases(ts: Seq<Seq<char>>) -> Seq<Seq<char>>
    decreases ts.len(),
{
    if ts.len() == 0 {
        seq![]
    } else {
        let rest = line_aliases(ts.drop_last());
        let t = ts.last();
        if is_alias_token(t) && t.len() > 1 {
            rest.push(t.skip(1))
        } else {
            rest
        }
    }
}

/// The entries after adding each of `xs` to the set of `k`, which is created where missing.
pub open spec fn group_added(
    e: Seq<(Seq<char>, Seq<Seq<char>>)>,
    k: Seq<char>,
    xs: Seq<Seq<char>>,
) -> Seq<(Seq<char>, Seq<Seq<char>>)>
    decreases xs.len(),
{
    if xs.len() == 0 {
        e
    } else {
        let e1 = group_added(e, k, xs.drop_last());
        group_insert(e1, k, set_add(group_values(e1, k), xs.last()))
    }
}

/// The groups and the aliases that the lines define, before aliases are resolved. A line
/// names a group, then lists its licenses and, after `@`, the groups it takes in; only
/// known licenses are kept. A group defined again takes the later licenses, and keeps
/// the aliases of both.
pub open spec fn parsed_groups(lines: Seq<Seq<char>>, known: Seq<Seq<char>>) -> (
    Seq<(Seq<char>, Seq<Seq<char>>)>,
    Seq<(Seq<char>, Seq<Seq<char>>)>,
)
    decreases lines.len(),
{
    if lines.len() == 0 {
        (seq![], seq![])
    } else {
        let (g, a) = parsed_groups(lines.drop_last(), known);
        let ts = whitespace_split(lines.last());
        if ts.len() == 0 {
            (g, a)
        } else {
            (
                group_insert(g, ts[0], line_licenses(ts.skip(1), known)),
                group_added(a, ts[0], line_aliases(ts.skip(1))),
            )
        }
    }
}

/// `stack` after adding each of `xs` that is not in `seen`.
pub open spec fn push_unseen(stack: Seq<Seq<char>>, xs: Seq<Seq<char>>, seen: Seq<Seq<char>>) -> Seq<
    Seq<char>,
>
    decreases xs.len(),
{
    if xs.len() == 0 {
        stack
    } else {
        let st = push_unseen(stack, xs.drop_last(), seen);
        if seen.contains(xs.last()) {
            st
        } else {
            set_add(st, xs.last())
        }
    }
}

/// Resolves the aliases of the group `name` depth first: the last alias on the stack is
/// taken and marked seen, the aliases it has in turn that were not seen are stacked, and
/// the licenses of the aliased group, as they stand at that moment, are added to `name`.
/// At most `fuel` aliases are taken.
pub open spec fn resolve_group(
    g: Seq<(Seq<char>, Seq<Seq<char>>)>,
    a: Seq<(Seq<char>, Seq<Seq<char>>)>,
    name: Seq<char>,
    stack: Seq<Seq<char>>,
    seen: Seq<Seq<char>>,
    fuel: nat,
) -> Seq<(Seq<char>, Seq<Seq<char>>)>
    decreases fuel,
{
    if fuel == 0 || stack.len() == 0 {
        g
    } else {
        let s = stack.last();
        let seen1 = set_add(seen, s);
        let stack1 = push_unseen(stack.drop_last(), group_values(a, s), seen1);
        let g1 = match group_get(g, s) {
            Some(vals) => group_insert(g, name, set_extended(group_values(g, name), vals)),
            None => g,
        };
        resolve_group(g1, a, name, stack1, seen1, (fuel - 1) as nat)
    }
}

/// Every group name that some alias entry refers to.
pub open spec fn alias_names(a: Seq<(Seq<char>, Seq<Seq<char>>)>) -> Seq<Seq<char>>
    decreases a.len(),
{
    if a.len() == 0 {
        seq![]
    } else {
        alias_names(a.drop_last()) + a.last().1
    }
}

/// How many aliases a resolution can take: one for each distinct aliased name.
pub open spec fn alias_fuel(a: Seq<(Seq<char>, Seq<Seq<char>>)>) -> nat {
    alias_names(a).to_set().len()
}

/// The groups after resolving the aliases of the first `i` alias entries, in order.
pub open spec fn resolved(
    g: Seq<(Seq<char>, Seq<Seq<char>>)>,
    a: Seq<(Seq<char>, Seq<Seq<char>>)>,
    i: int,
) -> Seq<(Seq<char>, Seq<Seq<char>>)>
    decreases i,
{
    if i <= 0 || i > a.len() {
        g
    } else {
        let g0 = resolved(g, a, i - 1);
        resolve_group(g0, a, a[i - 1].0, a[i - 1].1, seq![], alias_fuel(a))
    }
}

/// The license groups that the lines of a license groups file define, with the licenses of
/// aliased groups added to the groups that alias them.
pub open spec fn spec_license_groups(lines: Seq<Seq<char>>, known: Seq<Seq<char>>) -> Seq<
    (Seq<char>, Seq<Seq<char>>),
> {
    let (g, a) = parsed_groups(lines, known);
    resolved(g, a, a.len() as int)
}

/// Adds `v` to the set of `k`, creating the set where missing (`IndexMap::entry` with
/// `or_default`, then `IndexSet::insert`).
fn add_to_group(m: &mut IndexMap<String, IndexSet<String>>, k: &str, v: String)
    ensures
        group_entries(*final(m)) == group_insert(
            group_entries(*old(m)),
            k@,
            set_add(group_values(group_entries(*old(m)), k@), v@),
        ),
{
    let mut set = match groups_get(m, k) {
        Some(s) => s,
        None => set_new(),
    };
    set_insert(&mut set, v);
    groups_insert(m, to_owned(k), set);
}

/// Adds the values of `vals` to the set of `k`, creating the set where missing
/// (`IndexMap::entry` with `or_default`, then `IndexSet::extend`).
fn extend_group(m: &mut IndexMap<String, IndexSet<String>>, k: &str, vals: IndexSet<String>)
    ensures
        group_entries(*final(m)) == group_insert(
            group_entries(*old(m)),
            k@,
            set_extended(group_values(group_entries(*old(m)), k@), set_values(vals)),
        ),
{
    let mut set = match groups_get(m, k) {
        Some(s) => s,
        None => set_new(),
    };
    set_extend(&mut set, vals);
    groups_insert(m, to_owned(k), set);
}

/// Whether `x` is among the strings of `v`.
fn vec_contains(v: &Vec<String>, x: &str) -> (r: bool)
    ensures
        r == string_views(v@).contains(x@),
{
    let mut i: usize = 0;
    while i < v.len()
        invariant
            i <= v.len(),
            forall|k: int| 0 <= k < i ==> v@[k]@ != x@,
        decreases v.len() - i,
    {
        if str_eq(v[i].as_str(), x) {
            assert(string_views(v@)[i as int] == x@);
            return true;
        }
        i = i + 1;
    }
    assert forall|k: int| 0 <= k < string_views(v@).len() implies string_views(v@)[k] != x@ by {
        assert(string_views(v@)[k] == v@[k]@);
    }
    false
}

/// Reads the groups and aliases that the lines define.
fn parse_groups(lines: &Vec<String>, known: &IndexSet<String>) -> (r: (
    IndexMap<String, IndexSet<String>>,
    IndexMap<String, IndexSet<String>>,
))
    ensures
        (group_entries(r.0), group_entries(r.1)) == parsed_groups(
            string_views(lines@),
            set_values(*known),
        ),
{
    let ghost lv = string_views(lines@);
    let ghost kv = set_values(*known);
    let mut groups = groups_new();
    let mut aliases = groups_new();
    assert(lv.take(0) =~= Seq::<Seq<char>>::empty());
    let mut i: usize = 0;
    while i < lines.len()
        invariant
            i <= lines.len(),
            lv == string_views(lines@),
            kv == set_values(*known),
            (group_entries(groups), group_entries(aliases)) == parsed_groups(
                lv.take(i as int),
                kv,
            ),
        decreases lines.len() - i,
    {
        let ghost g0 = group_entries(groups);
        let ghost a0 = group_entries(aliases);
        assert(lv.take(i + 1).drop_last() =~= lv.take(i as int));
        assert(lv.take(i + 1).last() == lines@[i as int]@);
        let tokens = split_tokens(lines[i].as_str());
        let ghost ts = string_views(tokens@);
        if tokens.len() > 0 {
            let name = &tokens[0];
            assert(ts[0] == name@);
            let ghost rest = ts.skip(1);
            let mut lic = set_new();
            assert(rest.take(0) =~= Seq::<Seq<char>>::empty());
            let mut j: usize = 1;
            while j < tokens.len()
                invariant
                    1 <= j <= tokens.len(),
                    ts == string_views(tokens@),
                    rest == ts.skip(1),
                    name@ == ts[0],
                    kv == set_values(*known),
                    set_values(lic) == line_licenses(rest.take(j - 1), kv),
                    group_entries(aliases) == group_added(a0, name@, line_aliases(
                        rest.take(j - 1),
                    )),
                decreases tokens.len() - j,
            {
                let ghost xs = rest.take(j - 1);
                assert(rest.take(j as int) =~= xs.push(tokens@[j as int]@));
                assert(xs.push(tokens@[j as int]@).drop_last() =~= xs);
                let t = &tokens[j];
                let cs = str_to_chars(t.as_str());
                if cs.len() > 0 && cs[0] == '@' {
                    if cs.len() > 1 {
                        let alias = chars_to_string(
                            vstd::slice::slice_subrange(cs.as_slice(), 1, cs.len()),
                        );
                        assert(alias@ =~= t@.skip(1));
                        assert(line_aliases(xs).push(alias@).drop_last() =~= line_aliases(xs));
                        add_to_group(&mut aliases, name.as_str(), alias);
                    }
                } else if set_contains(known, t.as_str()) {
                    set_insert(&mut lic, t.clone());
                }
                j = j + 1;
            }
            assert(rest.take(tokens.len() - 1) =~= rest);
            groups_insert(&mut groups, name.clone(), lic);
        }
        i = i + 1;
    }
    assert(lv.take(lines.len() as int) =~= lv);
    (groups, aliases)
}

/// Every value of an alias entry is among the aliased names.
proof fn entry_values_in_names(a: Seq<(Seq<char>, Seq<Seq<char>>)>, p: int, q: int)
    requires
        0 <= p < a.len(),
        0 <= q < a[p].1.len(),
    ensures
        alias_names(a).contains(a[p].1[q]),
    decreases a.len(),
{
    let prev = alias_names(a.drop_last());
    if p == a.len() - 1 {
        assert(alias_names(a)[prev.len() + q] == a[p].1[q]);
    } else {
        entry_values_in_names(a.drop_last(), p, q);
        let k = choose|k: int| 0 <= k < prev.len() && prev[k] == a[p].1[q];
        assert(alias_names(a)[k] == a[p].1[q]);
    }
}

/// A sequence without repeats whose values all lie in a finite set is no longer than the
/// set.
proof fn distinct_within(xs: Seq<Seq<char>>, u: Set<Seq<char>>)
    requires
        xs.no_duplicates(),
        u.finite(),
        forall|i: int| 0 <= i < xs.len() ==> u.contains(xs[i]),
    ensures
        xs.len() <= u.len(),
{
    xs.unique_seq_to_set();
    assert(xs.to_set().subset_of(u));
    vstd::set_lib::lemma_len_subset(xs.to_set(), u);
}

/// Resolves the aliases of one group, starting from the stack of its own aliases.
fn resolve_aliases_of(
    groups: &mut IndexMap<String, IndexSet<String>>,
    aliases: &IndexMap<String, IndexSet<String>>,
    name: &str,
    stack: IndexSet<String>,
)
    requires
        set_values(stack).no_duplicates(),
        forall|i: int|
            0 <= i < set_values(stack).len() ==> alias_names(group_entries(*aliases)).contains(
                #[trigger] set_values(stack)[i],
            ),
    ensures
        group_entries(*final(groups)) == resolve_group(
            group_entries(*old(groups)),
            group_entries(*aliases),
            name@,
            set_values(stack),
            seq![],
            alias_fuel(group_entries(*aliases)),
        ),
{
    broadcast use vstd::seq_lib::seq_to_set_is_finite;

    let ghost ae = group_entries(*aliases);
    let ghost u = alias_names(ae).to_set();
    let ghost target = resolve_group(
        group_entries(*groups),
        ae,
        name@,
        set_values(stack),
        seq![],
        alias_fuel(ae),
    );
    let mut stack = stack;
    let mut seen: Vec<String> = Vec::new();
    let ghost mut fuel: nat = alias_fuel(ae);
    assert(string_views(seen@) =~= Seq::<Seq<char>>::empty());
    loop
        invariant
            ae == group_entries(*aliases),
            u == alias_names(ae).to_set(),
            u.finite(),
            fuel + string_views(seen@).len() == u.len(),
            resolve_group(
                group_entries(*groups),
                ae,
                name@,
                set_values(stack),
                string_views(seen@),
                fuel,
            ) == target,
            string_views(seen@).no_duplicates(),
            forall|i: int|
                0 <= i < string_views(seen@).len() ==> u.contains(
                    #[trigger] string_views(seen@)[i],
                ),
            set_values(stack).no_duplicates(),
            forall|i: int|
                0 <= i < set_values(stack).len() ==> u.contains(#[trigger] set_values(stack)[i])
                    && !string_views(seen@).contains(set_values(stack)[i]),
        ensures
            group_entries(*groups) == target,
        decreases fuel,
    {
        let ghost g0 = group_entries(*groups);
        let ghost st0 = set_values(stack);
        let ghost sv0 = string_views(seen@);
        match set_pop(&mut stack) {
            None => {
                break;
            },
            Some(s) => {
                let ghost sv1 = sv0.push(s@);
                proof {
                    assert(st0[st0.len() - 1] == s@);
                    assert(sv1.no_duplicates());
                    assert forall|i: int| 0 <= i < sv1.len() implies u.contains(sv1[i]) by {
                        if i < sv0.len() {
                            assert(sv1[i] == sv0[i]);
                        }
                    }
                    distinct_within(sv1, u);
                }
                if !vec_contains(&seen, s.as_str()) {
                    seen.push(s.clone());
                }
                assert(string_views(seen@) =~= sv1);
                assert(sv1 == set_add(sv0, s@));
                let ghost st1 = set_values(stack);
                assert(st1 == st0.drop_last());
                match groups_get(aliases, s.as_str()) {
                    Some(nested) => {
                        let items = set_items(&nested);
                        let ghost iv = string_views(items@);
                        assert(iv == group_values(ae, s@));
                        proof {
                            let pos = group_pos(ae, s@);
                            assert forall|i: int| 0 <= i < iv.len() implies u.contains(iv[i]) by {
                                entry_values_in_names(ae, pos, i);
                            }
                        }
                        assert(iv.take(0) =~= Seq::<Seq<char>>::empty());
                        let mut k: usize = 0;
                        while k < items.len()
                            invariant
                                k <= items.len(),
                                iv == string_views(items@),
                                u.finite(),
                                forall|i: int| 0 <= i < iv.len() ==> u.contains(#[trigger] iv[i]),
                                sv1 == string_views(seen@),
                                set_values(stack) == push_unseen(st1, iv.take(k as int), sv1),
                                set_values(stack).no_duplicates(),
                                forall|i: int|
                                    0 <= i < set_values(stack).len() ==> u.contains(
                                        #[trigger] set_values(stack)[i],
                                    ) && !sv1.contains(set_values(stack)[i]),
                            decreases items.len() - k,
                        {
                            assert(iv.take(k + 1).drop_last() =~= iv.take(k as int));
                            assert(iv.take(k + 1).last() == items@[k as int]@);
                            assert(u.contains(iv[k as int]));
                            if !vec_contains(&seen, items[k].as_str()) {
                                set_insert(&mut stack, items[k].clone());
                            }
                            k = k + 1;
                        }
                        assert(iv.take(items.len() as int) =~= iv);
                    },
                    None => {
                        assert(group_values(ae, s@) =~= Seq::<Seq<char>>::empty());
                    },
                }
                match groups_get(groups, s.as_str()) {
                    Some(values) => {
                        extend_group(groups, name, values);
                    },
                    None => {},
                }
                proof {
                    fuel = (fuel - 1) as nat;
                }
            },
        }
    }
}

/// The license groups that significant lines define.
fn groups_of_lines(lines: &Vec<String>, known: &IndexSet<String>) -> (r: IndexMap<
    String,
    IndexSet<String>,
>)
    ensures
        group_entries(r) == spec_license_groups(string_views(lines@), set_values(*known)),
{
    let (mut groups, aliases) = parse_groups(lines, known);
    let ghost g0 = group_entries(groups);
    let ghost ae = group_entries(aliases);
    let entries = groups_iter(&aliases);
    let ghost ev = entries@;
    proof {
        parsed_aliases_distinct(string_views(lines@), set_values(*known));
    }
    for entry in it: entries
        invariant
            it.seq() == ev,
            ev.len() == ae.len(),
            ae == group_entries(aliases),
            values_distinct(ae),
            forall|q: int|
                0 <= q < ev.len() ==> ((#[trigger] ev[q]).0@, set_values(ev[q].1)) == ae[q],
            group_entries(groups) == resolved(g0, ae, it.index() as int),
    {
        let ghost q = it.index() as int;
        assert(entry == ev[q]);
        let (name, stack) = entry;
        proof {
            assert(ae[q].1.no_duplicates());
            assert forall|i: int| 0 <= i < set_values(stack).len() implies alias_names(
                ae,
            ).contains(#[trigger] set_values(stack)[i]) by {
                entry_values_in_names(ae, q, i);
            }
        }
        resolve_aliases_of(&mut groups, &aliases, name.as_str(), stack);
    }
    groups
}

/// Whether the set of every entry is without repeats.
pub open spec fn values_distinct(e: Seq<(Seq<char>, Seq<Seq<char>>)>) -> bool {
    forall|p: int| 0 <= p < e.len() ==> (#[trigger] e[p]).1.no_duplicates()
}

/// Adding to a set without repeats keeps it without repeats.
proof fn set_add_distinct(s: Seq<Seq<char>>, x: Seq<char>)
    requires
        s.no_duplicates(),
    ensures
        set_add(s, x).no_duplicates(),
{
    if !s.contains(x) {
        let t = s.push(x);
        assert forall|i: int, j: int| 0 <= i < t.len() && 0 <= j < t.len() && i != j implies t[i]
            != t[j] by {
            if i == s.len() {
                assert(s[j] == t[j]);
            } else if j == s.len() {
                assert(s[i] == t[i]);
            }
        }
    }
}

/// Storing a set without repeats keeps every set without repeats.
proof fn group_insert_distinct(e: Seq<(Seq<char>, Seq<Seq<char>>)>, k: Seq<char>, v: Seq<Seq<char>>)
    requires
        values_distinct(e),
        v.no_duplicates(),
    ensures
        values_distinct(group_insert(e, k, v)),
{
    let r = group_insert(e, k, v);
    assert forall|p: int| 0 <= p < r.len() implies (#[trigger] r[p]).1.no_duplicates() by {
        if has_group(e, k) {
            if p != group_pos(e, k) {
                assert(r[p] == e[p]);
            }
        } else if p < e.len() {
            assert(r[p] == e[p]);
        }
    }
}

/// Adding values to a group keeps every set without repeats.
proof fn group_added_distinct(e: Seq<(Seq<char>, Seq<Seq<char>>)>, k: Seq<char>, xs: Seq<Seq<char>>)
    requires
        values_distinct(e),
    ensures
        values_distinct(group_added(e, k, xs)),
    decreases xs.len(),
{
    if xs.len() > 0 {
        let e1 = group_added(e, k, xs.drop_last());
        group_added_distinct(e, k, xs.drop_last());
        let v = group_values(e1, k);
        if has_group(e1, k) {
            assert(e1[group_pos(e1, k)].1.no_duplicates());
        }
        set_add_distinct(v, xs.last());
        group_insert_distinct(e1, k, set_add(v, xs.last()));
    }
}

/// The alias sets that lines define are without repeats.
proof fn parsed_aliases_distinct(lines: Seq<Seq<char>>, known: Seq<Seq<char>>)
    ensures
        values_distinct(parsed_groups(lines, known).1),
    decreases lines.len(),
{
    if lines.len() > 0 {
        parsed_aliases_distinct(lines.drop_last(), known);
        let (g, a) = parsed_groups(lines.drop_last(), known);
        let ts = whitespace_split(lines.last());
        if ts.len() > 0 {
            group_added_distinct(a, ts[0], line_aliases(ts.skip(1)));
        }
    }
}

/// Whether every value of `s` is among `known`.
pub open spec fn within(s: Seq<Seq<char>>, known: Seq<Seq<char>>) -> bool {
    forall|q: int| 0 <= q < s.len() ==> known.contains(#[trigger] s[q])
}

/// Whether the set of every entry holds only values among `known`.
pub open spec fn entries_within(e: Seq<(Seq<char>, Seq<Seq<char>>)>, known: Seq<Seq<char>>) -> bool {
    forall|p: int| 0 <= p < e.len() ==> within(#[trigger] e[p].1, known)
}

proof fn set_add_within(s: Seq<Seq<char>>, x: Seq<char>, known: Seq<Seq<char>>)
    requires
        within(s, known),
        known.contains(x),
    ensures
        within(set_add(s, x), known),
{
    if !s.contains(x) {
        assert forall|q: int| 0 <= q < s.push(x).len() implies known.contains(
            #[trigger] s.push(x)[q],
        ) by {
            if q < s.len() {
                assert(s.push(x)[q] == s[q]);
            }
        }
    }
}

proof fn set_extended_within(s: Seq<Seq<char>>, xs: Seq<Seq<char>>, known: Seq<Seq<char>>)
    requires
        within(s, known),
        within(xs, known),
    ensures
        within(set_extended(s, xs), known),
    decreases xs.len(),
{
    if xs.len() > 0 {
        assert(within(xs.drop_last(), known)) by {
            assert forall|q: int| 0 <= q < xs.drop_last().len() implies known.contains(
                #[trigger] xs.drop_last()[q],
            ) by {
                assert(xs.drop_last()[q] == xs[q]);
            }
        }
        set_extended_within(s, xs.drop_last(), known);
        assert(known.contains(xs[xs.len() - 1]));
        set_add_within(set_extended(s, xs.drop_last()), xs.last(), known);
    }
}

proof fn group_insert_within(
    e: Seq<(Seq<char>, Seq<Seq<char>>)>,
    k: Seq<char>,
    v: Seq<Seq<char>>,
    known: Seq<Seq<char>>,
)
    requires
        entries_within(e, known),
        within(v, known),
    ensures
        entries_within(group_insert(e, k, v), known),
{
    let r = group_insert(e, k, v);
    assert forall|p: int| 0 <= p < r.len() implies within(#[trigger] r[p].1, known) by {
        if has_group(e, k) {
            if p != group_pos(e, k) {
                assert(r[p] == e[p]);
            }
        } else if p < e.len() {
            assert(r[p] == e[p]);
        }
    }
}

proof fn group_values_within(e: Seq<(Seq<char>, Seq<Seq<char>>)>, k: Seq<char>, known: Seq<Seq<char>>)
    requires
        entries_within(e, known),
    ensures
        within(group_values(e, k), known),
{
    if has_group(e, k) {
        assert(within(e[group_pos(e, k)].1, known));
    }
}

proof fn line_licenses_within(ts: Seq<Seq<char>>, known: Seq<Seq<char>>)
    ensures
        within(line_licenses(ts, known), known),
    decreases ts.len(),
{
    if ts.len() > 0 {
        line_licenses_within(ts.drop_last(), known);
        let t = ts.last();
        if !is_alias_token(t) && known.contains(t) {
            set_add_within(line_licenses(ts.drop_last(), known), t, known);
        }
    }
}

proof fn parsed_within(lines: Seq<Seq<char>>, known: Seq<Seq<char>>)
    ensures
        entries_within(parsed_groups(lines, known).0, known),
    decreases lines.len(),
{
    if lines.len() > 0 {
        parsed_within(lines.drop_last(), known);
        let (g, a) = parsed_groups(lines.drop_last(), known);
        let ts = whitespace_split(lines.last());
        if ts.len() > 0 {
            line_licenses_within(ts.skip(1), known);
            group_insert_within(g, ts[0], line_licenses(ts.skip(1), known), known);
        }
    }
}

proof fn resolve_group_within(
    g: Seq<(Seq<char>, Seq<Seq<char>>)>,
    a: Seq<(Seq<char>, Seq<Seq<char>>)>,
    name: Seq<char>,
    stack: Seq<Seq<char>>,
    seen: Seq<Seq<char>>,
    fuel: nat,
    known: Seq<Seq<char>>,
)
    requires
        entries_within(g, known),
    ensures
        entries_within(resolve_group(g, a, name, stack, seen, fuel), known),
    decreases fuel,
{
    if fuel > 0 && stack.len() > 0 {
        let s = stack.last();
        let seen1 = set_add(seen, s);
        let stack1 = push_unseen(stack.drop_last(), group_values(a, s), seen1);
        let g1 = match group_get(g, s) {
            Some(vals) => group_insert(g, name, set_extended(group_values(g, name), vals)),
            None => g,
        };
        if has_group(g, s) {
            group_values_within(g, s, known);
            group_values_within(g, name, known);
            set_extended_within(group_values(g, name), group_values(g, s), known);
            group_insert_within(
                g,
                name,
                set_extended(group_values(g, name), group_values(g, s)),
                known,
            );
        }
        resolve_group_within(g1, a, name, stack1, seen1, (fuel - 1) as nat, known);
    }
}

proof fn resolved_within(
    g: Seq<(Seq<char>, Seq<Seq<char>>)>,
    a: Seq<(Seq<char>, Seq<Seq<char>>)>,
    i: int,
    known: Seq<Seq<char>>,
)
    requires
        entries_within(g, known),
    ensures
        entries_within(resolved(g, a, i), known),
    decreases i,
{
    if 0 < i <= a.len() {
        resolved_within(g, a, i - 1, known);
        resolve_group_within(
            resolved(g, a, i - 1),
            a,
            a[i - 1].0,
            a[i - 1].1,
            seq![],
            alias_fuel(a),
            known,
        );
    }
}

proof fn dedup_distinct(s: Seq<Seq<char>>)
    ensures
        dedup(s).no_duplicates(),
    decreases s.len(),
{
    if s.len() > 0 {
        dedup_distinct(s.drop_last());
        set_add_distinct(dedup(s.drop_last()), s.last());
    }
}

/// Whether the alias entries say that group `x` takes in group `y`.
pub open spec fn alias_step(a: Seq<(Seq<char>, Seq<Seq<char>>)>, x: Seq<char>, y: Seq<char>) -> bool {
    exists|p: int| 0 <= p < a.len() && a[p].0 == x && #[trigger] a[p].1.contains(y)
}

/// Whether group `x` reaches group `y` through `n` aliases.
pub open spec fn reaches(a: Seq<(Seq<char>, Seq<Seq<char>>)>, x: Seq<char>, y: Seq<char>, n: nat) -> bool
    decreases n,
{
    if n == 0 {
        x == y
    } else {
        exists|z: Seq<char>| #[trigger] alias_step(a, x, z) && reaches(a, z, y, (n - 1) as nat)
    }
}

/// Whether the license `l` is listed for group `x` or for a group that `x` reaches through
/// aliases.
pub open spec fn licensed_via(
    g0: Seq<(Seq<char>, Seq<Seq<char>>)>,
    a: Seq<(Seq<char>, Seq<Seq<char>>)>,
    x: Seq<char>,
    l: Seq<char>,
) -> bool {
    exists|h: Seq<char>, n: nat| #[trigger] reaches(a, x, h, n) && group_values(g0, h).contains(l)
}

/// Whether every license of every group is listed for it or for a group it reaches.
pub open spec fn sourced(
    g: Seq<(Seq<char>, Seq<Seq<char>>)>,
    g0: Seq<(Seq<char>, Seq<Seq<char>>)>,
    a: Seq<(Seq<char>, Seq<Seq<char>>)>,
) -> bool {
    forall|x: Seq<char>, l: Seq<char>|
        #[trigger] group_values(g, x).contains(l) ==> licensed_via(g0, a, x, l)
}

proof fn reaches_concat(
    a: Seq<(Seq<char>, Seq<Seq<char>>)>,
    x: Seq<char>,
    s: Seq<char>,
    h: Seq<char>,
    n: nat,
    m: nat,
)
    requires
        reaches(a, x, s, n),
        reaches(a, s, h, m),
    ensures
        reaches(a, x, h, n + m),
    decreases n,
{
    if n > 0 {
        let z = choose|z: Seq<char>| #[trigger] alias_step(a, x, z) && reaches(a, z, s, (n - 1) as nat);
        reaches_concat(a, z, s, h, (n - 1) as nat, m);
        assert(((n - 1) as nat + m) as nat == (n + m - 1) as nat);
    }
}

proof fn unique_group_pos(e: Seq<(Seq<char>, Seq<Seq<char>>)>, k: Seq<char>, p: int)
    requires
        group_keys(e).no_duplicates(),
        0 <= p < e.len(),
        e[p].0 == k,
    ensures
        has_group(e, k),
        group_pos(e, k) == p,
{
    assert(has_group(e, k));
    let q = group_pos(e, k);
    if q != p {
        assert(group_keys(e)[q] == group_keys(e)[p]);
    }
}

proof fn group_insert_values(
    e: Seq<(Seq<char>, Seq<Seq<char>>)>,
    k: Seq<char>,
    v: Seq<Seq<char>>,
    x: Seq<char>,
)
    requires
        group_keys(e).no_duplicates(),
    ensures
        group_keys(group_insert(e, k, v)).no_duplicates(),
        group_values(group_insert(e, k, v), x) == if x == k {
            v
        } else {
            group_values(e, x)
        },
{
    let r = group_insert(e, k, v);
    group_insert_group_keys(e, k, v);
    set_add_distinct(group_keys(e), k);
    assert(group_keys(r) == set_add(group_keys(e), k));
    if has_group(e, k) {
        let pos = group_pos(e, k);
        unique_group_pos(r, k, pos);
        if has_group(e, x) && x != k {
            let q = group_pos(e, x);
            assert(r[q] == e[q]);
            unique_group_pos(r, x, q);
        }
        if has_group(r, x) && x != k {
            let q = group_pos(r, x);
            assert(r[q] == e[q]);
        }
    } else {
        unique_group_pos(r, k, e.len() as int);
        if has_group(e, x) && x != k {
            let q = group_pos(e, x);
            assert(r[q] == e[q]);
            unique_group_pos(r, x, q);
        }
        if has_group(r, x) && x != k {
            let q = group_pos(r, x);
            assert(q < e.len());
            assert(r[q] == e[q]);
        }
    }
}

proof fn set_extended_from(s: Seq<Seq<char>>, xs: Seq<Seq<char>>, l: Seq<char>)
    ensures
        set_extended(s, xs).contains(l) ==> s.contains(l) || xs.contains(l),
    decreases xs.len(),
{
    if xs.len() > 0 {
        set_extended_from(s, xs.drop_last(), l);
        let t = set_extended(s, xs.drop_last());
        if set_extended(s, xs).contains(l) && !t.contains(l) {
            let q = choose|q: int| 0 <= q < t.push(xs.last()).len() && t.push(xs.last())[q] == l;
            if q < t.len() {
                assert(t[q] == l);
            }
            assert(xs[xs.len() - 1] == l);
        }
        if t.contains(l) && xs.drop_last().contains(l) {
            let q = choose|q: int| 0 <= q < xs.drop_last().len() && xs.drop_last()[q] == l;
            assert(xs[q] == l);
        }
    }
}

proof fn push_unseen_from(st: Seq<Seq<char>>, xs: Seq<Seq<char>>, seen: Seq<Seq<char>>, y: Seq<char>)
    ensures
        push_unseen(st, xs, seen).contains(y) ==> st.contains(y) || xs.contains(y),
    decreases xs.len(),
{
    if xs.len() > 0 {
        push_unseen_from(st, xs.drop_last(), seen, y);
        let t = push_unseen(st, xs.drop_last(), seen);
        if push_unseen(st, xs, seen).contains(y) && !t.contains(y) {
            let q = choose|q: int| 0 <= q < t.push(xs.last()).len() && t.push(xs.last())[q] == y;
            if q < t.len() {
                assert(t[q] == y);
            }
            assert(xs[xs.len() - 1] == y);
        }
        if t.contains(y) && xs.drop_last().contains(y) {
            let q = choose|q: int| 0 <= q < xs.drop_last().len() && xs.drop_last()[q] == y;
            assert(xs[q] == y);
        }
    }
}

proof fn resolve_group_sourced(
    g: Seq<(Seq<char>, Seq<Seq<char>>)>,
    g0: Seq<(Seq<char>, Seq<Seq<char>>)>,
    a: Seq<(Seq<char>, Seq<Seq<char>>)>,
    name: Seq<char>,
    stack: Seq<Seq<char>>,
    seen: Seq<Seq<char>>,
    fuel: nat,
)
    requires
        sourced(g, g0, a),
        group_keys(g).no_duplicates(),
        forall|y: Seq<char>| #[trigger] stack.contains(y) ==> exists|n: nat| reaches(a, name, y, n),
    ensures
        sourced(resolve_group(g, a, name, stack, seen, fuel), g0, a),
        group_keys(resolve_group(g, a, name, stack, seen, fuel)).no_duplicates(),
    decreases fuel,
{
    if fuel > 0 && stack.len() > 0 {
        let s = stack.last();
        assert(stack.contains(s)) by {
            assert(stack[stack.len() - 1] == s);
        }
        let n = choose|n: nat| reaches(a, name, s, n);
        let seen1 = set_add(seen, s);
        let stack1 = push_unseen(stack.drop_last(), group_values(a, s), seen1);
        let g1 = match group_get(g, s) {
            Some(vals) => group_insert(g, name, set_extended(group_values(g, name), vals)),
            None => g,
        };
        if has_group(g, s) {
            let vals = group_values(g, s);
            let nv = set_extended(group_values(g, name), vals);
            assert forall|x: Seq<char>, l: Seq<char>| #[trigger] group_values(g1, x).contains(l)
                implies licensed_via(g0, a, x, l) by {
                group_insert_values(g, name, nv, x);
                if x == name {
                    set_extended_from(group_values(g, name), vals, l);
                    if vals.contains(l) {
                        assert(licensed_via(g0, a, s, l));
                        let (h, m) = choose|h: Seq<char>, m: nat|
                            #[trigger] reaches(a, s, h, m) && group_values(g0, h).contains(l);
                        reaches_concat(a, name, s, h, n, m);
                    }
                }
            }
            group_insert_values(g, name, nv, name);
        }
        assert forall|y: Seq<char>| #[trigger] stack1.contains(y) implies exists|k: nat|
            reaches(a, name, y, k) by {
            push_unseen_from(stack.drop_last(), group_values(a, s), seen1, y);
            if stack.drop_last().contains(y) {
                let q = choose|q: int| 0 <= q < stack.drop_last().len() && stack.drop_last()[q] == y;
                assert(stack[q] == y);
                assert(stack.contains(y));
            } else {
                assert(group_values(a, s).contains(y));
                assert(has_group(a, s));
                let p = group_pos(a, s);
                assert(a[p].1.contains(y));
                assert(alias_step(a, s, y));
                assert(reaches(a, y, y, 0));
                assert(reaches(a, s, y, 1));
                reaches_concat(a, name, s, y, n, 1);
            }
        }
        resolve_group_sourced(g1, g0, a, name, stack1, seen1, (fuel - 1) as nat);
    }
}

proof fn resolved_sourced(
    g0: Seq<(Seq<char>, Seq<Seq<char>>)>,
    a: Seq<(Seq<char>, Seq<Seq<char>>)>,
    i: int,
)
    requires
        group_keys(g0).no_duplicates(),
    ensures
        sourced(resolved(g0, a, i), g0, a),
        group_keys(resolved(g0, a, i)).no_duplicates(),
    decreases i,
{
    if 0 < i <= a.len() {
        resolved_sourced(g0, a, i - 1);
        let name = a[i - 1].0;
        assert forall|y: Seq<char>| #[trigger] a[i - 1].1.contains(y) implies exists|k: nat|
            reaches(a, name, y, k) by {
            assert(alias_step(a, name, y));
            assert(reaches(a, y, y, 0));
            assert(reaches(a, name, y, 1));
        }
        resolve_group_sourced(resolved(g0, a, i - 1), g0, a, name, a[i - 1].1, seq![], alias_fuel(a));
    } else {
        assert forall|x: Seq<char>, l: Seq<char>| #[trigger] group_values(g0, x).contains(l)
            implies licensed_via(g0, a, x, l) by {
            assert(reaches(a, x, x, 0));
        }
    }
}

/// Whether every group of `r` holds at least the licenses it holds in `g`.
pub open spec fn grows(g: Seq<(Seq<char>, Seq<Seq<char>>)>, r: Seq<(Seq<char>, Seq<Seq<char>>)>) -> bool {
    forall|x: Seq<char>, l: Seq<char>|
        #[trigger] group_values(g, x).contains(l) ==> group_values(r, x).contains(l)
}

proof fn set_extended_has(s: Seq<Seq<char>>, xs: Seq<Seq<char>>, l: Seq<char>)
    ensures
        (s.contains(l) || xs.contains(l)) ==> set_extended(s, xs).contains(l),
    decreases xs.len(),
{
    set_extended_prefix(s, xs);
    if s.contains(l) {
        let q = choose|q: int| 0 <= q < s.len() && s[q] == l;
        assert(set_extended(s, xs)[q] == l);
    }
    if xs.len() > 0 {
        set_extended_has(s, xs.drop_last(), l);
        let t = set_extended(s, xs.drop_last());
        if xs.contains(l) {
            let q = choose|q: int| 0 <= q < xs.len() && xs[q] == l;
            if q < xs.len() - 1 {
                assert(xs.drop_last()[q] == l);
                let w = choose|w: int| 0 <= w < t.len() && t[w] == l;
                if !t.contains(xs.last()) {
                    assert(t.push(xs.last())[w] == l);
                }
            } else {
                if !t.contains(xs.last()) {
                    assert(t.push(xs.last())[t.len() as int] == l);
                }
            }
        }
    }
}

proof fn push_unseen_props(st: Seq<Seq<char>>, xs: Seq<Seq<char>>, seen: Seq<Seq<char>>)
    ensures
        forall|y: Seq<char>| st.contains(y) ==> #[trigger] push_unseen(st, xs, seen).contains(y),
        forall|y: Seq<char>|
            xs.contains(y) && !seen.contains(y) ==> #[trigger] push_unseen(st, xs, seen).contains(y),
        st.no_duplicates() ==> push_unseen(st, xs, seen).no_duplicates(),
        (forall|y: Seq<char>| #[trigger] st.contains(y) ==> !seen.contains(y)) ==> forall|y: Seq<char>|
            #[trigger] push_unseen(st, xs, seen).contains(y) ==> !seen.contains(y),
    decreases xs.len(),
{
    if xs.len() > 0 {
        push_unseen_props(st, xs.drop_last(), seen);
        let t = push_unseen(st, xs.drop_last(), seen);
        let x = xs.last();
        if !seen.contains(x) {
            set_add_distinct_if(t, x);
            assert forall|y: Seq<char>| t.contains(y) implies set_add(t, x).contains(y) by {
                if !t.contains(x) {
                    let q = choose|q: int| 0 <= q < t.len() && t[q] == y;
                    assert(t.push(x)[q] == y);
                }
            }
            if !t.contains(x) {
                assert(t.push(x)[t.len() as int] == x);
            }
        }
        assert forall|y: Seq<char>| st.contains(y) implies #[trigger] push_unseen(st, xs, seen).contains(y) by {
            assert(t.contains(y));
        }
        assert forall|y: Seq<char>| xs.contains(y) && !seen.contains(y) implies #[trigger] push_unseen(
            st,
            xs,
            seen,
        ).contains(y) by {
            let q = choose|q: int| 0 <= q < xs.len() && xs[q] == y;
            if q < xs.len() - 1 {
                assert(xs.drop_last()[q] == y);
                assert(t.contains(y));
            }
        }
        if forall|y: Seq<char>| #[trigger] st.contains(y) ==> !seen.contains(y) {
            assert(forall|y: Seq<char>| #[trigger] t.contains(y) ==> !seen.contains(y));
            assert forall|y: Seq<char>| #[trigger] push_unseen(st, xs, seen).contains(y) implies !seen.contains(y) by {
                if seen.contains(x) || t.contains(x) {
                    assert(push_unseen(st, xs, seen) == t);
                } else if y != x {
                    assert(push_unseen(st, xs, seen) == t.push(x));
                    let q = choose|q: int| 0 <= q < t.len() + 1 && t.push(x)[q] == y;
                    assert(q != t.len());
                    assert(t[q] == y);
                    assert(t.contains(y));
                }
            }
        }
    }
}

proof fn set_add_distinct_if(s: Seq<Seq<char>>, x: Seq<char>)
    ensures
        s.no_duplicates() ==> set_add(s, x).no_duplicates(),
{
    if s.no_duplicates() {
        set_add_distinct(s, x);
    }
}

proof fn alias_step_values(a: Seq<(Seq<char>, Seq<Seq<char>>)>, x: Seq<char>, y: Seq<char>)
    requires
        group_keys(a).no_duplicates(),
    ensures
        alias_step(a, x, y) <==> group_values(a, x).contains(y),
{
    if alias_step(a, x, y) {
        let p = choose|p: int| 0 <= p < a.len() && a[p].0 == x && #[trigger] a[p].1.contains(y);
        unique_group_pos(a, x, p);
    }
    if group_values(a, x).contains(y) {
        assert(has_group(a, x));
        let p = group_pos(a, x);
        assert(a[p].1.contains(y));
    }
}

proof fn closed_reach(a: Seq<(Seq<char>, Seq<Seq<char>>)>, seen: Seq<Seq<char>>, z: Seq<char>, t: Seq<char>, m: nat)
    requires
        seen.contains(z),
        reaches(a, z, t, m),
        forall|u: Seq<char>, y: Seq<char>| seen.contains(u) && #[trigger] alias_step(a, u, y) ==> seen.contains(y),
    ensures
        seen.contains(t),
    decreases m,
{
    if m > 0 {
        let w = choose|w: Seq<char>| #[trigger] alias_step(a, z, w) && reaches(a, w, t, (m - 1) as nat);
        closed_reach(a, seen, w, t, (m - 1) as nat);
    }
}

proof fn resolve_group_complete(
    g: Seq<(Seq<char>, Seq<Seq<char>>)>,
    g0: Seq<(Seq<char>, Seq<Seq<char>>)>,
    a: Seq<(Seq<char>, Seq<Seq<char>>)>,
    name: Seq<char>,
    stack: Seq<Seq<char>>,
    seen: Seq<Seq<char>>,
    fuel: nat,
)
    requires
        group_keys(g).no_duplicates(),
        group_keys(a).no_duplicates(),
        grows(g0, g),
        forall|u: Seq<char>, y: Seq<char>|
            seen.contains(u) && #[trigger] alias_step(a, u, y) ==> seen.contains(y) || stack.contains(y),
        forall|y: Seq<char>| #[trigger] alias_step(a, name, y) ==> seen.contains(y) || stack.contains(y),
        forall|u: Seq<char>, l: Seq<char>|
            seen.contains(u) && #[trigger] group_values(g0, u).contains(l) ==> group_values(g, name).contains(l),
        stack.no_duplicates(),
        seen.no_duplicates(),
        forall|y: Seq<char>| #[trigger] stack.contains(y) ==> !seen.contains(y),
        forall|y: Seq<char>| #[trigger] stack.contains(y) ==> alias_names(a).to_set().contains(y),
        forall|y: Seq<char>| #[trigger] seen.contains(y) ==> alias_names(a).to_set().contains(y),
        fuel + seen.len() >= alias_names(a).to_set().len(),
    ensures
        group_keys(resolve_group(g, a, name, stack, seen, fuel)).no_duplicates(),
        grows(g, resolve_group(g, a, name, stack, seen, fuel)),
        forall|t: Seq<char>, n: nat, l: Seq<char>|
            n >= 1 && #[trigger] reaches(a, name, t, n) && #[trigger] group_values(g0, t).contains(l)
                ==> group_values(resolve_group(g, a, name, stack, seen, fuel), name).contains(l),
    decreases fuel,
{
    broadcast use vstd::seq_lib::seq_to_set_is_finite;

    let u = alias_names(a).to_set();
    // the stack and the seen names together are distinct names, so no more than the fuel
    let both = stack + seen;
    assert forall|i: int, j: int| 0 <= i < both.len() && 0 <= j < both.len() && i != j implies both[i]
        != both[j] by {
        if i < stack.len() && j >= stack.len() {
            assert(stack.contains(both[i]));
            assert(seen[j - stack.len()] == both[j]);
        } else if j < stack.len() && i >= stack.len() {
            assert(stack.contains(both[j]));
            assert(seen[i - stack.len()] == both[i]);
        } else if i < stack.len() {
            assert(both[i] == stack[i] && both[j] == stack[j]);
        } else {
            assert(both[i] == seen[i - stack.len()] && both[j] == seen[j - stack.len()]);
        }
    }
    assert forall|i: int| 0 <= i < both.len() implies u.contains(both[i]) by {
        if i < stack.len() {
            assert(stack.contains(both[i]));
        } else {
            assert(seen.contains(seen[i - stack.len()]));
        }
    }
    distinct_within(both, u);
    if fuel == 0 || stack.len() == 0 {
        assert(stack.len() == 0);
        assert forall|t: Seq<char>, n: nat, l: Seq<char>|
            n >= 1 && #[trigger] reaches(a, name, t, n) && #[trigger] group_values(g0, t).contains(l)
                implies group_values(g, name).contains(l) by {
            let w = choose|w: Seq<char>| #[trigger] alias_step(a, name, w) && reaches(a, w, t, (n - 1) as nat);
            closed_reach(a, seen, w, t, (n - 1) as nat);
        }
    } else {
        let s = stack.last();
        assert(stack.contains(s)) by {
            assert(stack[stack.len() - 1] == s);
        }
        let seen1 = set_add(seen, s);
        assert(seen1 == seen.push(s));
        let rest = stack.drop_last();
        let stack1 = push_unseen(rest, group_values(a, s), seen1);
        let g1 = match group_get(g, s) {
            Some(vals) => group_insert(g, name, set_extended(group_values(g, name), vals)),
            None => g,
        };
        set_add_distinct(seen, s);
        // what the stack holds but its last
        assert(rest.no_duplicates());
        assert forall|y: Seq<char>| stack.contains(y) && y != s implies #[trigger] rest.contains(y) by {
            let q = choose|q: int| 0 <= q < stack.len() && stack[q] == y;
            assert(q < stack.len() - 1);
            assert(rest[q] == y);
        }
        assert forall|y: Seq<char>| #[trigger] rest.contains(y) implies stack.contains(y) && y != s by {
            let q = choose|q: int| 0 <= q < rest.len() && rest[q] == y;
            assert(stack[q] == y);
        }
        assert forall|y: Seq<char>| #[trigger] rest.contains(y) implies !seen1.contains(y) by {
            assert(stack.contains(y));
            if seen1.contains(y) {
                let q = choose|q: int| 0 <= q < seen1.len() && seen1[q] == y;
                if q < seen.len() {
                    assert(seen.contains(y));
                }
            }
        }
        push_unseen_props(rest, group_values(a, s), seen1);
        push_unseen_from_all(rest, group_values(a, s), seen1);
        assert forall|y: Seq<char>| #[trigger] seen1.contains(y) <==> (seen.contains(y) || y == s) by {
            if seen1.contains(y) {
                let q = choose|q: int| 0 <= q < seen1.len() && seen1[q] == y;
                if q < seen.len() {
                    assert(seen[q] == y);
                }
            }
            if seen.contains(y) {
                let q = choose|q: int| 0 <= q < seen.len() && seen[q] == y;
                assert(seen1[q] == y);
            }
            assert(seen1[seen.len() as int] == s);
        }
        // the values the walk has so far
        assert(grows(g, g1) && group_keys(g1).no_duplicates() && forall|l: Seq<char>|
            group_values(g0, s).contains(l) ==> group_values(g1, name).contains(l)) by {
            if has_group(g, s) {
                let nv = set_extended(group_values(g, name), group_values(g, s));
                group_insert_values(g, name, nv, name);
                assert forall|x: Seq<char>, l: Seq<char>| #[trigger] group_values(g, x).contains(l)
                    implies group_values(g1, x).contains(l) by {
                    group_insert_values(g, name, nv, x);
                    if x == name {
                        set_extended_has(group_values(g, name), group_values(g, s), l);
                    }
                }
                assert forall|l: Seq<char>| group_values(g0, s).contains(l) implies group_values(
                    g1,
                    name,
                ).contains(l) by {
                    assert(group_values(g, s).contains(l));
                    set_extended_has(group_values(g, name), group_values(g, s), l);
                }
            } else {
                assert forall|l: Seq<char>| group_values(g0, s).contains(l) implies group_values(
                    g1,
                    name,
                ).contains(l) by {
                    assert(group_values(g, s).contains(l));
                }
            }
        }
        assert(grows(g0, g1)) by {
            assert forall|x: Seq<char>, l: Seq<char>| #[trigger] group_values(g0, x).contains(l)
                implies group_values(g1, x).contains(l) by {
                assert(group_values(g, x).contains(l));
            }
        }
        // every name the seen ones step to is seen or stacked
        assert forall|w: Seq<char>, y: Seq<char>| seen1.contains(w) && #[trigger] alias_step(a, w, y)
            implies seen1.contains(y) || stack1.contains(y) by {
            if w == s {
                alias_step_values(a, s, y);
            } else {
                assert(seen.contains(w));
                if y != s && stack.contains(y) {
                    assert(rest.contains(y));
                }
            }
        }
        assert forall|y: Seq<char>| #[trigger] alias_step(a, name, y) implies seen1.contains(y)
            || stack1.contains(y) by {
            if y != s && stack.contains(y) {
                assert(rest.contains(y));
            }
        }
        assert forall|w: Seq<char>, l: Seq<char>| seen1.contains(w) && #[trigger] group_values(
            g0,
            w,
        ).contains(l) implies group_values(g1, name).contains(l) by {
            if w != s {
                assert(group_values(g, name).contains(l));
            }
        }
        assert forall|y: Seq<char>| #[trigger] stack1.contains(y) implies u.contains(y) by {
            if rest.contains(y) {
                assert(stack.contains(y));
            } else {
                assert(group_values(a, s).contains(y));
                assert(has_group(a, s));
                let p = group_pos(a, s);
                let q = choose|q: int| 0 <= q < a[p].1.len() && a[p].1[q] == y;
                entry_values_in_names(a, p, q);
            }
        }
        assert forall|y: Seq<char>| #[trigger] seen1.contains(y) implies u.contains(y) by {
            if y != s {
                assert(seen.contains(y));
            }
        }
        resolve_group_complete(g1, g0, a, name, stack1, seen1, (fuel - 1) as nat);
        let r = resolve_group(g1, a, name, stack1, seen1, (fuel - 1) as nat);
        assert(r == resolve_group(g, a, name, stack, seen, fuel));
        assert forall|x: Seq<char>, l: Seq<char>| #[trigger] group_values(g, x).contains(l)
            implies group_values(r, x).contains(l) by {
            assert(group_values(g1, x).contains(l));
        }
    }
}

proof fn push_unseen_from_all(st: Seq<Seq<char>>, xs: Seq<Seq<char>>, seen: Seq<Seq<char>>)
    ensures
        forall|y: Seq<char>| #[trigger] push_unseen(st, xs, seen).contains(y) ==> st.contains(y) || xs.contains(y),
{
    assert forall|y: Seq<char>| #[trigger] push_unseen(st, xs, seen).contains(y) implies st.contains(y)
        || xs.contains(y) by {
        push_unseen_from(st, xs, seen, y);
    }
}

proof fn group_added_keys_unique(e: Seq<(Seq<char>, Seq<Seq<char>>)>, k: Seq<char>, xs: Seq<Seq<char>>)
    requires
        group_keys(e).no_duplicates(),
    ensures
        group_keys(group_added(e, k, xs)).no_duplicates(),
    decreases xs.len(),
{
    if xs.len() > 0 {
        group_added_keys_unique(e, k, xs.drop_last());
        let e1 = group_added(e, k, xs.drop_last());
        group_insert_values(e1, k, set_add(group_values(e1, k), xs.last()), k);
    }
}

proof fn parsed_keys_unique(lines: Seq<Seq<char>>, known: Seq<Seq<char>>)
    ensures
        group_keys(parsed_groups(lines, known).0).no_duplicates(),
        group_keys(parsed_groups(lines, known).1).no_duplicates(),
    decreases lines.len(),
{
    parsed_group_keys(lines, known);
    dedup_distinct(group_names(lines));
    if lines.len() > 0 {
        parsed_keys_unique(lines.drop_last(), known);
        let (g, a) = parsed_groups(lines.drop_last(), known);
        let ts = whitespace_split(lines.last());
        if ts.len() > 0 {
            group_added_keys_unique(a, ts[0], line_aliases(ts.skip(1)));
        }
    } else {
        assert(group_keys(Seq::<(Seq<char>, Seq<Seq<char>>)>::empty()) =~= Seq::<Seq<char>>::empty());
    }
}

proof fn resolved_complete(g0: Seq<(Seq<char>, Seq<Seq<char>>)>, a: Seq<(Seq<char>, Seq<Seq<char>>)>, i: int)
    requires
        group_keys(g0).no_duplicates(),
        group_keys(a).no_duplicates(),
        values_distinct(a),
        0 <= i <= a.len(),
    ensures
        group_keys(resolved(g0, a, i)).no_duplicates(),
        grows(g0, resolved(g0, a, i)),
        forall|p: int, t: Seq<char>, n: nat, l: Seq<char>|
            0 <= p < i && n >= 1 && #[trigger] reaches(a, a[p].0, t, n) && #[trigger] group_values(
                g0,
                t,
            ).contains(l) ==> group_values(resolved(g0, a, i), a[p].0).contains(l),
    decreases i,
{
    broadcast use vstd::seq_lib::seq_to_set_is_finite;

    if i == 0 {
        assert forall|x: Seq<char>, l: Seq<char>| #[trigger] group_values(g0, x).contains(l) implies group_values(
            resolved(g0, a, 0),
            x,
        ).contains(l) by {}
    } else {
        resolved_complete(g0, a, i - 1);
        let g1 = resolved(g0, a, i - 1);
        let name = a[i - 1].0;
        let stack = a[i - 1].1;
        let seen: Seq<Seq<char>> = seq![];
        unique_group_pos(a, name, i - 1);
        assert forall|y: Seq<char>| #[trigger] alias_step(a, name, y) implies seen.contains(y)
            || stack.contains(y) by {
            alias_step_values(a, name, y);
        }
        assert(stack.no_duplicates());
        assert forall|y: Seq<char>| #[trigger] stack.contains(y) implies alias_names(a).to_set().contains(y) by {
            let q = choose|q: int| 0 <= q < stack.len() && stack[q] == y;
            entry_values_in_names(a, i - 1, q);
        }
        assert(seen.no_duplicates());
        resolve_group_complete(g1, g0, a, name, stack, seen, alias_fuel(a));
        let r = resolved(g0, a, i);
        assert(r == resolve_group(g1, a, name, stack, seen, alias_fuel(a)));
        assert forall|x: Seq<char>, l: Seq<char>| #[trigger] group_values(g0, x).contains(l) implies group_values(
            r,
            x,
        ).contains(l) by {
            assert(group_values(g1, x).contains(l));
        }
        assert forall|p: int, t: Seq<char>, n: nat, l: Seq<char>|
            0 <= p < i && n >= 1 && #[trigger] reaches(a, a[p].0, t, n) && #[trigger] group_values(
                g0,
                t,
            ).contains(l) implies group_values(r, a[p].0).contains(l) by {
            if p < i - 1 {
                assert(group_values(g1, a[p].0).contains(l));
            }
        }
    }
}

/// Every license listed for a group that a license group reaches through its aliases,
/// directly or in turn, is among the license group's licenses, as are its own.
pub proof fn license_groups_include_aliases(
    lines: Seq<Seq<char>>,
    known: Seq<Seq<char>>,
    x: Seq<char>,
    t: Seq<char>,
    n: nat,
    l: Seq<char>,
)
    requires
        reaches(parsed_groups(lines, known).1, x, t, n),
        group_values(parsed_groups(lines, known).0, t).contains(l),
    ensures
        group_values(spec_license_groups(lines, known), x).contains(l),
{
    let (g, a) = parsed_groups(lines, known);
    parsed_keys_unique(lines, known);
    parsed_aliases_distinct(lines, known);
    resolved_complete(g, a, a.len() as int);
    if n >= 1 {
        let z = choose|z: Seq<char>| #[trigger] alias_step(a, x, z) && reaches(a, z, t, (n - 1) as nat);
        let p = choose|p: int| 0 <= p < a.len() && a[p].0 == x && #[trigger] a[p].1.contains(z);
        assert(reaches(a, a[p].0, t, n));
    }
}

/// Every license of a license group is listed on the group's own line or on the line of a
/// group that it reaches through its aliases, directly or in turn.
pub proof fn license_groups_from_aliases(lines: Seq<Seq<char>>, known: Seq<Seq<char>>, x: Seq<char>, l: Seq<char>)
    ensures
        group_values(spec_license_groups(lines, known), x).contains(l) ==> licensed_via(
            parsed_groups(lines, known).0,
            parsed_groups(lines, known).1,
            x,
            l,
        ),
{
    parsed_group_keys(lines, known);
    let (g, a) = parsed_groups(lines, known);
    dedup_distinct(group_names(lines));
    resolved_sourced(g, a, a.len() as int);
}

/// A license group holds only known licenses, whether listed directly or taken in
/// through aliases.
pub proof fn license_groups_hold_known_licenses(lines: Seq<Seq<char>>, known: Seq<Seq<char>>)
    ensures
        entries_within(spec_license_groups(lines, known), known),
{
    parsed_within(lines, known);
    let (g, a) = parsed_groups(lines, known);
    resolved_within(g, a, a.len() as int, known);
}

/// The mirrors that the lines of a third party mirrors file define: each line names a
/// mirror group, then lists its URLs; a line without URLs defines nothing, and a group
/// defined again takes the later URLs in its first place.
pub open spec fn spec_mirrors(lines: Seq<Seq<char>>) -> Seq<(Seq<char>, Seq<Seq<char>>)>
    decreases lines.len(),
{
    if lines.len() == 0 {
        seq![]
    } else {
        let e = spec_mirrors(lines.drop_last());
        let ts = whitespace_split(lines.last());
        if ts.len() <= 1 {
            e
        } else {
            group_insert(e, ts[0], set_extended(seq![], ts.skip(1)))
        }
    }
}

/// The mirror groups that significant lines define.
fn mirrors_of_lines(lines: &Vec<String>) -> (r: IndexMap<String, IndexSet<String>>)
    ensures
        group_entries(r) == spec_mirrors(string_views(lines@)),
{
    let ghost lv = string_views(lines@);
    let mut m = groups_new();
    assert(lv.take(0) =~= Seq::<Seq<char>>::empty());
    let mut i: usize = 0;
    while i < lines.len()
        invariant
            i <= lines.len(),
            lv == string_views(lines@),
            group_entries(m) == spec_mirrors(lv.take(i as int)),
        decreases lines.len() - i,
    {
        assert(lv.take(i + 1).drop_last() =~= lv.take(i as int));
        assert(lv.take(i + 1).last() == lines@[i as int]@);
        let tokens = split_tokens(lines[i].as_str());
        let ghost ts = string_views(tokens@);
        if tokens.len() > 1 {
            let ghost rest = ts.skip(1);
            let mut set = set_new();
            assert(rest.take(0) =~= Seq::<Seq<char>>::empty());
            let mut j: usize = 1;
            while j < tokens.len()
                invariant
                    1 <= j <= tokens.len(),
                    ts == string_views(tokens@),
                    rest == ts.skip(1),
                    set_values(set) == set_extended(seq![], rest.take(j - 1)),
                decreases tokens.len() - j,
            {
                assert(rest.take(j as int) =~= rest.take(j - 1).push(tokens@[j as int]@));
                assert(rest.take(j as int).drop_last() =~= rest.take(j - 1));
                set_insert(&mut set, tokens[j].clone());
                j = j + 1;
            }
            assert(rest.take(tokens.len() - 1) =~= rest);
            assert(ts[0] == tokens@[0]@);
            groups_insert(&mut m, tokens[0].clone(), set);
        }
        i = i + 1;
    }
    assert(lv.take(lines.len() as int) =~= lv);
    m
}

/// Whether `r` holds the groups of `g`, in the same order, each starting with the values
/// it has in `g`.
pub open spec fn extends_groups(
    g: Seq<(Seq<char>, Seq<Seq<char>>)>,
    r: Seq<(Seq<char>, Seq<Seq<char>>)>,
) -> bool {
    &&& r.len() == g.len()
    &&& forall|p: int|
        0 <= p < g.len() ==> (#[trigger] r[p]).0 == g[p].0 && g[p].1.is_prefix_of(r[p].1)
}

proof fn extends_groups_trans(
    a: Seq<(Seq<char>, Seq<Seq<char>>)>,
    b: Seq<(Seq<char>, Seq<Seq<char>>)>,
    c: Seq<(Seq<char>, Seq<Seq<char>>)>,
)
    requires
        extends_groups(a, b),
        extends_groups(b, c),
    ensures
        extends_groups(a, c),
{
    assert forall|p: int| 0 <= p < a.len() implies (#[trigger] c[p]).0 == a[p].0 && a[p].1.is_prefix_of(
        c[p].1,
    ) by {
        assert(b[p].0 == a[p].0);
        assert(c[p].0 == b[p].0);
        assert forall|i: int| 0 <= i < a[p].1.len() implies a[p].1[i] == c[p].1[i] by {
            assert(a[p].1[i] == b[p].1[i]);
        }
    }
}

proof fn set_extended_prefix(s: Seq<Seq<char>>, xs: Seq<Seq<char>>)
    ensures
        s.is_prefix_of(set_extended(s, xs)),
    decreases xs.len(),
{
    if xs.len() > 0 {
        set_extended_prefix(s, xs.drop_last());
        let t = set_extended(s, xs.drop_last());
        if !t.contains(xs.last()) {
            assert forall|i: int| 0 <= i < s.len() implies s[i] == t.push(xs.last())[i] by {
                assert(s[i] == t[i]);
            }
        }
    }
}

/// Storing, for a key that has an entry, values that start with its old ones extends the
/// groups.
proof fn group_insert_extends(e: Seq<(Seq<char>, Seq<Seq<char>>)>, k: Seq<char>, v: Seq<Seq<char>>)
    requires
        has_group(e, k),
        group_values(e, k).is_prefix_of(v),
    ensures
        extends_groups(e, group_insert(e, k, v)),
        has_group(group_insert(e, k, v), k),
{
    let pos = group_pos(e, k);
    let r = group_insert(e, k, v);
    assert forall|p: int| 0 <= p < e.len() implies (#[trigger] r[p]).0 == e[p].0 && e[p].1.is_prefix_of(
        r[p].1,
    ) by {
        if p == pos {
            assert(e[p].0 == k);
        } else {
            assert(r[p] == e[p]);
        }
    }
    assert(r[pos].0 == k);
}

/// Resolving the aliases of a group that exists extends the groups.
proof fn resolve_group_extends(
    g: Seq<(Seq<char>, Seq<Seq<char>>)>,
    a: Seq<(Seq<char>, Seq<Seq<char>>)>,
    name: Seq<char>,
    stack: Seq<Seq<char>>,
    seen: Seq<Seq<char>>,
    fuel: nat,
)
    requires
        has_group(g, name),
    ensures
        extends_groups(g, resolve_group(g, a, name, stack, seen, fuel)),
    decreases fuel,
{
    if fuel == 0 || stack.len() == 0 {
        assert(extends_groups(g, g)) by {
            assert forall|p: int| 0 <= p < g.len() implies (#[trigger] g[p]).0 == g[p].0
                && g[p].1.is_prefix_of(g[p].1) by {}
        }
    } else {
        let s = stack.last();
        let seen1 = set_add(seen, s);
        let stack1 = push_unseen(stack.drop_last(), group_values(a, s), seen1);
        let g1 = match group_get(g, s) {
            Some(vals) => group_insert(g, name, set_extended(group_values(g, name), vals)),
            None => g,
        };
        if has_group(g, s) {
            set_extended_prefix(group_values(g, name), group_values(g, s));
            group_insert_extends(g, name, set_extended(group_values(g, name), group_values(g, s)));
        } else {
            assert(extends_groups(g, g)) by {
                assert forall|p: int| 0 <= p < g.len() implies (#[trigger] g[p]).0 == g[p].0
                    && g[p].1.is_prefix_of(g[p].1) by {}
            }
        }
        assert(has_group(g1, name)) by {
            let q = group_pos(g, name);
            assert(g1[q].0 == g[q].0);
        }
        resolve_group_extends(g1, a, name, stack1, seen1, (fuel - 1) as nat);
        extends_groups_trans(g, g1, resolve_group(g1, a, name, stack1, seen1, (fuel - 1) as nat));
    }
}

proof fn group_insert_keys(
    e: Seq<(Seq<char>, Seq<Seq<char>>)>,
    k: Seq<char>,
    v: Seq<Seq<char>>,
    k2: Seq<char>,
)
    ensures
        has_group(group_insert(e, k, v), k2) <==> (has_group(e, k2) || k2 == k),
{
    let r = group_insert(e, k, v);
    if has_group(e, k) {
        let pos = group_pos(e, k);
        if has_group(e, k2) {
            let q = group_pos(e, k2);
            if q == pos {
                assert(r[q].0 == k2);
            } else {
                assert(r[q] == e[q]);
            }
        }
        if has_group(r, k2) {
            let q = group_pos(r, k2);
            if q != pos {
                assert(e[q] == r[q]);
            }
        }
        assert(r[pos].0 == k);
    } else {
        if has_group(e, k2) {
            let q = group_pos(e, k2);
            assert(r[q] == e[q]);
        }
        if has_group(r, k2) {
            let q = group_pos(r, k2);
            if q < e.len() {
                assert(e[q] == r[q]);
            }
        }
        assert(r[e.len() as int].0 == k);
    }
}

proof fn group_added_keys(
    e: Seq<(Seq<char>, Seq<Seq<char>>)>,
    k: Seq<char>,
    xs: Seq<Seq<char>>,
    k2: Seq<char>,
)
    ensures
        has_group(group_added(e, k, xs), k2) ==> (has_group(e, k2) || k2 == k),
    decreases xs.len(),
{
    if xs.len() > 0 {
        let e1 = group_added(e, k, xs.drop_last());
        group_added_keys(e, k, xs.drop_last(), k2);
        group_insert_keys(e1, k, set_add(group_values(e1, k), xs.last()), k2);
    }
}

/// Every group that has aliases is a group the lines define.
proof fn parsed_alias_keys(lines: Seq<Seq<char>>, known: Seq<Seq<char>>, k: Seq<char>)
    ensures
        has_group(parsed_groups(lines, known).1, k) ==> has_group(parsed_groups(lines, known).0, k),
    decreases lines.len(),
{
    if lines.len() > 0 {
        parsed_alias_keys(lines.drop_last(), known, k);
        let (g, a) = parsed_groups(lines.drop_last(), known);
        let ts = whitespace_split(lines.last());
        if ts.len() > 0 {
            group_added_keys(a, ts[0], line_aliases(ts.skip(1)), k);
            group_insert_keys(g, ts[0], line_licenses(ts.skip(1), known), k);
        }
    }
}

proof fn resolved_extends(
    g: Seq<(Seq<char>, Seq<Seq<char>>)>,
    a: Seq<(Seq<char>, Seq<Seq<char>>)>,
    i: int,
)
    requires
        forall|p: int| 0 <= p < a.len() ==> has_group(g, (#[trigger] a[p]).0),
    ensures
        extends_groups(g, resolved(g, a, i)),
    decreases i,
{
    if i <= 0 || i > a.len() {
        assert(extends_groups(g, g)) by {
            assert forall|p: int| 0 <= p < g.len() implies (#[trigger] g[p]).0 == g[p].0
                && g[p].1.is_prefix_of(g[p].1) by {}
        }
    } else {
        resolved_extends(g, a, i - 1);
        let g0 = resolved(g, a, i - 1);
        let name = a[i - 1].0;
        assert(has_group(g0, name)) by {
            assert(has_group(g, name));
            let q = group_pos(g, name);
            assert(g0[q].0 == g[q].0);
        }
        resolve_group_extends(g0, a, name, a[i - 1].1, seq![], alias_fuel(a));
        extends_groups_trans(g, g0, resolved(g, a, i));
    }
}

/// Resolving aliases only adds licenses: the license groups are those the lines define,
/// in the order they are first defined, and each starts with the licenses that its own
/// line lists.
pub proof fn license_groups_extend_own_licenses(lines: Seq<Seq<char>>, known: Seq<Seq<char>>)
    ensures
        extends_groups(parsed_groups(lines, known).0, spec_license_groups(lines, known)),
{
    let (g, a) = parsed_groups(lines, known);
    assert forall|p: int| 0 <= p < a.len() implies has_group(g, (#[trigger] a[p]).0) by {
        assert(has_group(a, a[p].0));
        parsed_alias_keys(lines, known, a[p].0);
    }
    resolved_extends(g, a, a.len() as int);
}

/// Whether a trimmed line carries data: it is neither blank nor a `#` comment.
pub open spec fn is_significant(l: Seq<char>) -> bool {
    l.len() > 0 && l[0] != '#'
}

/// The trimmed lines that carry data, in order.
pub open spec fn significant_lines(ls: Seq<Seq<char>>) -> Seq<Seq<char>>
    decreases ls.len(),
{
    if ls.len() == 0 {
        seq![]
    } else {
        let r = significant_lines(ls.drop_last());
        let t = trimmed(ls.last());
        if is_significant(t) {
            r.push(t)
        } else {
            r
        }
    }
}

/// The lines of a metadata file that carry data, trimmed: blank lines and `#` comments
/// are dropped.
pub fn filter_lines(data: &str) -> (v: Vec<String>)
    ensures
        string_views(v@) == significant_lines(text_lines(data@)),
{
    let ls = lines_of(data);
    let ghost lv = text_lines(data@);
    let mut out: Vec<String> = Vec::new();
    let mut i: usize = 0;
    assert(lv.take(0) =~= Seq::<Seq<char>>::empty());
    while i < ls.len()
        invariant
            i <= ls.len(),
            ls@.len() == lv.len(),
            forall|k: int| 0 <= k < ls@.len() ==> (#[trigger] ls@[k])@ == lv[k],
            string_views(out@) == significant_lines(lv.take(i as int)),
        decreases ls.len() - i,
    {
        assert(lv.take(i + 1).drop_last() =~= lv.take(i as int));
        assert(lv.take(i + 1).last() == ls@[i as int]@);
        let t = trim(ls[i].as_str());
        let n = t.as_str().unicode_len();
        if n > 0 && t.as_str().get_char(0) != '#' {
            let ghost before = string_views(out@);
            out.push(t);
            assert(string_views(out@) =~= before.push(out@[before.len() as int]@));
        }
        i = i + 1;
    }
    assert(lv.take(ls.len() as int) =~= lv);
    out
}

/// Reads the license groups of a license groups file `data`: each line that carries data
/// names a group, then lists its licenses and, after `@`, the groups whose licenses it
/// takes in. Only licenses in `known` are kept; aliases are resolved depth first, each
/// aliased group taken once per group.
pub fn license_groups(data: &str, known: &IndexSet<String>) -> (r: IndexMap<
    String,
    IndexSet<String>,
>)
    ensures
        group_entries(r) == spec_license_groups(
            significant_lines(text_lines(data@)),
            set_values(*known),
        ),
{
    let lines = filter_lines(data);
    groups_of_lines(&lines, known)
}

/// Reads the mirror groups of a third party mirrors file `data`.
pub fn mirrors(data: &str) -> (r: IndexMap<String, IndexSet<String>>)
    ensures
        group_entries(r) == spec_mirrors(significant_lines(text_lines(data@))),
{
    let lines = filter_lines(data);
    mirrors_of_lines(&lines)
}

/// Whether `s` names an architecture's stability status: `stable`, `testing` or
/// `transitional`.
pub open spec fn is_arch_status(s: Seq<char>) -> bool {
    s == "stable"@ || s == "testing"@ || s == "transitional"@
}

/// Whether a string names an architecture's stability status.
pub fn arch_status(s: &str) -> (b: bool)
    ensures
        b == is_arch_status(s@),
{
    proof {
        reveal_strlit("stable");
        reveal_strlit("testing");
        reveal_strlit("transitional");
    }
    str_eq(s, "stable") || str_eq(s, "testing") || str_eq(s, "transitional")
}

/// The architectures of each status that the significant lines of an `arches.desc` file
/// give: each line names an architecture and its status in its first two columns (any
/// further ones are ignored); lines whose architecture is not in `known`, whose status is
/// none, or that have fewer columns are passed over. Statuses come in the order they first
/// appear, architectures in the order they are given, each once.
pub open spec fn spec_arches_desc(lines: Seq<Seq<char>>, known: Seq<Seq<char>>) -> Seq<
    (Seq<char>, Seq<Seq<char>>),
>
    decreases lines.len(),
{
    if lines.len() == 0 {
        seq![]
    } else {
        let e = spec_arches_desc(lines.drop_last(), known);
        let ts = whitespace_split(lines.last());
        if ts.len() >= 2 && known.contains(ts[0]) && is_arch_status(ts[1]) {
            group_insert(e, ts[1], set_add(group_values(e, ts[1]), ts[0]))
        } else {
            e
        }
    }
}

/// The architecture groups that significant lines of `arches.desc` define.
fn arches_desc_of_lines(lines: &Vec<String>, known: &IndexSet<String>) -> (r: IndexMap<
    String,
    IndexSet<String>,
>)
    ensures
        group_entries(r) == spec_arches_desc(string_views(lines@), set_values(*known)),
{
    let ghost lv = string_views(lines@);
    let mut m = groups_new();
    assert(lv.take(0) =~= Seq::<Seq<char>>::empty());
    let mut i: usize = 0;
    while i < lines.len()
        invariant
            i <= lines.len(),
            lv == string_views(lines@),
            group_entries(m) == spec_arches_desc(lv.take(i as int), set_values(*known)),
        decreases lines.len() - i,
    {
        assert(lv.take(i + 1).drop_last() =~= lv.take(i as int));
        assert(lv.take(i + 1).last() == lines@[i as int]@);
        let tokens = split_tokens(lines[i].as_str());
        let ghost ts = string_views(tokens@);
        if tokens.len() >= 2 {
            assert(ts[0] == tokens@[0]@ && ts[1] == tokens@[1]@);
            if set_contains(known, tokens[0].as_str()) && arch_status(tokens[1].as_str()) {
                let mut set = match groups_get(&m, tokens[1].as_str()) {
                    Some(set) => set,
                    None => set_new(),
                };
                set_insert(&mut set, tokens[0].clone());
                groups_insert(&mut m, tokens[1].clone(), set);
            }
        }
        i = i + 1;
    }
    assert(lv.take(lines.len() as int) =~= lv);
    m
}

/// Reads an `arches.desc` file `data`: the architectures of each stability status, keyed
/// by the status's name, for the architectures in `known`.
pub fn arches_desc(data: &str, known: &IndexSet<String>) -> (r: IndexMap<
    String,
    IndexSet<String>,
>)
    ensures
        group_entries(r) == spec_arches_desc(
            significant_lines(text_lines(data@)),
            set_values(*known),
        ),
{
    let lines = filter_lines(data);
    arches_desc_of_lines(&lines, known)
}

/// The architectures that the significant lines of an `arch.list` file name, each once.
pub open spec fn spec_arches(lines: Seq<Seq<char>>) -> Seq<Seq<char>> {
    set_extended(seq![], lines)
}

/// Reads an `arch.list` file `data`: its significant lines in order, each once.
pub fn arches(data: &str) -> (r: IndexSet<String>)
    ensures
        set_values(r) == spec_arches(significant_lines(text_lines(data@))),
{
    let lines = filter_lines(data);
    let ghost lv = string_views(lines@);
    let mut set = set_new();
    assert(lv.take(0) =~= Seq::<Seq<char>>::empty());
    let mut i: usize = 0;
    while i < lines.len()
        invariant
            i <= lines.len(),
            lv == string_views(lines@),
            set_values(set) == set_extended(seq![], lv.take(i as int)),
        decreases lines.len() - i,
    {
        assert(lv.take(i + 1).drop_last() =~= lv.take(i as int));
        assert(lv.take(i + 1).last() == lines@[i as int]@);
        set_insert(&mut set, lines[i].clone());
        i = i + 1;
    }
    assert(lv.take(lines.len() as int) =~= lv);
    set
}

/// The names that lines give their groups: the first token of each line that has one.
pub open spec fn group_names(lines: Seq<Seq<char>>) -> Seq<Seq<char>>
    decreases lines.len(),
{
    if lines.len() == 0 {
        seq![]
    } else {
        let r = group_names(lines.drop_last());
        let ts = whitespace_split(lines.last());
        if ts.len() > 0 {
            r.push(ts[0])
        } else {
            r
        }
    }
}

/// The keys of entries, in order.
pub open spec fn group_keys(e: Seq<(Seq<char>, Seq<Seq<char>>)>) -> Seq<Seq<char>> {
    e.map_values(|x: (Seq<char>, Seq<Seq<char>>)| x.0)
}

proof fn group_insert_group_keys(
    e: Seq<(Seq<char>, Seq<Seq<char>>)>,
    k: Seq<char>,
    v: Seq<Seq<char>>,
)
    ensures
        group_keys(group_insert(e, k, v)) == if group_keys(e).contains(k) {
            group_keys(e)
        } else {
            group_keys(e).push(k)
        },
{
    let ks = group_keys(e);
    if has_group(e, k) {
        let pos = group_pos(e, k);
        assert(ks[pos] == k);
        assert(group_keys(group_insert(e, k, v)) =~= ks);
    } else {
        assert(!ks.contains(k)) by {
            if ks.contains(k) {
                let q = choose|q: int| 0 <= q < ks.len() && ks[q] == k;
                assert(e[q].0 == k);
            }
        }
        assert(group_keys(group_insert(e, k, v)) =~= ks.push(k));
    }
}

proof fn parsed_group_keys(lines: Seq<Seq<char>>, known: Seq<Seq<char>>)
    ensures
        group_keys(parsed_groups(lines, known).0) == dedup(group_names(lines)),
    decreases lines.len(),
{
    if lines.len() > 0 {
        parsed_group_keys(lines.drop_last(), known);
        let (g, a) = parsed_groups(lines.drop_last(), known);
        let ts = whitespace_split(lines.last());
        if ts.len() > 0 {
            group_insert_group_keys(g, ts[0], line_licenses(ts.skip(1), known));
            let names = group_names(lines.drop_last());
            assert(names.push(ts[0]).drop_last() =~= names);
        }
    }
}

/// The license groups are the groups the lines name, each once, in the order of their
/// first line.
pub proof fn license_group_keys(lines: Seq<Seq<char>>, known: Seq<Seq<char>>)
    ensures
        group_keys(spec_license_groups(lines, known)) == dedup(group_names(lines)),
{
    parsed_group_keys(lines, known);
    license_groups_extend_own_licenses(lines, known);
    let g = parsed_groups(lines, known).0;
    let r = spec_license_groups(lines, known);
    assert(group_keys(r) =~= group_keys(g));
}

/// The outcome of regenerating a repository's metadata cache, given for each target
/// whether its regeneration failed: an error once any failed.
pub fn regen_outcome(failed: &Vec<bool>) -> (r: crate::Result<()>)
    ensures
        match r {
            Ok(()) => forall|i: int| 0 <= i < failed@.len() ==> !failed@[i],
            Err(e) => (exists|i: int| 0 <= i < failed@.len() && failed@[i]) && e
                == crate::error::Error::InvalidValue(e->InvalidValue_0) && e.spec_message()
                == "metadata failures occurred"@,
        },
{
    let mut errors: usize = 0;
    let mut i: usize = 0;
    while i < failed.len()
        invariant
            i <= failed.len(),
            errors <= i,
            (errors == 0) == (forall|k: int| 0 <= k < i ==> !failed@[k]),
        decreases failed.len() - i,
    {
        if failed[i] {
            errors = errors + 1;
        }
        i = i + 1;
    }
    if errors > 0 {
        Err(crate::error::Error::InvalidValue("metadata failures occurred".to_owned()))
    } else {
        Ok(())
    }
}

} // verus!
