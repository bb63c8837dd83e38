//! `econf`: the arguments a package's configure script is run with.

use vstd::prelude::*;

use indexmap::{IndexMap, IndexSet};

use vstd::string::StrSliceExecFns;

use crate::restrict::str::{regex_capture, regex_first_capture};
use crate::collections::{set_insert, set_is_disjoint, set_new, set_values};
use crate::text::{concat, trim, trimmed};
use crate::types::dedup;

verus! {

broadcast use vstd::string::group_string_axioms;

/// The entries of an option map, in order: each option with its value, if any.
pub uninterp spec fn option_entries(m: IndexMap<String, Option<String>>) -> Seq<
    (Seq<char>, Option<Seq<char>>),
>;

/// The view of an optional string.
pub open spec fn opt_str(o: Option<String>) -> Option<Seq<char>> {
    match o {
        Some(s) => Some(s@),
        None => None,
    }
}

/// Whether `k` is the key of some entry.
pub open spec fn has_key(e: Seq<(Seq<char>, Option<Seq<char>>)>, k: Seq<char>) -> bool {
    exists|p: int| 0 <= p < e.len() && (#[trigger] e[p]).0 == k
}

/// The position of the entry for `k`, where there is one.
pub open spec fn key_pos(e: Seq<(Seq<char>, Option<Seq<char>>)>, k: Seq<char>) -> int {
    choose|p: int| 0 <= p < e.len() && (#[trigger] e[p]).0 == k
}

/// The entries after inserting `k` with `v`: an existing entry keeps its place and
/// takes the value, a new one goes last.
pub open spec fn insert_entry(
    e: Seq<(Seq<char>, Option<Seq<char>>)>,
    k: Seq<char>,
    v: Option<Seq<char>>,
) -> Seq<(Seq<char>, Option<Seq<char>>)> {
    if has_key(e, k) {
        e.update(key_pos(e, k), (k, v))
    } else {
        e.push((k, v))
    }
}

/// An empty option map (`IndexMap::new`).
#[verifier::external_body]
fn map_new() -> (m: IndexMap<String, Option<String>>)
    ensures
        option_entries(m) == Seq::<(Seq<char>, Option<Seq<char>>)>::empty(),
{
    IndexMap::new()
}

/// Inserts an option with `IndexMap::insert`: an existing key keeps its place and takes
/// the new value; a new key goes last.
#[verifier::external_body]
fn map_insert(m: &mut IndexMap<String, Option<String>>, k: String, v: Option<String>)
    ensures
        option_entries(*final(m)) == insert_entry(option_entries(*old(m)), k@, opt_str(v)),
{
    m.insert(k, v);
}

/// The value stored for `k` (`IndexMap::get`), cloned.
#[verifier::external_body]
fn map_get(m: &IndexMap<String, Option<String>>, k: &str) -> (r: Option<Option<String>>)
    ensures
        match r {
            Some(v) => has_key(option_entries(*m), k@) && opt_str(v) == option_entries(
                *m,
            )[key_pos(option_entries(*m), k@)].1,
            None => !has_key(option_entries(*m), k@),
        },
{
    m.get(k).cloned()
}

/// The entries in order (`IndexMap::iter`), cloned.
#[verifier::external_body]
fn map_entries(m: &IndexMap<String, Option<String>>) -> (r: Vec<(String, Option<String>)>)
    ensures
        r@.len() == option_entries(*m).len(),
        forall|p: int|
            0 <= p < r@.len() ==> ((#[trigger] r@[p]).0@, opt_str(r@[p].1)) == option_entries(
                *m,
            )[p],
{
    m.iter().map(|(k, v)| (k.clone(), v.clone())).collect()
}

/// A line without the `\r` of a `\r\n` ending.
pub open spec fn strip_cr(l: Seq<char>) -> Seq<char> {
    if l.len() > 0 && l.last() == '\r' {
        l.drop_last()
    } else {
        l
    }
}

/// The lines of `s[start..]`, the current line having started at `start` and the scan
/// being at `i`: each line ends at a `\n`, which it loses together with a `\r` before
/// it; a last line without `\n` is kept as it is, an empty one dropped.
pub open spec fn lines_from(s: Seq<char>, start: int, i: int) -> Seq<Seq<char>>
    decreases s.len() - i,
{
    if i < 0 || start < 0 || start > i || i >= s.len() {
        if 0 <= start < s.len() {
            seq![s.subrange(start, s.len() as int)]
        } else {
            seq![]
        }
    } else if s[i] == '\n' {
        seq![strip_cr(s.subrange(start, i))] + lines_from(s, i + 1, i + 1)
    } else {
        lines_from(s, start, i + 1)
    }
}

/// The lines of `s`, as `str::lines` yields them.
pub open spec fn text_lines(s: Seq<char>) -> Seq<Seq<char>> {
    lines_from(s, 0, 0)
}

/// The pattern of a configure option at the start of a help line, its name in the group
/// `opt`.
pub open spec fn help_option_pattern() -> Seq<char> {
    "^(?P<opt>--[\\w\\+_\\.-]+)"@
}

/// The option that the help option pattern captures at the start of `line`, if any.
pub open spec fn option_capture(line: Seq<char>) -> Option<Seq<char>> {
    regex_first_capture(help_option_pattern(), "opt"@, line)
}

/// Splits `s` into lines as `str::lines` does.
pub(crate) fn lines_of(s: &str) -> (r: Vec<String>)
    ensures
        r@.len() == text_lines(s@).len(),
        forall|k: int| 0 <= k < r@.len() ==> (#[trigger] r@[k])@ == text_lines(s@)[k],
{
    let n = s.unicode_len();
    let mut out: Vec<String> = Vec::new();
    let mut start: usize = 0;
    let mut i: usize = 0;
    let ghost all = text_lines(s@);
    assert(strings_view(out@) + lines_from(s@, 0, 0) =~= all);
    while i < n
        invariant
            start <= i <= n,
            n == s@.len(),
            all == text_lines(s@),
            strings_view(out@) + lines_from(s@, start as int, i as int) == all,
        decreases n - i,
    {
        if s.get_char(i) == '\n' {
            let mut end = i;
            if start < i && s.get_char(i - 1) == '\r' {
                end = i - 1;
            }
            let line = s.substring_char(start, end).to_owned();
            proof {
                let l = s@.subrange(start as int, i as int);
                if start < i && s@[i - 1] == '\r' {
                    assert(strip_cr(l) =~= s@.subrange(start as int, end as int));
                } else {
                    assert(strip_cr(l) =~= s@.subrange(start as int, end as int));
                }
            }
            let ghost before = strings_view(out@);
            out.push(line);
            assert(strings_view(out@) =~= before.push(strip_cr(s@.subrange(start as int, i as int))));
            assert(before + lines_from(s@, start as int, i as int) =~= strings_view(out@) + lines_from(
                s@,
                i + 1,
                i + 1,
            ));
            start = i + 1;
        }
        i += 1;
    }
    if start < n {
        let line = s.substring_char(start, n).to_owned();
        let ghost before = strings_view(out@);
        out.push(line);
        assert(strings_view(out@) =~= before + lines_from(s@, start as int, n as int));
    } else {
        assert(strings_view(out@) =~= strings_view(out@) + lines_from(s@, start as int, n as int));
    }
    out
}


/// Captures the configure option that starts `line`.
fn option_at_start(line: &str) -> (r: Option<String>)
    ensures
        opt_str(r) == option_capture(line@),
{
    regex_capture("^(?P<opt>--[\\w\\+_\\.-]+)", "opt", line)
}


// ---------------------------------------------------------------------------------------
// The configure arguments
// ---------------------------------------------------------------------------------------

/// Option entries: each option with its value, if any.
pub type Entries = Seq<(Seq<char>, Option<Seq<char>>)>;

/// An argument split at its first `=` into option and value.
pub open spec fn split_arg(s: Seq<char>) -> (Seq<char>, Option<Seq<char>>) {
    if exists|p: int| 0 <= p < s.len() && s[p] == '=' {
        let p = choose|p: int|
            0 <= p < s.len() && s[p] == '=' && forall|q: int| 0 <= q < p ==> s[q] != '=';
        (s.subrange(0, p), Some(s.subrange(p + 1, s.len() as int)))
    } else {
        (s, None)
    }
}

/// The entries after inserting `items` in order.
pub open spec fn inserts(e: Entries, items: Entries) -> Entries
    decreases items.len(),
{
    if items.len() == 0 {
        e
    } else {
        let p = inserts(e, items.drop_last());
        insert_entry(p, items.last().0, items.last().1)
    }
}

/// The value stored for `k`, if `k` has an entry.
pub open spec fn lookup(e: Entries, k: Seq<char>) -> Option<Option<Seq<char>>> {
    if has_key(e, k) {
        Some(e[key_pos(e, k)].1)
    } else {
        None
    }
}

/// The entries of the given arguments.
pub open spec fn arg_entries(args: Seq<Seq<char>>) -> Entries {
    inserts(Seq::empty(), args.map_values(|a: Seq<char>| split_arg(a)))
}

/// The default options under the prefix `eprefix` for the host `chost`.
pub open spec fn base_defaults(eprefix: Seq<char>, chost: Seq<char>) -> Entries {
    seq![
        ("--prefix"@, Some(eprefix + "/usr"@)),
        ("--mandir"@, Some(eprefix + "/usr/share/man"@)),
        ("--infodir"@, Some(eprefix + "/usr/share/info"@)),
        ("--datadir"@, Some(eprefix + "/usr/share"@)),
        ("--sysconfdir"@, Some(eprefix + "/etc"@)),
        ("--localstatedir"@, Some(eprefix + "/var/lib"@)),
        ("--host"@, Some(chost)),
    ]
}

/// The prefix that a library directory goes under: the value of `--exec-prefix`, else
/// that of `--prefix`, else `eprefix/usr`.
pub open spec fn libdir_prefix(a: Entries, eprefix: Seq<char>) -> Seq<char> {
    match lookup(a, "--exec-prefix"@) {
        Some(Some(v)) => v,
        _ => match lookup(a, "--prefix"@) {
            Some(Some(v)) => v,
            _ => eprefix + "/usr"@,
        },
    }
}

/// The defaults with `--libdir`, where the arguments lack it and a library directory is
/// known.
pub open spec fn with_libdir(d: Entries, a: Entries, eprefix: Seq<char>, libdir: Option<Seq<char>>) -> Entries {
    match libdir {
        Some(l) => if !has_key(a, "--libdir"@) {
            insert_entry(d, "--libdir"@, Some(libdir_prefix(a, eprefix) + "/"@ + l))
        } else {
            d
        },
        None => d,
    }
}

/// The entries with `opt` set to the value `v`, where there is one.
pub open spec fn with_value(d: Entries, opt: Seq<char>, v: Option<Seq<char>>) -> Entries {
    match v {
        Some(x) => insert_entry(d, opt, Some(x)),
        None => d,
    }
}

/// An EAPI specific option: the option, the options of which `configure --help` must
/// name one for it to apply, and its value.
pub type EapiOptionView = (Seq<char>, Seq<Seq<char>>, Option<Seq<char>>);

/// The options that apply, in order, given the options the help names.
pub open spec fn eapi_entries(opts: Seq<EapiOptionView>, known: Seq<Seq<char>>) -> Entries
    decreases opts.len(),
{
    if opts.len() == 0 {
        seq![]
    } else {
        let p = eapi_entries(opts.drop_last(), known);
        let (o, markers, v) = opts.last();
        if exists|x: Seq<char>| markers.contains(x) && known.contains(x) {
            p.push((o, v))
        } else {
            p
        }
    }
}

/// The options named at the start of the lines of the help output, each once.
pub open spec fn help_options(help: Seq<char>) -> Seq<Seq<char>> {
    dedup(captured(text_lines(help)))
}

/// The options captured at the start of the trimmed lines, in order.
pub open spec fn captured(lines: Seq<Seq<char>>) -> Seq<Seq<char>>
    decreases lines.len(),
{
    if lines.len() == 0 {
        seq![]
    } else {
        let p = captured(lines.drop_last());
        match option_capture(trimmed(lines.last())) {
            Some(o) => p.push(o),
            None => p,
        }
    }
}

/// An entry as a configure argument: `opt` or `opt=value`.
pub open spec fn render(e: (Seq<char>, Option<Seq<char>>)) -> Seq<char> {
    match e.1 {
        Some(v) => e.0 + "="@ + v,
        None => e.0,
    }
}

/// The arguments configure runs with: the defaults, then `--libdir`, `--build` and
/// `--target` where known, then the EAPI options that the help names a marker of, all
/// overridden by the given arguments, in order of first appearance.
pub open spec fn spec_configure_args(
    args: Seq<Seq<char>>,
    help: Seq<char>,
    eprefix: Seq<char>,
    chost: Seq<char>,
    libdir: Option<Seq<char>>,
    cbuild: Option<Seq<char>>,
    ctarget: Option<Seq<char>>,
    opts: Seq<EapiOptionView>,
) -> Seq<Seq<char>> {
    let a = arg_entries(args);
    let d0 = inserts(Seq::empty(), base_defaults(eprefix, chost));
    let d1 = with_libdir(d0, a, eprefix, libdir);
    let d2 = with_value(with_value(d1, "--build"@, cbuild), "--target"@, ctarget);
    let d3 = inserts(d2, eapi_entries(opts, help_options(help)));
    inserts(d3, a).map_values(|e: (Seq<char>, Option<Seq<char>>)| render(e))
}

/// Whether no two entries share a key.
pub open spec fn unique_keys(e: Entries) -> bool {
    forall|p: int, q: int| 0 <= p < q < e.len() ==> (#[trigger] e[p]).0 != (#[trigger] e[q]).0
}

/// Inserting keeps keys unique; the inserted key then holds the inserted value and every
/// other key keeps its value.
proof fn lemma_insert_entry(e: Entries, k: Seq<char>, v: Option<Seq<char>>)
    requires
        unique_keys(e),
    ensures
        unique_keys(insert_entry(e, k, v)),
        lookup(insert_entry(e, k, v), k) == Some(v),
        forall|k2: Seq<char>| k2 != k ==> lookup(insert_entry(e, k, v), k2) == lookup(e, k2),
{
    let r = insert_entry(e, k, v);
    if has_key(e, k) {
        let p = key_pos(e, k);
        assert(r[p].0 == k);
        assert(has_key(r, k));
        assert forall|k2: Seq<char>| k2 != k implies lookup(r, k2) == lookup(e, k2) by {
            if has_key(e, k2) {
                let q = key_pos(e, k2);
                assert(r[q] == e[q]);
                assert(has_key(r, k2));
                let q2 = key_pos(r, k2);
                if q2 != q {
                    assert(r[q2] == e[q2]);
                }
            }
            if has_key(r, k2) {
                let q2 = key_pos(r, k2);
                assert(e[q2].0 == k2);
            }
        }
        let pr = key_pos(r, k);
        if pr != p {
            assert(r[pr] == e[pr]);
        }
    } else {
        let n = e.len() as int;
        assert(r[n].0 == k);
        assert(has_key(r, k));
        let pr = key_pos(r, k);
        if pr < n {
            assert(e[pr].0 == k);
        }
        assert forall|k2: Seq<char>| k2 != k implies lookup(r, k2) == lookup(e, k2) by {
            if has_key(e, k2) {
                let q = key_pos(e, k2);
                assert(r[q] == e[q]);
                assert(has_key(r, k2));
                let q2 = key_pos(r, k2);
                if q2 != q {
                    assert(r[q2] == e[q2]);
                }
            }
            if has_key(r, k2) {
                let q2 = key_pos(r, k2);
                assert(q2 < n);
                assert(e[q2].0 == k2);
            }
        }
    }
}

/// What inserting entries in order leaves: unique keys, and for each key the value of its
/// last insertion, or else the value it had.
proof fn lemma_inserts(e: Entries, items: Entries)
    requires
        unique_keys(e),
    ensures
        unique_keys(inserts(e, items)),
        forall|k: Seq<char>|
            lookup(inserts(e, items), k) == if has_key(items, k) {
                Some(items[last_pos(items, k)].1)
            } else {
                lookup(e, k)
            },
    decreases items.len(),
{
    if items.len() > 0 {
        let init = items.drop_last();
        let (k, v) = items.last();
        lemma_inserts(e, init);
        lemma_insert_entry(inserts(e, init), k, v);
        assert(inserts(e, items) == insert_entry(inserts(e, init), k, v));
        assert forall|k2: Seq<char>|
            lookup(inserts(e, items), k2) == if has_key(items, k2) {
                Some(items[last_pos(items, k2)].1)
            } else {
                lookup(e, k2)
            } by {
            lemma_last_pos(items, k2);
            lemma_last_pos(init, k2);
            let n = items.len() - 1;
            assert(items[n] == (k, v));
            if k2 != k {
                assert(lookup(inserts(e, items), k2) == lookup(inserts(e, init), k2));
                assert(lookup(inserts(e, init), k2) == if has_key(init, k2) {
                    Some(init[last_pos(init, k2)].1)
                } else {
                    lookup(e, k2)
                });
                if has_key(items, k2) {
                    let p = last_pos(items, k2);
                    assert(p < n);
                    assert(init[p] == items[p]);
                    assert(has_key(init, k2));
                    let q = last_pos(init, k2);
                    assert(items[q] == init[q]);
                    if p < q {
                        assert(items[q].0 != k2);
                    }
                    if q < p {
                        assert(init[p].0 != k2);
                    }
                    assert(p == q);
                } else {
                    if has_key(init, k2) {
                        let q = key_pos(init, k2);
                        assert(items[q] == init[q]);
                        assert(has_key(items, k2));
                    }
                }
            } else {
                assert(lookup(inserts(e, items), k) == Some(v));
                assert(has_key(items, k));
                assert(last_pos(items, k) == n);
            }
        }
    }
}

/// The position of the last entry for `k`.
pub open spec fn last_pos(e: Entries, k: Seq<char>) -> int {
    choose|p: int|
        0 <= p < e.len() && (#[trigger] e[p]).0 == k && forall|q: int| p < q < e.len() ==> e[q].0 != k
}

/// Where `k` has an entry, there is a last one.
proof fn lemma_last_pos(e: Entries, k: Seq<char>)
    ensures
        has_key(e, k) ==> {
            let p = last_pos(e, k);
            &&& 0 <= p < e.len()
            &&& e[p].0 == k
            &&& forall|q: int| p < q < e.len() ==> e[q].0 != k
        },
        has_key(e, k) && e[e.len() - 1].0 == k ==> last_pos(e, k) == e.len() - 1,
    decreases e.len(),
{
    if has_key(e, k) {
        if e[e.len() - 1].0 == k {
            let p = e.len() - 1;
            assert(0 <= p < e.len() && e[p].0 == k && forall|q: int| p < q < e.len() ==> e[q].0 != k);
            let c = last_pos(e, k);
            if c < p {
                assert(e[p].0 != k);
            }
        } else {
            let init = e.drop_last();
            let w = key_pos(e, k);
            assert(w < e.len() - 1);
            assert(init[w].0 == k);
            assert(has_key(init, k));
            lemma_last_pos(init, k);
            let p = last_pos(init, k);
            assert(e[p] == init[p]);
            assert(0 <= p < e.len() && e[p].0 == k && forall|q: int| p < q < e.len() ==> e[q].0 != k) by {
                assert forall|q: int| p < q < e.len() implies e[q].0 != k by {
                    if q < e.len() - 1 {
                        assert(e[q] == init[q]);
                    }
                }
            }
        }
    }
}

/// The entries configure runs with, before rendering.
pub open spec fn configure_entries(
    args: Seq<Seq<char>>,
    help: Seq<char>,
    eprefix: Seq<char>,
    chost: Seq<char>,
    libdir: Option<Seq<char>>,
    cbuild: Option<Seq<char>>,
    ctarget: Option<Seq<char>>,
    opts: Seq<EapiOptionView>,
) -> Entries {
    let a = arg_entries(args);
    let d0 = inserts(Seq::empty(), base_defaults(eprefix, chost));
    let d1 = with_libdir(d0, a, eprefix, libdir);
    let d2 = with_value(with_value(d1, "--build"@, cbuild), "--target"@, ctarget);
    let d3 = inserts(d2, eapi_entries(opts, help_options(help)));
    inserts(d3, a)
}

/// Arguments override defaults: every option appears once among the configure
/// arguments, and an option given as an argument has the value of its last occurrence
/// there, whatever the defaults say.
pub proof fn arguments_override_defaults(
    args: Seq<Seq<char>>,
    help: Seq<char>,
    eprefix: Seq<char>,
    chost: Seq<char>,
    libdir: Option<Seq<char>>,
    cbuild: Option<Seq<char>>,
    ctarget: Option<Seq<char>>,
    opts: Seq<EapiOptionView>,
    k: Seq<char>,
)
    ensures
        spec_configure_args(args, help, eprefix, chost, libdir, cbuild, ctarget, opts)
            == configure_entries(args, help, eprefix, chost, libdir, cbuild, ctarget, opts).map_values(
            |e: (Seq<char>, Option<Seq<char>>)| render(e),
        ),
        unique_keys(configure_entries(args, help, eprefix, chost, libdir, cbuild, ctarget, opts)),
        has_key(arg_entries(args), k) ==> lookup(
            configure_entries(args, help, eprefix, chost, libdir, cbuild, ctarget, opts),
            k,
        ) == lookup(arg_entries(args), k),
{
    let empty = Seq::<(Seq<char>, Option<Seq<char>>)>::empty();
    let a = arg_entries(args);
    let items = args.map_values(|x: Seq<char>| split_arg(x));
    lemma_inserts(empty, items);
    lemma_inserts(empty, base_defaults(eprefix, chost));
    let d0 = inserts(empty, base_defaults(eprefix, chost));
    let d1 = with_libdir(d0, a, eprefix, libdir);
    match libdir {
        Some(l) => if !has_key(a, "--libdir"@) {
            lemma_insert_entry(d0, "--libdir"@, Some(libdir_prefix(a, eprefix) + "/"@ + l));
        },
        None => {},
    }
    let d1b = with_value(d1, "--build"@, cbuild);
    match cbuild {
        Some(x) => lemma_insert_entry(d1, "--build"@, Some(x)),
        None => {},
    }
    let d2 = with_value(d1b, "--target"@, ctarget);
    match ctarget {
        Some(x) => lemma_insert_entry(d1b, "--target"@, Some(x)),
        None => {},
    }
    let d3 = inserts(d2, eapi_entries(opts, help_options(help)));
    lemma_inserts(d2, eapi_entries(opts, help_options(help)));
    lemma_inserts(d3, a);
    if has_key(a, k) {
        lemma_last_pos(a, k);
        let p = last_pos(a, k);
        let w = key_pos(a, k);
        if w != p {
            assert(a[w].0 == a[p].0);
        }
    }
}

/// An EAPI specific configure option.
pub struct EapiOption {
    /// The option.
    pub opt: String,
    /// The options of which `configure --help` must name one for it to apply.
    pub markers: Vec<String>,
    /// Its value, if any.
    pub value: Option<String>,
}

/// The views of strings.
pub open spec fn strings_view(v: Seq<String>) -> Seq<Seq<char>> {
    Seq::new(v.len(), |k: int| v[k]@)
}

impl View for EapiOption {
    type V = EapiOptionView;

    open spec fn view(&self) -> EapiOptionView {
        (self.opt@, strings_view(self.markers@), opt_str(self.value))
    }
}

/// The views of entries held as strings.
pub open spec fn entries_view(v: Seq<(String, Option<String>)>) -> Entries {
    Seq::new(v.len(), |k: int| (v[k].0@, opt_str(v[k].1)))
}

/// A value is in `t` with `y` pushed exactly when it is `y` or in `t`.
proof fn lemma_push_contains(t: Seq<Seq<char>>, y: Seq<char>, x: Seq<char>)
    ensures
        t.push(y).contains(x) == (t.contains(x) || x == y),
{
    if t.contains(x) {
        let k = choose|k: int| 0 <= k < t.len() && t[k] == x;
        assert(t.push(y)[k] == x);
    }
    if x == y {
        assert(t.push(y)[t.len() as int] == x);
    }
    if t.push(y).contains(x) {
        let k = choose|k: int| 0 <= k < t.push(y).len() && t.push(y)[k] == x;
        if k < t.len() {
            assert(t[k] == x);
        }
    }
}

/// A value is in `s` exactly when it is in `s` without repeats.
proof fn lemma_dedup_contains(s: Seq<Seq<char>>, x: Seq<char>)
    ensures
        dedup(s).contains(x) == s.contains(x),
    decreases s.len(),
{
    if s.len() > 0 {
        lemma_dedup_contains(s.drop_last(), x);
        let d = dedup(s.drop_last());
        assert(s =~= s.drop_last().push(s.last()));
        lemma_push_contains(s.drop_last(), s.last(), x);
        lemma_push_contains(d, s.last(), x);
        if d.contains(s.last()) {
            lemma_dedup_contains(s.drop_last(), s.last());
        }
    }
}

/// Splits an argument at its first `=` into option and value.
fn split_argument(s: &str) -> (r: (String, Option<String>))
    ensures
        (r.0@, opt_str(r.1)) == split_arg(s@),
{
    let n = s.unicode_len();
    let mut p: usize = 0;
    while p < n
        invariant
            p <= n,
            n == s@.len(),
            forall|q: int| 0 <= q < p ==> s@[q] != '=',
        decreases n - p,
    {
        if s.get_char(p) == '=' {
            let opt = s.substring_char(0, p).to_owned();
            let val = s.substring_char(p + 1, n).to_owned();
            proof {
                let c = choose|c: int|
                    0 <= c < s@.len() && s@[c] == '=' && forall|q: int| 0 <= q < c ==> s@[q] != '=';
                assert(0 <= p < s@.len() && s@[p as int] == '=' && forall|q: int| 0 <= q < p ==> s@[q] != '=');
                if c < p {
                    assert(s@[c] != '=');
                }
                if p < c {
                    assert(s@[p as int] != '=');
                }
            }
            return (opt, Some(val));
        }
        p += 1;
    }
    (s.to_owned(), None)
}

/// Inserts each entry in order.
fn insert_all(m: &mut IndexMap<String, Option<String>>, items: Vec<(String, Option<String>)>)
    ensures
        option_entries(*final(m)) == inserts(option_entries(*old(m)), entries_view(items@)),
{
    let ghost start = option_entries(*m);
    let ghost iv = entries_view(items@);
    assert(iv.take(0) =~= Seq::<(Seq<char>, Option<Seq<char>>)>::empty());
    for item in it: items
        invariant
            it.seq().len() == iv.len(),
            forall|k: int| 0 <= k < iv.len() ==> (#[trigger] it.seq()[k]).0@ == iv[k].0
                && opt_str(it.seq()[k].1) == iv[k].1,
            option_entries(*m) == inserts(start, iv.take(it.index() as int)),
    {
        let ghost i = it.index() as int;
        let (k, v) = item;
        map_insert(m, k, v);
        assert(iv.take(i + 1).drop_last() =~= iv.take(i));
    }
    assert(iv.take(iv.len() as int) =~= iv);
}

/// The option entries of the given arguments.
fn argument_map(args: &[&str]) -> (m: IndexMap<String, Option<String>>)
    ensures
        option_entries(m) == arg_entries(args@.map_values(|a: &str| a@)),
{
    let ghost av = args@.map_values(|a: &str| a@);
    let ghost items = av.map_values(|a: Seq<char>| split_arg(a));
    let mut entries: Vec<(String, Option<String>)> = Vec::new();
    let mut i: usize = 0;
    while i < args.len()
        invariant
            i <= args@.len(),
            av == args@.map_values(|a: &str| a@),
            items == av.map_values(|a: Seq<char>| split_arg(a)),
            entries_view(entries@) == items.take(i as int),
        decreases args@.len() - i,
    {
        let e = split_argument(args[i]);
        let ghost before = entries_view(entries@);
        entries.push(e);
        assert(entries_view(entries@) =~= before.push(items[i as int]));
        assert(items.take(i + 1) =~= items.take(i as int).push(items[i as int]));
        i += 1;
    }
    assert(items.take(args@.len() as int) =~= items);
    let mut m = map_new();
    insert_all(&mut m, entries);
    m
}

/// The default option entries as strings.
fn base_default_entries(eprefix: &str, chost: &str) -> (v: Vec<(String, Option<String>)>)
    ensures
        entries_view(v@) == base_defaults(eprefix@, chost@),
{
    let v = vec![
        ("--prefix".to_owned(), Some(concat(eprefix, "/usr"))),
        ("--mandir".to_owned(), Some(concat(eprefix, "/usr/share/man"))),
        ("--infodir".to_owned(), Some(concat(eprefix, "/usr/share/info"))),
        ("--datadir".to_owned(), Some(concat(eprefix, "/usr/share"))),
        ("--sysconfdir".to_owned(), Some(concat(eprefix, "/etc"))),
        ("--localstatedir".to_owned(), Some(concat(eprefix, "/var/lib"))),
        ("--host".to_owned(), Some(chost.to_owned())),
    ];
    assert(entries_view(v@) =~= base_defaults(eprefix@, chost@));
    v
}

/// The options named at the start of the lines of the help output.
fn known_options(help: &str) -> (k: IndexSet<String>)
    ensures
        set_values(k) == help_options(help@),
{
    let lines = lines_of(help);
    let ghost lv = text_lines(help@);
    let mut known = set_new();
    let mut i: usize = 0;
    assert(lv.take(0) =~= Seq::<Seq<char>>::empty());
    while i < lines.len()
        invariant
            i <= lines@.len(),
            lines@.len() == lv.len(),
            forall|k: int| 0 <= k < lines@.len() ==> (#[trigger] lines@[k])@ == lv[k],
            set_values(known) == dedup(captured(lv.take(i as int))),
        decreases lines@.len() - i,
    {
        let t = trim(lines[i].as_str());
        let ghost pre = captured(lv.take(i as int));
        assert(lv.take(i + 1).drop_last() =~= lv.take(i as int));
        assert(lv.take(i + 1).last() == lv[i as int]);
        match option_at_start(t.as_str()) {
            Some(o) => {
                let ghost ov = o@;
                set_insert(&mut known, o);
                assert(pre.push(ov).drop_last() =~= pre);
            },
            None => {},
        }
        i += 1;
    }
    assert(lv.take(lv.len() as int) =~= lv);
    known
}

/// The EAPI options that apply, given the options the help names.
fn applicable_options(opts: &[EapiOption], known: &IndexSet<String>) -> (v: Vec<
    (String, Option<String>),
>)
    ensures
        entries_view(v@) == eapi_entries(opts@.map_values(|o: EapiOption| o@), set_values(*known)),
{
    let ghost ov = opts@.map_values(|o: EapiOption| o@);
    let mut v: Vec<(String, Option<String>)> = Vec::new();
    let mut i: usize = 0;
    assert(ov.take(0) =~= Seq::<EapiOptionView>::empty());
    while i < opts.len()
        invariant
            i <= opts@.len(),
            ov == opts@.map_values(|o: EapiOption| o@),
            entries_view(v@) == eapi_entries(ov.take(i as int), set_values(*known)),
        decreases opts@.len() - i,
    {
        let o = &opts[i];
        let mut markers = set_new();
        let mut j: usize = 0;
        while j < o.markers.len()
            invariant
                j <= o.markers@.len(),
                set_values(markers) == dedup(strings_view(o.markers@).take(j as int)),
            decreases o.markers@.len() - j,
        {
            let ghost mv = strings_view(o.markers@);
            assert(mv.take(j + 1).drop_last() =~= mv.take(j as int));
            set_insert(&mut markers, o.markers[j].clone());
            j += 1;
        }
        let ghost mv = strings_view(o.markers@);
        assert(mv.take(o.markers@.len() as int) =~= mv);
        let applies = !set_is_disjoint(known, &markers);
        assert(ov.take(i + 1).drop_last() =~= ov.take(i as int));
        assert(ov.take(i + 1).last() == o@);
        proof {
            assert forall|x: Seq<char>| set_values(markers).contains(x) == mv.contains(x) by {
                lemma_dedup_contains(mv, x);
            }
        }
        if applies {
            let ghost before = entries_view(v@);
            v.push((o.opt.clone(), o.value.clone()));
            assert(entries_view(v@) =~= before.push((o.opt@, opt_str(o.value))));
        }
        i += 1;
    }
    assert(ov.take(opts@.len() as int) =~= ov);
    v
}

/// The arguments a package's configure script runs with, given the command's
/// arguments, the script's `--help` output, `EPREFIX`, `CHOST`, the library directory if
/// known, `CBUILD` and `CTARGET` if set, and the EAPI's configure options with their
/// values expanded.
pub fn configure_args(
    args: &[&str],
    help: &str,
    eprefix: &str,
    chost: &str,
    libdir: Option<&str>,
    cbuild: Option<&str>,
    ctarget: Option<&str>,
    eapi_opts: &[EapiOption],
) -> (r: Vec<String>)
    ensures
        strings_view(r@) == spec_configure_args(
            args@.map_values(|a: &str| a@),
            help@,
            eprefix@,
            chost@,
            match libdir {
                Some(l) => Some(l@),
                None => None,
            },
            match cbuild {
                Some(c) => Some(c@),
                None => None,
            },
            match ctarget {
                Some(c) => Some(c@),
                None => None,
            },
            eapi_opts@.map_values(|o: EapiOption| o@),
        ),
{
    proof {
        reveal_strlit("--libdir");
        reveal_strlit("/");
    }
    let ghost args_v = args@.map_values(|x: &str| x@);
    let ghost libdir_v: Option<Seq<char>> = match libdir {
        Some(l) => Some(l@),
        None => None,
    };
    let ghost cbuild_v: Option<Seq<char>> = match cbuild {
        Some(c) => Some(c@),
        None => None,
    };
    let ghost ctarget_v: Option<Seq<char>> = match ctarget {
        Some(c) => Some(c@),
        None => None,
    };
    let a = argument_map(args);
    let ghost av = option_entries(a);
    assert(av == arg_entries(args_v));
    let mut d = map_new();
    insert_all(&mut d, base_default_entries(eprefix, chost));
    let ghost d0 = option_entries(d);
    assert(d0 == inserts(Seq::empty(), base_defaults(eprefix@, chost@)));
    match libdir {
        Some(l) => {
            if map_get(&a, "--libdir").is_none() {
                let prefix = match map_get(&a, "--exec-prefix") {
                    Some(Some(v)) => v,
                    _ => match map_get(&a, "--prefix") {
                        Some(Some(v)) => v,
                        _ => concat(eprefix, "/usr"),
                    },
                };
                assert(prefix@ == libdir_prefix(av, eprefix@));
                let mut val = prefix;
                val.append("/");
                val.append(l);
                map_insert(&mut d, "--libdir".to_owned(), Some(val));
            }
        },
        None => {},
    }
    let ghost d1 = option_entries(d);
    assert(d1 == with_libdir(d0, av, eprefix@, libdir_v));
    match cbuild {
        Some(c) => map_insert(&mut d, "--build".to_owned(), Some(c.to_owned())),
        None => {},
    }
    match ctarget {
        Some(c) => map_insert(&mut d, "--target".to_owned(), Some(c.to_owned())),
        None => {},
    }
    let ghost d2 = option_entries(d);
    assert(d2 == with_value(with_value(d1, "--build"@, cbuild_v), "--target"@, ctarget_v));
    let known = known_options(help);
    insert_all(&mut d, applicable_options(eapi_opts, &known));
    let ghost d3 = option_entries(d);
    let ae = map_entries(&a);
    assert(entries_view(ae@) =~= av);
    insert_all(&mut d, ae);
    assert(option_entries(d) == inserts(d3, av));
    let entries = map_entries(&d);
    let ghost ev = option_entries(d);
    let mut out: Vec<String> = Vec::new();
    let mut i: usize = 0;
    while i < entries.len()
        invariant
            i <= entries@.len(),
            entries@.len() == ev.len(),
            forall|p: int| 0 <= p < entries@.len() ==> ((#[trigger] entries@[p]).0@, opt_str(entries@[p].1)) == ev[p],
            strings_view(out@) == ev.take(i as int).map_values(|e: (Seq<char>, Option<Seq<char>>)| render(e)),
        decreases entries@.len() - i,
    {
        let (k, v) = (&entries[i].0, &entries[i].1);
        let line = match v {
            Some(x) => {
                let mut l = k.clone();
                l.append("=");
                l.append(x.as_str());
                l
            },
            None => k.clone(),
        };
        let ghost before = strings_view(out@);
        out.push(line);
        assert(strings_view(out@) =~= before.push(render(ev[i as int])));
        assert(ev.take(i + 1).map_values(|e: (Seq<char>, Option<Seq<char>>)| render(e)) =~= ev.take(i as int).map_values(|e: (Seq<char>, Option<Seq<char>>)| render(e)).push(render(ev[i as int])));
        i += 1;
    }
    assert(ev.take(ev.len() as int) =~= ev);
    out
}

}
