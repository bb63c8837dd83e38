//! `dohtml`: which files it installs, and how its list options read.

use vstd::prelude::*;

use vstd::string::StrSliceExecFns;

use crate::text::str_eq;

verus! {

broadcast use vstd::string::group_string_axioms;

/// The pieces of `s[start..]` between commas, the current piece having started at
/// `start` and the scan being at `i`.
pub open spec fn pieces_from(s: Seq<char>, start: int, i: int) -> Seq<Seq<char>>
    decreases s.len() - i,
{
    if i < 0 || start < 0 || start > i || i >= s.len() {
        seq![s.subrange(start, s.len() as int)]
    } else if s[i] == ',' {
        seq![s.subrange(start, i)] + pieces_from(s, i + 1, i + 1)
    } else {
        pieces_from(s, start, i + 1)
    }
}

/// The pieces of `s` between commas, as `str::split(',')` yields them: an empty string
/// is one empty piece.
pub open spec fn comma_pieces(s: Seq<char>) -> Seq<Seq<char>> {
    pieces_from(s, 0, 0)
}

/// The pieces of each value in turn.
pub open spec fn all_pieces(vals: Seq<Seq<char>>) -> Seq<Seq<char>>
    decreases vals.len(),
{
    if vals.len() == 0 {
        seq![]
    } else {
        all_pieces(vals.drop_last()) + comma_pieces(vals.last())
    }
}

/// The views of strings.
pub open spec fn strings_view(v: Seq<String>) -> Seq<Seq<char>> {
    Seq::new(v.len(), |k: int| v[k]@)
}

/// Appends the comma separated pieces of `s`.
fn push_pieces(out: &mut Vec<String>, s: &str)
    ensures
        strings_view(final(out)@) == strings_view(old(out)@) + comma_pieces(s@),
{
    let n = s.unicode_len();
    let mut start: usize = 0;
    let mut i: usize = 0;
    let ghost base = strings_view(out@);
    assert(base + Seq::<Seq<char>>::empty() =~= base);
    while i < n
        invariant
            start <= i <= n,
            n == s@.len(),
            strings_view(out@) + pieces_from(s@, start as int, i as int) == base + comma_pieces(
                s@,
            ),
        decreases n - i,
    {
        if s.get_char(i) == ',' {
            let piece = s.substring_char(start, i).to_owned();
            let ghost before = strings_view(out@);
            out.push(piece);
            assert(strings_view(out@) =~= before.push(s@.subrange(start as int, i as int)));
            assert(before + pieces_from(s@, start as int, i as int) =~= strings_view(out@)
                + pieces_from(s@, i + 1, i + 1));
            start = i + 1;
        }
        i += 1;
    }
    let piece = s.substring_char(start, n).to_owned();
    let ghost before = strings_view(out@);
    out.push(piece);
    assert(strings_view(out@) =~= before + pieces_from(s@, start as int, n as int));
}

/// The comma separated pieces of each value in turn (`str::split(',')`).
pub fn split_csv(vals: &[String]) -> (r: Vec<String>)
    ensures
        strings_view(r@) == all_pieces(vals@.map_values(|v: String| v@)),
{
    let ghost vv = vals@.map_values(|v: String| v@);
    let mut out: Vec<String> = Vec::new();
    let mut i: usize = 0;
    assert(strings_view(out@) =~= all_pieces(vv.take(0)));
    while i < vals.len()
        invariant
            i <= vals@.len(),
            vv == vals@.map_values(|v: String| v@),
            strings_view(out@) == all_pieces(vv.take(i as int)),
        decreases vals@.len() - i,
    {
        push_pieces(&mut out, vals[i].as_str());
        assert(vv.take(i + 1).drop_last() =~= vv.take(i as int));
        i += 1;
    }
    assert(vv.take(vals@.len() as int) =~= vv);
    out
}

/// Whether `v` holds `x`.
fn holds(v: &Vec<String>, x: &str) -> (b: bool)
    ensures
        b == strings_view(v@).contains(x@),
{
    let mut i: usize = 0;
    while i < v.len()
        invariant
            i <= v@.len(),
            forall|k: int| 0 <= k < i ==> v@[k]@ != x@,
        decreases v@.len() - i,
    {
        if str_eq(v[i].as_str(), x) {
            assert(strings_view(v@)[i as int] == x@);
            return true;
        }
        i += 1;
    }
    proof {
        if strings_view(v@).contains(x@) {
            let k = choose|k: int| 0 <= k < strings_view(v@).len() && strings_view(v@)[k] == x@;
            assert(v@[k]@ == x@);
        }
    }
    false
}

/// Whether a file is installed: it needs a name and an extension; where allowed file
/// names are given the name must be one of them, else the extension must be an allowed
/// one.
pub open spec fn spec_file_allowed(
    name: Option<Seq<char>>,
    ext: Option<Seq<char>>,
    files: Seq<Seq<char>>,
    exts: Seq<Seq<char>>,
) -> bool {
    match (name, ext) {
        (Some(n), Some(e)) => if files.len() == 0 {
            exts.contains(e)
        } else {
            files.contains(n)
        },
        _ => false,
    }
}

/// Whether a file with the given name and extension is installed.
pub fn file_allowed(
    name: Option<&str>,
    ext: Option<&str>,
    allowed_files: &Vec<String>,
    allowed_exts: &Vec<String>,
) -> (b: bool)
    ensures
        b == spec_file_allowed(
            match name {
                Some(n) => Some(n@),
                None => None,
            },
            match ext {
                Some(e) => Some(e@),
                None => None,
            },
            strings_view(allowed_files@),
            strings_view(allowed_exts@),
        ),
{
    match (name, ext) {
        (Some(n), Some(e)) => {
            if allowed_files.len() == 0 {
                holds(allowed_exts, e)
            } else {
                holds(allowed_files, n)
            }
        },
        _ => false,
    }
}

/// The values joined with `,`.
pub open spec fn joined(vals: Seq<Seq<char>>) -> Seq<char>
    decreases vals.len(),
{
    if vals.len() == 0 {
        seq![]
    } else if vals.len() == 1 {
        vals[0]
    } else {
        joined(vals.drop_last()) + ","@ + vals.last()
    }
}

/// A list option as the verbose summary shows it: its values joined with `,`, or `none`.
pub fn csv_or_none(vals: &[String]) -> (s: String)
    ensures
        s@ == if vals@.len() == 0 {
            "none"@
        } else {
            joined(vals@.map_values(|v: String| v@))
        },
{
    let ghost vv = vals@.map_values(|v: String| v@);
    if vals.len() == 0 {
        return "none".to_owned();
    }
    let mut s = vals[0].clone();
    let mut i: usize = 1;
    assert(vv.take(1) =~= seq![vv[0]]);
    while i < vals.len()
        invariant
            1 <= i <= vals@.len(),
            vv == vals@.map_values(|v: String| v@),
            s@ == joined(vv.take(i as int)),
        decreases vals@.len() - i,
    {
        s.append(",");
        s.append(vals[i].as_str());
        assert(vv.take(i + 1).drop_last() =~= vv.take(i as int));
        i += 1;
    }
    assert(vv.take(vals@.len() as int) =~= vv);
    s
}

/// Joining a first value and at least one more with `,`.
proof fn lemma_joined_cons(x: Seq<char>, rest: Seq<Seq<char>>)
    requires
        rest.len() >= 1,
    ensures
        joined(seq![x] + rest) == x + ","@ + joined(rest),
    decreases rest.len(),
{
    let all = seq![x] + rest;
    assert(all.len() == rest.len() + 1);
    assert(joined(all) == joined(all.drop_last()) + ","@ + all.last());
    if rest.len() == 1 {
        assert(all.drop_last() =~= seq![x]);
        assert(joined(seq![x]) == x);
        assert(all.last() == rest[0]);
        assert(joined(rest) == rest[0]);
    } else {
        assert(all.drop_last() =~= seq![x] + rest.drop_last());
        assert(all.last() == rest.last());
        assert(joined(rest) == joined(rest.drop_last()) + ","@ + rest.last());
        lemma_joined_cons(x, rest.drop_last());
        assert(x + ","@ + joined(rest.drop_last()) + ","@ + rest.last() =~= x + ","@ + (joined(
            rest.drop_last(),
        ) + ","@ + rest.last()));
    }
}

/// The pieces from `start` joined with `,` give back `s[start..]`.
proof fn lemma_pieces_join(s: Seq<char>, start: int, i: int)
    requires
        0 <= start <= i <= s.len(),
    ensures
        pieces_from(s, start, i).len() >= 1,
        joined(pieces_from(s, start, i)) == s.subrange(start, s.len() as int),
    decreases s.len() - i,
{
    reveal_strlit(",");
    if i < s.len() {
        lemma_pieces_join(s, if s[i] == ',' { i + 1 } else { start }, i + 1);
        if s[i] == ',' {
            let rest = pieces_from(s, i + 1, i + 1);
            lemma_joined_cons(s.subrange(start, i), rest);
            assert(s.subrange(start, i) + ","@ + s.subrange(i + 1, s.len() as int) =~= s.subrange(
                start,
                s.len() as int,
            ));
        }
    } else {
        assert(pieces_from(s, start, i) == seq![s.subrange(start, s.len() as int)]);
    }
}

/// Splitting a value at its commas and joining the pieces with `,` gives the value back.
pub proof fn split_then_join(s: Seq<char>)
    ensures
        joined(comma_pieces(s)) == s,
{
    lemma_pieces_join(s, 0, 0);
    assert(s.subrange(0, s.len() as int) =~= s);
}

/// The options of `dohtml`, as its arguments set them.
pub struct Options {
    /// `-r`: install directories recursively.
    pub recursive: bool,
    /// `-V`: describe the options before installing.
    pub verbose: bool,
    /// `-A`: extensions allowed besides the allowed ones.
    pub extra_file_exts: Vec<String>,
    /// `-a`: the allowed extensions.
    pub allowed_file_exts: Vec<String>,
    /// `-f`: the allowed file names, which replace the extension check.
    pub allowed_files: Vec<String>,
    /// `-x`: directories left out of a recursive install.
    pub excluded_dirs: Vec<String>,
    /// `-p`: the documentation subdirectory to install into.
    pub doc_prefix: Option<String>,
    /// The files and directories to install.
    pub targets: Vec<String>,
}

/// A flag as the summary shows it.
pub open spec fn bool_text(b: bool) -> Seq<char> {
    if b {
        "true"@
    } else {
        "false"@
    }
}

/// A list option as the summary shows it.
pub open spec fn list_text(vals: Seq<Seq<char>>) -> Seq<char> {
    if vals.len() == 0 {
        "none"@
    } else {
        joined(vals)
    }
}

/// The summary that `dohtml -V` prints of its options.
pub open spec fn summary_text(o: &Options) -> Seq<char> {
    "dohtml:\n  recursive: "@ + bool_text(o.recursive) + "\n  verbose: "@ + bool_text(o.verbose)
        + "\n  extra file exts: "@ + list_text(strings_view(o.extra_file_exts@))
        + "\n  allowed file exts: "@ + list_text(strings_view(o.allowed_file_exts@))
        + "\n  allowed files: "@ + list_text(strings_view(o.allowed_files@))
        + "\n  excluded dirs: "@ + list_text(strings_view(o.excluded_dirs@)) + "\n  doc prefix: "@
        + match o.doc_prefix {
        Some(p) => p@,
        None => "none"@,
    } + "\n"@
}

/// `s` without the `/` characters it starts with (`str::trim_start_matches('/')`).
pub open spec fn without_leading_slashes(s: Seq<char>) -> Seq<char>
    decreases s.len(),
{
    if s.len() > 0 && s[0] == '/' {
        without_leading_slashes(s.drop_first())
    } else {
        s
    }
}

/// A flag as text.
fn flag_text(b: bool) -> (s: &'static str)
    ensures
        s@ == bool_text(b),
{
    if b {
        "true"
    } else {
        "false"
    }
}

impl Options {
    /// The options with no arguments given: the allowed extensions are
    /// `css,gif,htm,html,jpeg,jpg,js,png`, everything else unset.
    pub fn new(targets: Vec<String>) -> (o: Options)
        ensures
            !o.recursive && !o.verbose,
            o.extra_file_exts@.len() == 0,
            strings_view(o.allowed_file_exts@) == seq!["css,gif,htm,html,jpeg,jpg,js,png"@],
            o.allowed_files@.len() == 0,
            o.excluded_dirs@.len() == 0,
            o.doc_prefix is None,
            o.targets@ == targets@,
    {
        let exts = vec!["css,gif,htm,html,jpeg,jpg,js,png".to_owned()];
        assert(strings_view(exts@) =~= seq!["css,gif,htm,html,jpeg,jpg,js,png"@]);
        Options {
            recursive: false,
            verbose: false,
            extra_file_exts: Vec::new(),
            allowed_file_exts: exts,
            allowed_files: Vec::new(),
            excluded_dirs: Vec::new(),
            doc_prefix: None,
            targets,
        }
    }

    /// The summary that `-V` prints.
    pub fn summary(&self) -> (s: String)
        ensures
            s@ == summary_text(self),
    {
        proof {
            reveal_strlit("none");
        }
        let mut s = "dohtml:\n  recursive: ".to_owned();
        s.append(flag_text(self.recursive));
        s.append("\n  verbose: ");
        s.append(flag_text(self.verbose));
        s.append("\n  extra file exts: ");
        s.append(csv_or_none(self.extra_file_exts.as_slice()).as_str());
        s.append("\n  allowed file exts: ");
        s.append(csv_or_none(self.allowed_file_exts.as_slice()).as_str());
        s.append("\n  allowed files: ");
        s.append(csv_or_none(self.allowed_files.as_slice()).as_str());
        s.append("\n  excluded dirs: ");
        s.append(csv_or_none(self.excluded_dirs.as_slice()).as_str());
        s.append("\n  doc prefix: ");
        match &self.doc_prefix {
            Some(p) => s.append(p.as_str()),
            None => s.append("none"),
        }
        s.append("\n");
        assert(self.extra_file_exts@.map_values(|v: String| v@) =~= strings_view(
            self.extra_file_exts@,
        ));
        assert(self.allowed_file_exts@.map_values(|v: String| v@) =~= strings_view(
            self.allowed_file_exts@,
        ));
        assert(self.allowed_files@.map_values(|v: String| v@) =~= strings_view(
            self.allowed_files@,
        ));
        assert(self.excluded_dirs@.map_values(|v: String| v@) =~= strings_view(
            self.excluded_dirs@,
        ));
        s
    }

    /// The allowed extensions: the pieces of `-a` and `-A` together.
    pub fn allowed_exts(&self) -> (v: Vec<String>)
        ensures
            strings_view(v@) == all_pieces(
                (self.allowed_file_exts@ + self.extra_file_exts@).map_values(|v: String| v@),
            ),
    {
        let mut all: Vec<String> = Vec::new();
        let mut i: usize = 0;
        while i < self.allowed_file_exts.len()
            invariant
                i <= self.allowed_file_exts@.len(),
                all@ == self.allowed_file_exts@.take(i as int),
            decreases self.allowed_file_exts@.len() - i,
        {
            all.push(self.allowed_file_exts[i].clone());
            assert(all@ =~= self.allowed_file_exts@.take(i + 1));
            i += 1;
        }
        let mut j: usize = 0;
        while j < self.extra_file_exts.len()
            invariant
                i == self.allowed_file_exts@.len(),
                j <= self.extra_file_exts@.len(),
                all@ == self.allowed_file_exts@ + self.extra_file_exts@.take(j as int),
            decreases self.extra_file_exts@.len() - j,
        {
            all.push(self.extra_file_exts[j].clone());
            assert(all@ =~= self.allowed_file_exts@ + self.extra_file_exts@.take(j + 1));
            j += 1;
        }
        assert(self.allowed_file_exts@.take(i as int) =~= self.allowed_file_exts@);
        assert(self.extra_file_exts@.take(j as int) =~= self.extra_file_exts@);
        split_csv(all.as_slice())
    }

    /// The subdirectory of the documentation directory to install into: the `-p` value
    /// without leading `/`, none when unset.
    pub fn prefix_dir(&self) -> (s: String)
        ensures
            s@ == match self.doc_prefix {
                Some(p) => without_leading_slashes(p@),
                None => seq![],
            },
    {
        match &self.doc_prefix {
            Some(p) => {
                let n = p.unicode_len();
                let mut i: usize = 0;
                assert(p@.skip(0) =~= p@);
                while i < n && p.get_char(i) == '/'
                    invariant
                        i <= n,
                        n == p@.len(),
                        without_leading_slashes(p@) == without_leading_slashes(p@.skip(i as int)),
                    decreases n - i,
                {
                    assert(p@.skip(i as int).drop_first() =~= p@.skip(i + 1));
                    i += 1;
                }
                let r = p.as_str().substring_char(i, n).to_owned();
                assert(r@ =~= p@.skip(i as int));
                r
            },
            None => String::new(),
        }
    }
}

/// The documentation subdirectory files go to: the one `docinto` set, else `html`.
pub fn doc_subdir(docdesttree: &str) -> (s: &str)
    ensures
        s@ == if docdesttree@.len() == 0 {
            "html"@
        } else {
            docdesttree@
        },
{
    if docdesttree.unicode_len() == 0 {
        "html"
    } else {
        docdesttree
    }
}

}
