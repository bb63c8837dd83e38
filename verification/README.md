# pkgcraft (verified core)

A Verus library for Gentoo package tooling: restrictions on strings, dependencies and
packages, with the boolean combinators that join them; parsers for dependency globs such
as `>=cat/pkg*-1:2/*::repo` and for package queries such as
`category == "cat" && !maintainers any email =~ "@example"`; and the argument handling
and decisions of package build commands (`econf`, `eapply`, `dohtml`, `inherit`, `die`
and others).

Verus proves the library's functions against their contracts. Most public functions
state their results exactly; the repository walks and report orderings state order,
membership and completeness, with versions that compare equal counted as one. The calls
into `regex`, `indexmap` and `ini` (the `rust-ini` package), and a few std calls (`Path::parent` and its `Debug` text,
`String` from characters), stand behind small trusted wrappers whose
contracts name or state what those calls compute.

Layout:

- `src/restrict.rs` and `src/restrict/`: restriction types, matching, flattening,
  scopes, and the two parsers (`parse/dep.rs`, `parse/pkg.rs`).
- `src/pkg.rs`: package, ebuild metadata, maintainer and ordered restrictions.
- `src/dep.rs`, `src/dep/version.rs`, `src/types.rs`, `src/text.rs`: versions and their
  order, USE dependencies, package names and versions, ordered sets and string helpers.
- `src/pkgsh/`: build phases, metadata keys, cache entries (made from a package's
  metadata fields, written, read back, checked), and the build commands.
- `src/repo.rs` and `src/repo/`: repository formats, the restrictions a repository path
  implies, how a restriction narrows a walk through a repository's packages and versions
  and the walks themselves (`iter.rs`), the license groups and mirrors of its metadata
  files (`metadata.rs`), the grouping and lines of its reverse dependency reports
  (`revdeps.rs`), and its `layout.conf` settings, read
  from their INI text and written back (`config.rs`).
- `src/collections.rs`: the `indexmap` maps and sets the library works with.
- `app/`: what touches the system: running `configure` and `patch`, reading the
  environment and the file system (repository listings, license files, reports), and copies of the enums with serialization derives.
- `tests/`: tests run against the compiled library.
