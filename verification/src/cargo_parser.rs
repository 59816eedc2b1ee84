//! Reading crate metadata: the `[package]` section of a manifest, the package
//! list of a lockfile, and a table of licenses of well-known crates.

use vstd::prelude::*;
use crate::text::{
    assoc, assoc_lookup, chars_of, copy_string, pairs_view, str_equals, string_from_chars, trim, trim_bounds,
};

verus! {

/// The views of an optional string.
pub open spec fn opt_view(o: Option<String>) -> Option<Seq<char>> {
    match o {
        Some(s) => Some(s@),
        None => None,
    }
}

/// The `[package]` fields of a Cargo.toml that the library reads, each as it
/// stands in the file (absent fields are `None`).
pub struct PackageSection {
    pub name: Option<String>,
    pub version: Option<String>,
    pub license: Option<String>,
    pub authors: Option<Vec<String>>,
    pub description: Option<String>,
}

/// Result of parsing a Cargo.toml file.
#[derive(Debug, Clone)]
pub struct CargoInfo {
    pub name: String,
    pub version: String,
    pub license: Option<String>,
    pub authors: Vec<String>,
    pub description: Option<String>,
}

/// The package metadata of a crate, as plain values.
pub struct CargoRecord {
    pub name: Seq<char>,
    pub version: Seq<char>,
    pub license: Option<Seq<char>>,
    pub authors: Seq<Seq<char>>,
    pub description: Option<Seq<char>>,
}

impl View for CargoInfo {
    type V = CargoRecord;

    open spec fn view(&self) -> CargoRecord {
        CargoRecord {
            name: self.name@,
            version: self.version@,
            license: opt_view(self.license),
            authors: self.authors@.map_values(|s: String| s@),
            description: opt_view(self.description),
        }
    }
}

/// The metadata that a lockfile entry gives for the package `name` at `version`.
pub open spec fn locked_package(name: Seq<char>, version: Seq<char>) -> CargoRecord {
    CargoRecord {
        name,
        version,
        license: None,
        authors: Seq::empty(),
        description: None,
    }
}

/// The metadata that a `[package]` section gives: a missing name or authors list
/// is empty, a missing version is `0.0.0`.
pub open spec fn package_record(p: PackageSection) -> CargoRecord {
    CargoRecord {
        name: match p.name {
            Some(n) => n@,
            None => Seq::empty(),
        },
        version: match p.version {
            Some(v) => v@,
            None => "0.0.0"@,
        },
        license: opt_view(p.license),
        authors: match p.authors {
            Some(a) => a@.map_values(|s: String| s@),
            None => Seq::empty(),
        },
        description: opt_view(p.description),
    }
}

/// The message for a manifest without a `[package]` section.
pub open spec fn missing_package_message() -> Seq<char> {
    "Missing [package] section in Cargo.toml"@
}

/// Well-known crates with their licenses.
pub open spec fn known_crate_licenses() -> Seq<(Seq<char>, Seq<char>)> {
    seq![
        ("serde"@, "MIT OR Apache-2.0"@),
        ("serde_json"@, "MIT OR Apache-2.0"@),
        ("serde_derive"@, "MIT OR Apache-2.0"@),
        ("toml"@, "MIT OR Apache-2.0"@),
        ("clap"@, "MIT OR Apache-2.0"@),
        ("walkdir"@, "Unlicense OR MIT"@),
        ("unicode-ident"@, "MIT OR Apache-2.0"@),
        ("proc-macro2"@, "MIT OR Apache-2.0"@),
        ("quote"@, "MIT OR Apache-2.0"@),
        ("syn"@, "MIT OR Apache-2.0"@),
        ("libc"@, "MIT OR Apache-2.0"@),
        ("log"@, "MIT OR Apache-2.0"@),
        ("memchr"@, "Unlicense OR MIT"@),
        ("aho-corasick"@, "Unlicense OR MIT"@),
        ("regex"@, "MIT OR Apache-2.0"@),
        ("regex-syntax"@, "MIT OR Apache-2.0"@),
        ("regex-automata"@, "MIT OR Apache-2.0"@),
        ("thiserror"@, "MIT OR Apache-2.0"@),
        ("anyhow"@, "MIT OR Apache-2.0"@),
        ("once_cell"@, "MIT OR Apache-2.0"@),
        ("cfg-if"@, "MIT OR Apache-2.0"@),
        ("bitflags"@, "MIT OR Apache-2.0"@),
        ("rustc-hash"@, "Apache-2.0"@),
        ("indexmap"@, "Apache-2.0"@),
        ("hashbrown"@, "MIT OR Apache-2.0"@),
        ("ryu"@, "Apache-2.0 OR BSL-1.0"@),
        ("itoa"@, "MIT OR Apache-2.0"@),
    ]
}

/// Known license mappings for common crates (fallback when the registry isn't available).
pub fn known_crate_license_table() -> (t: Vec<(&'static str, &'static str)>)
    ensures
        pairs_view(t@) == known_crate_licenses(),
{
    let mut t: Vec<(&'static str, &'static str)> = Vec::new();
    t.push(("serde", "MIT OR Apache-2.0"));
    t.push(("serde_json", "MIT OR Apache-2.0"));
    t.push(("serde_derive", "MIT OR Apache-2.0"));
    t.push(("toml", "MIT OR Apache-2.0"));
    t.push(("clap", "MIT OR Apache-2.0"));
    t.push(("walkdir", "Unlicense OR MIT"));
    t.push(("unicode-ident", "MIT OR Apache-2.0"));
    t.push(("proc-macro2", "MIT OR Apache-2.0"));
    t.push(("quote", "MIT OR Apache-2.0"));
    t.push(("syn", "MIT OR Apache-2.0"));
    t.push(("libc", "MIT OR Apache-2.0"));
    t.push(("log", "MIT OR Apache-2.0"));
    t.push(("memchr", "Unlicense OR MIT"));
    t.push(("aho-corasick", "Unlicense OR MIT"));
    t.push(("regex", "MIT OR Apache-2.0"));
    t.push(("regex-syntax", "MIT OR Apache-2.0"));
    t.push(("regex-automata", "MIT OR Apache-2.0"));
    t.push(("thiserror", "MIT OR Apache-2.0"));
    t.push(("anyhow", "MIT OR Apache-2.0"));
    t.push(("once_cell", "MIT OR Apache-2.0"));
    t.push(("cfg-if", "MIT OR Apache-2.0"));
    t.push(("bitflags", "MIT OR Apache-2.0"));
    t.push(("rustc-hash", "Apache-2.0"));
    t.push(("indexmap", "Apache-2.0"));
    t.push(("hashbrown", "MIT OR Apache-2.0"));
    t.push(("ryu", "Apache-2.0 OR BSL-1.0"));
    t.push(("itoa", "MIT OR Apache-2.0"));
    assert(pairs_view(t@) =~= known_crate_licenses());
    t
}

/// Look up a known crate's license from the static mapping.
pub fn lookup_known_crate_license(name: &str) -> (r: Option<&'static str>)
    ensures
        match r {
            Some(l) => assoc(known_crate_licenses(), name@) == Some(l@),
            None => assoc(known_crate_licenses(), name@) is None,
        },
{
    let table = known_crate_license_table();
    assoc_lookup(&table, name)
}

/// What has been read of a lockfile: the packages found so far (name and
/// version), whether a `[[package]]` section is open, and the name and version
/// read in it.
#[verifier::ext_equal]
pub struct LockState {
    pub packages: Seq<(Seq<char>, Seq<char>)>,
    pub in_package: bool,
    pub name: Seq<char>,
    pub version: Seq<char>,
}

/// `s` without the `"` characters at its start.
pub open spec fn strip_leading_quotes(s: Seq<char>) -> Seq<char>
    decreases s.len(),
{
    if s.len() > 0 && s[0] == '"' {
        strip_leading_quotes(s.drop_first())
    } else {
        s
    }
}

/// `s` without the `"` characters at its end.
pub open spec fn strip_trailing_quotes(s: Seq<char>) -> Seq<char>
    decreases s.len(),
{
    if s.len() > 0 && s.last() == '"' {
        strip_trailing_quotes(s.drop_last())
    } else {
        s
    }
}

/// `s` without the `"` characters at both ends, as `str::trim_matches('"')` gives it.
pub open spec fn strip_quotes(s: Seq<char>) -> Seq<char> {
    strip_trailing_quotes(strip_leading_quotes(s))
}

/// Whether `s` starts with `prefix`.
pub open spec fn has_prefix(s: Seq<char>, prefix: Seq<char>) -> bool {
    prefix.len() <= s.len() && s.take(prefix.len() as int) == prefix
}

/// `st` with the open package saved.
pub open spec fn save_package(st: LockState) -> Seq<(Seq<char>, Seq<char>)> {
    st.packages.push((st.name, st.version))
}

/// The state after one line of a lockfile.
pub open spec fn lock_line(st: LockState, line: Seq<char>) -> LockState {
    let t = trim(line);
    if t == "[[package]]"@ {
        LockState {
            packages: if st.name.len() > 0 { save_package(st) } else { st.packages },
            in_package: true,
            name: Seq::empty(),
            version: Seq::empty(),
        }
    } else if has_prefix(t, "["@) && !has_prefix(t, "[["@) {
        if st.in_package && st.name.len() > 0 {
            LockState { packages: save_package(st), in_package: false, name: Seq::empty(), version: Seq::empty() }
        } else {
            LockState { in_package: false, ..st }
        }
    } else if st.in_package && has_prefix(t, "name = "@) {
        LockState { name: strip_quotes(t.skip(7)), ..st }
    } else if st.in_package && has_prefix(t, "version = "@) {
        LockState { version: strip_quotes(t.skip(10)), ..st }
    } else {
        st
    }
}

/// The state before any line.
pub open spec fn lock_start() -> LockState {
    LockState { packages: Seq::empty(), in_package: false, name: Seq::empty(), version: Seq::empty() }
}

/// `line` without one `\r` at its end: the line terminator `\r\n`.
pub open spec fn strip_cr(line: Seq<char>) -> Seq<char> {
    if line.len() > 0 && line.last() == '\r' {
        line.drop_last()
    } else {
        line
    }
}

/// The state after reading the characters `cs`, with the characters of the line
/// that is not yet complete.
pub open spec fn lock_run(cs: Seq<char>) -> (LockState, Seq<char>)
    decreases cs.len(),
{
    if cs.len() == 0 {
        (lock_start(), Seq::empty())
    } else {
        let (st, line) = lock_run(cs.drop_last());
        if cs.last() == '\n' {
            (lock_line(st, strip_cr(line)), Seq::empty())
        } else {
            (st, line.push(cs.last()))
        }
    }
}

/// The packages (name and version) that a Cargo.lock lists, in order: the lines
/// are those of `str::lines`, and each `[[package]]` section with a name gives one.
pub open spec fn lockfile_packages(content: Seq<char>) -> Seq<(Seq<char>, Seq<char>)> {
    let (st0, line) = lock_run(content);
    let st = if line.len() > 0 { lock_line(st0, line) } else { st0 };
    if st.name.len() > 0 { save_package(st) } else { st.packages }
}

/// The mutable state of the lockfile reader.
struct LockReader {
    packages: Vec<(String, CargoInfo)>,
    in_package: bool,
    name: Vec<char>,
    version: Vec<char>,
}

impl LockReader {
    spec fn state(&self) -> LockState {
        LockState {
            packages: self.packages@.map_values(|p: (String, CargoInfo)| (p.0@, p.1@.version)),
            in_package: self.in_package,
            name: self.name@,
            version: self.version@,
        }
    }

    spec fn well_formed(&self) -> bool {
        forall|k: int| 0 <= k < self.packages@.len() ==>
            (#[trigger] self.packages@[k]).1@ == locked_package(self.packages@[k].0@, self.packages@[k].1@.version)
    }

    fn save(&mut self)
        requires
            old(self).well_formed(),
        ensures
            final(self).well_formed(),
            final(self).state() == (LockState { packages: save_package(old(self).state()), ..old(self).state() }),
    {
        let name = string_from_chars(&self.name);
        let info = CargoInfo {
            name: string_from_chars(&self.name),
            version: string_from_chars(&self.version),
            license: None,
            authors: Vec::new(),
            description: None,
        };
        assert(info@.authors =~= Seq::<Seq<char>>::empty());
        self.packages.push((name, info));
        assert(self.state().packages =~= save_package(old(self).state()));
    }
}

/// Whether `cs[lo..hi]` starts with the characters of `prefix`.
fn range_has_prefix(cs: &Vec<char>, lo: usize, hi: usize, prefix: &str) -> (b: bool)
    requires
        lo <= hi <= cs@.len(),
    ensures
        b == has_prefix(cs@.subrange(lo as int, hi as int), prefix@),
{
    let p = chars_of(prefix);
    if hi - lo < p.len() {
        return false;
    }
    let mut i: usize = 0;
    while i < p.len()
        invariant
            p@ == prefix@,
            lo + p@.len() <= hi <= cs@.len(),
            i <= p@.len(),
            forall|k: int| 0 <= k < i ==> cs@[lo + k] == p@[k],
        decreases p.len() - i,
    {
        if cs[lo + i] != p[i] {
            assert(cs@.subrange(lo as int, hi as int).take(p@.len() as int)[i as int] != p@[i as int]);
            return false;
        }
        i = i + 1;
    }
    assert(cs@.subrange(lo as int, hi as int).take(p@.len() as int) =~= p@);
    true
}

proof fn lemma_strip_leading(s: Seq<char>, i: int)
    requires
        0 <= i <= s.len(),
        forall|k: int| 0 <= k < i ==> #[trigger] s[k] == '"',
    ensures
        strip_leading_quotes(s) == strip_leading_quotes(s.skip(i)),
    decreases i,
{
    if i > 0 {
        lemma_strip_leading(s.drop_first(), i - 1);
        assert(s.drop_first().skip(i - 1) =~= s.skip(i));
    } else {
        assert(s.skip(0) =~= s);
    }
}

proof fn lemma_strip_trailing(s: Seq<char>, j: int)
    requires
        0 <= j <= s.len(),
        forall|k: int| j <= k < s.len() ==> #[trigger] s[k] == '"',
    ensures
        strip_trailing_quotes(s) == strip_trailing_quotes(s.take(j)),
    decreases s.len() - j,
{
    if j < s.len() {
        lemma_strip_trailing(s.drop_last(), j);
        assert(s.drop_last().take(j) =~= s.take(j));
    } else {
        assert(s.take(j) =~= s);
    }
}

/// The characters of `cs[lo..hi]` without `"` at both ends.
fn unquoted(cs: &Vec<char>, lo: usize, hi: usize) -> (r: Vec<char>)
    requires
        lo <= hi <= cs@.len(),
    ensures
        r@ == strip_quotes(cs@.subrange(lo as int, hi as int)),
{
    let ghost s = cs@.subrange(lo as int, hi as int);
    let mut i = lo;
    while i < hi && cs[i] == '"'
        invariant
            lo <= i <= hi <= cs@.len(),
            s == cs@.subrange(lo as int, hi as int),
            forall|k: int| lo <= k < i ==> #[trigger] cs@[k] == '"',
        decreases hi - i,
    {
        i = i + 1;
    }
    proof {
        assert forall|k: int| 0 <= k < i - lo implies #[trigger] s[k] == '"' by {
            assert(s[k] == cs@[lo + k]);
        }
        lemma_strip_leading(s, i - lo);
        assert(s.skip(i - lo) =~= cs@.subrange(i as int, hi as int));
    }
    let ghost rest = cs@.subrange(i as int, hi as int);
    assert(strip_leading_quotes(rest) == rest);
    let mut j = hi;
    while j > i && cs[j - 1] == '"'
        invariant
            lo <= i <= j <= hi <= cs@.len(),
            rest == cs@.subrange(i as int, hi as int),
            forall|k: int| j <= k < hi ==> #[trigger] cs@[k] == '"',
        decreases j,
    {
        j = j - 1;
    }
    proof {
        assert forall|k: int| j - i <= k < rest.len() implies #[trigger] rest[k] == '"' by {
            assert(rest[k] == cs@[i + k]);
        }
        lemma_strip_trailing(rest, j - i);
        assert(rest.take(j - i) =~= cs@.subrange(i as int, j as int));
    }
    let mut r: Vec<char> = Vec::new();
    let mut k = i;
    while k < j
        invariant
            i <= k <= j <= cs@.len(),
            r@ == cs@.subrange(i as int, k as int),
        decreases j - k,
    {
        r.push(cs[k]);
        k = k + 1;
        assert(r@ =~= cs@.subrange(i as int, k as int));
    }
    r
}

/// The views of an optional manifest.
pub open spec fn opt_record(m: Option<CargoInfo>) -> Option<CargoRecord> {
    match m {
        Some(i) => Some(i@),
        None => None,
    }
}

/// The views of registry directories: each directory's name, and the manifest
/// read from it (`None` where there is none or it did not parse).
pub open spec fn registry_entries_view(es: Seq<(String, Option<CargoInfo>)>) -> Seq<(Seq<char>, Option<CargoRecord>)> {
    es.map_values(|e: (String, Option<CargoInfo>)| (e.0@, opt_record(e.1)))
}

/// The license a registry manifest gives for the crate `dep`: its declared
/// license, when the manifest is that crate's.
pub open spec fn manifest_license(dep: Seq<char>, m: Option<CargoRecord>) -> Option<Seq<char>> {
    match m {
        Some(r) => if r.name == dep && r.license is Some {
            r.license
        } else {
            None
        },
        None => None,
    }
}

/// The license of the crate `dep` in the registry: that of the first directory
/// whose name starts with `dep` and whose manifest is `dep`'s and declares one.
pub open spec fn first_registry_license(dep: Seq<char>, es: Seq<(Seq<char>, Option<CargoRecord>)>) -> Option<Seq<char>>
    decreases es.len(),
{
    if es.len() == 0 {
        None
    } else if has_prefix(es[0].0, dep) && manifest_license(dep, es[0].1) is Some {
        manifest_license(dep, es[0].1)
    } else {
        first_registry_license(dep, es.drop_first())
    }
}

/// Parses Cargo.toml files for license information.
pub struct CargoParser;

impl CargoParser {
    /// The metadata of a manifest from its `[package]` section: an error when there
    /// is none; otherwise a missing name or authors list is empty and a missing
    /// version is `0.0.0`.
    pub fn from_package(package: Option<PackageSection>) -> (r: Result<CargoInfo, String>)
        ensures
            package is None ==> r is Err && r->Err_0@ == missing_package_message(),
            package matches Some(p) ==> r is Ok && r->Ok_0@ == package_record(p),
    {
        match package {
            None => Err(String::from_str("Missing [package] section in Cargo.toml")),
            Some(p) => {
                let ghost rec = package_record(p);
                let name = match p.name {
                    Some(n) => n,
                    None => String::new(),
                };
                let version = match p.version {
                    Some(v) => v,
                    None => String::from_str("0.0.0"),
                };
                let authors = match p.authors {
                    Some(a) => a,
                    None => Vec::new(),
                };
                let info = CargoInfo { name, version, license: p.license, authors, description: p.description };
                assert(info@.authors =~= rec.authors);
                Ok(info)
            },
        }
    }

    /// Whether the registry directory `dir_name` may hold the crate `dep_name`:
    /// its name starts with the crate's.
    pub fn registry_dir_matches(dep_name: &str, dir_name: &str) -> (b: bool)
        ensures
            b == has_prefix(dir_name@, dep_name@),
    {
        let cs = chars_of(dir_name);
        let b = range_has_prefix(&cs, 0, cs.len(), dep_name);
        assert(cs@.subrange(0, cs@.len() as int) =~= cs@);
        b
    }

    /// The license of `dep_name` found in the registry: that of the first directory
    /// whose name starts with `dep_name` and whose manifest is `dep_name`'s and
    /// declares a license.
    pub fn select_registry_license(dep_name: &str, entries: &Vec<(String, Option<CargoInfo>)>) -> (r: Option<String>)
        ensures
            opt_view(r) == first_registry_license(dep_name@, registry_entries_view(entries@)),
    {
        let ghost ev = registry_entries_view(entries@);
        let mut i: usize = 0;
        assert(ev.skip(0) =~= ev);
        while i < entries.len()
            invariant
                ev == registry_entries_view(entries@),
                i <= ev.len(),
                first_registry_license(dep_name@, ev) == first_registry_license(dep_name@, ev.skip(i as int)),
            decreases entries.len() - i,
        {
            let (dir, manifest) = &entries[i];
            assert(ev.skip(i as int)[0] == (dir@, opt_record(*manifest)));
            assert(ev.skip(i as int).drop_first() =~= ev.skip(i + 1));
            if Self::registry_dir_matches(dep_name, dir.as_str()) {
                if let Some(info) = manifest {
                    if str_equals(info.name.as_str(), dep_name) {
                        if let Some(l) = &info.license {
                            return Some(copy_string(l));
                        }
                    }
                }
            }
            i = i + 1;
        }
        None
    }

    fn read_line(reader: &mut LockReader, line: &Vec<char>, hi: usize)
        requires
            old(reader).well_formed(),
            hi <= line@.len(),
        ensures
            final(reader).well_formed(),
            final(reader).state() == lock_line(old(reader).state(), line@.take(hi as int)),
    {
        let ghost l = line@.take(hi as int);
        let (lo, hi2) = trim_bounds_prefix(line, hi);
        let ghost t = line@.subrange(lo as int, hi2 as int);
        assert(t == trim(l));
        proof {
            reveal_strlit("[[package]]");
            reveal_strlit("name = ");
            reveal_strlit("version = ");
        }
        if hi2 - lo == 11 && range_has_prefix(line, lo, hi2, "[[package]]") {
            assert(t =~= t.take(11));
            if reader.name.len() > 0 {
                reader.save();
            }
            reader.in_package = true;
            reader.name = Vec::new();
            reader.version = Vec::new();
            assert(reader.state().name =~= Seq::<char>::empty());
            assert(reader.state().version =~= Seq::<char>::empty());
            return;
        }
        assert(t != "[[package]]"@) by {
            if t == "[[package]]"@ {
                assert(t.len() == 11);
                assert(t.take(11) =~= t);
            }
        }
        if range_has_prefix(line, lo, hi2, "[") && !range_has_prefix(line, lo, hi2, "[[") {
            if reader.in_package && reader.name.len() > 0 {
                reader.save();
                reader.name = Vec::new();
                reader.version = Vec::new();
            }
            reader.in_package = false;
            assert(reader.state().name =~= lock_line(old(reader).state(), l).name);
            assert(reader.state().version =~= lock_line(old(reader).state(), l).version);
            return;
        }
        if reader.in_package {
            if range_has_prefix(line, lo, hi2, "name = ") {
                reader.name = unquoted(line, lo + 7, hi2);
                assert(t.skip(7) =~= line@.subrange(lo + 7, hi2 as int));
            } else if range_has_prefix(line, lo, hi2, "version = ") {
                reader.version = unquoted(line, lo + 10, hi2);
                assert(t.skip(10) =~= line@.subrange(lo + 10, hi2 as int));
            }
        }
    }

    /// Parse a Cargo.lock file for dependency names and versions.
    pub fn parse_lockfile(content: &str) -> (r: Vec<(String, CargoInfo)>)
        ensures
            r@.len() == lockfile_packages(content@).len(),
            forall|k: int| 0 <= k < r@.len() ==> {
                &&& (#[trigger] r@[k]).0@ == lockfile_packages(content@)[k].0
                &&& r@[k].1@ == locked_package(lockfile_packages(content@)[k].0, lockfile_packages(content@)[k].1)
            },
    {
        let cs = chars_of(content);
        let mut reader = LockReader { packages: Vec::new(), in_package: false, name: Vec::new(), version: Vec::new() };
        let mut line: Vec<char> = Vec::new();
        assert(reader.state() =~= lock_start());
        assert(cs@.take(0) =~= Seq::<char>::empty());
        let mut i: usize = 0;
        while i < cs.len()
            invariant
                cs@ == content@,
                i <= cs@.len(),
                reader.well_formed(),
                (reader.state(), line@) == lock_run(cs@.take(i as int)),
            decreases cs.len() - i,
        {
            let c = cs[i];
            assert(cs@.take(i + 1).drop_last() =~= cs@.take(i as int));
            if c == '\n' {
                let n = line.len();
                if n > 0 && line[n - 1] == '\r' {
                    Self::read_line(&mut reader, &line, n - 1);
                    assert(line@.take(n - 1) =~= strip_cr(line@));
                } else {
                    Self::read_line(&mut reader, &line, n);
                    assert(line@.take(n as int) =~= strip_cr(line@));
                }
                line = Vec::new();
            } else {
                line.push(c);
            }
            i = i + 1;
        }
        assert(cs@.take(i as int) =~= content@);
        if line.len() > 0 {
            Self::read_line(&mut reader, &line, line.len());
            assert(line@.take(line@.len() as int) =~= line@);
        }
        if reader.name.len() > 0 {
            reader.save();
        }
        let r = reader.packages;
        assert forall|k: int| 0 <= k < r@.len() implies {
            &&& (#[trigger] r@[k]).0@ == lockfile_packages(content@)[k].0
            &&& r@[k].1@ == locked_package(lockfile_packages(content@)[k].0, lockfile_packages(content@)[k].1)
        } by {
            assert(reader.state().packages[k] == (r@[k].0@, r@[k].1@.version));
        }
        r
    }
}

/// The bounds `lo..hi` of `trim(cs[..n])` within `cs`.
fn trim_bounds_prefix(cs: &Vec<char>, n: usize) -> (r: (usize, usize))
    requires
        n <= cs@.len(),
    ensures
        r.0 <= r.1 <= n,
        cs@.subrange(r.0 as int, r.1 as int) == trim(cs@.take(n as int)),
{
    let mut head: Vec<char> = Vec::new();
    let mut i: usize = 0;
    while i < n
        invariant
            n <= cs@.len(),
            i <= n,
            head@ == cs@.take(i as int),
        decreases n - i,
    {
        head.push(cs[i]);
        i = i + 1;
        assert(head@ =~= cs@.take(i as int));
    }
    let (lo, hi) = trim_bounds(&head);
    assert(head@.subrange(lo as int, hi as int) =~= cs@.subrange(lo as int, hi as int));
    (lo, hi)
}

} // verus!
