//! Resolving the license of each dependency of a project.

use vstd::prelude::*;
use crate::cargo_parser::{CargoInfo, known_crate_licenses, lookup_known_crate_license, opt_view};
use crate::license_db::{LicenseDb, lookup_license};
use crate::spdx_parser::{
    SpdxParser, dedup, leaf_ids, lemma_license_ids_distinct_and_complete, parse_expression, strings_view,
};
use crate::text::{assoc, copy_string};

verus! {

/// Information about a single dependency's license status.
#[derive(Debug, Clone)]
pub struct DependencyLicense {
    pub name: String,
    pub version: String,
    pub license_expression: Option<String>,
    pub license_ids: Vec<String>,
    pub unknown_licenses: Vec<String>,
}

/// A dependency's license status, as plain values.
pub struct DependencyRecord {
    pub name: Seq<char>,
    pub version: Seq<char>,
    pub license_expression: Option<Seq<char>>,
    pub license_ids: Seq<Seq<char>>,
    pub unknown_licenses: Seq<Seq<char>>,
}

impl View for DependencyLicense {
    type V = DependencyRecord;

    open spec fn view(&self) -> DependencyRecord {
        DependencyRecord {
            name: self.name@,
            version: self.version@,
            license_expression: opt_view(self.license_expression),
            license_ids: strings_view(self.license_ids@),
            unknown_licenses: strings_view(self.unknown_licenses@),
        }
    }
}

/// A copy of a vector of strings.
pub fn copy_strings(v: &Vec<String>) -> (r: Vec<String>)
    ensures
        strings_view(r@) == strings_view(v@),
{
    let mut r: Vec<String> = Vec::new();
    let mut i: usize = 0;
    while i < v.len()
        invariant
            i <= v@.len(),
            r@.len() == i,
            strings_view(r@) == strings_view(v@).take(i as int),
        decreases v.len() - i,
    {
        let ghost prev = r@;
        r.push(copy_string(&v[i]));
        assert(r@ == prev.push(r@[i as int]));
        assert(strings_view(v@)[i as int] == v@[i as int]@);
        assert(strings_view(r@) =~= strings_view(v@).take(i + 1));
        i = i + 1;
    }
    assert(strings_view(v@).take(i as int) =~= strings_view(v@));
    r
}

/// A copy of an optional string.
pub fn copy_opt_string(o: &Option<String>) -> (r: Option<String>)
    ensures
        opt_view(r) == opt_view(*o),
{
    match o {
        Some(s) => Some(copy_string(s)),
        None => None,
    }
}

impl DependencyLicense {
    /// A copy of this record.
    pub fn duplicate(&self) -> (r: DependencyLicense)
        ensures
            r@ == self@,
    {
        DependencyLicense {
            name: copy_string(&self.name),
            version: copy_string(&self.version),
            license_expression: copy_opt_string(&self.license_expression),
            license_ids: copy_strings(&self.license_ids),
            unknown_licenses: copy_strings(&self.unknown_licenses),
        }
    }
}

/// Whether `id` is a license the database knows.
pub open spec fn known_id(id: Seq<char>) -> bool {
    lookup_license(id) is Some
}

/// The license expression of a dependency: the one its manifest declares, else the
/// one the table of well-known crates gives, else the one found in the registry.
pub open spec fn resolved_license(
    name: Seq<char>,
    manifest_license: Option<Seq<char>>,
    registry_license: Option<Seq<char>>,
) -> Option<Seq<char>> {
    if manifest_license is Some {
        manifest_license
    } else {
        match assoc(known_crate_licenses(), name) {
            Some(l) => Some(l),
            None => registry_license,
        }
    }
}

/// Whether the registry has to be searched for the license of `name`.
pub open spec fn registry_needed(name: Seq<char>, manifest_license: Option<Seq<char>>) -> bool {
    manifest_license is None && assoc(known_crate_licenses(), name) is None
}

/// The elements of `ids` that the database knows (`known`) or does not know (`!known`), in order.
pub open spec fn select_known(ids: Seq<Seq<char>>, known: bool) -> Seq<Seq<char>>
    decreases ids.len(),
{
    if ids.len() == 0 {
        Seq::empty()
    } else {
        let rest = select_known(ids.drop_last(), known);
        if known_id(ids.last()) == known {
            rest.push(ids.last())
        } else {
            rest
        }
    }
}

/// Every element of `ids` lands in exactly one of the known and unknown lists.
pub proof fn law_known_and_unknown_partition(ids: Seq<Seq<char>>, x: Seq<char>)
    ensures
        select_known(ids, true).contains(x) <==> (ids.contains(x) && known_id(x)),
        select_known(ids, false).contains(x) <==> (ids.contains(x) && !known_id(x)),
    decreases ids.len(),
{
    if ids.len() > 0 {
        law_known_and_unknown_partition(ids.drop_last(), x);
        let r = ids.drop_last();
        if r.contains(x) {
            let k = choose|k: int| 0 <= k < r.len() && r[k] == x;
            assert(ids[k] == x);
        }
        if ids.contains(x) && x != ids.last() {
            let k = choose|k: int| 0 <= k < ids.len() && ids[k] == x;
            assert(r[k] == x);
        }
        let kt = select_known(r, true);
        let kf = select_known(r, false);
        if kt.contains(x) {
            let k = choose|k: int| 0 <= k < kt.len() && kt[k] == x;
            assert(kt.push(ids.last())[k] == x);
        }
        if kf.contains(x) {
            let k = choose|k: int| 0 <= k < kf.len() && kf[k] == x;
            assert(kf.push(ids.last())[k] == x);
        }
        assert(kt.push(ids.last())[kt.len() as int] == ids.last());
        assert(kf.push(ids.last())[kf.len() as int] == ids.last());
        assert(ids[ids.len() - 1] == ids.last());
    }
}

proof fn lemma_select_known_distinct(ids: Seq<Seq<char>>, known: bool)
    requires
        ids.no_duplicates(),
    ensures
        select_known(ids, known).no_duplicates(),
    decreases ids.len(),
{
    if ids.len() > 0 {
        let r = ids.drop_last();
        assert(r.no_duplicates()) by {
            assert forall|i: int, j: int| 0 <= i < r.len() && 0 <= j < r.len() && i != j implies r[i] != r[j] by {
                assert(r[i] == ids[i] && r[j] == ids[j]);
            }
        }
        lemma_select_known_distinct(r, known);
        let x = ids.last();
        law_known_and_unknown_partition(r, x);
        if r.contains(x) {
            let k = choose|k: int| 0 <= k < r.len() && r[k] == x;
            assert(ids[k] == ids[ids.len() - 1]);
        }
        let sr = select_known(r, known);
        if known_id(x) == known {
            assert forall|i: int, j: int| 0 <= i < sr.push(x).len() && 0 <= j < sr.push(x).len() && i != j
                implies sr.push(x)[i] != sr.push(x)[j] by {
                if i == sr.len() as int {
                    assert(sr.contains(sr[j]));
                } else if j == sr.len() as int {
                    assert(sr.contains(sr[i]));
                }
            }
        }
    }
}

/// The known and the unknown license IDs of an expression are its distinct IDs:
/// neither list repeats an ID, no ID is in both, every ID of the expression is in
/// one of them, the known ones are in the database and the unknown ones are not.
pub proof fn law_split_license_ids(e: Seq<char>)
    ensures
        split_license_ids(Some(e)).0.no_duplicates(),
        split_license_ids(Some(e)).1.no_duplicates(),
        forall|x: Seq<char>| #[trigger] split_license_ids(Some(e)).0.contains(x)
            ==> known_id(x) && !split_license_ids(Some(e)).1.contains(x),
        forall|x: Seq<char>| #[trigger] split_license_ids(Some(e)).1.contains(x) ==> !known_id(x),
        forall|x: Seq<char>| #[trigger] leaf_ids(parse_expression(e)).contains(x)
            <==> (split_license_ids(Some(e)).0.contains(x) || split_license_ids(Some(e)).1.contains(x)),
{
    let t = parse_expression(e);
    let ids = dedup(leaf_ids(t));
    lemma_license_ids_distinct_and_complete(t);
    lemma_select_known_distinct(ids, true);
    lemma_select_known_distinct(ids, false);
    assert forall|x: Seq<char>| #[trigger] split_license_ids(Some(e)).0.contains(x)
        implies known_id(x) && !split_license_ids(Some(e)).1.contains(x) by {
        law_known_and_unknown_partition(ids, x);
    }
    assert forall|x: Seq<char>| #[trigger] split_license_ids(Some(e)).1.contains(x) implies !known_id(x) by {
        law_known_and_unknown_partition(ids, x);
    }
    assert forall|x: Seq<char>| #[trigger] leaf_ids(t).contains(x)
        <==> (split_license_ids(Some(e)).0.contains(x) || split_license_ids(Some(e)).1.contains(x)) by {
        law_known_and_unknown_partition(ids, x);
    }
}

/// Which license a dependency gets: the one its manifest declares, else the one
/// the table of well-known crates gives, else the one found in the registry.
pub proof fn law_resolution_order(name: Seq<char>, manifest: Option<Seq<char>>, registry: Option<Seq<char>>)
    ensures
        manifest is Some ==> resolved_license(name, manifest, registry) == manifest,
        manifest is None && assoc(known_crate_licenses(), name) is Some
            ==> resolved_license(name, manifest, registry) == assoc(known_crate_licenses(), name),
        registry_needed(name, manifest) ==> resolved_license(name, manifest, registry) == registry,
{
}

/// The distinct license IDs of an expression, split into those the database
/// knows and the others, each in the order of first occurrence.
pub open spec fn split_license_ids(expr: Option<Seq<char>>) -> (Seq<Seq<char>>, Seq<Seq<char>>) {
    match expr {
        None => (Seq::empty(), Seq::empty()),
        Some(e) => {
            let ids = dedup(leaf_ids(parse_expression(e)));
            (select_known(ids, true), select_known(ids, false))
        },
    }
}

/// The record of a dependency whose package metadata is `info`, given what the
/// registry has for it.
pub open spec fn dependency_record(
    name: Seq<char>,
    version: Seq<char>,
    manifest_license: Option<Seq<char>>,
    registry_license: Option<Seq<char>>,
) -> DependencyRecord {
    let lic = resolved_license(name, manifest_license, registry_license);
    let (known, unknown) = split_license_ids(lic);
    DependencyRecord {
        name,
        version,
        license_expression: lic,
        license_ids: known,
        unknown_licenses: unknown,
    }
}

/// Scans a project's dependency tree for license information.
pub struct DependencyScanner {
    db: LicenseDb,
    spdx: SpdxParser,
}

impl DependencyScanner {
    pub fn new() -> Self {
        DependencyScanner { db: LicenseDb::new(), spdx: SpdxParser::new() }
    }

    /// Whether the license of `name` has to be looked for in the registry: its
    /// manifest declares none and it is not a well-known crate.
    pub fn needs_registry_lookup(&self, name: &str, info: &CargoInfo) -> (b: bool)
        ensures
            b == registry_needed(name@, info@.license),
    {
        info.license.is_none() && lookup_known_crate_license(name).is_none()
    }

    /// Resolve the license expression for a dependency; `registry_license` is what
    /// the registry has for it.
    pub fn resolve_license(&self, name: &str, info: &CargoInfo, registry_license: Option<String>) -> (r: Option<String>)
        ensures
            opt_view(r) == resolved_license(name@, info@.license, opt_view(registry_license)),
    {
        if info.license.is_some() {
            return copy_opt_string(&info.license);
        }
        if let Some(lic) = lookup_known_crate_license(name) {
            return Some(String::from_str(lic));
        }
        registry_license
    }

    /// Parse a license expression into known and unknown license IDs.
    pub fn resolve_license_ids(&self, expr: &Option<String>) -> (r: (Vec<String>, Vec<String>))
        ensures
            (strings_view(r.0@), strings_view(r.1@)) == split_license_ids(opt_view(*expr)),
    {
        let e = match expr {
            None => {
                let a: Vec<String> = Vec::new();
                let b: Vec<String> = Vec::new();
                assert(strings_view(a@) =~= Seq::<Seq<char>>::empty());
                assert(strings_view(b@) =~= Seq::<Seq<char>>::empty());
                return (a, b);
            },
            Some(e) => e,
        };
        let parsed = self.spdx.parse(e.as_str());
        let ids = parsed.all_license_ids();
        let ghost idv = strings_view(ids@);
        let mut known: Vec<String> = Vec::new();
        let mut unknown: Vec<String> = Vec::new();
        let mut i: usize = 0;
        assert(idv.take(0) =~= Seq::<Seq<char>>::empty());
        while i < ids.len()
            invariant
                idv == strings_view(ids@),
                i <= ids@.len(),
                strings_view(known@) == select_known(idv.take(i as int), true),
                strings_view(unknown@) == select_known(idv.take(i as int), false),
            decreases ids.len() - i,
        {
            let ghost x = idv[i as int];
            let ghost kk = select_known(idv.take(i as int), true);
            let ghost uu = select_known(idv.take(i as int), false);
            assert(idv.take(i + 1).drop_last() =~= idv.take(i as int));
            assert(idv.take(i + 1).last() == x);
            assert(x == ids@[i as int]@);
            let is_known = self.db.is_known(ids[i].as_str());
            assert(known_id(x) == is_known);
            if is_known {
                known.push(copy_string(&ids[i]));
                assert(strings_view(known@) =~= kk.push(x));
                assert(select_known(idv.take(i + 1), true) == kk.push(x));
                assert(select_known(idv.take(i + 1), false) == uu);
            } else {
                unknown.push(copy_string(&ids[i]));
                assert(strings_view(unknown@) =~= uu.push(x));
                assert(select_known(idv.take(i + 1), true) == kk);
                assert(select_known(idv.take(i + 1), false) == uu.push(x));
            }
            i = i + 1;
        }
        assert(idv.take(i as int) =~= idv);
        (known, unknown)
    }

    /// The license records of the dependencies `packages` (name and metadata, as a
    /// lockfile lists them); `registry_licenses[i]` is what the registry has for
    /// `packages[i]`, consulted only where `needs_registry_lookup` holds.
    pub fn scan(
        &self,
        packages: Vec<(String, CargoInfo)>,
        registry_licenses: Vec<Option<String>>,
    ) -> (r: Vec<DependencyLicense>)
        requires
            registry_licenses@.len() == packages@.len(),
        ensures
            r@.len() == packages@.len(),
            forall|k: int| 0 <= k < r@.len() ==> (#[trigger] r@[k])@ == dependency_record(
                packages@[k].0@,
                packages@[k].1@.version,
                packages@[k].1@.license,
                opt_view(registry_licenses@[k]),
            ),
    {
        let mut results: Vec<DependencyLicense> = Vec::new();
        let ghost pk = packages@;
        let ghost rg = registry_licenses@;
        let mut i: usize = 0;
        while i < packages.len()
            invariant
                pk == packages@,
                rg == registry_licenses@,
                rg.len() == pk.len(),
                i <= pk.len(),
                results@.len() == i,
                forall|k: int| 0 <= k < i ==> (#[trigger] results@[k])@ == dependency_record(
                    pk[k].0@,
                    pk[k].1@.version,
                    pk[k].1@.license,
                    opt_view(rg[k]),
                ),
            decreases pk.len() - i,
        {
            let name = &packages[i].0;
            let info = &packages[i].1;
            let reg = copy_opt_string(&registry_licenses[i]);
            let license_expr = self.resolve_license(name.as_str(), info, reg);
            let (ids, unknowns) = self.resolve_license_ids(&license_expr);
            results.push(DependencyLicense {
                name: copy_string(name),
                version: copy_string(&info.version),
                license_expression: license_expr,
                license_ids: ids,
                unknown_licenses: unknowns,
            });
            i = i + 1;
        }
        results
    }
}

impl Default for DependencyScanner {
    fn default() -> (d: Self) {
        Self::new()
    }
}

} // verus!
