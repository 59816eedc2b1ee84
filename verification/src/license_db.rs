//! The built-in database of well-known open-source licenses.

use vstd::prelude::*;
use crate::text::{
    str_equals, str_eq_ignore_ascii_case, eq_ignore_ascii_case, ascii_folded, contains_text, hyphenate,
    hyphenated, lower_text, str_contains, to_lowercase, occurs_at,
};

verus! {

/// Classification of a license type.
#[derive(Debug, Clone, Copy, PartialEq, Eq, Structural)]
pub enum LicenseType {
    Permissive,
    Copyleft,
    WeakCopyleft,
    Proprietary,
    PublicDomain,
    Unknown,
}

impl LicenseType {
    /// The human-readable name of the type.
    pub open spec fn spec_label(self) -> Seq<char> {
        match self {
            LicenseType::Permissive => "Permissive"@,
            LicenseType::Copyleft => "Copyleft"@,
            LicenseType::WeakCopyleft => "Weak Copyleft"@,
            LicenseType::Proprietary => "Proprietary"@,
            LicenseType::PublicDomain => "Public Domain"@,
            LicenseType::Unknown => "Unknown"@,
        }
    }

    /// The human-readable name of the type ("Weak Copyleft", "Public Domain", ...).
    pub fn label(&self) -> (s: &'static str)
        ensures
            s@ == self.spec_label(),
    {
        match self {
            LicenseType::Permissive => "Permissive",
            LicenseType::Copyleft => "Copyleft",
            LicenseType::WeakCopyleft => "Weak Copyleft",
            LicenseType::Proprietary => "Proprietary",
            LicenseType::PublicDomain => "Public Domain",
            LicenseType::Unknown => "Unknown",
        }
    }

    /// The human-readable name of the type, as an owned string.
    pub fn to_string(&self) -> (s: String)
        ensures
            s@ == self.spec_label(),
    {
        String::from_str(self.label())
    }
}

/// What the library knows of a license, as plain values.
pub struct LicenseRecord {
    pub id: Seq<char>,
    pub full_name: Seq<char>,
    pub license_type: LicenseType,
    pub compatible_with_mit: bool,
    pub compatible_with_apache2: bool,
    pub requires_attribution: bool,
    pub requires_source_disclosure: bool,
    pub requires_license_notice: bool,
}

/// Information about a single license.
#[derive(Debug, Clone)]
pub struct LicenseInfo {
    pub id: String,
    pub full_name: String,
    pub license_type: LicenseType,
    pub compatible_with_mit: bool,
    pub compatible_with_apache2: bool,
    pub requires_attribution: bool,
    pub requires_source_disclosure: bool,
    pub requires_license_notice: bool,
}

impl View for LicenseInfo {
    type V = LicenseRecord;

    open spec fn view(&self) -> LicenseRecord {
        LicenseRecord {
            id: self.id@,
            full_name: self.full_name@,
            license_type: self.license_type,
            compatible_with_mit: self.compatible_with_mit,
            compatible_with_apache2: self.compatible_with_apache2,
            requires_attribution: self.requires_attribution,
            requires_source_disclosure: self.requires_source_disclosure,
            requires_license_notice: self.requires_license_notice,
        }
    }
}

/// A record built from its parts.
pub open spec fn record(
    id: Seq<char>,
    full_name: Seq<char>,
    license_type: LicenseType,
    mit: bool,
    apache2: bool,
    attribution: bool,
    source_disclosure: bool,
    notice: bool,
) -> LicenseRecord {
    LicenseRecord {
        id,
        full_name,
        license_type,
        compatible_with_mit: mit,
        compatible_with_apache2: apache2,
        requires_attribution: attribution,
        requires_source_disclosure: source_disclosure,
        requires_license_notice: notice,
    }
}

/// The licenses that the database holds, in the order in which they are stored.
pub open spec fn builtin_licenses() -> Seq<LicenseRecord> {
    seq![
        record("MIT"@, "MIT License"@, LicenseType::Permissive, true, true, true, false, false),
        record("Apache-2.0"@, "Apache License 2.0"@, LicenseType::Permissive, true, true, true, false, true),
        record("BSD-2-Clause"@, "BSD 2-Clause Simplified License"@, LicenseType::Permissive, true, true, true, false, false),
        record("BSD-3-Clause"@, "BSD 3-Clause New/Revised License"@, LicenseType::Permissive, true, true, true, false, false),
        record("ISC"@, "ISC License"@, LicenseType::Permissive, true, true, true, false, false),
        record("0BSD"@, "Zero-Clause BSD"@, LicenseType::Permissive, true, true, false, false, false),
        record("Unlicense"@, "The Unlicense"@, LicenseType::PublicDomain, true, true, false, false, false),
        record("CC0-1.0"@, "Creative Commons Zero v1.0 Universal"@, LicenseType::PublicDomain, true, true, false, false, false),
        record("MPL-2.0"@, "Mozilla Public License 2.0"@, LicenseType::WeakCopyleft, true, true, true, false, true),
        record("LGPL-2.1"@, "GNU Lesser General Public License v2.1"@, LicenseType::WeakCopyleft, false, false, true, false, true),
        record("LGPL-3.0"@, "GNU Lesser General Public License v3.0"@, LicenseType::WeakCopyleft, false, false, true, false, true),
        record("GPL-2.0"@, "GNU General Public License v2.0"@, LicenseType::Copyleft, false, false, true, true, true),
        record("GPL-3.0"@, "GNU General Public License v3.0"@, LicenseType::Copyleft, false, false, true, true, true),
        record("AGPL-3.0"@, "GNU Affero General Public License v3.0"@, LicenseType::Copyleft, false, false, true, true, true),
        record("BSL-1.0"@, "Boost Software License 1.0"@, LicenseType::Permissive, true, true, true, false, false),
        record("Zlib"@, "zlib License"@, LicenseType::Permissive, true, true, true, false, false),
        record("MIT-0"@, "MIT No Attribution"@, LicenseType::Permissive, true, true, false, false, false),
        record("BlueOak-1.0.0"@, "Blue Oak Model License 1.0.0"@, LicenseType::Permissive, true, true, true, false, false),
    ]
}

/// Whether `r` is the license `id`: exactly, or (when `ignore_case`) up to ASCII case.
pub open spec fn id_matches(r: LicenseRecord, id: Seq<char>, ignore_case: bool) -> bool {
    if ignore_case {
        eq_ignore_ascii_case(r.id, id)
    } else {
        r.id == id
    }
}

/// The index of the first record in `t` that matches `id`.
pub open spec fn first_match(t: Seq<LicenseRecord>, id: Seq<char>, ignore_case: bool) -> Option<int>
    decreases t.len(),
{
    if t.len() == 0 {
        None
    } else if id_matches(t[0], id, ignore_case) {
        Some(0)
    } else {
        match first_match(t.drop_first(), id, ignore_case) {
            Some(k) => Some(k + 1),
            None => None,
        }
    }
}

/// The record that a lookup of `id` finds in `t`: an exact match first, then one
/// that is equal up to ASCII case.
pub open spec fn lookup_in(t: Seq<LicenseRecord>, id: Seq<char>) -> Option<LicenseRecord> {
    match first_match(t, id, false) {
        Some(i) => Some(t[i]),
        None => match first_match(t, id, true) {
            Some(i) => Some(t[i]),
            None => None,
        },
    }
}

/// The record that the built-in database gives for `id`.
pub open spec fn lookup_license(id: Seq<char>) -> Option<LicenseRecord> {
    lookup_in(builtin_licenses(), id)
}

proof fn lemma_first_match(t: Seq<LicenseRecord>, id: Seq<char>, ignore_case: bool)
    ensures
        match first_match(t, id, ignore_case) {
            Some(i) => 0 <= i < t.len() && id_matches(t[i], id, ignore_case)
                && forall|k: int| 0 <= k < i ==> !id_matches(#[trigger] t[k], id, ignore_case),
            None => forall|k: int| 0 <= k < t.len() ==> !id_matches(#[trigger] t[k], id, ignore_case),
        },
    decreases t.len(),
{
    if t.len() > 0 {
        lemma_first_match(t.drop_first(), id, ignore_case);
        assert forall|k: int| 1 <= k < t.len() implies #[trigger] t[k] == t.drop_first()[k - 1] by {}
    }
}

/// A lookup finds a license whose ID equals the query up to ASCII case, and an
/// exact match when the database holds one.
pub proof fn law_lookup_matches_id(id: Seq<char>)
    ensures
        lookup_license(id) matches Some(r) ==> eq_ignore_ascii_case(r.id, id),
        (exists|k: int| 0 <= k < builtin_licenses().len() && #[trigger] builtin_licenses()[k].id == id)
            ==> (lookup_license(id) matches Some(r) && r.id == id),
        lookup_license(id) is None ==> forall|k: int| 0 <= k < builtin_licenses().len()
            ==> !eq_ignore_ascii_case(#[trigger] builtin_licenses()[k].id, id),
{
    let t = builtin_licenses();
    lemma_first_match(t, id, false);
    lemma_first_match(t, id, true);
    if lookup_license(id) is Some {
        if first_match(t, id, false) is Some {
            let i = first_match(t, id, false)->0;
            assert(t[i].id == id);
            assert(eq_ignore_ascii_case(t[i].id, id));
        }
    }
    if exists|k: int| 0 <= k < t.len() && #[trigger] t[k].id == id {
        let k = choose|k: int| 0 <= k < t.len() && #[trigger] t[k].id == id;
        assert(id_matches(t[k], id, false));
    }
    if lookup_license(id) is None {
        assert forall|k: int| 0 <= k < t.len() implies !eq_ignore_ascii_case(#[trigger] t[k].id, id) by {
            assert(!id_matches(t[k], id, true));
        }
    }
}

/// The database holds each license once: no two of its IDs are equal, even up to
/// ASCII case.
pub proof fn law_builtin_ids_distinct()
    ensures
        forall|i: int, j: int|
            0 <= i < j < builtin_licenses().len()
                ==> !eq_ignore_ascii_case(#[trigger] builtin_licenses()[i].id, #[trigger] builtin_licenses()[j].id),
{
    reveal_strlit("MIT");
    reveal_strlit("Apache-2.0");
    reveal_strlit("BSD-2-Clause");
    reveal_strlit("BSD-3-Clause");
    reveal_strlit("ISC");
    reveal_strlit("0BSD");
    reveal_strlit("Unlicense");
    reveal_strlit("CC0-1.0");
    reveal_strlit("MPL-2.0");
    reveal_strlit("LGPL-2.1");
    reveal_strlit("LGPL-3.0");
    reveal_strlit("GPL-2.0");
    reveal_strlit("GPL-3.0");
    reveal_strlit("AGPL-3.0");
    reveal_strlit("BSL-1.0");
    reveal_strlit("Zlib");
    reveal_strlit("MIT-0");
    reveal_strlit("BlueOak-1.0.0");
    let t = builtin_licenses();
    assert forall|i: int, j: int| 0 <= i < j < t.len() implies !eq_ignore_ascii_case(#[trigger] t[i].id, #[trigger] t[j].id) by {
        assert(t[i].id.len() != t[j].id.len() || ascii_folded(t[i].id[0]) != ascii_folded(t[j].id[0])
            || ascii_folded(t[i].id[1]) != ascii_folded(t[j].id[1]) || ascii_folded(t[i].id[2]) != ascii_folded(t[j].id[2])
            || ascii_folded(t[i].id[3]) != ascii_folded(t[j].id[3]) || ascii_folded(t[i].id[4]) != ascii_folded(t[j].id[4])
            || ascii_folded(t[i].id[5]) != ascii_folded(t[j].id[5]));
    }
}

/// Looking up the ID of a built-in license finds that license.
pub proof fn law_lookup_builtin_id(k: int)
    requires
        0 <= k < builtin_licenses().len(),
    ensures
        lookup_license(builtin_licenses()[k].id) == Some(builtin_licenses()[k]),
{
    let t = builtin_licenses();
    let id = t[k].id;
    law_builtin_ids_distinct();
    lemma_first_match(t, id, false);
    assert(id_matches(t[k], id, false));
    let i = first_match(t, id, false)->0;
    if i != k {
        assert(i < k);
        assert(eq_ignore_ascii_case(t[i].id, t[k].id));
    }
}

/// The documented license table: what a lookup of each of the 18 built-in IDs
/// gives, with its full name, its type, whether it may be used under MIT and under
/// Apache-2.0, and whether it requires attribution, source disclosure and keeping
/// the license notice.
pub proof fn law_documented_license_table()
    ensures
        lookup_license("MIT"@) == Some(record("MIT"@, "MIT License"@, LicenseType::Permissive, true, true, true, false, false)),
        lookup_license("Apache-2.0"@) == Some(record("Apache-2.0"@, "Apache License 2.0"@, LicenseType::Permissive, true, true, true, false, true)),
        lookup_license("BSD-2-Clause"@) == Some(record("BSD-2-Clause"@, "BSD 2-Clause Simplified License"@, LicenseType::Permissive, true, true, true, false, false)),
        lookup_license("BSD-3-Clause"@) == Some(record("BSD-3-Clause"@, "BSD 3-Clause New/Revised License"@, LicenseType::Permissive, true, true, true, false, false)),
        lookup_license("ISC"@) == Some(record("ISC"@, "ISC License"@, LicenseType::Permissive, true, true, true, false, false)),
        lookup_license("0BSD"@) == Some(record("0BSD"@, "Zero-Clause BSD"@, LicenseType::Permissive, true, true, false, false, false)),
        lookup_license("Unlicense"@) == Some(record("Unlicense"@, "The Unlicense"@, LicenseType::PublicDomain, true, true, false, false, false)),
        lookup_license("CC0-1.0"@) == Some(record("CC0-1.0"@, "Creative Commons Zero v1.0 Universal"@, LicenseType::PublicDomain, true, true, false, false, false)),
        lookup_license("MPL-2.0"@) == Some(record("MPL-2.0"@, "Mozilla Public License 2.0"@, LicenseType::WeakCopyleft, true, true, true, false, true)),
        lookup_license("LGPL-2.1"@) == Some(record("LGPL-2.1"@, "GNU Lesser General Public License v2.1"@, LicenseType::WeakCopyleft, false, false, true, false, true)),
        lookup_license("LGPL-3.0"@) == Some(record("LGPL-3.0"@, "GNU Lesser General Public License v3.0"@, LicenseType::WeakCopyleft, false, false, true, false, true)),
        lookup_license("GPL-2.0"@) == Some(record("GPL-2.0"@, "GNU General Public License v2.0"@, LicenseType::Copyleft, false, false, true, true, true)),
        lookup_license("GPL-3.0"@) == Some(record("GPL-3.0"@, "GNU General Public License v3.0"@, LicenseType::Copyleft, false, false, true, true, true)),
        lookup_license("AGPL-3.0"@) == Some(record("AGPL-3.0"@, "GNU Affero General Public License v3.0"@, LicenseType::Copyleft, false, false, true, true, true)),
        lookup_license("BSL-1.0"@) == Some(record("BSL-1.0"@, "Boost Software License 1.0"@, LicenseType::Permissive, true, true, true, false, false)),
        lookup_license("Zlib"@) == Some(record("Zlib"@, "zlib License"@, LicenseType::Permissive, true, true, true, false, false)),
        lookup_license("MIT-0"@) == Some(record("MIT-0"@, "MIT No Attribution"@, LicenseType::Permissive, true, true, false, false, false)),
        lookup_license("BlueOak-1.0.0"@) == Some(record("BlueOak-1.0.0"@, "Blue Oak Model License 1.0.0"@, LicenseType::Permissive, true, true, true, false, false)),
{
    law_lookup_builtin_id(0);
    law_lookup_builtin_id(1);
    law_lookup_builtin_id(2);
    law_lookup_builtin_id(3);
    law_lookup_builtin_id(4);
    law_lookup_builtin_id(5);
    law_lookup_builtin_id(6);
    law_lookup_builtin_id(7);
    law_lookup_builtin_id(8);
    law_lookup_builtin_id(9);
    law_lookup_builtin_id(10);
    law_lookup_builtin_id(11);
    law_lookup_builtin_id(12);
    law_lookup_builtin_id(13);
    law_lookup_builtin_id(14);
    law_lookup_builtin_id(15);
    law_lookup_builtin_id(16);
    law_lookup_builtin_id(17);
}

/// Whether a license passes a list filter: the filter, lower-cased, occurs in the
/// lower-cased type label with spaces written as hyphens (`weak-copyleft`), or in
/// the lower-cased license ID.
pub open spec fn license_matches_filter(r: LicenseRecord, filter: Seq<char>) -> bool {
    let f = lower_text(filter);
    contains_text(hyphenated(lower_text(r.license_type.spec_label())), f) || contains_text(lower_text(r.id), f)
}

/// A license passes the list filter when the lower-cased filter occurs anywhere in
/// its lower-cased ID, or anywhere in its lower-cased type label written with
/// hyphens for spaces; it passes only then. An empty filter lets every license
/// through.
pub proof fn law_filter_matches_substrings(r: LicenseRecord, filter: Seq<char>)
    ensures
        forall|i: int|
            0 <= i && i + lower_text(filter).len() <= lower_text(r.id).len()
                && #[trigger] lower_text(r.id).subrange(i, i + lower_text(filter).len()) == lower_text(filter)
                ==> license_matches_filter(r, filter),
        forall|i: int|
            0 <= i && i + lower_text(filter).len() <= hyphenated(lower_text(r.license_type.spec_label())).len()
                && #[trigger] hyphenated(lower_text(r.license_type.spec_label())).subrange(
                    i,
                    i + lower_text(filter).len(),
                ) == lower_text(filter) ==> license_matches_filter(r, filter),
        license_matches_filter(r, filter) ==> (exists|i: int|
            0 <= i && i + lower_text(filter).len() <= lower_text(r.id).len()
                && #[trigger] lower_text(r.id).subrange(i, i + lower_text(filter).len()) == lower_text(filter))
            || (exists|i: int|
            0 <= i && i + lower_text(filter).len() <= hyphenated(lower_text(r.license_type.spec_label())).len()
                && #[trigger] hyphenated(lower_text(r.license_type.spec_label())).subrange(
                    i,
                    i + lower_text(filter).len(),
                ) == lower_text(filter)),
        filter.len() == 0 ==> license_matches_filter(r, filter),
{
    let f = lower_text(filter);
    let id = lower_text(r.id);
    let ty = hyphenated(lower_text(r.license_type.spec_label()));
    assert forall|i: int| 0 <= i && i + f.len() <= id.len() && #[trigger] id.subrange(i, i + f.len()) == f
        implies license_matches_filter(r, filter) by {
        assert(occurs_at(id, f, i));
    }
    assert forall|i: int| 0 <= i && i + f.len() <= ty.len() && #[trigger] ty.subrange(i, i + f.len()) == f
        implies license_matches_filter(r, filter) by {
        assert(occurs_at(ty, f, i));
    }
    if license_matches_filter(r, filter) {
        if contains_text(id, f) {
            let i = choose|i: int| 0 <= i <= id.len() - f.len() && #[trigger] occurs_at(id, f, i);
            assert(id.subrange(i, i + f.len()) == f);
        } else {
            let i = choose|i: int| 0 <= i <= ty.len() - f.len() && #[trigger] occurs_at(ty, f, i);
            assert(ty.subrange(i, i + f.len()) == f);
        }
    }
    if filter.len() == 0 {
        assert(f =~= Seq::<char>::empty());
        assert(id.subrange(0, 0) =~= f);
        assert(occurs_at(id, f, 0));
    }
}

/// Whether `info` passes the list filter `filter`, matched without regard to case
/// against its type (`permissive`, `copyleft`, `weak-copyleft`, `public-domain`, ...)
/// and against its ID.
pub fn matches_filter(info: &LicenseInfo, filter: &str) -> (b: bool)
    ensures
        b == license_matches_filter(info@, filter@),
{
    let f = to_lowercase(filter);
    let label = to_lowercase(info.license_type.label());
    let type_text = hyphenate(label.as_str());
    if str_contains(type_text.as_str(), f.as_str()) {
        return true;
    }
    let id = to_lowercase(info.id.as_str());
    str_contains(id.as_str(), f.as_str())
}

/// Database of known open-source licenses.
pub struct LicenseDb {
    licenses: Vec<LicenseInfo>,
}

impl View for LicenseDb {
    type V = Seq<LicenseRecord>;

    closed spec fn view(&self) -> Seq<LicenseRecord> {
        self.licenses@.map_values(|i: LicenseInfo| i@)
    }
}

impl LicenseInfo {
    fn entry(
        id: &str,
        full_name: &str,
        license_type: LicenseType,
        mit: bool,
        apache2: bool,
        attribution: bool,
        source_disclosure: bool,
        notice: bool,
    ) -> (r: LicenseInfo)
        ensures
            r@ == record(id@, full_name@, license_type, mit, apache2, attribution, source_disclosure, notice),
    {
        LicenseInfo {
            id: String::from_str(id),
            full_name: String::from_str(full_name),
            license_type,
            compatible_with_mit: mit,
            compatible_with_apache2: apache2,
            requires_attribution: attribution,
            requires_source_disclosure: source_disclosure,
            requires_license_notice: notice,
        }
    }
}

impl LicenseDb {
    #[verifier::type_invariant]
    spec fn holds_builtin(self) -> bool {
        self@ == builtin_licenses()
    }

    /// Create a new license database populated with common licenses.
    pub fn new() -> (db: Self)
        ensures
            db@ == builtin_licenses(),
    {
        let mut v: Vec<LicenseInfo> = Vec::new();
    v.push(LicenseInfo::entry("MIT", "MIT License", LicenseType::Permissive, true, true, true, false, false));
    v.push(LicenseInfo::entry("Apache-2.0", "Apache License 2.0", LicenseType::Permissive, true, true, true, false, true));
    v.push(LicenseInfo::entry("BSD-2-Clause", "BSD 2-Clause Simplified License", LicenseType::Permissive, true, true, true, false, false));
    v.push(LicenseInfo::entry("BSD-3-Clause", "BSD 3-Clause New/Revised License", LicenseType::Permissive, true, true, true, false, false));
    v.push(LicenseInfo::entry("ISC", "ISC License", LicenseType::Permissive, true, true, true, false, false));
    v.push(LicenseInfo::entry("0BSD", "Zero-Clause BSD", LicenseType::Permissive, true, true, false, false, false));
    v.push(LicenseInfo::entry("Unlicense", "The Unlicense", LicenseType::PublicDomain, true, true, false, false, false));
    v.push(LicenseInfo::entry("CC0-1.0", "Creative Commons Zero v1.0 Universal", LicenseType::PublicDomain, true, true, false, false, false));
    v.push(LicenseInfo::entry("MPL-2.0", "Mozilla Public License 2.0", LicenseType::WeakCopyleft, true, true, true, false, true));
    v.push(LicenseInfo::entry("LGPL-2.1", "GNU Lesser General Public License v2.1", LicenseType::WeakCopyleft, false, false, true, false, true));
    v.push(LicenseInfo::entry("LGPL-3.0", "GNU Lesser General Public License v3.0", LicenseType::WeakCopyleft, false, false, true, false, true));
    v.push(LicenseInfo::entry("GPL-2.0", "GNU General Public License v2.0", LicenseType::Copyleft, false, false, true, true, true));
    v.push(LicenseInfo::entry("GPL-3.0", "GNU General Public License v3.0", LicenseType::Copyleft, false, false, true, true, true));
    v.push(LicenseInfo::entry("AGPL-3.0", "GNU Affero General Public License v3.0", LicenseType::Copyleft, false, false, true, true, true));
    v.push(LicenseInfo::entry("BSL-1.0", "Boost Software License 1.0", LicenseType::Permissive, true, true, true, false, false));
    v.push(LicenseInfo::entry("Zlib", "zlib License", LicenseType::Permissive, true, true, true, false, false));
    v.push(LicenseInfo::entry("MIT-0", "MIT No Attribution", LicenseType::Permissive, true, true, false, false, false));
    v.push(LicenseInfo::entry("BlueOak-1.0.0", "Blue Oak Model License 1.0.0", LicenseType::Permissive, true, true, true, false, false));
        assert(v@.map_values(|i: LicenseInfo| i@) =~= builtin_licenses());
        let db = LicenseDb { licenses: v };
        db
    }

    /// Look up a license by its SPDX identifier: an exact match first, then one
    /// that is equal up to ASCII case.
    pub fn lookup(&self, id: &str) -> (r: Option<&LicenseInfo>)
        ensures
            match r {
                Some(info) => lookup_license(id@) == Some(info@),
                None => lookup_license(id@) is None,
            },
    {
        proof {
            use_type_invariant(self);
        }
        let n = self.licenses.len();
        let mut i: usize = 0;
        while i < n
            invariant
                n == self.licenses@.len() == self@.len(),
                self@ == builtin_licenses(),
                i <= n,
                forall|k: int| 0 <= k < i ==> !id_matches(#[trigger] self@[k], id@, false),
            decreases n - i,
        {
            if str_equals(self.licenses[i].id.as_str(), id) {
                assert(self@[i as int] == self.licenses@[i as int]@);
                assert(id_matches(self@[i as int], id@, false));
                proof { lemma_first_match(self@, id@, false); }
                assert(first_match(self@, id@, false) == Some(i as int));
                return Some(&self.licenses[i]);
            }
            assert(self@[i as int] == self.licenses@[i as int]@);
            i = i + 1;
        }
        proof { lemma_first_match(self@, id@, false); }
        let mut j: usize = 0;
        while j < n
            invariant
                n == self.licenses@.len() == self@.len(),
                self@ == builtin_licenses(),
                j <= n,
                first_match(self@, id@, false) is None,
                forall|k: int| 0 <= k < j ==> !id_matches(#[trigger] self@[k], id@, true),
            decreases n - j,
        {
            if str_eq_ignore_ascii_case(self.licenses[j].id.as_str(), id) {
                assert(self@[j as int] == self.licenses@[j as int]@);
                assert(id_matches(self@[j as int], id@, true));
                proof { lemma_first_match(self@, id@, true); }
                assert(first_match(self@, id@, true) == Some(j as int));
                return Some(&self.licenses[j]);
            }
            assert(self@[j as int] == self.licenses@[j as int]@);
            j = j + 1;
        }
        proof { lemma_first_match(self@, id@, true); }
        None
    }

    /// All known licenses, in the order in which the database holds them.
    pub fn all(&self) -> (r: Vec<&LicenseInfo>)
        ensures
            r@.len() == builtin_licenses().len(),
            forall|k: int| 0 <= k < r@.len() ==> (#[trigger] r@[k])@ == builtin_licenses()[k],
    {
        proof {
            use_type_invariant(self);
        }
        let mut r: Vec<&LicenseInfo> = Vec::new();
        let n = self.licenses.len();
        let mut i: usize = 0;
        while i < n
            invariant
                n == self.licenses@.len() == self@.len(),
                self@ == builtin_licenses(),
                i <= n,
                r@.len() == i,
                forall|k: int| 0 <= k < i ==> (#[trigger] r@[k])@ == builtin_licenses()[k],
            decreases n - i,
        {
            r.push(&self.licenses[i]);
            assert(self@[i as int] == self.licenses@[i as int]@);
            i = i + 1;
        }
        r
    }

    /// Whether a license ID is known (exactly or up to ASCII case).
    pub fn is_known(&self, id: &str) -> (b: bool)
        ensures
            b == lookup_license(id@) is Some,
    {
        self.lookup(id).is_some()
    }
}

impl Default for LicenseDb {
    fn default() -> (db: Self)
        ensures
            db@ == builtin_licenses(),
    {
        Self::new()
    }
}

} // verus!
