//! Deciding whether dependency licenses are compatible with a project's license.

use vstd::prelude::*;
use crate::dependency_scanner::{DependencyLicense, DependencyRecord};
use crate::license_db::{
    LicenseDb, LicenseRecord, LicenseType, builtin_licenses, law_lookup_builtin_id, lookup_license,
};
use crate::spdx_parser::{
    SpdxExpr, SpdxParser, SpdxTerm, dedup, is_separator, lemma_license_ids_distinct_and_complete, law_canonical_spelling_is_normal,
    law_single_word_parses_to_its_license, leaf_ids, parse_expression, strings_view, term_has_or,
};
use crate::text::{ascii_uppercase, copy_string, is_white_space, lemma_trim_fixed, str_equals, upper_text};

verus! {

/// Compatibility status for a single dependency.
#[derive(Debug, Clone, PartialEq, Eq)]
pub enum CompatibilityStatus {
    Compatible,
    Incompatible { reason: String },
    Unknown,
}

/// A compatibility status, as plain values.
pub enum StatusTerm {
    Compatible,
    Incompatible(Seq<char>),
    Unknown,
}

impl View for CompatibilityStatus {
    type V = StatusTerm;

    open spec fn view(&self) -> StatusTerm {
        match self {
            CompatibilityStatus::Compatible => StatusTerm::Compatible,
            CompatibilityStatus::Incompatible { reason } => StatusTerm::Incompatible(reason@),
            CompatibilityStatus::Unknown => StatusTerm::Unknown,
        }
    }
}

/// Result of checking a single dependency.
#[derive(Debug, Clone)]
pub struct DependencyCheck {
    pub dep: DependencyLicense,
    pub status: CompatibilityStatus,
    pub license_type: Option<LicenseType>,
    pub requires_attribution: bool,
    pub notes: Vec<String>,
}

/// The result of checking a dependency, as plain values.
pub struct CheckRecord {
    pub dep: DependencyRecord,
    pub status: StatusTerm,
    pub license_type: Option<LicenseType>,
    pub requires_attribution: bool,
    pub notes: Seq<Seq<char>>,
}

impl View for DependencyCheck {
    type V = CheckRecord;

    open spec fn view(&self) -> CheckRecord {
        CheckRecord {
            dep: self.dep@,
            status: self.status@,
            license_type: self.license_type,
            requires_attribution: self.requires_attribution,
            notes: strings_view(self.notes@),
        }
    }
}

/// Whether a license may be used in a project licensed under `project`: a project
/// under `MIT` or `Apache-2.0` needs compatibility with that license; any other
/// project (such as the dual `MIT OR Apache-2.0`) needs both.
pub open spec fn compatible_with_project(project: Seq<char>, r: LicenseRecord) -> bool {
    if project == "MIT"@ {
        r.compatible_with_mit
    } else if project == "Apache-2.0"@ {
        r.compatible_with_apache2
    } else {
        r.compatible_with_mit && r.compatible_with_apache2
    }
}

/// Whether `id` is a known license that may be used in a project under `project`.
pub open spec fn id_compatible(project: Seq<char>, id: Seq<char>) -> bool {
    match lookup_license(id) {
        Some(r) => compatible_with_project(project, r),
        None => false,
    }
}

/// The outcome of checking a license expression, or a part of it.
#[derive(Clone, Copy, PartialEq, Eq, Structural, Debug)]
pub enum Verdict {
    Compatible,
    Incompatible,
    Unknown,
}

/// The outcome for the single license `id`: unknown when the database does not
/// know it, else whether it may be used under `project`.
pub open spec fn id_verdict(project: Seq<char>, id: Seq<char>) -> Verdict {
    match lookup_license(id) {
        Some(r) => if compatible_with_project(project, r) {
            Verdict::Compatible
        } else {
            Verdict::Incompatible
        },
        None => Verdict::Unknown,
    }
}

/// The outcome of `a OR b`: compatible when either branch is; otherwise
/// incompatible when either branch is; unknown otherwise.
pub open spec fn either_verdict(a: Verdict, b: Verdict) -> Verdict {
    if a == Verdict::Compatible || b == Verdict::Compatible {
        Verdict::Compatible
    } else if a == Verdict::Incompatible || b == Verdict::Incompatible {
        Verdict::Incompatible
    } else {
        Verdict::Unknown
    }
}

/// The outcome of `a AND b`: incompatible when either branch is, compatible when
/// both are, unknown otherwise.
pub open spec fn both_verdict(a: Verdict, b: Verdict) -> Verdict {
    if a == Verdict::Incompatible || b == Verdict::Incompatible {
        Verdict::Incompatible
    } else if a == Verdict::Compatible && b == Verdict::Compatible {
        Verdict::Compatible
    } else {
        Verdict::Unknown
    }
}

/// The outcome of an expression under `project`: an OR needs one compatible
/// branch, an AND needs all branches compatible, and an exception does not change
/// the outcome of its license.
pub open spec fn term_verdict(t: SpdxTerm, project: Seq<char>) -> Verdict
    decreases t,
{
    match t {
        SpdxTerm::License { id, .. } => id_verdict(project, id),
        SpdxTerm::WithException { license, .. } => term_verdict(*license, project),
        SpdxTerm::And(a, b) => both_verdict(term_verdict(*a, project), term_verdict(*b, project)),
        SpdxTerm::Or(a, b) => either_verdict(term_verdict(*a, project), term_verdict(*b, project)),
    }
}

/// Why license `id` (described by `r`) cannot be used under `project`.
pub open spec fn incompatibility_reason(id: Seq<char>, r: LicenseRecord, project: Seq<char>) -> Seq<char> {
    id + " ("@ + r.license_type.spec_label() + ") is not compatible with "@ + project
}

/// The note for a license that requires source disclosure.
pub open spec fn disclosure_note(id: Seq<char>) -> Seq<char> {
    id + " requires source code disclosure"@
}

/// The note for a license that requires its notice to be kept.
pub open spec fn notice_note(id: Seq<char>) -> Seq<char> {
    id + " requires retaining the license notice"@
}

/// The note for an ID the database does not know.
pub open spec fn unknown_note(id: Seq<char>) -> Seq<char> {
    "Unknown license identifier: "@ + id
}

/// The note for a dependency without license information.
pub open spec fn no_license_note() -> Seq<char> {
    "No license information found"@
}

/// What the check has gathered from the license IDs read so far.
#[verifier::ext_equal]
pub struct IdScan {
    pub license_type: Option<LicenseType>,
    pub requires_attribution: bool,
    pub any_incompatible: bool,
    pub reasons: Seq<Seq<char>>,
    pub notes: Seq<Seq<char>>,
}

/// Gathers what the license `id` contributes.
pub open spec fn scan_id(st: IdScan, id: Seq<char>, project: Seq<char>) -> IdScan {
    match lookup_license(id) {
        Some(r) => {
            let compatible = compatible_with_project(project, r);
            let n1 = if r.requires_source_disclosure { st.notes.push(disclosure_note(id)) } else { st.notes };
            let n2 = if r.requires_license_notice { n1.push(notice_note(id)) } else { n1 };
            IdScan {
                license_type: Some(r.license_type),
                requires_attribution: st.requires_attribution || r.requires_attribution,
                any_incompatible: st.any_incompatible || !compatible,
                reasons: if compatible { st.reasons } else { st.reasons.push(incompatibility_reason(id, r, project)) },
                notes: n2,
            }
        },
        None => IdScan { notes: st.notes.push(unknown_note(id)), ..st },
    }
}

/// Gathers what the license IDs `ids` contribute, in order.
pub open spec fn scan_ids(ids: Seq<Seq<char>>, project: Seq<char>) -> IdScan
    decreases ids.len(),
{
    if ids.len() == 0 {
        IdScan {
            license_type: None,
            requires_attribution: false,
            any_incompatible: false,
            reasons: Seq::empty(),
            notes: Seq::empty(),
        }
    } else {
        scan_id(scan_ids(ids.drop_last(), project), ids.last(), project)
    }
}

/// `parts` joined with `sep` between them.
pub open spec fn join(parts: Seq<Seq<char>>, sep: Seq<char>) -> Seq<char>
    decreases parts.len(),
{
    if parts.len() == 0 {
        Seq::empty()
    } else if parts.len() == 1 {
        parts[0]
    } else {
        join(parts.drop_last(), sep) + sep + parts.last()
    }
}

/// The status of the expression `t`, whose distinct license IDs are `ids`: its
/// outcome, with the reasons of all known incompatible licenses, joined by `; `,
/// when it is incompatible.
pub open spec fn expression_status(t: SpdxTerm, ids: Seq<Seq<char>>, project: Seq<char>) -> StatusTerm {
    match term_verdict(t, project) {
        Verdict::Compatible => StatusTerm::Compatible,
        Verdict::Incompatible => StatusTerm::Incompatible(join(scan_ids(ids, project).reasons, "; "@)),
        Verdict::Unknown => StatusTerm::Unknown,
    }
}

/// The result of checking the dependency `dep` against a project under `project`.
pub open spec fn check_dependency(dep: DependencyRecord, project: Seq<char>) -> CheckRecord {
    match dep.license_expression {
        None => CheckRecord {
            dep,
            status: StatusTerm::Unknown,
            license_type: None,
            requires_attribution: false,
            notes: seq![no_license_note()],
        },
        Some(e) => {
            let parsed = parse_expression(e);
            let ids = dedup(leaf_ids(parsed));
            let st = scan_ids(ids, project);
            CheckRecord {
                dep,
                status: expression_status(parsed, ids, project),
                license_type: st.license_type,
                requires_attribution: st.requires_attribution,
                notes: st.notes,
            }
        },
    }
}

/// `parts` joined with `sep` between them.
pub fn join_strings(parts: &Vec<String>, sep: &str) -> (r: String)
    ensures
        r@ == join(strings_view(parts@), sep@),
{
    let ghost pv = strings_view(parts@);
    let mut r = String::new();
    let mut i: usize = 0;
    while i < parts.len()
        invariant
            pv == strings_view(parts@),
            i <= parts@.len(),
            r@ == join(pv.take(i as int), sep@),
        decreases parts.len() - i,
    {
        assert(pv.take(i + 1).drop_last() =~= pv.take(i as int));
        assert(pv[i as int] == parts@[i as int]@);
        if i > 0 {
            r.append(sep);
        }
        r.append(parts[i].as_str());
        assert(r@ =~= join(pv.take(i + 1), sep@));
        i = i + 1;
    }
    assert(pv.take(i as int) =~= pv);
    r
}

/// Checks if dependency licenses are compatible with the project license.
pub struct CompatibilityChecker {
    db: LicenseDb,
    spdx: SpdxParser,
}

impl CompatibilityChecker {
    pub fn new() -> Self {
        CompatibilityChecker { db: LicenseDb::new(), spdx: SpdxParser::new() }
    }

    fn project_allows(info: &crate::license_db::LicenseInfo, project_license: &str) -> (b: bool)
        ensures
            b == compatible_with_project(project_license@, info@),
    {
        if str_equals(project_license, "MIT") {
            info.compatible_with_mit
        } else if str_equals(project_license, "Apache-2.0") {
            info.compatible_with_apache2
        } else {
            info.compatible_with_mit && info.compatible_with_apache2
        }
    }

    /// Check all dependencies against the project's license.
    pub fn check_all(&self, deps: &[DependencyLicense], project_license: &str) -> (r: Vec<DependencyCheck>)
        ensures
            r@.len() == deps@.len(),
            forall|k: int| 0 <= k < r@.len() ==> (#[trigger] r@[k])@ == check_dependency(deps@[k]@, project_license@),
    {
        let mut r: Vec<DependencyCheck> = Vec::new();
        let mut i: usize = 0;
        while i < deps.len()
            invariant
                i <= deps@.len(),
                r@.len() == i,
                forall|k: int| 0 <= k < i ==> (#[trigger] r@[k])@ == check_dependency(deps@[k]@, project_license@),
            decreases deps.len() - i,
        {
            r.push(self.check_one(&deps[i], project_license));
            i = i + 1;
        }
        r
    }

    /// Check a single dependency against the project's license.
    pub fn check_one(&self, dep: &DependencyLicense, project_license: &str) -> (r: DependencyCheck)
        ensures
            r@ == check_dependency(dep@, project_license@),
    {
        let expr = match &dep.license_expression {
            None => {
                let mut notes: Vec<String> = Vec::new();
                notes.push(String::from_str("No license information found"));
                assert(strings_view(notes@) =~= seq![no_license_note()]);
                return DependencyCheck {
                    dep: dep.duplicate(),
                    status: CompatibilityStatus::Unknown,
                    license_type: None,
                    requires_attribution: false,
                    notes,
                };
            },
            Some(e) => e,
        };
        let parsed = self.spdx.parse(expr.as_str());
        let license_ids = parsed.all_license_ids();
        let ghost ids = strings_view(license_ids@);
        let ghost project = project_license@;

        let mut notes: Vec<String> = Vec::new();
        let mut requires_attribution = false;
        let mut license_type: Option<LicenseType> = None;
        let mut any_incompatible = false;
        let mut incompatible_reasons: Vec<String> = Vec::new();

        let mut i: usize = 0;
        assert(ids.take(0) =~= Seq::<Seq<char>>::empty());
        assert(strings_view(notes@) =~= Seq::<Seq<char>>::empty());
        assert(strings_view(incompatible_reasons@) =~= Seq::<Seq<char>>::empty());
        while i < license_ids.len()
            invariant
                ids == strings_view(license_ids@),
                project == project_license@,
                i <= ids.len(),
                (IdScan {
                    license_type,
                    requires_attribution,
                    any_incompatible,
                    reasons: strings_view(incompatible_reasons@),
                    notes: strings_view(notes@),
                }) == scan_ids(ids.take(i as int), project),
            decreases license_ids.len() - i,
        {
            let id = &license_ids[i];
            let ghost idv = id@;
            assert(ids[i as int] == idv);
            assert(ids.take(i + 1).drop_last() =~= ids.take(i as int));
            assert(ids.take(i + 1).last() == idv);
            let ghost before = IdScan {
                license_type,
                requires_attribution,
                any_incompatible,
                reasons: strings_view(incompatible_reasons@),
                notes: strings_view(notes@),
            };
            match self.db.lookup(id.as_str()) {
                Some(info) => {
                    license_type = Some(info.license_type);
                    if info.requires_attribution {
                        requires_attribution = true;
                    }
                    let compatible = Self::project_allows(info, project_license);
                    if !compatible {
                        any_incompatible = true;
                        let mut reason = copy_string(id);
                        reason.append(" (");
                        reason.append(info.license_type.label());
                        reason.append(") is not compatible with ");
                        reason.append(project_license);
                        incompatible_reasons.push(reason);
                    }
                    if info.requires_source_disclosure {
                        let mut n = copy_string(id);
                        n.append(" requires source code disclosure");
                        notes.push(n);
                    }
                    if info.requires_license_notice {
                        let mut n = copy_string(id);
                        n.append(" requires retaining the license notice");
                        notes.push(n);
                    }
                },
                None => {
                    let mut n = String::from_str("Unknown license identifier: ");
                    n.append(id.as_str());
                    notes.push(n);
                },
            }
            assert((IdScan {
                license_type,
                requires_attribution,
                any_incompatible,
                reasons: strings_view(incompatible_reasons@),
                notes: strings_view(notes@),
            }) =~= scan_id(before, idv, project));
            i = i + 1;
        }
        assert(ids.take(i as int) =~= ids);

        let status = match self.expression_verdict(&parsed, project_license) {
            Verdict::Compatible => CompatibilityStatus::Compatible,
            Verdict::Incompatible => CompatibilityStatus::Incompatible {
                reason: join_strings(&incompatible_reasons, "; "),
            },
            Verdict::Unknown => CompatibilityStatus::Unknown,
        };

        DependencyCheck {
            dep: dep.duplicate(),
            status,
            license_type,
            requires_attribution,
            notes,
        }
    }

    /// The outcome of the expression `e` under `project_license`: an OR needs one
    /// compatible branch, an AND needs all branches compatible, and a license the
    /// database does not know gives an unknown outcome.
    pub fn expression_verdict(&self, e: &SpdxExpr, project_license: &str) -> (v: Verdict)
        ensures
            v == term_verdict(e@, project_license@),
        decreases e,
    {
        match e {
            SpdxExpr::License { id, .. } => match self.db.lookup(id.as_str()) {
                Some(info) => if Self::project_allows(info, project_license) {
                    Verdict::Compatible
                } else {
                    Verdict::Incompatible
                },
                None => Verdict::Unknown,
            },
            SpdxExpr::WithException { license, .. } => self.expression_verdict(license, project_license),
            SpdxExpr::And(a, b) => {
                let va = self.expression_verdict(a, project_license);
                let vb = self.expression_verdict(b, project_license);
                if va == Verdict::Incompatible || vb == Verdict::Incompatible {
                    Verdict::Incompatible
                } else if va == Verdict::Compatible && vb == Verdict::Compatible {
                    Verdict::Compatible
                } else {
                    Verdict::Unknown
                }
            },
            SpdxExpr::Or(a, b) => {
                let va = self.expression_verdict(a, project_license);
                let vb = self.expression_verdict(b, project_license);
                if va == Verdict::Compatible || vb == Verdict::Compatible {
                    Verdict::Compatible
                } else if va == Verdict::Incompatible || vb == Verdict::Incompatible {
                    Verdict::Incompatible
                } else {
                    Verdict::Unknown
                }
            },
        }
    }

    /// Check if a license `license_b` may be used in a project under `license_a`.
    pub fn are_compatible(&self, license_a: &str, license_b: &str) -> (b: bool)
        ensures
            b == id_compatible(license_a@, license_b@),
    {
        match self.db.lookup(license_b) {
            Some(info) => Self::project_allows(info, license_a),
            None => false,
        }
    }
}

/// Whether `id` is a known license that may not be used in a project under `project`.
pub open spec fn id_incompatible(project: Seq<char>, id: Seq<char>) -> bool {
    match lookup_license(id) {
        Some(r) => !compatible_with_project(project, r),
        None => false,
    }
}

/// The outcome of an expression whose licenses are all known, as a plain truth
/// value: an OR holds when a branch holds, an AND when both do.
pub open spec fn term_allowed(t: SpdxTerm, project: Seq<char>) -> bool
    decreases t,
{
    match t {
        SpdxTerm::License { id, .. } => id_compatible(project, id),
        SpdxTerm::WithException { license, .. } => term_allowed(*license, project),
        SpdxTerm::And(a, b) => term_allowed(*a, project) && term_allowed(*b, project),
        SpdxTerm::Or(a, b) => term_allowed(*a, project) || term_allowed(*b, project),
    }
}

/// The status of a checked dependency is the outcome of its parsed expression.
proof fn lemma_status_is_verdict(dep: DependencyRecord, project: Seq<char>, e: Seq<char>)
    requires
        dep.license_expression == Some(e),
    ensures
        (check_dependency(dep, project).status == StatusTerm::Compatible)
            == (term_verdict(parse_expression(e), project) == Verdict::Compatible),
        (check_dependency(dep, project).status is Incompatible)
            == (term_verdict(parse_expression(e), project) == Verdict::Incompatible),
        (check_dependency(dep, project).status == StatusTerm::Unknown)
            == (term_verdict(parse_expression(e), project) == Verdict::Unknown),
{
}

/// A dependency without a license expression is of unknown compatibility.
pub proof fn law_missing_license_is_unknown(dep: DependencyRecord, project: Seq<char>)
    requires
        dep.license_expression is None,
    ensures
        check_dependency(dep, project).status == StatusTerm::Unknown,
{
}

/// An OR is compatible exactly when one of its branches is, and incompatible
/// exactly when neither is compatible and one of them is incompatible.
pub proof fn law_or_needs_one_compatible_branch(a: SpdxTerm, b: SpdxTerm, project: Seq<char>)
    ensures
        (term_verdict(SpdxTerm::Or(Box::new(a), Box::new(b)), project) == Verdict::Compatible)
            == (term_verdict(a, project) == Verdict::Compatible || term_verdict(b, project) == Verdict::Compatible),
        (term_verdict(SpdxTerm::Or(Box::new(a), Box::new(b)), project) == Verdict::Incompatible)
            == (term_verdict(a, project) != Verdict::Compatible && term_verdict(b, project) != Verdict::Compatible
                && (term_verdict(a, project) == Verdict::Incompatible || term_verdict(b, project) == Verdict::Incompatible)),
{
}

/// An AND is compatible exactly when all its branches are, and incompatible
/// exactly when one of them is.
pub proof fn law_and_needs_all_branches_compatible(a: SpdxTerm, b: SpdxTerm, project: Seq<char>)
    ensures
        (term_verdict(SpdxTerm::And(Box::new(a), Box::new(b)), project) == Verdict::Compatible)
            == (term_verdict(a, project) == Verdict::Compatible && term_verdict(b, project) == Verdict::Compatible),
        (term_verdict(SpdxTerm::And(Box::new(a), Box::new(b)), project) == Verdict::Incompatible)
            == (term_verdict(a, project) == Verdict::Incompatible || term_verdict(b, project) == Verdict::Incompatible),
{
}

proof fn lemma_all_known_verdict(t: SpdxTerm, project: Seq<char>)
    requires
        forall|k: int| 0 <= k < leaf_ids(t).len() ==> (#[trigger] lookup_license(leaf_ids(t)[k])) is Some,
    ensures
        term_verdict(t, project) == (if term_allowed(t, project) { Verdict::Compatible } else { Verdict::Incompatible }),
    decreases t,
{
    match t {
        SpdxTerm::License { id, .. } => {
            assert(leaf_ids(t)[0] == id);
        },
        SpdxTerm::WithException { license, .. } => {
            assert(leaf_ids(t) == leaf_ids(*license));
            lemma_all_known_verdict(*license, project);
        },
        SpdxTerm::And(a, b) => {
            lemma_leaves_split(*a, *b, t);
            lemma_all_known_verdict(*a, project);
            lemma_all_known_verdict(*b, project);
        },
        SpdxTerm::Or(a, b) => {
            lemma_leaves_split(*a, *b, t);
            lemma_all_known_verdict(*a, project);
            lemma_all_known_verdict(*b, project);
        },
    }
}

/// The leaves of a binary node are those of its left branch, then those of its right.
proof fn lemma_leaves_split(a: SpdxTerm, b: SpdxTerm, t: SpdxTerm)
    requires
        leaf_ids(t) == leaf_ids(a) + leaf_ids(b),
    ensures
        forall|k: int| 0 <= k < leaf_ids(a).len() ==> #[trigger] leaf_ids(a)[k] == leaf_ids(t)[k],
        forall|k: int| 0 <= k < leaf_ids(b).len() ==> #[trigger] leaf_ids(b)[k] == leaf_ids(t)[k + leaf_ids(a).len()],
{
}

/// When every license of the expression is known, the dependency is compatible
/// exactly when the expression holds with OR read as "either" and AND as "both",
/// and incompatible otherwise.
pub proof fn law_known_licenses_follow_the_and_or_rule(dep: DependencyRecord, project: Seq<char>, e: Seq<char>)
    requires
        dep.license_expression == Some(e),
        forall|k: int| 0 <= k < leaf_ids(parse_expression(e)).len()
            ==> (#[trigger] lookup_license(leaf_ids(parse_expression(e))[k])) is Some,
    ensures
        term_allowed(parse_expression(e), project) ==> check_dependency(dep, project).status == StatusTerm::Compatible,
        !term_allowed(parse_expression(e), project) ==> check_dependency(dep, project).status is Incompatible,
{
    lemma_all_known_verdict(parse_expression(e), project);
    lemma_status_is_verdict(dep, project, e);
}

proof fn lemma_all_compatible_verdict(t: SpdxTerm, project: Seq<char>)
    requires
        forall|k: int| 0 <= k < leaf_ids(t).len() ==> id_compatible(project, #[trigger] leaf_ids(t)[k]),
    ensures
        term_verdict(t, project) == Verdict::Compatible,
    decreases t,
{
    match t {
        SpdxTerm::License { id, .. } => {
            assert(leaf_ids(t)[0] == id);
        },
        SpdxTerm::WithException { license, .. } => {
            assert(leaf_ids(t) == leaf_ids(*license));
            lemma_all_compatible_verdict(*license, project);
        },
        SpdxTerm::And(a, b) => {
            lemma_leaves_split(*a, *b, t);
            lemma_all_compatible_verdict(*a, project);
            lemma_all_compatible_verdict(*b, project);
        },
        SpdxTerm::Or(a, b) => {
            lemma_leaves_split(*a, *b, t);
            lemma_all_compatible_verdict(*a, project);
            lemma_all_compatible_verdict(*b, project);
        },
    }
}

/// A dependency whose licenses are all known and compatible is compatible.
pub proof fn law_all_compatible_is_compatible(dep: DependencyRecord, project: Seq<char>, e: Seq<char>)
    requires
        dep.license_expression == Some(e),
        forall|k: int| 0 <= k < leaf_ids(parse_expression(e)).len()
            ==> id_compatible(project, #[trigger] leaf_ids(parse_expression(e))[k]),
    ensures
        check_dependency(dep, project).status == StatusTerm::Compatible,
{
    lemma_all_compatible_verdict(parse_expression(e), project);
    lemma_status_is_verdict(dep, project, e);
}

proof fn lemma_none_known_verdict(t: SpdxTerm, project: Seq<char>)
    requires
        forall|k: int| 0 <= k < leaf_ids(t).len() ==> (#[trigger] lookup_license(leaf_ids(t)[k])) is None,
    ensures
        term_verdict(t, project) == Verdict::Unknown,
    decreases t,
{
    match t {
        SpdxTerm::License { id, .. } => {
            assert(leaf_ids(t)[0] == id);
        },
        SpdxTerm::WithException { license, .. } => {
            assert(leaf_ids(t) == leaf_ids(*license));
            lemma_none_known_verdict(*license, project);
        },
        SpdxTerm::And(a, b) => {
            lemma_leaves_split(*a, *b, t);
            lemma_none_known_verdict(*a, project);
            lemma_none_known_verdict(*b, project);
        },
        SpdxTerm::Or(a, b) => {
            lemma_leaves_split(*a, *b, t);
            lemma_none_known_verdict(*a, project);
            lemma_none_known_verdict(*b, project);
        },
    }
}

/// A dependency none of whose licenses the database knows is of unknown compatibility.
pub proof fn law_unknown_licenses_are_unknown(dep: DependencyRecord, project: Seq<char>, e: Seq<char>)
    requires
        dep.license_expression == Some(e),
        forall|k: int| 0 <= k < leaf_ids(parse_expression(e)).len()
            ==> (#[trigger] lookup_license(leaf_ids(parse_expression(e))[k])) is None,
    ensures
        check_dependency(dep, project).status == StatusTerm::Unknown,
{
    lemma_none_known_verdict(parse_expression(e), project);
    lemma_status_is_verdict(dep, project, e);
}

proof fn lemma_no_or_incompatible_verdict(t: SpdxTerm, project: Seq<char>, k: int)
    requires
        !term_has_or(t),
        0 <= k < leaf_ids(t).len(),
        id_incompatible(project, leaf_ids(t)[k]),
    ensures
        term_verdict(t, project) == Verdict::Incompatible,
    decreases t,
{
    match t {
        SpdxTerm::License { id, .. } => {
            assert(leaf_ids(t)[0] == id);
        },
        SpdxTerm::WithException { license, .. } => {
            lemma_no_or_incompatible_verdict(*license, project, k);
        },
        SpdxTerm::And(a, b) => {
            lemma_leaves_split(*a, *b, t);
            if k < leaf_ids(*a).len() {
                lemma_no_or_incompatible_verdict(*a, project, k);
            } else {
                lemma_no_or_incompatible_verdict(*b, project, k - leaf_ids(*a).len());
            }
        },
        SpdxTerm::Or(a, b) => {},
    }
}

/// Without OR, one known license that may not be used makes the dependency
/// incompatible.
pub proof fn law_and_incompatible_license_decides(dep: DependencyRecord, project: Seq<char>, e: Seq<char>, k: int)
    requires
        dep.license_expression == Some(e),
        !term_has_or(parse_expression(e)),
        0 <= k < leaf_ids(parse_expression(e)).len(),
        id_incompatible(project, leaf_ids(parse_expression(e))[k]),
    ensures
        check_dependency(dep, project).status is Incompatible,
{
    lemma_no_or_incompatible_verdict(parse_expression(e), project, k);
    lemma_status_is_verdict(dep, project, e);
}

/// A single known license: the dependency has that license's type, and it is
/// compatible exactly when `are_compatible` says so, else incompatible for that
/// license's reason.
pub proof fn law_single_license_matches_are_compatible(
    dep: DependencyRecord,
    project: Seq<char>,
    e: Seq<char>,
    id: Seq<char>,
    plus: bool,
    r: LicenseRecord,
)
    requires
        dep.license_expression == Some(e),
        parse_expression(e) == (SpdxTerm::License { id, plus }),
        lookup_license(id) == Some(r),
    ensures
        check_dependency(dep, project).license_type == Some(r.license_type),
        id_compatible(project, id) ==> check_dependency(dep, project).status == StatusTerm::Compatible,
        !id_compatible(project, id) ==> check_dependency(dep, project).status
            == StatusTerm::Incompatible(incompatibility_reason(id, r, project)),
{
    let t = parse_expression(e);
    assert(leaf_ids(t) =~= seq![id]);
    reveal_with_fuel(crate::spdx_parser::add_all_unique, 2);
    assert(dedup(leaf_ids(t)) =~= seq![id]);
    reveal_with_fuel(scan_ids, 2);
    assert(seq![id].drop_last() =~= Seq::<Seq<char>>::empty());
    let rs = scan_ids(seq![id], project).reasons;
    if !id_compatible(project, id) {
        assert(rs =~= seq![incompatibility_reason(id, r, project)]);
        assert(join(rs, "; "@) == rs[0]);
    }
}

impl Default for CompatibilityChecker {
    fn default() -> (c: Self) {
        Self::new()
    }
}

/// `w` is one word as the tokenizer reads it (no white space at its ends, no
/// space, tab, parenthesis or `+` inside) and not an operator keyword.
spec fn plain_word(w: Seq<char>) -> bool {
    &&& w.len() > 0
    &&& !is_white_space(w[0])
    &&& !is_white_space(w.last())
    &&& forall|i: int| 0 <= i < w.len() ==> !is_separator(#[trigger] w[i])
    &&& upper_text(w) != "AND"@
    &&& upper_text(w) != "OR"@
    &&& upper_text(w) != "WITH"@
}

#[verifier::spinoff_prover]
proof fn lemma_builtin_ids_plain_first_half(t: Seq<LicenseRecord>)
    requires
        t == builtin_licenses(),
    ensures
        forall|k: int| 0 <= k < 9 ==> plain_word(#[trigger] t[k].id),
{
    reveal_strlit("MIT");
    reveal_strlit("Apache-2.0");
    reveal_strlit("BSD-2-Clause");
    reveal_strlit("BSD-3-Clause");
    reveal_strlit("ISC");
    reveal_strlit("0BSD");
    reveal_strlit("Unlicense");
    reveal_strlit("CC0-1.0");
    reveal_strlit("MPL-2.0");
    reveal_strlit("LGPL-2.1");
    reveal_strlit("LGPL-3.0");
    reveal_strlit("GPL-2.0");
    reveal_strlit("GPL-3.0");
    reveal_strlit("AGPL-3.0");
    reveal_strlit("BSL-1.0");
    reveal_strlit("Zlib");
    reveal_strlit("MIT-0");
    reveal_strlit("BlueOak-1.0.0");
    reveal_strlit("APACHE-2.0");
    reveal_strlit("BSD-2-CLAUSE");
    reveal_strlit("BSD-3-CLAUSE");
    reveal_strlit("UNLICENSE");
    reveal_strlit("ZLIB");
    reveal_strlit("BLUEOAK-1.0.0");
    reveal_strlit("AND");
    reveal_strlit("OR");
    reveal_strlit("WITH");
    assert(plain_word(t[0].id)) by {
        assert(ascii_uppercase("MIT"@) =~= "MIT"@);
        assert("AND"@[0] != "MIT"@[0]);
    }
    assert(plain_word(t[1].id)) by {
        assert(ascii_uppercase("Apache-2.0"@) =~= "APACHE-2.0"@);
    }
    assert(plain_word(t[2].id)) by {
        assert(ascii_uppercase("BSD-2-Clause"@) =~= "BSD-2-CLAUSE"@);
    }
    assert(plain_word(t[3].id)) by {
        assert(ascii_uppercase("BSD-3-Clause"@) =~= "BSD-3-CLAUSE"@);
    }
    assert(plain_word(t[4].id)) by {
        assert(ascii_uppercase("ISC"@) =~= "ISC"@);
        assert("AND"@[0] != "ISC"@[0]);
    }
    assert(plain_word(t[5].id)) by {
        assert(ascii_uppercase("0BSD"@) =~= "0BSD"@);
        assert("WITH"@[0] != "0BSD"@[0]);
    }
    assert(plain_word(t[6].id)) by {
        assert(ascii_uppercase("Unlicense"@) =~= "UNLICENSE"@);
    }
    assert(plain_word(t[7].id)) by {
        assert(ascii_uppercase("CC0-1.0"@) =~= "CC0-1.0"@);
    }
    assert(plain_word(t[8].id)) by {
        assert(ascii_uppercase("MPL-2.0"@) =~= "MPL-2.0"@);
    }
    assert forall|k: int| 0 <= k < 9 implies plain_word(#[trigger] t[k].id) by {}
}

#[verifier::spinoff_prover]
proof fn lemma_builtin_ids_plain_second_half(t: Seq<LicenseRecord>)
    requires
        t == builtin_licenses(),
    ensures
        forall|k: int| 9 <= k < 18 ==> plain_word(#[trigger] t[k].id),
{
    reveal_strlit("MIT");
    reveal_strlit("Apache-2.0");
    reveal_strlit("BSD-2-Clause");
    reveal_strlit("BSD-3-Clause");
    reveal_strlit("ISC");
    reveal_strlit("0BSD");
    reveal_strlit("Unlicense");
    reveal_strlit("CC0-1.0");
    reveal_strlit("MPL-2.0");
    reveal_strlit("LGPL-2.1");
    reveal_strlit("LGPL-3.0");
    reveal_strlit("GPL-2.0");
    reveal_strlit("GPL-3.0");
    reveal_strlit("AGPL-3.0");
    reveal_strlit("BSL-1.0");
    reveal_strlit("Zlib");
    reveal_strlit("MIT-0");
    reveal_strlit("BlueOak-1.0.0");
    reveal_strlit("APACHE-2.0");
    reveal_strlit("BSD-2-CLAUSE");
    reveal_strlit("BSD-3-CLAUSE");
    reveal_strlit("UNLICENSE");
    reveal_strlit("ZLIB");
    reveal_strlit("BLUEOAK-1.0.0");
    reveal_strlit("AND");
    reveal_strlit("OR");
    reveal_strlit("WITH");
    assert(plain_word(t[9].id)) by {
        assert(ascii_uppercase("LGPL-2.1"@) =~= "LGPL-2.1"@);
    }
    assert(plain_word(t[10].id)) by {
        assert(ascii_uppercase("LGPL-3.0"@) =~= "LGPL-3.0"@);
    }
    assert(plain_word(t[11].id)) by {
        assert(ascii_uppercase("GPL-2.0"@) =~= "GPL-2.0"@);
    }
    assert(plain_word(t[12].id)) by {
        assert(ascii_uppercase("GPL-3.0"@) =~= "GPL-3.0"@);
    }
    assert(plain_word(t[13].id)) by {
        assert(ascii_uppercase("AGPL-3.0"@) =~= "AGPL-3.0"@);
    }
    assert(plain_word(t[14].id)) by {
        assert(ascii_uppercase("BSL-1.0"@) =~= "BSL-1.0"@);
    }
    assert(plain_word(t[15].id)) by {
        assert(ascii_uppercase("Zlib"@) =~= "ZLIB"@);
        assert("WITH"@[0] != "ZLIB"@[0]);
    }
    assert(plain_word(t[16].id)) by {
        assert(ascii_uppercase("MIT-0"@) =~= "MIT-0"@);
    }
    assert(plain_word(t[17].id)) by {
        assert(ascii_uppercase("BlueOak-1.0.0"@) =~= "BLUEOAK-1.0.0"@);
    }
    assert forall|k: int| 9 <= k < 18 implies plain_word(#[trigger] t[k].id) by {}
}

/// Each built-in license ID, written alone, parses to that license.
pub proof fn law_builtin_id_parses_to_itself(k: int)
    requires
        0 <= k < builtin_licenses().len(),
    ensures
        parse_expression(builtin_licenses()[k].id) == (SpdxTerm::License { id: builtin_licenses()[k].id, plus: false }),
{
    let t = builtin_licenses();
    lemma_builtin_ids_plain_first_half(t);
    lemma_builtin_ids_plain_second_half(t);
    let id = t[k].id;
    assert(plain_word(id));
    lemma_trim_fixed(id);
    law_single_word_parses_to_its_license(id);
    reveal_strlit("MIT");
    reveal_strlit("Apache-2.0");
    reveal_strlit("BSD-2-Clause");
    reveal_strlit("BSD-3-Clause");
    reveal_strlit("ISC");
    reveal_strlit("0BSD");
    reveal_strlit("Unlicense");
    reveal_strlit("CC0-1.0");
    reveal_strlit("MPL-2.0");
    reveal_strlit("LGPL-2.1");
    reveal_strlit("LGPL-3.0");
    reveal_strlit("GPL-2.0");
    reveal_strlit("GPL-3.0");
    reveal_strlit("AGPL-3.0");
    reveal_strlit("BSL-1.0");
    reveal_strlit("Zlib");
    reveal_strlit("MIT-0");
    reveal_strlit("BlueOak-1.0.0");
    if k == 0 {
        law_canonical_spelling_is_normal(0);
    } else if k == 1 {
        law_canonical_spelling_is_normal(1);
    } else if k == 2 {
        law_canonical_spelling_is_normal(9);
    } else if k == 3 {
        law_canonical_spelling_is_normal(10);
    } else if k == 4 {
        law_canonical_spelling_is_normal(12);
    } else if k == 5 {
        law_canonical_spelling_is_normal(15);
    } else if k == 6 {
        law_canonical_spelling_is_normal(13);
    } else if k == 7 {
        law_canonical_spelling_is_normal(14);
    } else if k == 8 {
        law_canonical_spelling_is_normal(11);
    } else if k == 9 {
        law_canonical_spelling_is_normal(7);
    } else if k == 10 {
        law_canonical_spelling_is_normal(8);
    } else if k == 11 {
        law_canonical_spelling_is_normal(4);
    } else if k == 12 {
        law_canonical_spelling_is_normal(5);
    } else if k == 13 {
        law_canonical_spelling_is_normal(6);
    } else if k == 14 {
        law_canonical_spelling_is_normal(16);
    } else if k == 15 {
        law_canonical_spelling_is_normal(17);
    } else if k == 16 {
        law_canonical_spelling_is_normal(19);
    } else if k == 17 {
        law_canonical_spelling_is_normal(18);
    }
}

/// A dependency whose license expression is one built-in license ID gets that
/// license's type, and is compatible exactly when `are_compatible` accepts that ID
/// under `project`, else incompatible for that license's reason.
pub proof fn law_builtin_license_alone(dep: DependencyRecord, project: Seq<char>, k: int)
    requires
        0 <= k < builtin_licenses().len(),
        dep.license_expression == Some(builtin_licenses()[k].id),
    ensures
        check_dependency(dep, project).license_type == Some(builtin_licenses()[k].license_type),
        id_compatible(project, builtin_licenses()[k].id) ==> check_dependency(dep, project).status
            == StatusTerm::Compatible,
        !id_compatible(project, builtin_licenses()[k].id) ==> check_dependency(dep, project).status
            == StatusTerm::Incompatible(
                incompatibility_reason(builtin_licenses()[k].id, builtin_licenses()[k], project),
            ),
{
    let r = builtin_licenses()[k];
    law_builtin_id_parses_to_itself(k);
    law_lookup_builtin_id(k);
    law_single_license_matches_are_compatible(dep, project, r.id, r.id, false, r);
}

/// Whether `id` is a known license that requires attribution.
pub open spec fn attributing(id: Seq<char>) -> bool {
    lookup_license(id) matches Some(r) && r.requires_attribution
}

/// Whether `id` is a known license of type `t`.
pub open spec fn known_of_type(id: Seq<char>, t: LicenseType) -> bool {
    lookup_license(id) matches Some(r) && r.license_type == t
}

proof fn lemma_scan_attribution_and_type(ids: Seq<Seq<char>>, project: Seq<char>)
    ensures
        scan_ids(ids, project).requires_attribution
            == exists|x: Seq<char>| #[trigger] ids.contains(x) && attributing(x),
        (scan_ids(ids, project).license_type is None)
            == forall|x: Seq<char>| #[trigger] ids.contains(x) ==> lookup_license(x) is None,
        scan_ids(ids, project).license_type matches Some(t) ==> exists|x: Seq<char>|
            #[trigger] ids.contains(x) && known_of_type(x, t),
    decreases ids.len(),
{
    if ids.len() > 0 {
        let pre = ids.drop_last();
        let last = ids.last();
        lemma_scan_attribution_and_type(pre, project);
        assert forall|x: Seq<char>| #[trigger] ids.contains(x) <==> (pre.contains(x) || x == last) by {
            if ids.contains(x) {
                let k = choose|k: int| 0 <= k < ids.len() && ids[k] == x;
                if k < ids.len() - 1 {
                    assert(pre[k] == x);
                }
            }
            if pre.contains(x) {
                let k = choose|k: int| 0 <= k < pre.len() && pre[k] == x;
                assert(ids[k] == x);
            }
            if x == last {
                assert(ids[ids.len() - 1] == x);
            }
        }
        let st = scan_ids(ids, project);
        let sp = scan_ids(pre, project);
        if st.requires_attribution {
            if sp.requires_attribution {
                let x = choose|x: Seq<char>| #[trigger] pre.contains(x) && attributing(x);
                assert(ids.contains(x));
            } else {
                assert(ids.contains(last) && attributing(last));
            }
        }
        if exists|x: Seq<char>| #[trigger] ids.contains(x) && attributing(x) {
            let x = choose|x: Seq<char>| #[trigger] ids.contains(x) && attributing(x);
            if x != last {
                assert(pre.contains(x));
            }
        }
        if !(forall|x: Seq<char>| #[trigger] ids.contains(x) ==> lookup_license(x) is None) {
            let x = choose|x: Seq<char>| !(#[trigger] ids.contains(x) ==> lookup_license(x) is None);
            if x != last {
                assert(pre.contains(x));
            }
        }
        if forall|x: Seq<char>| #[trigger] ids.contains(x) ==> lookup_license(x) is None {
            assert(ids.contains(last));
            assert forall|x: Seq<char>| #[trigger] pre.contains(x) implies lookup_license(x) is None by {
                assert(ids.contains(x));
            }
        }
        if st.license_type is Some {
            if lookup_license(last) is Some {
                assert(ids.contains(last));
            } else {
                let t = st.license_type->0;
                let x = choose|x: Seq<char>|
                    #[trigger] pre.contains(x) && known_of_type(x, t);
                assert(ids.contains(x));
            }
        }
    }
}

/// A dependency requires attribution exactly when one of the known licenses named in
/// its expression does. It has a license type exactly when some license named in
/// its expression is known, and then that type is the type of one of them.
pub proof fn law_attribution_and_type_come_from_known_licenses(dep: DependencyRecord, project: Seq<char>, e: Seq<char>)
    requires
        dep.license_expression == Some(e),
    ensures
        check_dependency(dep, project).requires_attribution
            == exists|x: Seq<char>| #[trigger] leaf_ids(parse_expression(e)).contains(x) && attributing(x),
        (check_dependency(dep, project).license_type is None)
            == forall|x: Seq<char>| #[trigger] leaf_ids(parse_expression(e)).contains(x) ==> lookup_license(x) is None,
        check_dependency(dep, project).license_type matches Some(t) ==> exists|x: Seq<char>|
            #[trigger] leaf_ids(parse_expression(e)).contains(x) && known_of_type(x, t),
{
    let leaves = leaf_ids(parse_expression(e));
    let ids = dedup(leaves);
    lemma_license_ids_distinct_and_complete(parse_expression(e));
    lemma_scan_attribution_and_type(ids, project);
    assert forall|x: Seq<char>| #[trigger] leaves.contains(x) <==> ids.contains(x) by {}
}

/// Whether `n` is a note that the license `id` gives: that it is unknown, that it
/// requires source disclosure, or that its notice must be kept.
pub open spec fn note_of(id: Seq<char>, n: Seq<char>) -> bool {
    match lookup_license(id) {
        None => n == "Unknown license identifier: "@ + id,
        Some(r) => (r.requires_source_disclosure && n == id + " requires source code disclosure"@)
            || (r.requires_license_notice && n == id + " requires retaining the license notice"@),
    }
}

proof fn lemma_scan_notes_and_last_type(ids: Seq<Seq<char>>, project: Seq<char>)
    ensures
        forall|n: Seq<char>| #[trigger] scan_ids(ids, project).notes.contains(n)
            <==> exists|k: int| 0 <= k < ids.len() && #[trigger] note_of(ids[k], n),
        forall|j: int| 0 <= j < ids.len() && lookup_license(ids[j]) is Some
            && (forall|m: int| j < m < ids.len() ==> lookup_license(#[trigger] ids[m]) is None)
            ==> scan_ids(ids, project).license_type == Some(#[trigger] lookup_license(ids[j])->0.license_type),
    decreases ids.len(),
{
    if ids.len() > 0 {
        let pre = ids.drop_last();
        let x = ids.last();
        lemma_scan_notes_and_last_type(pre, project);
        let np = scan_ids(pre, project).notes;
        let nn = scan_ids(ids, project).notes;
        assert(np.len() <= nn.len() && forall|i: int| 0 <= i < np.len() ==> nn[i] == np[i]);
        assert forall|n: Seq<char>| #[trigger] nn.contains(n)
            implies exists|k: int| 0 <= k < ids.len() && #[trigger] note_of(ids[k], n) by {
            if np.contains(n) {
                let k = choose|k: int| 0 <= k < pre.len() && #[trigger] note_of(pre[k], n);
                assert(ids[k] == pre[k]);
            } else {
                let i = choose|i: int| 0 <= i < nn.len() && nn[i] == n;
                if i < np.len() {
                    assert(nn[i] == np[i]);
                }
                assert(note_of(ids[ids.len() - 1], n));
            }
        }
        assert forall|n: Seq<char>| (exists|k: int| 0 <= k < ids.len() && #[trigger] note_of(ids[k], n))
            implies #[trigger] nn.contains(n) by {
            let k = choose|k: int| 0 <= k < ids.len() && #[trigger] note_of(ids[k], n);
            if k < ids.len() - 1 {
                assert(note_of(pre[k], n));
                assert(np.contains(n));
                let i = choose|i: int| 0 <= i < np.len() && np[i] == n;
                assert(nn[i] == n);
            } else {
                match lookup_license(x) {
                    None => {
                        assert(nn[nn.len() - 1] == n);
                    },
                    Some(r) => {
                        let n1 = if r.requires_source_disclosure { np.push(disclosure_note(x)) } else { np };
                        if r.requires_source_disclosure && n == x + " requires source code disclosure"@ {
                            assert(n1[np.len() as int] == n);
                            assert(nn[np.len() as int] == n);
                        } else {
                            assert(nn[nn.len() - 1] == n);
                        }
                    },
                }
            }
        }
        assert forall|j: int| 0 <= j < ids.len() && lookup_license(ids[j]) is Some
            && (forall|m: int| j < m < ids.len() ==> lookup_license(#[trigger] ids[m]) is None)
            implies scan_ids(ids, project).license_type == Some(#[trigger] lookup_license(ids[j])->0.license_type) by {
            if j < ids.len() - 1 {
                assert(lookup_license(ids[ids.len() - 1]) is None);
                assert(pre[j] == ids[j]);
                assert forall|m: int| j < m < pre.len() implies lookup_license(#[trigger] pre[m]) is None by {
                    assert(pre[m] == ids[m]);
                }
            }
        }
    }
}

/// The notes of a checked dependency say, for each license named in its expression,
/// that it is unknown, that it requires source disclosure, or that its notice must
/// be kept, and say nothing else; a dependency without a license expression gets
/// the one note that no license information was found. Its license type is that of
/// the last known license among the distinct IDs of its expression.
pub proof fn law_check_notes_and_type(dep: DependencyRecord, project: Seq<char>)
    ensures
        dep.license_expression is None ==> check_dependency(dep, project).notes
            == seq!["No license information found"@],
        dep.license_expression matches Some(e) ==> forall|n: Seq<char>|
            #[trigger] check_dependency(dep, project).notes.contains(n) <==> exists|x: Seq<char>|
                leaf_ids(parse_expression(e)).contains(x) && #[trigger] note_of(x, n),
        dep.license_expression matches Some(e) ==> forall|j: int|
            0 <= j < dedup(leaf_ids(parse_expression(e))).len()
                && lookup_license(dedup(leaf_ids(parse_expression(e)))[j]) is Some
                && (forall|m: int| j < m < dedup(leaf_ids(parse_expression(e))).len()
                    ==> lookup_license(#[trigger] dedup(leaf_ids(parse_expression(e)))[m]) is None)
                ==> check_dependency(dep, project).license_type
                    == Some(#[trigger] lookup_license(dedup(leaf_ids(parse_expression(e)))[j])->0.license_type),
{
    match dep.license_expression {
        None => {},
        Some(e) => {
            let leaves = leaf_ids(parse_expression(e));
            let ids = dedup(leaves);
            lemma_license_ids_distinct_and_complete(parse_expression(e));
            lemma_scan_notes_and_last_type(ids, project);
            let notes = check_dependency(dep, project).notes;
            assert forall|n: Seq<char>| #[trigger] notes.contains(n) <==> exists|x: Seq<char>|
                leaves.contains(x) && #[trigger] note_of(x, n) by {
                if notes.contains(n) {
                    let k = choose|k: int| 0 <= k < ids.len() && #[trigger] note_of(ids[k], n);
                    assert(ids.contains(ids[k]));
                    assert(leaves.contains(ids[k]));
                }
                if exists|x: Seq<char>| leaves.contains(x) && #[trigger] note_of(x, n) {
                    let x = choose|x: Seq<char>| leaves.contains(x) && #[trigger] note_of(x, n);
                    assert(ids.contains(x));
                    let k = choose|k: int| 0 <= k < ids.len() && ids[k] == x;
                    assert(note_of(ids[k], n));
                }
            }
        },
    }
}

} // verus!
