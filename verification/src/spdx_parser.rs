//! Parser for SPDX license expressions (`MIT OR Apache-2.0`,
//! `GPL-2.0 WITH Classpath-exception-2.0`, `(MIT OR Apache-2.0) AND BSD-3-Clause`, ...).

use vstd::prelude::*;
use crate::text::{
    assoc, assoc_lookup, chars_of, copy_string, pairs_view, push_char, str_equals, to_uppercase,
    trim, trim_str, upper_text, is_white_space, is_ascii_text, ascii_uppercase,
    lemma_trim_fixed, lemma_trim_idempotent, lemma_assoc_found,
};

verus! {

/// Parsed SPDX license expression.
#[derive(Debug)]
pub enum SpdxExpr {
    /// A single license ID, optionally with a "+" for "or later".
    License { id: String, plus: bool },
    /// A WITH exception: License WITH Exception
    WithException { license: Box<SpdxExpr>, exception: String },
    /// AND conjunction: both licenses apply.
    And(Box<SpdxExpr>, Box<SpdxExpr>),
    /// OR disjunction: either license applies.
    Or(Box<SpdxExpr>, Box<SpdxExpr>),
}

/// An SPDX expression with its strings taken as character sequences.
pub enum SpdxTerm {
    License { id: Seq<char>, plus: bool },
    WithException { license: Box<SpdxTerm>, exception: Seq<char> },
    And(Box<SpdxTerm>, Box<SpdxTerm>),
    Or(Box<SpdxTerm>, Box<SpdxTerm>),
}

/// The term that an expression stands for.
pub open spec fn term_of(e: SpdxExpr) -> SpdxTerm
    decreases e,
{
    match e {
        SpdxExpr::License { id, plus } => SpdxTerm::License { id: id@, plus },
        SpdxExpr::WithException { license, exception } => SpdxTerm::WithException {
            license: Box::new(term_of(*license)),
            exception: exception@,
        },
        SpdxExpr::And(a, b) => SpdxTerm::And(Box::new(term_of(*a)), Box::new(term_of(*b))),
        SpdxExpr::Or(a, b) => SpdxTerm::Or(Box::new(term_of(*a)), Box::new(term_of(*b))),
    }
}

impl View for SpdxExpr {
    type V = SpdxTerm;

    open spec fn view(&self) -> SpdxTerm {
        term_of(*self)
    }
}

/// The license IDs of a term, left to right, with repetitions.
pub open spec fn leaf_ids(t: SpdxTerm) -> Seq<Seq<char>>
    decreases t,
{
    match t {
        SpdxTerm::License { id, .. } => seq![id],
        SpdxTerm::WithException { license, .. } => leaf_ids(*license),
        SpdxTerm::And(a, b) => leaf_ids(*a) + leaf_ids(*b),
        SpdxTerm::Or(a, b) => leaf_ids(*a) + leaf_ids(*b),
    }
}

/// Whether a term holds an OR operator anywhere.
pub open spec fn term_has_or(t: SpdxTerm) -> bool
    decreases t,
{
    match t {
        SpdxTerm::Or(_, _) => true,
        SpdxTerm::And(a, b) => term_has_or(*a) || term_has_or(*b),
        SpdxTerm::WithException { license, .. } => term_has_or(*license),
        SpdxTerm::License { .. } => false,
    }
}

/// `acc` with `x` appended unless it is already there.
pub open spec fn add_unique(acc: Seq<Seq<char>>, x: Seq<char>) -> Seq<Seq<char>> {
    if acc.contains(x) {
        acc
    } else {
        acc.push(x)
    }
}

/// `acc` with each of `xs`, in order, appended unless already there.
pub open spec fn add_all_unique(acc: Seq<Seq<char>>, xs: Seq<Seq<char>>) -> Seq<Seq<char>>
    decreases xs.len(),
{
    if xs.len() == 0 {
        acc
    } else {
        add_all_unique(add_unique(acc, xs[0]), xs.drop_first())
    }
}

/// `xs` without repetitions, each element where it first occurs.
pub open spec fn dedup(xs: Seq<Seq<char>>) -> Seq<Seq<char>> {
    add_all_unique(Seq::empty(), xs)
}

/// The views of a vector of strings.
pub open spec fn strings_view(v: Seq<String>) -> Seq<Seq<char>> {
    v.map_values(|s: String| s@)
}

proof fn lemma_add_all_unique_append(acc: Seq<Seq<char>>, xs: Seq<Seq<char>>, ys: Seq<Seq<char>>)
    ensures
        add_all_unique(acc, xs + ys) == add_all_unique(add_all_unique(acc, xs), ys),
    decreases xs.len(),
{
    if xs.len() == 0 {
        assert(xs + ys =~= ys);
    } else {
        assert((xs + ys).drop_first() =~= xs.drop_first() + ys);
        lemma_add_all_unique_append(add_unique(acc, xs[0]), xs.drop_first(), ys);
    }
}

proof fn lemma_add_all_unique(acc: Seq<Seq<char>>, xs: Seq<Seq<char>>)
    requires
        acc.no_duplicates(),
    ensures
        add_all_unique(acc, xs).no_duplicates(),
        forall|x: Seq<char>| #[trigger] add_all_unique(acc, xs).contains(x) <==> (acc.contains(x) || xs.contains(x)),
    decreases xs.len(),
{
    if xs.len() > 0 {
        let acc1 = add_unique(acc, xs[0]);
        assert(acc1.no_duplicates()) by {
            if !acc.contains(xs[0]) {
                assert forall|i: int, j: int| 0 <= i < acc1.len() && 0 <= j < acc1.len() && i != j
                    implies acc1[i] != acc1[j] by {
                    if i == acc.len() as int {
                        assert(acc1[i] == xs[0]);
                        assert(acc1[j] == acc[j]);
                    } else if j == acc.len() as int {
                        assert(acc1[j] == xs[0]);
                        assert(acc1[i] == acc[i]);
                    }
                }
            }
        }
        lemma_add_all_unique(acc1, xs.drop_first());
        assert forall|x: Seq<char>| #[trigger] add_all_unique(acc, xs).contains(x) <==> (acc.contains(x) || xs.contains(x)) by {
            if xs.contains(x) && x != xs[0] {
                let k = choose|k: int| 0 <= k < xs.len() && xs[k] == x;
                assert(xs.drop_first()[k - 1] == x);
            }
            if xs.drop_first().contains(x) {
                let k = choose|k: int| 0 <= k < xs.drop_first().len() && xs.drop_first()[k] == x;
                assert(xs[k + 1] == x);
            }
            if acc1.contains(x) && !acc.contains(x) {
                assert(x == xs[0]);
                assert(xs[0] == x);
            }
            if x == xs[0] {
                assert(acc1.contains(x)) by {
                    if !acc.contains(x) {
                        assert(acc1[acc.len() as int] == x);
                    }
                }
            }
            if acc.contains(x) {
                let k = choose|k: int| 0 <= k < acc.len() && acc[k] == x;
                assert(acc1[k] == x);
            }
        }
    }
}

/// The license IDs that `all_license_ids` lists are those of the expression, each
/// exactly once.
pub proof fn lemma_license_ids_distinct_and_complete(t: SpdxTerm)
    ensures
        dedup(leaf_ids(t)).no_duplicates(),
        forall|x: Seq<char>| #[trigger] dedup(leaf_ids(t)).contains(x) <==> leaf_ids(t).contains(x),
{
    lemma_add_all_unique(Seq::empty(), leaf_ids(t));
}

impl PartialEq for SpdxExpr {
    fn eq(&self, other: &Self) -> (r: bool)
        decreases self,
    {
        match (self, other) {
            (SpdxExpr::License { id: i1, plus: p1 }, SpdxExpr::License { id: i2, plus: p2 }) => {
                str_equals(i1.as_str(), i2.as_str()) && *p1 == *p2
            },
            (
                SpdxExpr::WithException { license: l1, exception: e1 },
                SpdxExpr::WithException { license: l2, exception: e2 },
            ) => {
                (**l1).eq(&**l2) && str_equals(e1.as_str(), e2.as_str())
            },
            (SpdxExpr::And(a1, b1), SpdxExpr::And(a2, b2)) => {
                (**a1).eq(&**a2) && (**b1).eq(&**b2)
            },
            (SpdxExpr::Or(a1, b1), SpdxExpr::Or(a2, b2)) => {
                (**a1).eq(&**a2) && (**b1).eq(&**b2)
            },
            _ => false,
        }
    }
}

impl vstd::std_specs::cmp::PartialEqSpecImpl for SpdxExpr {
    open spec fn obeys_eq_spec() -> bool {
        true
    }

    open spec fn eq_spec(&self, other: &Self) -> bool {
        self@ == other@
    }
}

impl Eq for SpdxExpr {}

/// A lexical token of an SPDX expression.
#[derive(Debug, PartialEq, Eq)]
pub enum Token {
    Id(String),
    And,
    Or,
    With,
    Plus,
    LParen,
    RParen,
}

/// A token with its identifier taken as a character sequence.
pub enum Tok {
    Id(Seq<char>),
    And,
    Or,
    With,
    Plus,
    LParen,
    RParen,
}

impl View for Token {
    type V = Tok;

    open spec fn view(&self) -> Tok {
        match self {
            Token::Id(s) => Tok::Id(s@),
            Token::And => Tok::And,
            Token::Or => Tok::Or,
            Token::With => Tok::With,
            Token::Plus => Tok::Plus,
            Token::LParen => Tok::LParen,
            Token::RParen => Tok::RParen,
        }
    }
}

/// The views of a token vector.
pub open spec fn toks_view(ts: Seq<Token>) -> Seq<Tok> {
    ts.map_values(|t: Token| t@)
}

/// Upper-case spellings of well-known license IDs, each with its canonical form.
pub open spec fn canonical_ids() -> Seq<(Seq<char>, Seq<char>)> {
    seq![
        ("MIT"@, "MIT"@),
        ("APACHE-2.0"@, "Apache-2.0"@),
        ("APACHE2"@, "Apache-2.0"@),
        ("APACHE-2"@, "Apache-2.0"@),
        ("GPL-2.0"@, "GPL-2.0"@),
        ("GPL-3.0"@, "GPL-3.0"@),
        ("AGPL-3.0"@, "AGPL-3.0"@),
        ("LGPL-2.1"@, "LGPL-2.1"@),
        ("LGPL-3.0"@, "LGPL-3.0"@),
        ("BSD-2-CLAUSE"@, "BSD-2-Clause"@),
        ("BSD-3-CLAUSE"@, "BSD-3-Clause"@),
        ("MPL-2.0"@, "MPL-2.0"@),
        ("ISC"@, "ISC"@),
        ("UNLICENSE"@, "Unlicense"@),
        ("CC0-1.0"@, "CC0-1.0"@),
        ("0BSD"@, "0BSD"@),
        ("BSL-1.0"@, "BSL-1.0"@),
        ("ZLIB"@, "Zlib"@),
        ("BLUEOAK-1.0.0"@, "BlueOak-1.0.0"@),
        ("MIT-0"@, "MIT-0"@),
    ]
}

fn canonical_id_table() -> (t: Vec<(&'static str, &'static str)>)
    ensures
        pairs_view(t@) == canonical_ids(),
{
    let mut t: Vec<(&'static str, &'static str)> = Vec::new();
    t.push(("MIT", "MIT"));
    t.push(("APACHE-2.0", "Apache-2.0"));
    t.push(("APACHE2", "Apache-2.0"));
    t.push(("APACHE-2", "Apache-2.0"));
    t.push(("GPL-2.0", "GPL-2.0"));
    t.push(("GPL-3.0", "GPL-3.0"));
    t.push(("AGPL-3.0", "AGPL-3.0"));
    t.push(("LGPL-2.1", "LGPL-2.1"));
    t.push(("LGPL-3.0", "LGPL-3.0"));
    t.push(("BSD-2-CLAUSE", "BSD-2-Clause"));
    t.push(("BSD-3-CLAUSE", "BSD-3-Clause"));
    t.push(("MPL-2.0", "MPL-2.0"));
    t.push(("ISC", "ISC"));
    t.push(("UNLICENSE", "Unlicense"));
    t.push(("CC0-1.0", "CC0-1.0"));
    t.push(("0BSD", "0BSD"));
    t.push(("BSL-1.0", "BSL-1.0"));
    t.push(("ZLIB", "Zlib"));
    t.push(("BLUEOAK-1.0.0", "BlueOak-1.0.0"));
    t.push(("MIT-0", "MIT-0"));
    assert(pairs_view(t@) =~= canonical_ids());
    t
}

/// The canonical form of a license ID: the ID with white space trimmed, replaced
/// by its canonical spelling when its upper-case form is a well-known ID.
pub open spec fn normalize_license_id(id: Seq<char>) -> Seq<char> {
    let t = trim(id);
    canonical_form(t, upper_text(t))
}

/// The canonical spelling for `upper` when it is a well-known ID, else `id`.
pub open spec fn canonical_form(id: Seq<char>, upper: Seq<char>) -> Seq<char> {
    match assoc(canonical_ids(), upper) {
        Some(c) => c,
        None => id,
    }
}

/// `c` is a non-empty ASCII spelling without white space at its ends whose
/// upper-case form leads back to `c` in the table `t`.
spec fn spelling_round_trips(t: Seq<(Seq<char>, Seq<char>)>, c: Seq<char>) -> bool {
    &&& c.len() > 0
    &&& !is_white_space(c[0])
    &&& !is_white_space(c.last())
    &&& is_ascii_text(c)
    &&& assoc(t, ascii_uppercase(c)) == Some(c)
}

#[verifier::spinoff_prover]
proof fn lemma_round_trips_first_half(t: Seq<(Seq<char>, Seq<char>)>)
    requires
        t == canonical_ids(),
    ensures
        forall|k: int| 0 <= k < 10 ==> spelling_round_trips(t, #[trigger] t[k].1),
{
    reveal_strlit("MIT");
    reveal_strlit("APACHE-2.0");
    reveal_strlit("Apache-2.0");
    reveal_strlit("APACHE2");
    reveal_strlit("APACHE-2");
    reveal_strlit("GPL-2.0");
    reveal_strlit("GPL-3.0");
    reveal_strlit("AGPL-3.0");
    reveal_strlit("LGPL-2.1");
    reveal_strlit("LGPL-3.0");
    reveal_strlit("BSD-2-CLAUSE");
    reveal_strlit("BSD-2-Clause");
    reveal_strlit("BSD-3-CLAUSE");
    reveal_strlit("BSD-3-Clause");
    reveal_strlit("MPL-2.0");
    reveal_strlit("ISC");
    reveal_strlit("UNLICENSE");
    reveal_strlit("Unlicense");
    reveal_strlit("CC0-1.0");
    reveal_strlit("0BSD");
    reveal_strlit("BSL-1.0");
    reveal_strlit("ZLIB");
    reveal_strlit("Zlib");
    reveal_strlit("BLUEOAK-1.0.0");
    reveal_strlit("BlueOak-1.0.0");
    reveal_strlit("MIT-0");
    reveal_with_fuel(assoc, 21);
    assert(spelling_round_trips(t, t[0].1)) by {
        assert(ascii_uppercase("MIT"@) =~= "MIT"@);
    }
    assert(spelling_round_trips(t, t[1].1)) by {
        assert(ascii_uppercase("Apache-2.0"@) =~= "APACHE-2.0"@);
    }
    assert(spelling_round_trips(t, t[2].1)) by {
        assert(ascii_uppercase("Apache-2.0"@) =~= "APACHE-2.0"@);
    }
    assert(spelling_round_trips(t, t[3].1)) by {
        assert(ascii_uppercase("Apache-2.0"@) =~= "APACHE-2.0"@);
    }
    assert(spelling_round_trips(t, t[4].1)) by {
        assert(ascii_uppercase("GPL-2.0"@) =~= "GPL-2.0"@);
        assert("APACHE2"@[0] != "GPL-2.0"@[0]);
    }
    assert(spelling_round_trips(t, t[5].1)) by {
        assert(ascii_uppercase("GPL-3.0"@) =~= "GPL-3.0"@);
        assert("APACHE2"@[0] != "GPL-3.0"@[0]);
        assert("GPL-2.0"@[4] != "GPL-3.0"@[4]);
    }
    assert(spelling_round_trips(t, t[6].1)) by {
        assert(ascii_uppercase("AGPL-3.0"@) =~= "AGPL-3.0"@);
        assert("APACHE-2"@[1] != "AGPL-3.0"@[1]);
    }
    assert(spelling_round_trips(t, t[7].1)) by {
        assert(ascii_uppercase("LGPL-2.1"@) =~= "LGPL-2.1"@);
        assert("APACHE-2"@[0] != "LGPL-2.1"@[0]);
        assert("AGPL-3.0"@[0] != "LGPL-2.1"@[0]);
    }
    assert(spelling_round_trips(t, t[8].1)) by {
        assert(ascii_uppercase("LGPL-3.0"@) =~= "LGPL-3.0"@);
        assert("APACHE-2"@[0] != "LGPL-3.0"@[0]);
        assert("AGPL-3.0"@[0] != "LGPL-3.0"@[0]);
        assert("LGPL-2.1"@[5] != "LGPL-3.0"@[5]);
    }
    assert(spelling_round_trips(t, t[9].1)) by {
        assert(ascii_uppercase("BSD-2-Clause"@) =~= "BSD-2-CLAUSE"@);
    }
    assert forall|k: int| 0 <= k < 10 implies spelling_round_trips(t, #[trigger] t[k].1) by {}
}

#[verifier::spinoff_prover]
proof fn lemma_round_trips_second_half(t: Seq<(Seq<char>, Seq<char>)>)
    requires
        t == canonical_ids(),
    ensures
        forall|k: int| 10 <= k < 20 ==> spelling_round_trips(t, #[trigger] t[k].1),
{
    reveal_strlit("MIT");
    reveal_strlit("APACHE-2.0");
    reveal_strlit("Apache-2.0");
    reveal_strlit("APACHE2");
    reveal_strlit("APACHE-2");
    reveal_strlit("GPL-2.0");
    reveal_strlit("GPL-3.0");
    reveal_strlit("AGPL-3.0");
    reveal_strlit("LGPL-2.1");
    reveal_strlit("LGPL-3.0");
    reveal_strlit("BSD-2-CLAUSE");
    reveal_strlit("BSD-2-Clause");
    reveal_strlit("BSD-3-CLAUSE");
    reveal_strlit("BSD-3-Clause");
    reveal_strlit("MPL-2.0");
    reveal_strlit("ISC");
    reveal_strlit("UNLICENSE");
    reveal_strlit("Unlicense");
    reveal_strlit("CC0-1.0");
    reveal_strlit("0BSD");
    reveal_strlit("BSL-1.0");
    reveal_strlit("ZLIB");
    reveal_strlit("Zlib");
    reveal_strlit("BLUEOAK-1.0.0");
    reveal_strlit("BlueOak-1.0.0");
    reveal_strlit("MIT-0");
    reveal_with_fuel(assoc, 21);
    assert(spelling_round_trips(t, t[10].1)) by {
        assert(ascii_uppercase("BSD-3-Clause"@) =~= "BSD-3-CLAUSE"@);
        assert("BSD-2-CLAUSE"@[4] != "BSD-3-CLAUSE"@[4]);
    }
    assert(spelling_round_trips(t, t[11].1)) by {
        assert(ascii_uppercase("MPL-2.0"@) =~= "MPL-2.0"@);
        assert("APACHE2"@[0] != "MPL-2.0"@[0]);
        assert("GPL-2.0"@[0] != "MPL-2.0"@[0]);
        assert("GPL-3.0"@[0] != "MPL-2.0"@[0]);
    }
    assert(spelling_round_trips(t, t[12].1)) by {
        assert(ascii_uppercase("ISC"@) =~= "ISC"@);
        assert("MIT"@[0] != "ISC"@[0]);
    }
    assert(spelling_round_trips(t, t[13].1)) by {
        assert(ascii_uppercase("Unlicense"@) =~= "UNLICENSE"@);
    }
    assert(spelling_round_trips(t, t[14].1)) by {
        assert(ascii_uppercase("CC0-1.0"@) =~= "CC0-1.0"@);
        assert("APACHE2"@[0] != "CC0-1.0"@[0]);
        assert("GPL-2.0"@[0] != "CC0-1.0"@[0]);
        assert("GPL-3.0"@[0] != "CC0-1.0"@[0]);
        assert("MPL-2.0"@[0] != "CC0-1.0"@[0]);
    }
    assert(spelling_round_trips(t, t[15].1)) by {
        assert(ascii_uppercase("0BSD"@) =~= "0BSD"@);
    }
    assert(spelling_round_trips(t, t[16].1)) by {
        assert(ascii_uppercase("BSL-1.0"@) =~= "BSL-1.0"@);
        assert("APACHE2"@[0] != "BSL-1.0"@[0]);
        assert("GPL-2.0"@[0] != "BSL-1.0"@[0]);
        assert("GPL-3.0"@[0] != "BSL-1.0"@[0]);
        assert("MPL-2.0"@[0] != "BSL-1.0"@[0]);
        assert("CC0-1.0"@[0] != "BSL-1.0"@[0]);
    }
    assert(spelling_round_trips(t, t[17].1)) by {
        assert(ascii_uppercase("Zlib"@) =~= "ZLIB"@);
        assert("0BSD"@[0] != "ZLIB"@[0]);
    }
    assert(spelling_round_trips(t, t[18].1)) by {
        assert(ascii_uppercase("BlueOak-1.0.0"@) =~= "BLUEOAK-1.0.0"@);
    }
    assert(spelling_round_trips(t, t[19].1)) by {
        assert(ascii_uppercase("MIT-0"@) =~= "MIT-0"@);
    }
    assert forall|k: int| 10 <= k < 20 implies spelling_round_trips(t, #[trigger] t[k].1) by {}
}

proof fn lemma_canonical_table_text() -> (t: Seq<(Seq<char>, Seq<char>)>)
    ensures
        t == canonical_ids(),
        t.len() == 20,
        forall|k: int| 0 <= k < 20 ==> spelling_round_trips(t, #[trigger] t[k].1),
{
    let t = canonical_ids();
    lemma_round_trips_first_half(t);
    lemma_round_trips_second_half(t);
    t
}

/// Each canonical spelling is its own trim, and its upper-case form leads back to
/// it through the table.
proof fn lemma_canonical_spelling_fixed(k: int)
    requires
        0 <= k < canonical_ids().len(),
    ensures
        trim(canonical_ids()[k].1) == canonical_ids()[k].1,
        assoc(canonical_ids(), upper_text(canonical_ids()[k].1)) == Some(canonical_ids()[k].1),
{
    let t = lemma_canonical_table_text();
    let c = t[k].1;
    lemma_trim_fixed(c);
}

/// A canonical spelling of a well-known license ID normalizes to itself.
pub proof fn law_canonical_spelling_is_normal(k: int)
    requires
        0 <= k < canonical_ids().len(),
    ensures
        normalize_license_id(canonical_ids()[k].1) == canonical_ids()[k].1,
{
    lemma_canonical_spelling_fixed(k);
}

/// Normalizing a license ID that is already normalized changes nothing: the
/// canonical spelling of a well-known ID is its own canonical spelling, and any
/// other ID is already trimmed.
pub proof fn law_normalize_idempotent(id: Seq<char>)
    ensures
        normalize_license_id(normalize_license_id(id)) == normalize_license_id(id),
{
    let t = trim(id);
    lemma_trim_idempotent(id);
    match assoc(canonical_ids(), upper_text(t)) {
        Some(c) => {
            lemma_assoc_found(canonical_ids(), upper_text(t));
            let k = choose|k: int| 0 <= k < canonical_ids().len()
                && #[trigger] canonical_ids()[k] == (upper_text(t), c);
            lemma_canonical_spelling_fixed(k);
        },
        None => {},
    }
}

/// The token for a word that ends at white space or at the end of the input.
pub open spec fn word_token(w: Seq<char>) -> Tok {
    classified_word(w, upper_text(w))
}

/// The token for the word `w`, whose upper-case form is `u`.
pub open spec fn classified_word(w: Seq<char>, u: Seq<char>) -> Tok {
    if u == "AND"@ {
        Tok::And
    } else if u == "OR"@ {
        Tok::Or
    } else if u == "WITH"@ {
        Tok::With
    } else {
        Tok::Id(normalize_license_id(w))
    }
}

/// The token for one of the characters `(`, `)` and `+`.
pub open spec fn punct_token(c: char) -> Tok {
    if c == '(' {
        Tok::LParen
    } else if c == ')' {
        Tok::RParen
    } else {
        Tok::Plus
    }
}

/// One step of the tokenizer: the tokens so far and the word being read, after `c`.
pub open spec fn tokenizer_step(st: (Seq<Tok>, Seq<char>), c: char) -> (Seq<Tok>, Seq<char>) {
    let (ts, cur) = st;
    if c == '(' || c == ')' || c == '+' {
        let ts1 = if cur.len() > 0 {
            ts.push(Tok::Id(normalize_license_id(cur)))
        } else {
            ts
        };
        (ts1.push(punct_token(c)), Seq::empty())
    } else if c == ' ' || c == '\t' {
        if cur.len() > 0 {
            (ts.push(word_token(cur)), Seq::empty())
        } else {
            (ts, cur)
        }
    } else {
        (ts, cur.push(c))
    }
}

/// The tokenizer's state after reading `cs`.
pub open spec fn tokenizer_run(cs: Seq<char>) -> (Seq<Tok>, Seq<char>)
    decreases cs.len(),
{
    if cs.len() == 0 {
        (Seq::empty(), Seq::empty())
    } else {
        tokenizer_step(tokenizer_run(cs.drop_last()), cs.last())
    }
}

/// The tokens of `cs`.
pub open spec fn tokenize_chars(cs: Seq<char>) -> Seq<Tok> {
    let (ts, cur) = tokenizer_run(cs);
    if cur.len() > 0 {
        ts.push(word_token(cur))
    } else {
        ts
    }
}

/// Reads `WITH <id>` suffixes after `left`, starting at token `pos`.
pub open spec fn parse_with_loop(ts: Seq<Tok>, left: SpdxTerm, pos: int) -> (SpdxTerm, int)
    decreases ts.len() - pos,
{
    if 0 <= pos && pos + 2 <= ts.len() && ts[pos] is With && ts[pos + 1] is Id {
        parse_with_loop(
            ts,
            SpdxTerm::WithException { license: Box::new(left), exception: ts[pos + 1]->Id_0 },
            pos + 2,
        )
    } else {
        (left, pos)
    }
}

/// A primary expression at token `pos`: a license ID with an optional `+`, or a
/// parenthesized expression whose closing parenthesis may be missing.
pub open spec fn parse_primary_at(ts: Seq<Tok>, pos: int) -> Option<(SpdxTerm, int)>
    decreases ts.len() - pos, 0int,
{
    if pos < 0 || pos >= ts.len() {
        None
    } else {
        match ts[pos] {
            Tok::LParen => match parse_or_at(ts, pos + 1) {
                Some((e, r)) => if r < ts.len() && ts[r] is RParen {
                    Some((e, r + 1))
                } else {
                    Some((e, r))
                },
                None => None,
            },
            Tok::Id(id) => if pos + 1 < ts.len() && ts[pos + 1] is Plus {
                Some((SpdxTerm::License { id, plus: true }, pos + 2))
            } else {
                Some((SpdxTerm::License { id, plus: false }, pos + 1))
            },
            _ => None,
        }
    }
}

/// A primary expression followed by any number of `WITH <id>` suffixes.
pub open spec fn parse_with_at(ts: Seq<Tok>, pos: int) -> Option<(SpdxTerm, int)>
    decreases ts.len() - pos, 1int,
{
    match parse_primary_at(ts, pos) {
        Some((e, r)) => Some(parse_with_loop(ts, e, r)),
        None => None,
    }
}

/// Reads `AND <with-expr>` continuations after `left`, associating to the left.
pub open spec fn parse_and_loop(ts: Seq<Tok>, left: SpdxTerm, pos: int) -> Option<(SpdxTerm, int)>
    decreases ts.len() - pos, 2int,
{
    if 0 <= pos < ts.len() && ts[pos] is And {
        match parse_with_at(ts, pos + 1) {
            Some((right, r)) => if pos + 1 <= r <= ts.len() {
                parse_and_loop(ts, SpdxTerm::And(Box::new(left), Box::new(right)), r)
            } else {
                None
            },
            None => None,
        }
    } else {
        Some((left, pos))
    }
}

/// A conjunction of `WITH` expressions.
pub open spec fn parse_and_at(ts: Seq<Tok>, pos: int) -> Option<(SpdxTerm, int)>
    decreases ts.len() - pos, 3int,
{
    match parse_with_at(ts, pos) {
        Some((e, r)) => if 0 <= pos <= r <= ts.len() {
            parse_and_loop(ts, e, r)
        } else {
            None
        },
        None => None,
    }
}

/// Reads `OR <and-expr>` continuations after `left`, associating to the left.
pub open spec fn parse_or_loop(ts: Seq<Tok>, left: SpdxTerm, pos: int) -> Option<(SpdxTerm, int)>
    decreases ts.len() - pos, 4int,
{
    if 0 <= pos < ts.len() && ts[pos] is Or {
        match parse_and_at(ts, pos + 1) {
            Some((right, r)) => if pos + 1 <= r <= ts.len() {
                parse_or_loop(ts, SpdxTerm::Or(Box::new(left), Box::new(right)), r)
            } else {
                None
            },
            None => None,
        }
    } else {
        Some((left, pos))
    }
}

/// A disjunction of conjunctions: a whole expression, read from token `pos`.
pub open spec fn parse_or_at(ts: Seq<Tok>, pos: int) -> Option<(SpdxTerm, int)>
    decreases ts.len() - pos, 5int,
{
    match parse_and_at(ts, pos) {
        Some((e, r)) => if 0 <= pos <= r <= ts.len() {
            parse_or_loop(ts, e, r)
        } else {
            None
        },
        None => None,
    }
}

/// The expression that a token sequence parses to; tokens after the expression are ignored.
pub open spec fn parse_token_seq(ts: Seq<Tok>) -> Option<SpdxTerm> {
    if ts.len() == 0 {
        None
    } else {
        match parse_or_at(ts, 0) {
            Some((e, _)) => Some(e),
            None => None,
        }
    }
}

/// The expression that `input` parses to. When the tokens of the trimmed input do
/// not start with an expression, the whole trimmed input is taken as one license ID.
pub open spec fn parse_expression(input: Seq<char>) -> SpdxTerm {
    let t = trim(input);
    match parse_token_seq(tokenize_chars(t)) {
        Some(e) => e,
        None => SpdxTerm::License { id: t, plus: false },
    }
}

/// Whether `c` ends a word or is a token of its own for the tokenizer.
pub open spec fn is_separator(c: char) -> bool {
    c == ' ' || c == '\t' || c == '(' || c == ')' || c == '+'
}

proof fn lemma_tokenizer_run_word(cs: Seq<char>)
    requires
        forall|k: int| 0 <= k < cs.len() ==> !is_separator(#[trigger] cs[k]),
    ensures
        tokenizer_run(cs) == (Seq::<Tok>::empty(), cs),
    decreases cs.len(),
{
    if cs.len() > 0 {
        lemma_tokenizer_run_word(cs.drop_last());
        assert(cs.drop_last().push(cs.last()) =~= cs);
    }
}

/// A single word, with no white space inside, no parenthesis and no `+`, that is
/// not an operator keyword, parses to the license with its normalized ID.
pub proof fn law_single_word_parses_to_its_license(input: Seq<char>)
    requires
        trim(input).len() > 0,
        forall|k: int| 0 <= k < trim(input).len() ==> !is_separator(#[trigger] trim(input)[k]),
        upper_text(trim(input)) != "AND"@,
        upper_text(trim(input)) != "OR"@,
        upper_text(trim(input)) != "WITH"@,
    ensures
        parse_expression(input) == (SpdxTerm::License { id: normalize_license_id(input), plus: false }),
{
    let t = trim(input);
    lemma_tokenizer_run_word(t);
    lemma_trim_idempotent(input);
    let ts = tokenize_chars(t);
    assert(ts =~= seq![Tok::Id(normalize_license_id(t))]);
    let e = SpdxTerm::License { id: normalize_license_id(t), plus: false };
    assert(parse_primary_at(ts, 0) == Some((e, 1int)));
    assert(parse_with_loop(ts, e, 1) == (e, 1int));
    assert(parse_with_at(ts, 0) == Some((e, 1int)));
    assert(parse_and_loop(ts, e, 1) == Some((e, 1int)));
    assert(parse_and_at(ts, 0) == Some((e, 1int)));
    assert(parse_or_loop(ts, e, 1) == Some((e, 1int)));
    assert(parse_or_at(ts, 0) == Some((e, 1int)));
}

/// Parser for SPDX license expressions.
pub struct SpdxParser;

impl SpdxParser {
    pub fn new() -> Self {
        SpdxParser
    }

    /// Normalize a license ID (e.g., "mit" -> "MIT").
    fn normalize_id(&self, id: &str) -> (r: String)
        ensures
            r@ == normalize_license_id(id@),
    {
        let t = trim_str(id);
        let upper = to_uppercase(t.as_str());
        Self::canonical_id(t, upper.as_str())
    }

    /// The canonical spelling of a well-known license ID given its upper-case form
    /// `upper` (`APACHE2` gives `Apache-2.0`); any other `id` is returned as it is.
    pub fn canonical_id(id: String, upper: &str) -> (r: String)
        ensures
            r@ == canonical_form(id@, upper@),
    {
        let table = canonical_id_table();
        match assoc_lookup(&table, upper) {
            Some(c) => String::from_str(c),
            None => id,
        }
    }

    fn word_token(&self, w: &String) -> (t: Token)
        ensures
            t@ == word_token(w@),
    {
        let upper = to_uppercase(w.as_str());
        self.classify_word(w.as_str(), upper.as_str())
    }

    /// The token for a word that ends at white space or at the end of the input,
    /// given its upper-case form `upper`: an operator keyword, or a license ID.
    pub fn classify_word(&self, w: &str, upper: &str) -> (t: Token)
        ensures
            t@ == classified_word(w@, upper@),
    {
        if str_equals(upper, "AND") {
            Token::And
        } else if str_equals(upper, "OR") {
            Token::Or
        } else if str_equals(upper, "WITH") {
            Token::With
        } else {
            Token::Id(self.normalize_id(w))
        }
    }

    /// Tokenize an SPDX expression.
    fn tokenize(&self, input: &str) -> (tokens: Vec<Token>)
        ensures
            toks_view(tokens@) == tokenize_chars(input@),
    {
        let cs = chars_of(input);
        let mut tokens: Vec<Token> = Vec::new();
        let mut current = String::new();
        let mut i: usize = 0;
        assert(cs@.take(0) =~= Seq::<char>::empty());
        assert(toks_view(tokens@) =~= Seq::<Tok>::empty());
        while i < cs.len()
            invariant
                cs@ == input@,
                i <= cs@.len(),
                (toks_view(tokens@), current@) == tokenizer_run(cs@.take(i as int)),
            decreases cs.len() - i,
        {
            let ch = cs[i];
            let ghost prev = (toks_view(tokens@), current@);
            if ch == '(' || ch == ')' || ch == '+' {
                if !current.as_str().is_empty() {
                    tokens.push(Token::Id(self.normalize_id(current.as_str())));
                }
                if ch == '(' {
                    tokens.push(Token::LParen);
                } else if ch == ')' {
                    tokens.push(Token::RParen);
                } else {
                    tokens.push(Token::Plus);
                }
                current = String::new();
            } else if ch == ' ' || ch == '\t' {
                if !current.as_str().is_empty() {
                    tokens.push(self.word_token(&current));
                    current = String::new();
                }
            } else {
                push_char(&mut current, ch);
            }
            assert(cs@.take(i + 1).drop_last() =~= cs@.take(i as int));
            assert((toks_view(tokens@), current@) =~= tokenizer_step(prev, ch));
            i = i + 1;
        }
        assert(cs@.take(i as int) =~= cs@);
        if !current.as_str().is_empty() {
            tokens.push(self.word_token(&current));
        }
        assert(toks_view(tokens@) =~= tokenize_chars(input@));
        tokens
    }
    /// Parse an SPDX license expression string. Input that does not start with an
    /// expression is taken, trimmed, as a single license ID.
    pub fn parse(&self, input: &str) -> (e: SpdxExpr)
        ensures
            e@ == parse_expression(input@),
    {
        let trimmed = trim_str(input);
        let tokens = self.tokenize(trimmed.as_str());
        match self.parse_tokens(&tokens) {
            Some(e) => e,
            None => SpdxExpr::License { id: trimmed, plus: false },
        }
    }

    /// Recursive descent parser for tokens: the expression at the start of
    /// `tokens`, if they start with one; tokens after it are ignored.
    pub fn parse_tokens(&self, tokens: &Vec<Token>) -> (r: Option<SpdxExpr>)
        ensures
            match r {
                Some(e) => parse_token_seq(toks_view(tokens@)) == Some(e@),
                None => parse_token_seq(toks_view(tokens@)) is None,
            },
    {
        if tokens.len() == 0 {
            return None;
        }
        match self.parse_or(tokens, 0) {
            Some((expr, _remaining)) => Some(expr),
            None => None,
        }
    }

    fn parse_or(&self, tokens: &Vec<Token>, pos: usize) -> (r: Option<(SpdxExpr, usize)>)
        requires
            pos <= tokens@.len(),
        ensures
            match r {
                Some((e, p)) => pos <= p <= tokens@.len()
                    && parse_or_at(toks_view(tokens@), pos as int) == Some((e@, p as int)),
                None => parse_or_at(toks_view(tokens@), pos as int) is None,
            },
        decreases tokens@.len() - pos, 5int,
    {
        let ghost ts = toks_view(tokens@);
        let (mut left, mut remaining) = match self.parse_and(tokens, pos) {
            Some(x) => x,
            None => return None,
        };
        while remaining < tokens.len()
            invariant
                ts == toks_view(tokens@),
                pos <= remaining <= tokens@.len(),
                parse_or_at(ts, pos as int) == parse_or_loop(ts, left@, remaining as int),
            ensures
                remaining >= tokens@.len() || !(ts[remaining as int] is Or),
            decreases tokens@.len() - remaining,
        {
            assert(ts[remaining as int] == tokens@[remaining as int]@);
            match &tokens[remaining] {
                Token::Or => {},
                _ => break,
            }
            let (right, rest) = match self.parse_and(tokens, remaining + 1) {
                Some(x) => x,
                None => return None,
            };
            left = SpdxExpr::Or(Box::new(left), Box::new(right));
            remaining = rest;
        }
        Some((left, remaining))
    }

    fn parse_and(&self, tokens: &Vec<Token>, pos: usize) -> (r: Option<(SpdxExpr, usize)>)
        requires
            pos <= tokens@.len(),
        ensures
            match r {
                Some((e, p)) => pos <= p <= tokens@.len()
                    && parse_and_at(toks_view(tokens@), pos as int) == Some((e@, p as int)),
                None => parse_and_at(toks_view(tokens@), pos as int) is None,
            },
        decreases tokens@.len() - pos, 3int,
    {
        let ghost ts = toks_view(tokens@);
        let (mut left, mut remaining) = match self.parse_with(tokens, pos) {
            Some(x) => x,
            None => return None,
        };
        while remaining < tokens.len()
            invariant
                ts == toks_view(tokens@),
                pos <= remaining <= tokens@.len(),
                parse_and_at(ts, pos as int) == parse_and_loop(ts, left@, remaining as int),
            ensures
                remaining >= tokens@.len() || !(ts[remaining as int] is And),
            decreases tokens@.len() - remaining,
        {
            assert(ts[remaining as int] == tokens@[remaining as int]@);
            match &tokens[remaining] {
                Token::And => {},
                _ => break,
            }
            let (right, rest) = match self.parse_with(tokens, remaining + 1) {
                Some(x) => x,
                None => return None,
            };
            left = SpdxExpr::And(Box::new(left), Box::new(right));
            remaining = rest;
        }
        Some((left, remaining))
    }

    fn parse_with(&self, tokens: &Vec<Token>, pos: usize) -> (r: Option<(SpdxExpr, usize)>)
        requires
            pos <= tokens@.len(),
        ensures
            match r {
                Some((e, p)) => pos <= p <= tokens@.len()
                    && parse_with_at(toks_view(tokens@), pos as int) == Some((e@, p as int)),
                None => parse_with_at(toks_view(tokens@), pos as int) is None,
            },
        decreases tokens@.len() - pos, 1int,
    {
        let ghost ts = toks_view(tokens@);
        let (mut left, mut remaining) = match self.parse_primary(tokens, pos) {
            Some(x) => x,
            None => return None,
        };
        while remaining < tokens.len()
            invariant
                ts == toks_view(tokens@),
                pos <= remaining <= tokens@.len(),
                parse_with_at(ts, pos as int) == Some(parse_with_loop(ts, left@, remaining as int)),
            ensures
                parse_with_loop(ts, left@, remaining as int) == (left@, remaining as int),
            decreases tokens@.len() - remaining,
        {
            assert(ts[remaining as int] == tokens@[remaining as int]@);
            match &tokens[remaining] {
                Token::With => {},
                _ => break,
            }
            if tokens.len() - remaining < 2 {
                break;
            }
            assert(ts[remaining + 1] == tokens@[remaining + 1]@);
            let exception = match &tokens[remaining + 1] {
                Token::Id(exception) => copy_string(exception),
                _ => break,
            };
            left = SpdxExpr::WithException { license: Box::new(left), exception };
            remaining = remaining + 2;
        }
        Some((left, remaining))
    }

    fn parse_primary(&self, tokens: &Vec<Token>, pos: usize) -> (r: Option<(SpdxExpr, usize)>)
        requires
            pos <= tokens@.len(),
        ensures
            match r {
                Some((e, p)) => pos < p <= tokens@.len()
                    && parse_primary_at(toks_view(tokens@), pos as int) == Some((e@, p as int)),
                None => parse_primary_at(toks_view(tokens@), pos as int) is None,
            },
        decreases tokens@.len() - pos, 0int,
    {
        let ghost ts = toks_view(tokens@);
        if pos >= tokens.len() {
            return None;
        }
        assert(ts[pos as int] == tokens@[pos as int]@);
        match &tokens[pos] {
            Token::LParen => {
                let (expr, remaining) = match self.parse_or(tokens, pos + 1) {
                    Some(x) => x,
                    None => return None,
                };
                if remaining < tokens.len() {
                    assert(ts[remaining as int] == tokens@[remaining as int]@);
                    match &tokens[remaining] {
                        Token::RParen => {
                            return Some((expr, remaining + 1));
                        },
                        _ => {},
                    }
                }
                Some((expr, remaining))
            },
            Token::Id(id) => {
                let mut plus = false;
                if pos + 1 < tokens.len() {
                    assert(ts[pos + 1] == tokens@[pos + 1]@);
                    match &tokens[pos + 1] {
                        Token::Plus => {
                            plus = true;
                        },
                        _ => {},
                    }
                }
                let consume: usize = if plus { 2 } else { 1 };
                Some((SpdxExpr::License { id: copy_string(id), plus }, pos + consume))
            },
            _ => None,
        }
    }
}

impl SpdxExpr {
    /// A copy of this expression.
    pub fn duplicate(&self) -> (r: SpdxExpr)
        ensures
            r@ == self@,
        decreases self,
    {
        match self {
            SpdxExpr::License { id, plus } => SpdxExpr::License { id: copy_string(id), plus: *plus },
            SpdxExpr::WithException { license, exception } => SpdxExpr::WithException {
                license: Box::new((**license).duplicate()),
                exception: copy_string(exception),
            },
            SpdxExpr::And(a, b) => SpdxExpr::And(Box::new((**a).duplicate()), Box::new((**b).duplicate())),
            SpdxExpr::Or(a, b) => SpdxExpr::Or(Box::new((**a).duplicate()), Box::new((**b).duplicate())),
        }
    }

    /// Collect all unique license IDs in this expression, each once, in the order
    /// in which they first occur.
    pub fn all_license_ids(&self) -> (ids: Vec<String>)
        ensures
            strings_view(ids@) == dedup(leaf_ids(self@)),
    {
        let mut ids: Vec<String> = Vec::new();
        assert(strings_view(ids@) =~= Seq::<Seq<char>>::empty());
        self.collect_ids(&mut ids);
        ids
    }

    fn collect_ids(&self, ids: &mut Vec<String>)
        ensures
            strings_view(final(ids)@) == add_all_unique(strings_view(old(ids)@), leaf_ids(self@)),
        decreases self,
    {
        match self {
            SpdxExpr::License { id, .. } => {
                let ghost before = strings_view(ids@);
                let mut found = false;
                let mut i: usize = 0;
                while i < ids.len()
                    invariant
                        before == strings_view(ids@),
                        i <= ids@.len(),
                        found == (exists|k: int| 0 <= k < i && before[k] == id@),
                    decreases ids.len() - i,
                {
                    assert(before[i as int] == ids@[i as int]@);
                    if str_equals(ids[i].as_str(), id.as_str()) {
                        found = true;
                    }
                    i = i + 1;
                }
                assert(found == before.contains(id@));
                if !found {
                    ids.push(copy_string(id));
                    assert(strings_view(ids@) =~= before.push(id@));
                }
                assert(leaf_ids(self@) =~= seq![id@]);
                assert(seq![id@].drop_first() =~= Seq::<Seq<char>>::empty());
                assert(add_all_unique(before, seq![id@]) == add_unique(before, id@)) by {
                    reveal_with_fuel(add_all_unique, 2);
                }
            }
            SpdxExpr::WithException { license, .. } => {
                license.collect_ids(ids);
            }
            SpdxExpr::And(a, b) | SpdxExpr::Or(a, b) => {
                let ghost before = strings_view(ids@);
                a.collect_ids(ids);
                b.collect_ids(ids);
                proof {
                    lemma_add_all_unique_append(before, leaf_ids(a@), leaf_ids(b@));
                }
            }
        }
    }

    /// Check if this expression contains any OR operators.
    pub fn has_or(&self) -> (b: bool)
        ensures
            b == term_has_or(self@),
        decreases self,
    {
        match self {
            SpdxExpr::Or(_, _) => true,
            SpdxExpr::And(a, b) => a.has_or() || b.has_or(),
            SpdxExpr::WithException { license, .. } => license.has_or(),
            SpdxExpr::License { .. } => false,
        }
    }
}

impl Default for SpdxParser {
    fn default() -> (p: Self) {
        Self::new()
    }
}

} // verus!
