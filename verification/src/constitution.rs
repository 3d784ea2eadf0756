//! The generator and the Runtime Check.
//!
//! [`generate`] turns a record declaration into a [`Constitution`]: the
//! ordered list of compiled invariant clauses, together with the record's
//! integer fields. Generation validates every invariant text against the
//! expression grammar and every referenced name against the record's integer
//! fields; the first failure aborts generation for the whole type, so a type
//! with an invalid invariant gets no capability at all.
//!
//! [`Constitution::enforce_law`] is the Runtime Check: it evaluates the
//! recorded conditions in declaration order against an instance's field
//! values and reports the first violation, evaluating nothing after it.

use vstd::prelude::*;

use crate::decl::{distinct_field_names, str_eq, FieldDecl, FieldDeclV, FieldTy, IntTy, RecordDecl};
use crate::expr::{parse_invariant, parse_invariant_spec, Atom, Expr, RelOp, SpecAtom, SpecExpr};
use crate::prover::{fv_int, FieldValue};

verus! {

// ------------------------------------------------------------------
// The constitution and its view
// ------------------------------------------------------------------

/// One recorded invariant: the field it was declared on, its canonical text
/// (the declaration's source text, verbatim), and the compiled condition.
pub struct Clause {
    pub field: String,
    pub text: String,
    pub cond: Expr,
}

pub struct ClauseV {
    pub field: Seq<char>,
    pub text: Seq<char>,
    pub cond: SpecExpr,
}

impl View for Clause {
    type V = ClauseV;

    open spec fn view(&self) -> ClauseV {
        ClauseV { field: self.field@, text: self.text@, cond: self.cond@ }
    }
}

/// An integer field of the record: the only fields the proof path sees.
pub struct IntField {
    pub name: String,
    pub ty: IntTy,
}

pub struct IntFieldV {
    pub name: Seq<char>,
    pub ty: IntTy,
}

impl View for IntField {
    type V = IntFieldV;

    open spec fn view(&self) -> IntFieldV {
        IntFieldV { name: self.name@, ty: self.ty }
    }
}

pub open spec fn clauses_view(cs: Seq<Clause>) -> Seq<ClauseV> {
    cs.map_values(|c: Clause| c@)
}

pub open spec fn int_fields_view(fs: Seq<IntField>) -> Seq<IntFieldV> {
    fs.map_values(|f: IntField| f@)
}

/// The compile-time artifact generated once for a record type: its ordered
/// invariant clauses and its integer fields, both in declaration order.
/// Immutable once generated; every capability of the type reads it.
pub struct Constitution {
    pub clauses: Vec<Clause>,
    pub int_fields: Vec<IntField>,
}

pub struct ConstitutionV {
    pub clauses: Seq<ClauseV>,
    pub int_fields: Seq<IntFieldV>,
}

impl View for Constitution {
    type V = ConstitutionV;

    open spec fn view(&self) -> ConstitutionV {
        ConstitutionV {
            clauses: clauses_view(self.clauses@),
            int_fields: int_fields_view(self.int_fields@),
        }
    }
}

// ------------------------------------------------------------------
// Name resolution and evaluation
// ------------------------------------------------------------------

/// Whether some integer field bears this name.
pub open spec fn has_field(fs: Seq<IntFieldV>, n: Seq<char>) -> bool {
    exists|i: int| 0 <= i < fs.len() && fs[i].name == n
}

pub open spec fn atom_resolved(a: SpecAtom, fs: Seq<IntFieldV>) -> bool {
    match a {
        SpecAtom::Lit(_) => true,
        SpecAtom::Field(n) => has_field(fs, n),
    }
}

/// Whether every field the expression names is an integer field of the
/// record. Generation only records conditions for which this holds.
pub open spec fn expr_resolved(e: SpecExpr, fs: Seq<IntFieldV>) -> bool
    decreases e,
{
    match e {
        SpecExpr::Const(_) => true,
        SpecExpr::Rel(a, _, b) => atom_resolved(a, fs) && atom_resolved(b, fs),
        SpecExpr::Not(e1) => expr_resolved(*e1, fs),
        SpecExpr::And(e1, e2) => expr_resolved(*e1, fs) && expr_resolved(*e2, fs),
        SpecExpr::Or(e1, e2) => expr_resolved(*e1, fs) && expr_resolved(*e2, fs),
    }
}

/// The value bound to the first integer field named `n`, if any. Field values
/// are supplied positionally, parallel to the integer-field list.
pub open spec fn lookup_value(
    fs: Seq<IntFieldV>,
    vs: Seq<FieldValue>,
    n: Seq<char>,
) -> Option<FieldValue>
    decreases fs.len(),
{
    if fs.len() == 0 || vs.len() == 0 {
        None
    } else if fs[0].name == n {
        Some(vs[0])
    } else {
        lookup_value(fs.skip(1), vs.skip(1), n)
    }
}

/// The environment an instance induces: each integer field's name bound to
/// the integer its value stands for.
pub open spec fn env_of(fs: Seq<IntFieldV>, vs: Seq<FieldValue>) -> Map<Seq<char>, int> {
    Map::new(
        |n: Seq<char>| lookup_value(fs, vs, n) is Some,
        |n: Seq<char>| fv_int(lookup_value(fs, vs, n)->Some_0),
    )
}

pub open spec fn eval_atom(a: SpecAtom, env: Map<Seq<char>, int>) -> int {
    match a {
        SpecAtom::Lit(v) => v,
        SpecAtom::Field(n) => env[n],
    }
}

pub open spec fn eval_rel(op: RelOp, x: int, y: int) -> bool {
    match op {
        RelOp::Lt => x < y,
        RelOp::Gt => x > y,
        RelOp::Le => x <= y,
        RelOp::Ge => x >= y,
        RelOp::Eq => x == y,
        RelOp::Ne => x != y,
    }
}

/// What a condition means: its truth value over an environment of field
/// bindings.
pub open spec fn eval_expr_spec(e: SpecExpr, env: Map<Seq<char>, int>) -> bool
    decreases e,
{
    match e {
        SpecExpr::Const(b) => b,
        SpecExpr::Rel(a, op, b) => eval_rel(op, eval_atom(a, env), eval_atom(b, env)),
        SpecExpr::Not(e1) => !eval_expr_spec(*e1, env),
        SpecExpr::And(e1, e2) => eval_expr_spec(*e1, env) && eval_expr_spec(*e2, env),
        SpecExpr::Or(e1, e2) => eval_expr_spec(*e1, env) || eval_expr_spec(*e2, env),
    }
}

pub proof fn lemma_lookup_has_field(fs: Seq<IntFieldV>, vs: Seq<FieldValue>, n: Seq<char>)
    requires
        fs.len() == vs.len(),
    ensures
        (lookup_value(fs, vs, n) is Some) == has_field(fs, n),
    decreases fs.len(),
{
    if fs.len() != 0 && fs[0].name != n {
        lemma_lookup_has_field(fs.skip(1), vs.skip(1), n);
        if has_field(fs, n) {
            let i = choose|i: int| 0 <= i < fs.len() && fs[i].name == n;
            assert(fs.skip(1)[i - 1].name == n);
        }
        if has_field(fs.skip(1), n) {
            let i = choose|i: int| 0 <= i < fs.skip(1).len() && fs.skip(1)[i].name == n;
            assert(fs[i + 1].name == n);
        }
    }
}

/// With distinct field names, the binding of a name is the value at that
/// name's position.
pub proof fn lemma_lookup_at_index(fs: Seq<IntFieldV>, vs: Seq<FieldValue>, i: int)
    requires
        fs.len() == vs.len(),
        0 <= i < fs.len(),
        forall|a: int, b: int| 0 <= a < b < fs.len() ==> fs[a].name != fs[b].name,
    ensures
        lookup_value(fs, vs, fs[i].name) == Some(vs[i]),
    decreases fs.len(),
{
    if i > 0 {
        assert(fs[0].name != fs[i].name);
        assert(fs.skip(1)[i - 1] == fs[i]);
        lemma_lookup_at_index(fs.skip(1), vs.skip(1), i - 1);
    }
}

// ------------------------------------------------------------------
// Executable evaluation
// ------------------------------------------------------------------

fn has_field_x(fs: &Vec<IntField>, n: &str) -> (r: bool)
    ensures
        r == has_field(int_fields_view(fs@), n@),
{
    let ghost fsv = int_fields_view(fs@);
    let mut i: usize = 0;
    while i < fs.len()
        invariant
            i <= fs.len(),
            fsv == int_fields_view(fs@),
            fsv.len() == fs@.len(),
            forall|k: int| 0 <= k < i ==> fsv[k].name != n@,
        decreases fs.len() - i,
    {
        if str_eq(fs[i].name.as_str(), n) {
            assert(fsv[i as int].name == n@);
            return true;
        }
        i += 1;
    }
    false
}

pub(crate) fn lookup_x(fs: &Vec<IntField>, vs: &Vec<FieldValue>, n: &str) -> (r: Option<FieldValue>)
    requires
        fs@.len() == vs@.len(),
    ensures
        r == lookup_value(int_fields_view(fs@), vs@, n@),
{
    let ghost fsv = int_fields_view(fs@);
    proof {
        assert(fsv.skip(0) =~= fsv);
        assert(vs@.skip(0) =~= vs@);
    }
    let mut i: usize = 0;
    while i < fs.len()
        invariant
            i <= fs.len(),
            fs@.len() == vs@.len(),
            fsv == int_fields_view(fs@),
            fsv.len() == fs@.len(),
            lookup_value(fsv, vs@, n@) == lookup_value(fsv.skip(i as int), vs@.skip(i as int), n@),
        decreases fs.len() - i,
    {
        assert(fsv.skip(i as int)[0] == fsv[i as int]);
        if str_eq(fs[i].name.as_str(), n) {
            return Some(vs[i]);
        }
        proof {
            assert(fsv.skip(i as int).skip(1) =~= fsv.skip(i as int + 1));
            assert(vs@.skip(i as int).skip(1) =~= vs@.skip(i as int + 1));
        }
        i += 1;
    }
    None
}

fn fv_to_i128(v: FieldValue) -> (r: i128)
    ensures
        r as int == fv_int(v),
{
    match v {
        FieldValue::Int(x) => x as i128,
        FieldValue::UInt(x) => x as i128,
    }
}

fn eval_atom_x(a: &Atom, fs: &Vec<IntField>, vs: &Vec<FieldValue>) -> (r: i128)
    requires
        fs@.len() == vs@.len(),
        atom_resolved(crate::expr::atom_view(*a), int_fields_view(fs@)),
    ensures
        r as int == eval_atom(crate::expr::atom_view(*a), env_of(int_fields_view(fs@), vs@)),
{
    match a {
        Atom::Lit(v) => *v,
        Atom::Field(n) => {
            proof {
                lemma_lookup_has_field(int_fields_view(fs@), vs@, n@);
            }
            match lookup_x(fs, vs, n.as_str()) {
                Some(v) => fv_to_i128(v),
                None => {
                    assert(false);
                    0
                },
            }
        },
    }
}

/// Evaluates a compiled condition against an instance's field values.
fn eval_expr_x(e: &Expr, fs: &Vec<IntField>, vs: &Vec<FieldValue>) -> (r: bool)
    requires
        fs@.len() == vs@.len(),
        expr_resolved(e@, int_fields_view(fs@)),
    ensures
        r == eval_expr_spec(e@, env_of(int_fields_view(fs@), vs@)),
    decreases e,
{
    match e {
        Expr::Const(b) => *b,
        Expr::Rel(a, op, b) => {
            let x = eval_atom_x(a, fs, vs);
            let y = eval_atom_x(b, fs, vs);
            match op {
                RelOp::Lt => x < y,
                RelOp::Gt => x > y,
                RelOp::Le => x <= y,
                RelOp::Ge => x >= y,
                RelOp::Eq => x == y,
                RelOp::Ne => x != y,
            }
        },
        Expr::Not(e1) => !eval_expr_x(e1, fs, vs),
        Expr::And(e1, e2) => {
            let r1 = eval_expr_x(e1, fs, vs);
            r1 && eval_expr_x(e2, fs, vs)
        },
        Expr::Or(e1, e2) => {
            let r1 = eval_expr_x(e1, fs, vs);
            r1 || eval_expr_x(e2, fs, vs)
        },
    }
}

// ------------------------------------------------------------------
// The runtime check
// ------------------------------------------------------------------

/// The recoverable failure of the Runtime Check: the canonical text of the
/// first violated invariant, and a field-name-to-value map, populated
/// opportunistically (it may be empty).
pub enum ConstitutionError {
    InvariantViolation { expression: String, values: Vec<(String, String)> },
}

pub struct ConstitutionErrorV {
    pub expression: Seq<char>,
    pub values: Seq<(Seq<char>, Seq<char>)>,
}

impl View for ConstitutionError {
    type V = ConstitutionErrorV;

    open spec fn view(&self) -> ConstitutionErrorV {
        match self {
            ConstitutionError::InvariantViolation { expression, values } => ConstitutionErrorV {
                expression: expression@,
                values: values@.map_values(|p: (String, String)| (p.0@, p.1@)),
            },
        }
    }
}

impl ConstitutionError {
    /// The failure's description: the violated invariant's canonical text,
    /// framed as `Invariant '<text>' breached`.
    pub fn message(&self) -> (m: String)
        ensures
            m@ == "Invariant '"@ + self@.expression + "' breached"@,
    {
        match self {
            ConstitutionError::InvariantViolation { expression, .. } => {
                let head = String::from_str("Invariant '");
                let mid = head.concat(expression.as_str());
                mid.concat("' breached")
            },
        }
    }
}

/// First-failure semantics of the Runtime Check: the conditions in order, the
/// first that evaluates false decides the result, and nothing after it is
/// consulted.
pub open spec fn spec_check(
    clauses: Seq<ClauseV>,
    env: Map<Seq<char>, int>,
) -> Result<(), ConstitutionErrorV>
    decreases clauses.len(),
{
    if clauses.len() == 0 {
        Ok(())
    } else if !eval_expr_spec(clauses[0].cond, env) {
        Err(ConstitutionErrorV { expression: clauses[0].text, values: Seq::empty() })
    } else {
        spec_check(clauses.skip(1), env)
    }
}

pub open spec fn check_matches(
    r: Result<(), ConstitutionError>,
    sp: Result<(), ConstitutionErrorV>,
) -> bool {
    match (r, sp) {
        (Ok(()), Ok(())) => true,
        (Err(e), Err(ev)) => e@ == ev,
        _ => false,
    }
}

impl Constitution {
    /// Every condition the constitution records names only integer fields of
    /// the record, and those fields' names are distinct. Generation
    /// establishes this; every capability relies on it.
    pub open spec fn wf(self) -> bool {
        &&& forall|a: int, b: int|
            0 <= a < b < self@.int_fields.len() ==> self@.int_fields[a].name
                != self@.int_fields[b].name
        &&& forall|k: int|
            0 <= k < self@.clauses.len() ==> expr_resolved(
                #[trigger] self@.clauses[k].cond,
                self@.int_fields,
            )
    }

    /// An instance of the record type, for this library: one value per
    /// integer field, in declaration order.
    pub open spec fn matches_values(self, vs: Seq<FieldValue>) -> bool {
        vs.len() == self@.int_fields.len()
    }

    /// The Runtime Check: evaluates each recorded condition in declaration
    /// order against the instance's field values; on the first condition that
    /// evaluates false, reports that condition's canonical text and evaluates
    /// nothing further; succeeds when every condition holds.
    pub fn enforce_law(&self, values: &Vec<FieldValue>) -> (r: Result<(), ConstitutionError>)
        requires
            self.wf(),
            self.matches_values(values@),
        ensures
            check_matches(r, spec_check(self@.clauses, env_of(self@.int_fields, values@))),
    {
        let ghost env = env_of(self@.int_fields, values@);
        let ghost csv = self@.clauses;
        proof {
            assert(csv.skip(0) =~= csv);
        }
        let mut i: usize = 0;
        while i < self.clauses.len()
            invariant
                i <= self.clauses.len(),
                self.wf(),
                self.matches_values(values@),
                env == env_of(self@.int_fields, values@),
                csv == self@.clauses,
                csv.len() == self.clauses.len(),
                spec_check(csv, env) == spec_check(csv.skip(i as int), env),
            decreases self.clauses.len() - i,
        {
            assert(csv.skip(i as int)[0] == csv[i as int]);
            let holds = eval_expr_x(&self.clauses[i].cond, &self.int_fields, values);
            if !holds {
                let e = ConstitutionError::InvariantViolation {
                    expression: self.clauses[i].text.clone(),
                    values: Vec::new(),
                };
                proof {
                    assert(e@.values =~= Seq::<(Seq<char>, Seq<char>)>::empty());
                }
                return Err(e);
            }
            proof {
                assert(csv.skip(i as int).skip(1) =~= csv.skip(i as int + 1));
            }
            i += 1;
        }
        Ok(())
    }

    /// The complete, ordered list of the type's canonical invariant texts —
    /// always the full set, independent of any instance or prior violation.
    pub fn invariant_expressions(&self) -> (r: Vec<String>)
        ensures
            r.deep_view() == texts_of(self@.clauses),
    {
        let mut r: Vec<String> = Vec::new();
        let mut i: usize = 0;
        while i < self.clauses.len()
            invariant
                i <= self.clauses.len(),
                self@.clauses.len() == self.clauses.len(),
                r@.len() == i,
                forall|k: int| 0 <= k < i ==> r@[k]@ == self@.clauses[k].text,
            decreases self.clauses.len() - i,
        {
            r.push(self.clauses[i].text.clone());
            i += 1;
        }
        proof {
            assert(r.deep_view() =~= texts_of(self@.clauses));
        }
        r
    }
}

/// The canonical texts of a clause list, in order.
pub open spec fn texts_of(clauses: Seq<ClauseV>) -> Seq<Seq<char>> {
    clauses.map_values(|c: ClauseV| c.text)
}

// ------------------------------------------------------------------
// Generation
// ------------------------------------------------------------------

/// The fatal, generation-time failure: an invariant text that does not parse
/// under the grammar, or one that names something that is not an integer
/// field of the record. Either aborts generation for the whole type.
pub enum GenError {
    Syntax { field: String, text: String },
    UnknownName { field: String, text: String },
}

pub enum GenErrorV {
    Syntax { field: Seq<char>, text: Seq<char> },
    UnknownName { field: Seq<char>, text: Seq<char> },
}

impl View for GenError {
    type V = GenErrorV;

    open spec fn view(&self) -> GenErrorV {
        match self {
            GenError::Syntax { field, text } => GenErrorV::Syntax { field: field@, text: text@ },
            GenError::UnknownName { field, text } => GenErrorV::UnknownName {
                field: field@,
                text: text@,
            },
        }
    }
}

/// The record's integer fields, in declaration order.
pub open spec fn int_fields_of(fields: Seq<FieldDeclV>) -> Seq<IntFieldV>
    decreases fields.len(),
{
    if fields.len() == 0 {
        Seq::empty()
    } else {
        let rest = int_fields_of(fields.skip(1));
        match fields[0].ty {
            FieldTy::Integer(t) => seq![IntFieldV { name: fields[0].name, ty: t }] + rest,
            FieldTy::Other => rest,
        }
    }
}

/// The clauses one field's invariant texts contribute, in attribute order;
/// or the first failure among them.
pub open spec fn build_field_clauses(
    name: Seq<char>,
    texts: Seq<Seq<char>>,
    fs: Seq<IntFieldV>,
) -> Result<Seq<ClauseV>, GenErrorV>
    decreases texts.len(),
{
    if texts.len() == 0 {
        Ok(Seq::empty())
    } else {
        match parse_invariant_spec(texts[0]) {
            None => Err(GenErrorV::Syntax { field: name, text: texts[0] }),
            Some(e) => if !expr_resolved(e, fs) {
                Err(GenErrorV::UnknownName { field: name, text: texts[0] })
            } else {
                match build_field_clauses(name, texts.skip(1), fs) {
                    Ok(cs) => Ok(seq![ClauseV { field: name, text: texts[0], cond: e }] + cs),
                    Err(er) => Err(er),
                }
            },
        }
    }
}

/// The whole record's clauses, field by field in declaration order; or the
/// first failure, which aborts everything.
pub open spec fn build_clauses(fields: Seq<FieldDeclV>, fs: Seq<IntFieldV>) -> Result<
    Seq<ClauseV>,
    GenErrorV,
>
    decreases fields.len(),
{
    if fields.len() == 0 {
        Ok(Seq::empty())
    } else {
        match build_field_clauses(fields[0].name, fields[0].invariants, fs) {
            Err(e) => Err(e),
            Ok(cs) => match build_clauses(fields.skip(1), fs) {
                Err(e) => Err(e),
                Ok(cs2) => Ok(cs + cs2),
            },
        }
    }
}

/// What generation produces for a record declaration: the constitution, or
/// the first offending declaration, in which case the type gets nothing.
pub open spec fn spec_generate(fields: Seq<FieldDeclV>) -> Result<ConstitutionV, GenErrorV> {
    let fs = int_fields_of(fields);
    match build_clauses(fields, fs) {
        Ok(cs) => Ok(ConstitutionV { clauses: cs, int_fields: fs }),
        Err(e) => Err(e),
    }
}

/// Machine limit: the parser counts positions in `usize`.
pub open spec fn texts_fit(fields: Seq<FieldDeclV>) -> bool {
    forall|i: int, j: int|
        0 <= i < fields.len() && 0 <= j < fields[i].invariants.len()
            ==> #[trigger] fields[i].invariants[j].len() < usize::MAX
}

proof fn lemma_int_fields_names(fields: Seq<FieldDeclV>)
    ensures
        forall|k: int|
            0 <= k < int_fields_of(fields).len() ==> exists|j: int|
                0 <= j < fields.len() && #[trigger] int_fields_of(fields)[k].name == fields[j].name,
    decreases fields.len(),
{
    if fields.len() > 0 {
        lemma_int_fields_names(fields.skip(1));
        let fs = int_fields_of(fields);
        let rest = int_fields_of(fields.skip(1));
        assert forall|k: int| 0 <= k < fs.len() implies exists|j: int|
            0 <= j < fields.len() && #[trigger] fs[k].name == fields[j].name by {
            match fields[0].ty {
                FieldTy::Integer(t) => {
                    if k == 0 {
                        assert(fs[k].name == fields[0].name);
                    } else {
                        assert(fs[k] == rest[k - 1]);
                        let j = choose|j: int|
                            0 <= j < fields.skip(1).len() && rest[k - 1].name == fields.skip(
                                1,
                            )[j].name;
                        assert(fs[k].name == fields[j + 1].name);
                    }
                },
                FieldTy::Other => {
                    assert(fs[k] == rest[k]);
                    let j = choose|j: int|
                        0 <= j < fields.skip(1).len() && rest[k].name == fields.skip(1)[j].name;
                    assert(fs[k].name == fields[j + 1].name);
                },
            }
        }
    }
}

proof fn lemma_int_fields_distinct(fields: Seq<FieldDeclV>)
    requires
        distinct_field_names(fields),
    ensures
        forall|a: int, b: int|
            0 <= a < b < int_fields_of(fields).len() ==> int_fields_of(fields)[a].name
                != int_fields_of(fields)[b].name,
    decreases fields.len(),
{
    if fields.len() > 0 {
        assert(forall|i: int, j: int|
            0 <= i < j < fields.skip(1).len() ==> fields.skip(1)[i].name != fields.skip(
                1,
            )[j].name);
        lemma_int_fields_distinct(fields.skip(1));
        lemma_int_fields_names(fields.skip(1));
        let fs = int_fields_of(fields);
        let rest = int_fields_of(fields.skip(1));
        assert forall|a: int, b: int| 0 <= a < b < fs.len() implies fs[a].name != fs[b].name by {
            match fields[0].ty {
                FieldTy::Integer(t) => {
                    if a == 0 {
                        assert(fs[b] == rest[b - 1]);
                        let j = choose|j: int|
                            0 <= j < fields.skip(1).len() && rest[b - 1].name == fields.skip(
                                1,
                            )[j].name;
                        assert(fields[0].name != fields[j + 1].name);
                    } else {
                        assert(fs[a] == rest[a - 1]);
                        assert(fs[b] == rest[b - 1]);
                    }
                },
                FieldTy::Other => {
                    assert(fs[a] == rest[a]);
                    assert(fs[b] == rest[b]);
                },
            }
        }
    }
}

proof fn lemma_build_field_clauses_ok(name: Seq<char>, texts: Seq<Seq<char>>, fs: Seq<IntFieldV>)
    requires
        build_field_clauses(name, texts, fs) is Ok,
    ensures
        forall|k: int|
            0 <= k < build_field_clauses(name, texts, fs)->Ok_0.len() ==> expr_resolved(
                #[trigger] build_field_clauses(name, texts, fs)->Ok_0[k].cond,
                fs,
            ),
    decreases texts.len(),
{
    if texts.len() > 0 {
        lemma_build_field_clauses_ok(name, texts.skip(1), fs);
    }
}

proof fn lemma_build_clauses_ok(fields: Seq<FieldDeclV>, fs: Seq<IntFieldV>)
    requires
        build_clauses(fields, fs) is Ok,
    ensures
        forall|k: int|
            0 <= k < build_clauses(fields, fs)->Ok_0.len() ==> expr_resolved(
                #[trigger] build_clauses(fields, fs)->Ok_0[k].cond,
                fs,
            ),
    decreases fields.len(),
{
    if fields.len() > 0 {
        lemma_build_field_clauses_ok(fields[0].name, fields[0].invariants, fs);
        lemma_build_clauses_ok(fields.skip(1), fs);
    }
}

/// Whatever generation accepts is well formed: its conditions resolve and
/// its integer-field names are distinct.
pub proof fn lemma_generate_wf(fields: Seq<FieldDeclV>, c: ConstitutionV)
    requires
        distinct_field_names(fields),
        spec_generate(fields) == Ok::<ConstitutionV, GenErrorV>(c),
    ensures
        forall|a: int, b: int|
            0 <= a < b < c.int_fields.len() ==> c.int_fields[a].name != c.int_fields[b].name,
        forall|k: int|
            0 <= k < c.clauses.len() ==> expr_resolved(#[trigger] c.clauses[k].cond, c.int_fields),
{
    lemma_int_fields_distinct(fields);
    lemma_build_clauses_ok(fields, int_fields_of(fields));
}

fn check_resolved(e: &Expr, fs: &Vec<IntField>) -> (r: bool)
    ensures
        r == expr_resolved(e@, int_fields_view(fs@)),
    decreases e,
{
    match e {
        Expr::Const(_) => true,
        Expr::Rel(a, _, b) => {
            let ra = match a {
                Atom::Lit(_) => true,
                Atom::Field(n) => has_field_x(fs, n.as_str()),
            };
            let rb = match b {
                Atom::Lit(_) => true,
                Atom::Field(n) => has_field_x(fs, n.as_str()),
            };
            ra && rb
        },
        Expr::Not(e1) => check_resolved(e1, fs),
        Expr::And(e1, e2) => {
            let r1 = check_resolved(e1, fs);
            r1 && check_resolved(e2, fs)
        },
        Expr::Or(e1, e2) => {
            let r1 = check_resolved(e1, fs);
            r1 && check_resolved(e2, fs)
        },
    }
}


fn collect_int_fields(fields: &Vec<FieldDecl>, i: usize) -> (r: Vec<IntField>)
    requires
        i <= fields.len(),
    ensures
        int_fields_view(r@) == int_fields_of(fields.deep_view().skip(i as int)),
    decreases fields.len() - i,
{
    let ghost fsv = fields.deep_view();
    proof {
        assert(fsv.len() == fields.len());
    }
    if i == fields.len() {
        let r: Vec<IntField> = Vec::new();
        proof {
            assert(fsv.skip(i as int).len() == 0);
            assert(int_fields_view(r@) =~= int_fields_of(fsv.skip(i as int)));
        }
        r
    } else {
        let mut rest = collect_int_fields(fields, i + 1);
        proof {
            assert(fsv.skip(i as int)[0] == fsv[i as int]);
            assert(fsv[i as int] == fields@[i as int]@);
            assert(fsv.skip(i as int).skip(1) =~= fsv.skip(i as int + 1));
        }
        match fields[i].ty {
            FieldTy::Integer(t) => {
                rest.insert(0, IntField { name: fields[i].name.clone(), ty: t });
                proof {
                    assert(int_fields_view(rest@) =~= int_fields_of(fsv.skip(i as int)));
                }
                rest
            },
            FieldTy::Other => {
                rest
            },
        }
    }
}

pub open spec fn field_gen_matches(
    r: Result<Vec<Clause>, GenError>,
    sp: Result<Seq<ClauseV>, GenErrorV>,
) -> bool {
    match (r, sp) {
        (Ok(cs), Ok(csv)) => clauses_view(cs@) == csv,
        (Err(e), Err(ev)) => e@ == ev,
        _ => false,
    }
}

fn build_field_clauses_x(
    name: &String,
    texts: &Vec<String>,
    j: usize,
    fs: &Vec<IntField>,
) -> (r: Result<Vec<Clause>, GenError>)
    requires
        j <= texts.len(),
        forall|k: int| 0 <= k < texts.deep_view().len() ==> #[trigger] texts.deep_view()[k].len() < usize::MAX,
    ensures
        field_gen_matches(r, build_field_clauses(name@, texts.deep_view().skip(j as int), int_fields_view(fs@))),
    decreases texts.len() - j,
{
    let ghost tv = texts.deep_view();
    let ghost fsv = int_fields_view(fs@);
    proof {
        assert(tv.len() == texts.len());
    }
    if j == texts.len() {
        let r: Vec<Clause> = Vec::new();
        proof {
            assert(tv.skip(j as int).len() == 0);
            assert(clauses_view(r@) =~= build_field_clauses(name@, tv.skip(j as int), fsv)->Ok_0);
        }
        Ok(r)
    } else {
        proof {
            assert(tv.skip(j as int)[0] == tv[j as int]);
            assert(tv[j as int] == texts@[j as int]@);
            assert(tv.skip(j as int).skip(1) =~= tv.skip(j as int + 1));
        }
        match parse_invariant(texts[j].as_str()) {
            None => Err(GenError::Syntax { field: name.clone(), text: texts[j].clone() }),
            Some(e) => {
                if !check_resolved(&e, fs) {
                    Err(GenError::UnknownName { field: name.clone(), text: texts[j].clone() })
                } else {
                    match build_field_clauses_x(name, texts, j + 1, fs) {
                        Ok(mut cs) => {
                            cs.insert(
                                0,
                                Clause { field: name.clone(), text: texts[j].clone(), cond: e },
                            );
                            proof {
                                assert(clauses_view(cs@) =~= build_field_clauses(
                                    name@,
                                    tv.skip(j as int),
                                    fsv,
                                )->Ok_0);
                            }
                            Ok(cs)
                        },
                        Err(er) => Err(er),
                    }
                }
            },
        }
    }
}

fn build_clauses_x(fields: &Vec<FieldDecl>, i: usize, fs: &Vec<IntField>) -> (r: Result<
    Vec<Clause>,
    GenError,
>)
    requires
        i <= fields.len(),
        texts_fit(fields.deep_view()),
    ensures
        field_gen_matches(r, build_clauses(fields.deep_view().skip(i as int), int_fields_view(fs@))),
    decreases fields.len() - i,
{
    let ghost fdv = fields.deep_view();
    let ghost fsv = int_fields_view(fs@);
    proof {
        assert(fdv.len() == fields.len());
    }
    if i == fields.len() {
        let r: Vec<Clause> = Vec::new();
        proof {
            assert(fdv.skip(i as int).len() == 0);
            assert(clauses_view(r@) =~= build_clauses(fdv.skip(i as int), fsv)->Ok_0);
        }
        Ok(r)
    } else {
        let ghost fld = fields@[i as int];
        let ghost tv = fld.invariants.deep_view();
        proof {
            assert(fdv.skip(i as int)[0] == fdv[i as int]);
            assert(fdv[i as int] == fld@);
            assert(fdv.skip(i as int).skip(1) =~= fdv.skip(i as int + 1));
            assert(fld@.invariants == tv);
            assert forall|k: int| 0 <= k < tv.len() implies #[trigger] tv[k].len() < usize::MAX by {
                assert(fdv[i as int].invariants[k].len() < usize::MAX);
            }
            assert(tv.skip(0) =~= tv);
        }
        match build_field_clauses_x(&fields[i].name, &fields[i].invariants, 0, fs) {
            Err(e) => Err(e),
            Ok(mut cs) => {
                match build_clauses_x(fields, i + 1, fs) {
                    Err(e) => Err(e),
                    Ok(mut cs2) => {
                        cs.append(&mut cs2);
                        proof {
                            assert(clauses_view(cs@) =~= build_clauses(fdv.skip(i as int), fsv)->Ok_0);
                        }
                        Ok(cs)
                    },
                }
            },
        }
    }
}

/// Processes a record declaration once, validating every invariant
/// declaration in order, and produces the type's constitution; the first
/// invalid declaration aborts generation, and the type gets no capability at
/// all.
pub fn generate(decl: &RecordDecl) -> (r: Result<Constitution, GenError>)
    requires
        distinct_field_names(decl@),
        texts_fit(decl@),
    ensures
        match (r, spec_generate(decl@)) {
            (Ok(c), Ok(cv)) => c@ == cv && c.wf(),
            (Err(e), Err(ev)) => e@ == ev,
            _ => false,
        },
{
    proof {
        assert(decl@ == decl.fields.deep_view()) by {
            assert(decl@.len() == decl.fields.deep_view().len());
            assert forall|k: int| 0 <= k < decl@.len() implies decl@[k] == decl.fields.deep_view()[k] by {
                assert(decl@[k] == decl.fields@[k]@);
            }
            assert(decl@ =~= decl.fields.deep_view());
        }
        assert(decl.fields.deep_view().skip(0) =~= decl.fields.deep_view());
    }
    let fs = collect_int_fields(&decl.fields, 0);
    match build_clauses_x(&decl.fields, 0, &fs) {
        Ok(cs) => {
            let c = Constitution { clauses: cs, int_fields: fs };
            proof {
                lemma_generate_wf(decl@, c@);
            }
            Ok(c)
        },
        Err(e) => Err(e),
    }
}


// ------------------------------------------------------------------
// Laws of the runtime check
// ------------------------------------------------------------------

proof fn lemma_build_clauses_empty(fields: Seq<FieldDeclV>, fs: Seq<IntFieldV>)
    requires
        forall|i: int| 0 <= i < fields.len() ==> #[trigger] fields[i].invariants.len() == 0,
    ensures
        build_clauses(fields, fs) == Ok::<Seq<ClauseV>, GenErrorV>(Seq::empty()),
    decreases fields.len(),
{
    if fields.len() > 0 {
        assert(forall|i: int|
            0 <= i < fields.skip(1).len() ==> #[trigger] fields.skip(1)[i].invariants.len() == 0);
        lemma_build_clauses_empty(fields.skip(1), fs);
        assert(fields[0].invariants.len() == 0);
        assert(Seq::<ClauseV>::empty() + Seq::<ClauseV>::empty() =~= Seq::<ClauseV>::empty());
    }
}

/// For a record type with no invariant declarations, generation succeeds and
/// the Runtime Check succeeds, whatever the field values.
pub proof fn lemma_no_invariants_always_ok(fields: Seq<FieldDeclV>, env: Map<Seq<char>, int>)
    requires
        forall|i: int| 0 <= i < fields.len() ==> #[trigger] fields[i].invariants.len() == 0,
    ensures
        spec_generate(fields) is Ok,
        spec_check(spec_generate(fields)->Ok_0.clauses, env) == Ok::<(), ConstitutionErrorV>(()),
{
    lemma_build_clauses_empty(fields, int_fields_of(fields));
}

/// First-failure semantics: if clause `k` is the first whose condition
/// evaluates false, the Runtime Check reports exactly that clause's canonical
/// text — and since nothing beyond `k` is constrained here, no later clause
/// affects the result.
pub proof fn lemma_first_failure(clauses: Seq<ClauseV>, env: Map<Seq<char>, int>, k: int)
    requires
        0 <= k < clauses.len(),
        !eval_expr_spec(clauses[k].cond, env),
        forall|j: int| 0 <= j < k ==> eval_expr_spec(#[trigger] clauses[j].cond, env),
    ensures
        spec_check(clauses, env) == Err::<(), ConstitutionErrorV>(
            ConstitutionErrorV { expression: clauses[k].text, values: Seq::empty() },
        ),
    decreases k,
{
    if k > 0 {
        assert(clauses.skip(1)[k - 1] == clauses[k]);
        assert(forall|j: int|
            0 <= j < k - 1 ==> eval_expr_spec(#[trigger] clauses.skip(1)[j].cond, env));
        lemma_first_failure(clauses.skip(1), env, k - 1);
    }
}

/// Conversely, the Runtime Check succeeds exactly when every recorded
/// condition holds of the instance.
pub proof fn lemma_check_ok_iff_all_hold(clauses: Seq<ClauseV>, env: Map<Seq<char>, int>)
    ensures
        (spec_check(clauses, env) is Ok) == (forall|k: int|
            0 <= k < clauses.len() ==> eval_expr_spec(#[trigger] clauses[k].cond, env)),
    decreases clauses.len(),
{
    if clauses.len() > 0 {
        lemma_check_ok_iff_all_hold(clauses.skip(1), env);
        if spec_check(clauses, env) is Ok {
            assert forall|k: int| 0 <= k < clauses.len() implies eval_expr_spec(
                #[trigger] clauses[k].cond,
                env,
            ) by {
                if k > 0 {
                    assert(clauses.skip(1)[k - 1] == clauses[k]);
                }
            }
        } else {
            if eval_expr_spec(clauses[0].cond, env) {
                let k = choose|k: int|
                    0 <= k < clauses.skip(1).len() && !eval_expr_spec(
                        #[trigger] clauses.skip(1)[k].cond,
                        env,
                    );
                assert(clauses[k + 1] == clauses.skip(1)[k]);
            }
        }
    }
}

/// The Runtime Check is a pure function of the constitution and the
/// instance's field values: repeated calls on unchanged values return the
/// same result, with no observable side effect. `enforce_law` pins each
/// result to `spec_check`, so any two of its results on the same input are
/// equal.
pub proof fn lemma_check_idempotent(
    c: ConstitutionV,
    vs: Seq<FieldValue>,
    r1: Result<(), ConstitutionError>,
    r2: Result<(), ConstitutionError>,
)
    requires
        check_matches(r1, spec_check(c.clauses, env_of(c.int_fields, vs))),
        check_matches(r2, spec_check(c.clauses, env_of(c.int_fields, vs))),
    ensures
        r1 is Ok == r2 is Ok,
        r1 is Err ==> r1->Err_0@ == r2->Err_0@,
{
}

} // verus!
