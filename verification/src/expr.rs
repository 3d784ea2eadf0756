//! The dedicated invariant-expression grammar.
//!
//! An invariant is written as source text and validated against this grammar
//! when the constitution is built. The grammar covers boolean combinations of
//! integer comparisons:
//!
//! ```text
//! invariant   := disjunction
//! disjunction := conjunction ( '||' conjunction )*
//! conjunction := negation ( '&&' negation )*
//! negation    := '!' negation | relation
//! relation    := '(' disjunction ')' | 'true' | 'false' | atom relop atom
//! relop       := '<' | '>' | '<=' | '>=' | '==' | '!='
//! atom        := number | '-' number | [ 'self' '.' ] identifier
//! ```
//!
//! Spaces and tabs may separate tokens. A number is a run of decimal digits
//! whose value fits in 64 unsigned bits. An identifier names a field of the
//! record, with or without the `self.` prefix; the keywords `self`, `true`
//! and `false` are not field names.
//!
//! The grammar's meaning is fixed by the specification-level parser
//! ([`parse_invariant_spec`]); the executable parser is proved to return
//! exactly what that parser describes.

use vstd::prelude::*;

verus! {

/// A comparison operator between two integer operands.
#[derive(Clone, Copy, PartialEq, Eq, Structural, Debug)]
pub enum RelOp {
    Lt,
    Gt,
    Le,
    Ge,
    Eq,
    Ne,
}

/// Specification-level operand: an integer literal or a field reference by
/// name (without the `self.` prefix).
pub enum SpecAtom {
    Lit(int),
    Field(Seq<char>),
}

/// Specification-level form of a parsed invariant expression.
pub enum SpecExpr {
    Const(bool),
    Rel(SpecAtom, RelOp, SpecAtom),
    Not(Box<SpecExpr>),
    And(Box<SpecExpr>, Box<SpecExpr>),
    Or(Box<SpecExpr>, Box<SpecExpr>),
}

/// Executable operand of a comparison.
pub enum Atom {
    Lit(i128),
    Field(String),
}

/// Executable form of a parsed invariant expression: the compiled condition
/// that a constitution records for each invariant.
pub enum Expr {
    Const(bool),
    Rel(Atom, RelOp, Atom),
    Not(Box<Expr>),
    And(Box<Expr>, Box<Expr>),
    Or(Box<Expr>, Box<Expr>),
}

pub open spec fn atom_view(a: Atom) -> SpecAtom {
    match a {
        Atom::Lit(v) => SpecAtom::Lit(v as int),
        Atom::Field(n) => SpecAtom::Field(n@),
    }
}

pub open spec fn expr_view(e: Expr) -> SpecExpr
    decreases e,
{
    match e {
        Expr::Const(b) => SpecExpr::Const(b),
        Expr::Rel(a, op, b) => SpecExpr::Rel(atom_view(a), op, atom_view(b)),
        Expr::Not(e1) => SpecExpr::Not(Box::new(expr_view(*e1))),
        Expr::And(e1, e2) => SpecExpr::And(Box::new(expr_view(*e1)), Box::new(expr_view(*e2))),
        Expr::Or(e1, e2) => SpecExpr::Or(Box::new(expr_view(*e1)), Box::new(expr_view(*e2))),
    }
}

impl View for Expr {
    type V = SpecExpr;

    open spec fn view(&self) -> SpecExpr {
        expr_view(*self)
    }
}

// ------------------------------------------------------------------
// Character classes and keywords
// ------------------------------------------------------------------

pub open spec fn is_space(c: char) -> bool {
    c == ' ' || c == '\t'
}

pub open spec fn is_digit(c: char) -> bool {
    48 <= c as u32 && c as u32 <= 57
}

pub open spec fn is_ident_start(c: char) -> bool {
    (65 <= c as u32 && c as u32 <= 90) || (97 <= c as u32 && c as u32 <= 122) || c as u32 == 95
}

pub open spec fn is_ident_char(c: char) -> bool {
    is_ident_start(c) || is_digit(c)
}

pub open spec fn kw_self() -> Seq<char> {
    seq!['s', 'e', 'l', 'f']
}

pub open spec fn kw_true() -> Seq<char> {
    seq!['t', 'r', 'u', 'e']
}

pub open spec fn kw_false() -> Seq<char> {
    seq!['f', 'a', 'l', 's', 'e']
}

/// Words the grammar reserves: none of them is a field name.
pub open spec fn is_keyword(w: Seq<char>) -> bool {
    w == kw_self() || w == kw_true() || w == kw_false()
}

// ------------------------------------------------------------------
// Specification-level scanner
// ------------------------------------------------------------------

/// Index of the first character at or after `i` that is not a space.
pub open spec fn skip_ws(s: Seq<char>, i: int) -> int
    decreases s.len() - i,
{
    if 0 <= i < s.len() && is_space(s[i]) {
        skip_ws(s, i + 1)
    } else {
        i
    }
}

/// Index just past the run of identifier characters starting at `i`.
pub open spec fn scan_ident(s: Seq<char>, i: int) -> int
    decreases s.len() - i,
{
    if 0 <= i < s.len() && is_ident_char(s[i]) {
        scan_ident(s, i + 1)
    } else {
        i
    }
}

/// Index just past the run of decimal digits starting at `i`.
pub open spec fn scan_digits(s: Seq<char>, i: int) -> int
    decreases s.len() - i,
{
    if 0 <= i < s.len() && is_digit(s[i]) {
        scan_digits(s, i + 1)
    } else {
        i
    }
}

/// Value of the decimal digit run `s[i..j)`.
pub open spec fn digits_val(s: Seq<char>, i: int, j: int) -> int
    decreases j - i,
{
    if i >= j {
        0
    } else {
        digits_val(s, i, j - 1) * 10 + (s[j - 1] as u32 - 48)
    }
}

pub proof fn lemma_scan_digits_bounds(s: Seq<char>, i: int)
    requires
        0 <= i <= s.len(),
    ensures
        i <= scan_digits(s, i) <= s.len(),
        forall|m: int| i <= m < scan_digits(s, i) ==> is_digit(s[m]),
    decreases s.len() - i,
{
    if i < s.len() && is_digit(s[i]) {
        lemma_scan_digits_bounds(s, i + 1);
    }
}

pub proof fn lemma_digits_val_nonneg(s: Seq<char>, i: int, j: int)
    requires
        forall|m: int| i <= m < j ==> is_digit(s[m]),
    ensures
        digits_val(s, i, j) >= 0,
    decreases j - i,
{
    if i < j {
        lemma_digits_val_nonneg(s, i, j - 1);
        assert(digits_val(s, i, j - 1) * 10 >= 0) by (nonlinear_arith)
            requires digits_val(s, i, j - 1) >= 0;
    }
}

pub proof fn lemma_digits_val_mono(s: Seq<char>, i: int, k: int, j: int)
    requires
        i <= k <= j,
        forall|m: int| i <= m < j ==> is_digit(s[m]),
    ensures
        digits_val(s, i, k) <= digits_val(s, i, j),
    decreases j - k,
{
    if k < j {
        lemma_digits_val_mono(s, i, k, j - 1);
        lemma_digits_val_nonneg(s, i, j - 1);
        assert(digits_val(s, i, j - 1) * 10 >= digits_val(s, i, j - 1)) by (nonlinear_arith)
            requires digits_val(s, i, j - 1) >= 0;
    }
}

// ------------------------------------------------------------------
// Specification-level parser
// ------------------------------------------------------------------

/// A parsed number: its value and the index just past its digits, or `None`
/// when no digit stands at `i` or the value does not fit in 64 unsigned bits.
pub open spec fn parse_num(s: Seq<char>, i: int) -> Option<(int, int)> {
    let j = scan_digits(s, i);
    if j == i {
        None
    } else if digits_val(s, i, j) > u64::MAX {
        None
    } else {
        Some((digits_val(s, i, j), j))
    }
}

/// A parsed atom and the index just past it.
pub open spec fn parse_atom(s: Seq<char>, i: int) -> Option<(SpecAtom, int)> {
    let i0 = skip_ws(s, i);
    if !(0 <= i0 < s.len()) {
        None
    } else if is_digit(s[i0]) {
        match parse_num(s, i0) {
            Some((v, j)) => Some((SpecAtom::Lit(v), j)),
            None => None,
        }
    } else if s[i0] == '-' {
        let i1 = skip_ws(s, i0 + 1);
        if 0 <= i1 < s.len() && is_digit(s[i1]) {
            match parse_num(s, i1) {
                Some((v, j)) => Some((SpecAtom::Lit(-v), j)),
                None => None,
            }
        } else {
            None
        }
    } else if is_ident_start(s[i0]) {
        let j = scan_ident(s, i0);
        let w = s.subrange(i0, j);
        if w == kw_self() {
            if j < s.len() && s[j] == '.' && j + 1 < s.len() && is_ident_start(s[j + 1]) {
                let k = scan_ident(s, j + 1);
                let n = s.subrange(j + 1, k);
                if is_keyword(n) {
                    None
                } else {
                    Some((SpecAtom::Field(n), k))
                }
            } else {
                None
            }
        } else if is_keyword(w) {
            None
        } else {
            Some((SpecAtom::Field(w), j))
        }
    } else {
        None
    }
}

/// A parsed comparison operator and the index just past it.
pub open spec fn parse_relop(s: Seq<char>, i: int) -> Option<(RelOp, int)> {
    let i0 = skip_ws(s, i);
    if !(0 <= i0 < s.len()) {
        None
    } else if s[i0] == '<' {
        if i0 + 1 < s.len() && s[i0 + 1] == '=' {
            Some((RelOp::Le, i0 + 2))
        } else {
            Some((RelOp::Lt, i0 + 1))
        }
    } else if s[i0] == '>' {
        if i0 + 1 < s.len() && s[i0 + 1] == '=' {
            Some((RelOp::Ge, i0 + 2))
        } else {
            Some((RelOp::Gt, i0 + 1))
        }
    } else if s[i0] == '=' {
        if i0 + 1 < s.len() && s[i0 + 1] == '=' {
            Some((RelOp::Eq, i0 + 2))
        } else {
            None
        }
    } else if s[i0] == '!' {
        if i0 + 1 < s.len() && s[i0 + 1] == '=' {
            Some((RelOp::Ne, i0 + 2))
        } else {
            None
        }
    } else {
        None
    }
}

/// A comparison: `atom relop atom`.
pub open spec fn parse_cmp(s: Seq<char>, i: int) -> Option<(SpecExpr, int)> {
    match parse_atom(s, i) {
        Some((a, j)) => match parse_relop(s, j) {
            Some((op, k)) => match parse_atom(s, k) {
                Some((b, l)) => Some((SpecExpr::Rel(a, op, b), l)),
                None => None,
            },
            None => None,
        },
        None => None,
    }
}

/// A relation: a parenthesised disjunction, a boolean constant, or a
/// comparison. `fuel` bounds the nesting depth; [`parse_invariant_spec`]
/// supplies more of it than any input can spend.
pub open spec fn parse_relation(s: Seq<char>, i: int, fuel: nat) -> Option<(SpecExpr, int)>
    decreases fuel, 0int,
{
    if fuel == 0 {
        None
    } else {
        let i0 = skip_ws(s, i);
        if 0 <= i0 < s.len() && s[i0] == '(' {
            match parse_disjunction(s, i0 + 1, (fuel - 1) as nat) {
                Some((e, j)) => {
                    let j0 = skip_ws(s, j);
                    if 0 <= j0 < s.len() && s[j0] == ')' {
                        Some((e, j0 + 1))
                    } else {
                        None
                    }
                },
                None => None,
            }
        } else if 0 <= i0 < s.len() && is_ident_start(s[i0]) {
            let j = scan_ident(s, i0);
            let w = s.subrange(i0, j);
            if w == kw_true() {
                Some((SpecExpr::Const(true), j))
            } else if w == kw_false() {
                Some((SpecExpr::Const(false), j))
            } else {
                parse_cmp(s, i)
            }
        } else {
            parse_cmp(s, i)
        }
    }
}

/// A negation: `!` applied to a negation, or a relation.
pub open spec fn parse_negation(s: Seq<char>, i: int, fuel: nat) -> Option<(SpecExpr, int)>
    decreases fuel, 1int,
{
    if fuel == 0 {
        None
    } else {
        let i0 = skip_ws(s, i);
        if 0 <= i0 < s.len() && s[i0] == '!' && !(i0 + 1 < s.len() && s[i0 + 1] == '=') {
            match parse_negation(s, i0 + 1, (fuel - 1) as nat) {
                Some((e, j)) => Some((SpecExpr::Not(Box::new(e)), j)),
                None => None,
            }
        } else {
            parse_relation(s, i, fuel)
        }
    }
}

/// The `( '&&' negation )*` tail of a conjunction, folded to the left onto
/// `acc`.
pub open spec fn parse_conjunction_rest(s: Seq<char>, i: int, acc: SpecExpr, fuel: nat) -> Option<
    (SpecExpr, int),
>
    decreases fuel, 2int,
{
    if fuel == 0 {
        None
    } else {
        let i0 = skip_ws(s, i);
        if 0 <= i0 && i0 + 1 < s.len() && s[i0] == '&' && s[i0 + 1] == '&' {
            match parse_negation(s, i0 + 2, (fuel - 1) as nat) {
                Some((b, j)) => parse_conjunction_rest(
                    s,
                    j,
                    SpecExpr::And(Box::new(acc), Box::new(b)),
                    (fuel - 1) as nat,
                ),
                None => None,
            }
        } else {
            Some((acc, i))
        }
    }
}

pub open spec fn parse_conjunction(s: Seq<char>, i: int, fuel: nat) -> Option<(SpecExpr, int)>
    decreases fuel, 3int,
{
    if fuel == 0 {
        None
    } else {
        match parse_negation(s, i, fuel) {
            Some((a, j)) => parse_conjunction_rest(s, j, a, fuel),
            None => None,
        }
    }
}

/// The `( '||' conjunction )*` tail of a disjunction, folded to the left onto
/// `acc`.
pub open spec fn parse_disjunction_rest(s: Seq<char>, i: int, acc: SpecExpr, fuel: nat) -> Option<
    (SpecExpr, int),
>
    decreases fuel, 4int,
{
    if fuel == 0 {
        None
    } else {
        let i0 = skip_ws(s, i);
        if 0 <= i0 && i0 + 1 < s.len() && s[i0] == '|' && s[i0 + 1] == '|' {
            match parse_conjunction(s, i0 + 2, (fuel - 1) as nat) {
                Some((b, j)) => parse_disjunction_rest(
                    s,
                    j,
                    SpecExpr::Or(Box::new(acc), Box::new(b)),
                    (fuel - 1) as nat,
                ),
                None => None,
            }
        } else {
            Some((acc, i))
        }
    }
}

pub open spec fn parse_disjunction(s: Seq<char>, i: int, fuel: nat) -> Option<(SpecExpr, int)>
    decreases fuel, 5int,
{
    if fuel == 0 {
        None
    } else {
        match parse_conjunction(s, i, fuel) {
            Some((a, j)) => parse_disjunction_rest(s, j, a, fuel),
            None => None,
        }
    }
}

/// What it means for an invariant text to be valid, and what it parses to:
/// the whole text, up to trailing spaces, is one disjunction. This function
/// is the grammar's definition.
pub open spec fn parse_invariant_spec(s: Seq<char>) -> Option<SpecExpr> {
    match parse_disjunction(s, 0, (s.len() + 1) as nat) {
        Some((e, j)) => {
            if skip_ws(s, j) == s.len() {
                Some(e)
            } else {
                None
            }
        },
        None => None,
    }
}

// ------------------------------------------------------------------
// Executable parser, proved against the specification-level one
// ------------------------------------------------------------------

/// How an executable parse result relates to a specification-level one.
pub open spec fn expr_matches(r: Option<(Expr, usize)>, sp: Option<(SpecExpr, int)>) -> bool {
    match (r, sp) {
        (Some((e, j)), Some((se, sj))) => expr_view(e) == se && j as int == sj,
        (None, None) => true,
        _ => false,
    }
}

pub open spec fn atom_matches(r: Option<(Atom, usize)>, sp: Option<(SpecAtom, int)>) -> bool {
    match (r, sp) {
        (Some((a, j)), Some((sa, sj))) => atom_view(a) == sa && j as int == sj,
        (None, None) => true,
        _ => false,
    }
}

pub open spec fn num_matches(r: Option<(u64, usize)>, sp: Option<(int, int)>) -> bool {
    match (r, sp) {
        (Some((v, j)), Some((sv, sj))) => v as int == sv && j as int == sj,
        (None, None) => true,
        _ => false,
    }
}

pub open spec fn relop_matches(r: Option<(RelOp, usize)>, sp: Option<(RelOp, int)>) -> bool {
    match (r, sp) {
        (Some((op, j)), Some((sop, sj))) => op == sop && j as int == sj,
        (None, None) => true,
        _ => false,
    }
}

fn ch_is_space(c: char) -> (r: bool)
    ensures
        r == is_space(c),
{
    c == ' ' || c == '\t'
}

fn ch_is_digit(c: char) -> (r: bool)
    ensures
        r == is_digit(c),
{
    c as u32 >= 48 && c as u32 <= 57
}

fn ch_is_ident_start(c: char) -> (r: bool)
    ensures
        r == is_ident_start(c),
{
    (c as u32 >= 65 && c as u32 <= 90) || (c as u32 >= 97 && c as u32 <= 122) || c as u32 == 95
}

fn ch_is_ident_char(c: char) -> (r: bool)
    ensures
        r == is_ident_char(c),
{
    ch_is_ident_start(c) || ch_is_digit(c)
}

fn p_skip_ws(s: &str, i: usize) -> (r: usize)
    requires
        i as int <= s@.len(),
    ensures
        r as int == skip_ws(s@, i as int),
        i <= r,
        r as int <= s@.len(),
{
    let len = s.unicode_len();
    let mut k = i;
    while k < len
        invariant
            i <= k <= len,
            len == s@.len(),
            skip_ws(s@, i as int) == skip_ws(s@, k as int),
        decreases len - k,
    {
        let c = s.get_char(k);
        if !ch_is_space(c) {
            return k;
        }
        k += 1;
    }
    k
}

fn p_scan_ident(s: &str, i: usize) -> (r: usize)
    requires
        i as int <= s@.len(),
    ensures
        r as int == scan_ident(s@, i as int),
        i <= r,
        r as int <= s@.len(),
{
    let len = s.unicode_len();
    let mut k = i;
    while k < len
        invariant
            i <= k <= len,
            len == s@.len(),
            scan_ident(s@, i as int) == scan_ident(s@, k as int),
        decreases len - k,
    {
        let c = s.get_char(k);
        if !ch_is_ident_char(c) {
            return k;
        }
        k += 1;
    }
    k
}

fn p_scan_digits(s: &str, i: usize) -> (r: usize)
    requires
        i as int <= s@.len(),
    ensures
        r as int == scan_digits(s@, i as int),
        i <= r,
        r as int <= s@.len(),
{
    let len = s.unicode_len();
    let mut k = i;
    while k < len
        invariant
            i <= k <= len,
            len == s@.len(),
            scan_digits(s@, i as int) == scan_digits(s@, k as int),
        decreases len - k,
    {
        let c = s.get_char(k);
        if !ch_is_digit(c) {
            return k;
        }
        k += 1;
    }
    k
}

fn p_parse_num(s: &str, i: usize) -> (r: Option<(u64, usize)>)
    requires
        i as int <= s@.len(),
    ensures
        num_matches(r, parse_num(s@, i as int)),
        r is Some ==> i <= r->Some_0.1 && r->Some_0.1 as int <= s@.len(),
{
    let j = p_scan_digits(s, i);
    if j == i {
        return None;
    }
    proof {
        lemma_scan_digits_bounds(s@, i as int);
    }
    let mut acc: u128 = 0;
    let mut k = i;
    while k < j
        invariant
            i <= k <= j,
            j as int == scan_digits(s@, i as int),
            j as int <= s@.len(),
            forall|m: int| i <= m < j ==> is_digit(s@[m]),
            acc == digits_val(s@, i as int, k as int),
            acc <= u64::MAX,
        decreases j - k,
    {
        let c = s.get_char(k);
        assert(is_digit(s@[k as int]));
        let d = c as u32 - 48;
        acc = acc * 10 + d as u128;
        if acc > u64::MAX as u128 {
            proof {
                lemma_digits_val_mono(s@, i as int, (k + 1) as int, j as int);
            }
            return None;
        }
        k += 1;
    }
    Some((acc as u64, j))
}

fn is_self_kw(w: &str) -> (r: bool)
    ensures
        r == (w@ == kw_self()),
{
    if w.unicode_len() != 4 {
        return false;
    }
    let r = w.get_char(0) == 's' && w.get_char(1) == 'e' && w.get_char(2) == 'l' && w.get_char(3)
        == 'f';
    proof {
        if r {
            assert(w@ =~= kw_self());
        }
    }
    r
}

fn is_true_kw(w: &str) -> (r: bool)
    ensures
        r == (w@ == kw_true()),
{
    if w.unicode_len() != 4 {
        return false;
    }
    let r = w.get_char(0) == 't' && w.get_char(1) == 'r' && w.get_char(2) == 'u' && w.get_char(3)
        == 'e';
    proof {
        if r {
            assert(w@ =~= kw_true());
        }
    }
    r
}

fn is_false_kw(w: &str) -> (r: bool)
    ensures
        r == (w@ == kw_false()),
{
    if w.unicode_len() != 5 {
        return false;
    }
    let r = w.get_char(0) == 'f' && w.get_char(1) == 'a' && w.get_char(2) == 'l' && w.get_char(3)
        == 's' && w.get_char(4) == 'e';
    proof {
        if r {
            assert(w@ =~= kw_false());
        }
    }
    r
}

fn is_any_kw(w: &str) -> (r: bool)
    ensures
        r == is_keyword(w@),
{
    is_self_kw(w) || is_true_kw(w) || is_false_kw(w)
}

fn p_parse_atom(s: &str, i: usize) -> (r: Option<(Atom, usize)>)
    requires
        i as int <= s@.len(),
    ensures
        atom_matches(r, parse_atom(s@, i as int)),
        r is Some ==> r->Some_0.1 as int <= s@.len(),
{
    let len = s.unicode_len();
    let i0 = p_skip_ws(s, i);
    if i0 >= len {
        return None;
    }
    let c = s.get_char(i0);
    if ch_is_digit(c) {
        match p_parse_num(s, i0) {
            Some((v, j)) => Some((Atom::Lit(v as i128), j)),
            None => None,
        }
    } else if c == '-' {
        let i1 = p_skip_ws(s, i0 + 1);
        if i1 >= len {
            return None;
        }
        let c1 = s.get_char(i1);
        if !ch_is_digit(c1) {
            return None;
        }
        match p_parse_num(s, i1) {
            Some((v, j)) => Some((Atom::Lit(-(v as i128)), j)),
            None => None,
        }
    } else if ch_is_ident_start(c) {
        let j = p_scan_ident(s, i0);
        let w = s.substring_char(i0, j);
        if is_self_kw(w) {
            if j >= len {
                return None;
            }
            let dot = s.get_char(j);
            if dot != '.' {
                return None;
            }
            if j + 1 >= len {
                return None;
            }
            let c2 = s.get_char(j + 1);
            if !ch_is_ident_start(c2) {
                return None;
            }
            let k = p_scan_ident(s, j + 1);
            let n = s.substring_char(j + 1, k);
            if is_any_kw(n) {
                None
            } else {
                Some((Atom::Field(n.to_owned()), k))
            }
        } else if is_any_kw(w) {
            None
        } else {
            Some((Atom::Field(w.to_owned()), j))
        }
    } else {
        None
    }
}

fn p_parse_relop(s: &str, i: usize) -> (r: Option<(RelOp, usize)>)
    requires
        i as int <= s@.len(),
    ensures
        relop_matches(r, parse_relop(s@, i as int)),
        r is Some ==> r->Some_0.1 as int <= s@.len(),
{
    let len = s.unicode_len();
    let i0 = p_skip_ws(s, i);
    if i0 >= len {
        return None;
    }
    let c = s.get_char(i0);
    let next_is_eq = if i0 + 1 < len {
        s.get_char(i0 + 1) == '='
    } else {
        false
    };
    if c == '<' {
        if next_is_eq {
            Some((RelOp::Le, i0 + 2))
        } else {
            Some((RelOp::Lt, i0 + 1))
        }
    } else if c == '>' {
        if next_is_eq {
            Some((RelOp::Ge, i0 + 2))
        } else {
            Some((RelOp::Gt, i0 + 1))
        }
    } else if c == '=' {
        if next_is_eq {
            Some((RelOp::Eq, i0 + 2))
        } else {
            None
        }
    } else if c == '!' {
        if next_is_eq {
            Some((RelOp::Ne, i0 + 2))
        } else {
            None
        }
    } else {
        None
    }
}

fn p_parse_cmp(s: &str, i: usize) -> (r: Option<(Expr, usize)>)
    requires
        i as int <= s@.len(),
    ensures
        expr_matches(r, parse_cmp(s@, i as int)),
        r is Some ==> r->Some_0.1 as int <= s@.len(),
{
    match p_parse_atom(s, i) {
        Some((a, j)) => match p_parse_relop(s, j) {
            Some((op, k)) => match p_parse_atom(s, k) {
                Some((b, l)) => Some((Expr::Rel(a, op, b), l)),
                None => None,
            },
            None => None,
        },
        None => None,
    }
}

fn p_parse_relation(s: &str, i: usize, fuel: usize) -> (r: Option<(Expr, usize)>)
    requires
        i as int <= s@.len(),
    ensures
        expr_matches(r, parse_relation(s@, i as int, fuel as nat)),
        r is Some ==> r->Some_0.1 as int <= s@.len(),
    decreases fuel, 0int,
{
    if fuel == 0 {
        return None;
    }
    let len = s.unicode_len();
    let i0 = p_skip_ws(s, i);
    let c = if i0 < len {
        s.get_char(i0)
    } else {
        ' '
    };
    if i0 < len && c == '(' {
        match p_parse_disjunction(s, i0 + 1, fuel - 1) {
            Some((e, j)) => {
                let j0 = p_skip_ws(s, j);
                if j0 < len && s.get_char(j0) == ')' {
                    Some((e, j0 + 1))
                } else {
                    None
                }
            },
            None => None,
        }
    } else if i0 < len && ch_is_ident_start(c) {
        let j = p_scan_ident(s, i0);
        let w = s.substring_char(i0, j);
        if is_true_kw(w) {
            Some((Expr::Const(true), j))
        } else if is_false_kw(w) {
            Some((Expr::Const(false), j))
        } else {
            p_parse_cmp(s, i)
        }
    } else {
        p_parse_cmp(s, i)
    }
}

fn p_parse_negation(s: &str, i: usize, fuel: usize) -> (r: Option<(Expr, usize)>)
    requires
        i as int <= s@.len(),
    ensures
        expr_matches(r, parse_negation(s@, i as int, fuel as nat)),
        r is Some ==> r->Some_0.1 as int <= s@.len(),
    decreases fuel, 1int,
{
    if fuel == 0 {
        return None;
    }
    let len = s.unicode_len();
    let i0 = p_skip_ws(s, i);
    let c = if i0 < len {
        s.get_char(i0)
    } else {
        ' '
    };
    let next_is_eq = if len - i0 >= 2 {
        s.get_char(i0 + 1) == '='
    } else {
        false
    };
    if i0 < len && c == '!' && !next_is_eq {
        match p_parse_negation(s, i0 + 1, fuel - 1) {
            Some((e, j)) => Some((Expr::Not(Box::new(e)), j)),
            None => None,
        }
    } else {
        p_parse_relation(s, i, fuel)
    }
}

fn p_parse_conjunction_rest(s: &str, i: usize, acc: Expr, fuel: usize) -> (r: Option<(Expr, usize)>)
    requires
        i as int <= s@.len(),
    ensures
        expr_matches(r, parse_conjunction_rest(s@, i as int, expr_view(acc), fuel as nat)),
        r is Some ==> r->Some_0.1 as int <= s@.len(),
    decreases fuel, 2int,
{
    if fuel == 0 {
        return None;
    }
    let len = s.unicode_len();
    let i0 = p_skip_ws(s, i);
    let two_amps = if len - i0 >= 2 {
        s.get_char(i0) == '&' && s.get_char(i0 + 1) == '&'
    } else {
        false
    };
    if two_amps {
        match p_parse_negation(s, i0 + 2, fuel - 1) {
            Some((b, j)) => p_parse_conjunction_rest(
                s,
                j,
                Expr::And(Box::new(acc), Box::new(b)),
                fuel - 1,
            ),
            None => None,
        }
    } else {
        Some((acc, i))
    }
}

fn p_parse_conjunction(s: &str, i: usize, fuel: usize) -> (r: Option<(Expr, usize)>)
    requires
        i as int <= s@.len(),
    ensures
        expr_matches(r, parse_conjunction(s@, i as int, fuel as nat)),
        r is Some ==> r->Some_0.1 as int <= s@.len(),
    decreases fuel, 3int,
{
    if fuel == 0 {
        return None;
    }
    match p_parse_negation(s, i, fuel) {
        Some((a, j)) => p_parse_conjunction_rest(s, j, a, fuel),
        None => None,
    }
}

fn p_parse_disjunction_rest(s: &str, i: usize, acc: Expr, fuel: usize) -> (r: Option<(Expr, usize)>)
    requires
        i as int <= s@.len(),
    ensures
        expr_matches(r, parse_disjunction_rest(s@, i as int, expr_view(acc), fuel as nat)),
        r is Some ==> r->Some_0.1 as int <= s@.len(),
    decreases fuel, 4int,
{
    if fuel == 0 {
        return None;
    }
    let len = s.unicode_len();
    let i0 = p_skip_ws(s, i);
    let two_bars = if len - i0 >= 2 {
        s.get_char(i0) == '|' && s.get_char(i0 + 1) == '|'
    } else {
        false
    };
    if two_bars {
        match p_parse_conjunction(s, i0 + 2, fuel - 1) {
            Some((b, j)) => p_parse_disjunction_rest(
                s,
                j,
                Expr::Or(Box::new(acc), Box::new(b)),
                fuel - 1,
            ),
            None => None,
        }
    } else {
        Some((acc, i))
    }
}

fn p_parse_disjunction(s: &str, i: usize, fuel: usize) -> (r: Option<(Expr, usize)>)
    requires
        i as int <= s@.len(),
    ensures
        expr_matches(r, parse_disjunction(s@, i as int, fuel as nat)),
        r is Some ==> r->Some_0.1 as int <= s@.len(),
    decreases fuel, 5int,
{
    if fuel == 0 {
        return None;
    }
    match p_parse_conjunction(s, i, fuel) {
        Some((a, j)) => p_parse_disjunction_rest(s, j, a, fuel),
        None => None,
    }
}

/// Parses an invariant text against the grammar, returning the compiled
/// condition exactly when [`parse_invariant_spec`] accepts the text.
pub fn parse_invariant(s: &str) -> (r: Option<Expr>)
    requires
        s@.len() < usize::MAX,
    ensures
        match (r, parse_invariant_spec(s@)) {
            (Some(e), Some(se)) => expr_view(e) == se,
            (None, None) => true,
            _ => false,
        },
{
    let len = s.unicode_len();
    match p_parse_disjunction(s, 0, len + 1) {
        Some((e, j)) => {
            let j0 = p_skip_ws(s, j);
            if j0 == len {
                Some(e)
            } else {
                None
            }
        },
        None => None,
    }
}

} // verus!
