//! The policy-text compiler: parses the condition-language source text
//! (a role list and a sequence of privilege declarations) into the
//! process-wide privilege table, once, at startup. Every malformation is
//! reported as a compilation error; none is deferred to request time.
//!
//! The grammar, over ASCII text with `#` line comments:
//!
//! ```text
//! policy   := '[' roledef ('|' roledef)* ']'  ( '[' name expr ']' )*
//! roledef  := name '=' rank
//! expr     := 'anyone' | 'own' | 'own_student'
//!           | 'has_role' '(' name ')'
//!           | 'any' '(' expr (',' expr)* ')'
//!           | 'all' '(' expr (',' expr)* ')'
//! ```
//!
//! where a name is a letter or underscore followed by letters, digits
//! and underscores, and a rank is at most eighteen decimal digits.

use vstd::prelude::*;

use crate::conditions::Conditions;
use crate::roles::{Role, RoleTable};
use crate::table::{Privilege, Table};

verus! {

/// Why a policy text was rejected.
#[derive(Clone, Copy, Debug, PartialEq, Eq, Structural)]
pub enum CompileError {
    /// The text does not follow the grammar.
    Malformed,
    /// A role name is declared twice.
    DuplicateRoleName,
    /// A rank is given to two roles.
    DuplicateRank,
    /// No role has rank zero, so no role could be the default.
    MissingDefaultRole,
    /// A privilege name is declared twice.
    DuplicatePrivilege,
    /// A `has_role` condition names an undeclared role.
    UnknownRole,
}

/// A blank: space, tab, carriage return or line feed.
pub open spec fn is_blank(b: u8) -> bool {
    b == 32 || b == 9 || b == 13 || b == 10
}

/// A decimal digit.
pub open spec fn is_digit(b: u8) -> bool {
    48 <= b <= 57
}

/// A letter or underscore, which may start a name.
pub open spec fn is_name_start(b: u8) -> bool {
    (97 <= b <= 122) || (65 <= b <= 90) || b == 95
}

/// A character that may continue a name.
pub open spec fn is_name_char(b: u8) -> bool {
    is_name_start(b) || is_digit(b)
}

/// The position of the next meaningful character at or after `i`:
/// blanks are skipped, and a `#` starts a comment running to the end of
/// the line. `in_comment` says whether position `i` is inside a comment.
pub open spec fn spec_skip(src: Seq<u8>, i: int, in_comment: bool) -> int
    decreases src.len() - i when 0 <= i <= src.len()
{
    if i == src.len() {
        i
    } else if in_comment {
        spec_skip(src, i + 1, src[i] != 10)
    } else if is_blank(src[i]) {
        spec_skip(src, i + 1, false)
    } else if src[i] == 35 {
        spec_skip(src, i + 1, true)
    } else {
        i
    }
}

/// The position right after the run of name characters starting at `i`.
pub open spec fn spec_name_end(src: Seq<u8>, i: int) -> int
    decreases src.len() - i when 0 <= i <= src.len()
{
    if i < src.len() && is_name_char(src[i]) {
        spec_name_end(src, i + 1)
    } else {
        i
    }
}

/// The position right after the run of digits starting at `i`.
pub open spec fn spec_digits_end(src: Seq<u8>, i: int) -> int
    decreases src.len() - i when 0 <= i <= src.len()
{
    if i < src.len() && is_digit(src[i]) {
        spec_digits_end(src, i + 1)
    } else {
        i
    }
}

/// The value of a sequence of decimal digits.
pub open spec fn digits_value(s: Seq<u8>) -> int
    decreases s.len(),
{
    if s.len() == 0 {
        0
    } else {
        digits_value(s.drop_last()) * 10 + (s.last() - 48)
    }
}

/// Ten to the given power.
pub open spec fn pow10(n: nat) -> int
    decreases n,
{
    if n == 0 {
        1
    } else {
        10 * pow10((n - 1) as nat)
    }
}

/// Both scanning bounds stay within the text and never move backwards.
pub proof fn lemma_scan_bounds(src: Seq<u8>, i: int, in_comment: bool)
    requires
        0 <= i <= src.len(),
    ensures
        i <= spec_skip(src, i, in_comment) <= src.len(),
        i <= spec_name_end(src, i) <= src.len(),
        i <= spec_digits_end(src, i) <= src.len(),
    decreases src.len() - i,
{
    if i < src.len() {
        lemma_scan_bounds(src, i + 1, false);
        lemma_scan_bounds(src, i + 1, true);
    }
}

/// The next meaningful position, as `spec_skip` gives it.
fn skip(src: &[u8], i: usize) -> (r: usize)
    requires
        i <= src@.len(),
    ensures
        r == spec_skip(src@, i as int, false),
        i <= r <= src@.len(),
{
    proof {
        lemma_scan_bounds(src@, i as int, false);
    }
    let n = src.len();
    let mut j = i;
    let mut in_comment = false;
    while j < n && (in_comment || is_blank_at(src, j) || src[j] == 35)
        invariant
            i <= j <= n,
            n == src@.len(),
            spec_skip(src@, i as int, false) == spec_skip(src@, j as int, in_comment),
        decreases n - j,
    {
        in_comment = if in_comment {
            src[j] != 10
        } else {
            src[j] == 35
        };
        j = j + 1;
        proof {
            lemma_scan_bounds(src@, j as int, in_comment);
        }
    }
    j
}

/// Whether the byte at a position is blank.
fn is_blank_at(src: &[u8], i: usize) -> (r: bool)
    requires
        i < src@.len(),
    ensures
        r == is_blank(src@[i as int]),
{
    let b = src[i];
    b == 32 || b == 9 || b == 13 || b == 10
}

/// The bytes of the keyword `anyone`.
pub open spec fn kw_anyone() -> Seq<u8> {
    seq![97u8, 110u8, 121u8, 111u8, 110u8, 101u8]
}

/// The bytes of the keyword `has_role`.
pub open spec fn kw_has_role() -> Seq<u8> {
    seq![104u8, 97u8, 115u8, 95u8, 114u8, 111u8, 108u8, 101u8]
}

/// The bytes of the keyword `own`.
pub open spec fn kw_own() -> Seq<u8> {
    seq![111u8, 119u8, 110u8]
}

/// The bytes of the keyword `own_student`.
pub open spec fn kw_own_student() -> Seq<u8> {
    seq![111u8, 119u8, 110u8, 95u8, 115u8, 116u8, 117u8, 100u8, 101u8, 110u8, 116u8]
}

/// The bytes of the keyword `any`.
pub open spec fn kw_any() -> Seq<u8> {
    seq![97u8, 110u8, 121u8]
}

/// The bytes of the keyword `all`.
pub open spec fn kw_all() -> Seq<u8> {
    seq![97u8, 108u8, 108u8]
}

/// A name found at a position: the next meaningful character must start
/// a name; the name runs to the last name character; the returned
/// position is right after it.
pub open spec fn spec_parse_name(src: Seq<u8>, i: int) -> Option<(Seq<u8>, int)>
    recommends
        0 <= i <= src.len(),
{
    let s = spec_skip(src, i, false);
    if s < src.len() && is_name_start(src[s]) {
        let e = spec_name_end(src, s);
        Some((src.subrange(s, e), e))
    } else {
        None
    }
}

/// A rank found at a position: the next meaningful character must be a
/// digit; at most eighteen digits are accepted, so the value fits the
/// rank type.
pub open spec fn spec_parse_number(src: Seq<u8>, i: int) -> Option<(int, int)>
    recommends
        0 <= i <= src.len(),
{
    let s = spec_skip(src, i, false);
    if s < src.len() && is_digit(src[s]) {
        let e = spec_digits_end(src, s);
        if e - s <= 18 {
            Some((digits_value(src.subrange(s, e)), e))
        } else {
            None
        }
    } else {
        None
    }
}

/// The position right after an expected punctuation byte, which must be
/// the next meaningful character.
pub open spec fn spec_expect(src: Seq<u8>, i: int, b: u8) -> Option<int>
    recommends
        0 <= i <= src.len(),
{
    let s = spec_skip(src, i, false);
    if s < src.len() && src[s] == b {
        Some(s + 1)
    } else {
        None
    }
}

/// A copy of `src[i .. j]`.
fn copy_range(src: &[u8], i: usize, j: usize) -> (v: Vec<u8>)
    requires
        i <= j <= src@.len(),
    ensures
        v@ == src@.subrange(i as int, j as int),
{
    let mut v: Vec<u8> = Vec::new();
    let mut k = i;
    while k < j
        invariant
            i <= k <= j <= src@.len(),
            v@ == src@.subrange(i as int, k as int),
        decreases j - k,
    {
        v.push(src[k]);
        proof {
            assert(v@ =~= src@.subrange(i as int, k + 1));
        }
        k = k + 1;
    }
    v
}

/// Whether the byte at a position may start a name.
fn is_name_start_at(src: &[u8], i: usize) -> (r: bool)
    requires
        i < src@.len(),
    ensures
        r == is_name_start(src@[i as int]),
{
    let b = src[i];
    (97 <= b && b <= 122) || (65 <= b && b <= 90) || b == 95
}

/// Whether the byte at a position may continue a name.
fn is_name_char_at(src: &[u8], i: usize) -> (r: bool)
    requires
        i < src@.len(),
    ensures
        r == is_name_char(src@[i as int]),
{
    let b = src[i];
    (97 <= b && b <= 122) || (65 <= b && b <= 90) || b == 95 || (48 <= b && b <= 57)
}

/// The end of the run of name characters, as `spec_name_end` gives it.
fn name_end(src: &[u8], i: usize) -> (r: usize)
    requires
        i <= src@.len(),
    ensures
        r == spec_name_end(src@, i as int),
        i <= r <= src@.len(),
{
    proof {
        lemma_scan_bounds(src@, i as int, false);
    }
    let n = src.len();
    let mut j = i;
    while j < n && is_name_char_at(src, j)
        invariant
            i <= j <= n,
            n == src@.len(),
            spec_name_end(src@, i as int) == spec_name_end(src@, j as int),
        decreases n - j,
    {
        j = j + 1;
        proof {
            lemma_scan_bounds(src@, j as int, false);
        }
    }
    j
}

/// The end of the run of digits, as `spec_digits_end` gives it.
fn digits_end(src: &[u8], i: usize) -> (r: usize)
    requires
        i <= src@.len(),
    ensures
        r == spec_digits_end(src@, i as int),
        i <= r <= src@.len(),
{
    proof {
        lemma_scan_bounds(src@, i as int, false);
    }
    let n = src.len();
    let mut j = i;
    while j < n && 48 <= src[j] && src[j] <= 57
        invariant
            i <= j <= n,
            n == src@.len(),
            spec_digits_end(src@, i as int) == spec_digits_end(src@, j as int),
        decreases n - j,
    {
        j = j + 1;
        proof {
            lemma_scan_bounds(src@, j as int, false);
        }
    }
    j
}

/// Scan a name, as `spec_parse_name` gives it.
fn parse_name(src: &[u8], i: usize) -> (r: Option<(Vec<u8>, usize)>)
    requires
        i <= src@.len(),
    ensures
        match spec_parse_name(src@, i as int) {
            Some(pair) => {
                &&& r matches Some(got)
                &&& got.0@ == pair.0
                &&& got.1 == pair.1
                &&& i <= got.1 <= src@.len()
            },
            None => r is None,
        },
{
    let s = skip(src, i);
    if s < src.len() && is_name_start_at(src, s) {
        let e = name_end(src, s);
        Some((copy_range(src, s, e), e))
    } else {
        None
    }
}

/// Scan a rank, as `spec_parse_number` gives it.
fn parse_number(src: &[u8], i: usize) -> (r: Option<(i64, usize)>)
    requires
        i <= src@.len(),
    ensures
        match spec_parse_number(src@, i as int) {
            Some(pair) => {
                &&& r matches Some(got)
                &&& got.0 as int == pair.0
                &&& got.1 == pair.1
                &&& i <= got.1 <= src@.len()
            },
            None => r is None,
        },
{
    let s = skip(src, i);
    if s < src.len() && 48 <= src[s] && src[s] <= 57 {
        let e = digits_end(src, s);
        if e - s <= 18 {
            proof {
                lemma_digits_run(src@, s as int, e as int);
            }
            let mut value: i64 = 0;
            let mut k = s;
            while k < e
                invariant
                    s <= k <= e <= src@.len(),
                    e - s <= 18,
                    forall|m: int| s <= m < e ==> is_digit(#[trigger] src@[m]),
                    value == digits_value(src@.subrange(s as int, k as int)),
                    0 <= value < pow10((k - s) as nat),
                decreases e - k,
            {
                proof {
                    lemma_digits_value_step(src@, s as int, k as int);
                    lemma_pow10_increases((k - s + 1) as nat, 18);
                    lemma_pow10_18();
                }
                value = value * 10 + (src[k] - 48) as i64;
                k = k + 1;
            }
            Some((value, e))
        } else {
            None
        }
    } else {
        None
    }
}

/// Every byte before the digits' end is a digit.
proof fn lemma_digits_run(src: Seq<u8>, i: int, e: int)
    requires
        0 <= i <= src.len(),
        e == spec_digits_end(src, i),
    ensures
        i <= e <= src.len(),
        forall|m: int| i <= m < e ==> is_digit(#[trigger] src[m]),
    decreases src.len() - i,
{
    if i < src.len() && is_digit(src[i]) {
        lemma_digits_run(src, i + 1, e);
    }
}

/// Extending a digit prefix by one digit multiplies its value by ten and
/// adds the digit.
proof fn lemma_digits_value_step(src: Seq<u8>, s: int, k: int)
    requires
        0 <= s <= k < src.len(),
    ensures
        digits_value(src.subrange(s, k + 1)) == digits_value(src.subrange(s, k)) * 10 + (src[k]
            - 48),
{
    assert(src.subrange(s, k + 1).drop_last() =~= src.subrange(s, k));
    assert(src.subrange(s, k + 1).last() == src[k]);
}

/// Ten to a power is positive.
proof fn lemma_pow10_pos(n: nat)
    ensures
        pow10(n) >= 1,
    decreases n,
{
    if n > 0 {
        lemma_pow10_pos((n - 1) as nat);
    }
}

/// Ten to a power grows with the power.
proof fn lemma_pow10_increases(a: nat, b: nat)
    requires
        a <= b,
    ensures
        pow10(a) <= pow10(b),
    decreases b,
{
    lemma_pow10_pos(a);
    if a < b {
        lemma_pow10_increases(a, (b - 1) as nat);
        lemma_pow10_pos((b - 1) as nat);
    }
}

/// Ten to the eighteenth fits the rank type.
proof fn lemma_pow10_18()
    ensures
        pow10(18) == 1_000_000_000_000_000_000,
{
    assert(pow10(18) == 1_000_000_000_000_000_000) by {
        reveal_with_fuel(pow10, 19);
    }
}

/// Step past an expected punctuation byte, as `spec_expect` gives it.
fn expect(src: &[u8], i: usize, b: u8) -> (r: Option<usize>)
    requires
        i <= src@.len(),
    ensures
        match spec_expect(src@, i as int, b) {
            Some(e) => {
                &&& r matches Some(got)
                &&& got as int == e
                &&& i <= got <= src@.len()
            },
            None => r is None,
        },
{
    let s = skip(src, i);
    if s < src.len() && src[s] == b {
        Some(s + 1)
    } else {
        None
    }
}

/// The mathematical form of a compiled condition, with sequences for
/// children.
pub enum CondModel {
    /// Always satisfied.
    Anyone,
    /// The acting user's rank must meet this minimum.
    HasRole(i64),
    /// The acting user must be the target.
    Own,
    /// The acting user must instruct at the target's training location.
    OwnStudent,
    /// Every child must be satisfied.
    All(Seq<CondModel>),
    /// At least one child must be satisfied.
    Any(Seq<CondModel>),
}

/// The mathematical form of a condition tree.
pub open spec fn view_cond(c: Conditions) -> CondModel
    decreases c,
{
    match c {
        Conditions::Anyone => CondModel::Anyone,
        Conditions::HasRole(min) => CondModel::HasRole(min),
        Conditions::Own => CondModel::Own,
        Conditions::OwnStudent => CondModel::OwnStudent,
        Conditions::All(parts) => CondModel::All(view_conds(parts@, 0)),
        Conditions::Any(parts) => CondModel::Any(view_conds(parts@, 0)),
    }
}

/// The mathematical form of the condition trees from index `i` on.
pub open spec fn view_conds(s: Seq<Conditions>, i: int) -> Seq<CondModel>
    decreases s, s.len() - i when 0 <= i <= s.len()
{
    if i == s.len() {
        Seq::empty()
    } else {
        seq![view_cond(s[i])] + view_conds(s, i + 1)
    }
}

/// The mathematical form of a declared role: its name and rank.
pub open spec fn roles_view(rs: Seq<Role>) -> Seq<(Seq<u8>, i64)> {
    rs.map_values(|r: Role| (r.name@, r.rank))
}

/// The rank of the first role declared under a name, if any is.
pub open spec fn spec_rank_lookup(roles: Seq<(Seq<u8>, i64)>, name: Seq<u8>) -> Option<i64>
    decreases roles.len(),
{
    if roles.len() == 0 {
        None
    } else if roles[0].0 == name {
        Some(roles[0].1)
    } else {
        spec_rank_lookup(roles.drop_first(), name)
    }
}

/// The rank declared for a role name, as `spec_rank_lookup` gives it.
fn rank_lookup(roles: &Vec<Role>, name: &[u8]) -> (r: Option<i64>)
    ensures
        r == spec_rank_lookup(roles_view(roles@), name@),
{
    proof {
        assert(roles_view(roles@).skip(0) =~= roles_view(roles@));
    }
    let n = roles.len();
    for i in 0..n
        invariant
            n == roles@.len(),
            spec_rank_lookup(roles_view(roles@), name@)
                == spec_rank_lookup(roles_view(roles@).skip(i as int), name@),
    {
        proof {
            assert(roles_view(roles@).skip(i as int)[0] == roles_view(roles@)[i as int]);
            assert(roles_view(roles@).skip(i as int).drop_first()
                =~= roles_view(roles@).skip(i + 1));
        }
        if crate::roles::bytes_eq(roles[i].name.as_slice(), name) {
            return Some(roles[i].rank);
        }
    }
    proof {
        assert(roles_view(roles@).skip(n as int) =~= Seq::<(Seq<u8>, i64)>::empty());
    }
    None
}

/// Whether a byte string is the keyword `anyone`.
fn is_kw_anyone(s: &Vec<u8>) -> (r: bool)
    ensures
        r == (s@ == kw_anyone()),
{
    let r = s.len() == 6 && s[0] == 97 && s[1] == 110 && s[2] == 121 && s[3] == 111 && s[4] == 110
        && s[5] == 101;
    proof {
        if r {
            assert(s@ =~= kw_anyone());
        }
    }
    r
}

/// Whether a byte string is the keyword `has_role`.
fn is_kw_has_role(s: &Vec<u8>) -> (r: bool)
    ensures
        r == (s@ == kw_has_role()),
{
    let r = s.len() == 8 && s[0] == 104 && s[1] == 97 && s[2] == 115 && s[3] == 95 && s[4] == 114
        && s[5] == 111 && s[6] == 108 && s[7] == 101;
    proof {
        if r {
            assert(s@ =~= kw_has_role());
        }
    }
    r
}

/// Whether a byte string is the keyword `own`.
fn is_kw_own(s: &Vec<u8>) -> (r: bool)
    ensures
        r == (s@ == kw_own()),
{
    let r = s.len() == 3 && s[0] == 111 && s[1] == 119 && s[2] == 110;
    proof {
        if r {
            assert(s@ =~= kw_own());
        }
    }
    r
}

/// Whether a byte string is the keyword `own_student`.
fn is_kw_own_student(s: &Vec<u8>) -> (r: bool)
    ensures
        r == (s@ == kw_own_student()),
{
    let r = s.len() == 11 && s[0] == 111 && s[1] == 119 && s[2] == 110 && s[3] == 95 && s[4] == 115
        && s[5] == 116 && s[6] == 117 && s[7] == 100 && s[8] == 101 && s[9] == 110 && s[10] == 116;
    proof {
        if r {
            assert(s@ =~= kw_own_student());
        }
    }
    r
}

/// Whether a byte string is the keyword `any`.
fn is_kw_any(s: &Vec<u8>) -> (r: bool)
    ensures
        r == (s@ == kw_any()),
{
    let r = s.len() == 3 && s[0] == 97 && s[1] == 110 && s[2] == 121;
    proof {
        if r {
            assert(s@ =~= kw_any());
        }
    }
    r
}

/// Whether a byte string is the keyword `all`.
fn is_kw_all(s: &Vec<u8>) -> (r: bool)
    ensures
        r == (s@ == kw_all()),
{
    let r = s.len() == 3 && s[0] == 97 && s[1] == 108 && s[2] == 108;
    proof {
        if r {
            assert(s@ =~= kw_all());
        }
    }
    r
}

/// A condition expression found at a position, compiled against the
/// declared roles: a keyword names a primitive condition, `has_role`
/// takes a declared role's name, and `any` and `all` take one or more
/// comma-separated children.
pub open spec fn spec_parse_expr(
    src: Seq<u8>,
    i: int,
    roles: Seq<(Seq<u8>, i64)>,
) -> Result<(CondModel, int), CompileError>
    decreases src.len() - i, 0int when 0 <= i <= src.len()
{
    match spec_parse_name(src, i) {
        None => Err(CompileError::Malformed),
        Some((lex, e)) => if lex == kw_anyone() {
            Ok((CondModel::Anyone, e))
        } else if lex == kw_own() {
            Ok((CondModel::Own, e))
        } else if lex == kw_own_student() {
            Ok((CondModel::OwnStudent, e))
        } else if lex == kw_has_role() {
            match spec_expect(src, e, 40) {
                None => Err(CompileError::Malformed),
                Some(p) => match spec_parse_name(src, p) {
                    None => Err(CompileError::Malformed),
                    Some((rname, q)) => match spec_rank_lookup(roles, rname) {
                        None => Err(CompileError::UnknownRole),
                        Some(rank) => match spec_expect(src, q, 41) {
                            None => Err(CompileError::Malformed),
                            Some(x) => Ok((CondModel::HasRole(rank), x)),
                        },
                    },
                },
            }
        } else if lex == kw_any() || lex == kw_all() {
            match spec_expect(src, e, 40) {
                None => Err(CompileError::Malformed),
                Some(p) => if i < p <= src.len() {
                    match spec_parse_expr_list(src, p, roles) {
                        Err(er) => Err(er),
                        Ok((kids, q)) => match spec_expect(src, q, 41) {
                            None => Err(CompileError::Malformed),
                            Some(x) => Ok(
                                (
                                    if lex == kw_any() {
                                        CondModel::Any(kids)
                                    } else {
                                        CondModel::All(kids)
                                    },
                                    x,
                                ),
                            ),
                        },
                    }
                } else {
                    Err(CompileError::Malformed)
                },
            }
        } else {
            Err(CompileError::Malformed)
        },
    }
}

/// One or more comma-separated condition expressions from a position on.
pub open spec fn spec_parse_expr_list(
    src: Seq<u8>,
    i: int,
    roles: Seq<(Seq<u8>, i64)>,
) -> Result<(Seq<CondModel>, int), CompileError>
    decreases src.len() - i, 1int when 0 <= i <= src.len()
{
    match spec_parse_expr(src, i, roles) {
        Err(e) => Err(e),
        Ok((c, j)) => if i < j <= src.len() {
            match spec_expect(src, j, 44) {
                None => Ok((seq![c], j)),
                Some(k) => if j < k <= src.len() {
                    match spec_parse_expr_list(src, k, roles) {
                        Err(e) => Err(e),
                        Ok((rest, m)) => Ok((seq![c] + rest, m)),
                    }
                } else {
                    Err(CompileError::Malformed)
                },
            }
        } else {
            Err(CompileError::Malformed)
        },
    }
}

/// The trees from index `i` on are the trees from `i` on of the shifted
/// sequence.
proof fn lemma_view_conds_skip(t: Seq<Conditions>, i: int)
    requires
        0 <= i <= t.len(),
    ensures
        view_conds(t, i) == view_conds(t.skip(i), 0),
    decreases t.len() - i,
{
    if i == t.len() {
        assert(t.skip(i) =~= Seq::<Conditions>::empty());
    } else {
        lemma_view_conds_skip(t, i + 1);
        lemma_view_conds_skip(t.skip(i), 1);
        assert(t.skip(i).skip(1) =~= t.skip(i + 1));
        assert(t.skip(i)[0] == t[i]);
    }
}

/// Parse a condition expression, as `spec_parse_expr` gives it.
fn parse_expr(src: &[u8], i: usize, roles: &Vec<Role>) -> (r: Result<
    (Conditions, usize),
    CompileError,
>)
    requires
        i <= src@.len(),
    ensures
        match spec_parse_expr(src@, i as int, roles_view(roles@)) {
            Ok(pair) => {
                &&& r matches Ok(got)
                &&& view_cond(got.0) == pair.0
                &&& got.1 as int == pair.1
                &&& got.1 <= src@.len()
            },
            Err(e) => r == Err::<(Conditions, usize), CompileError>(e),
        },
    decreases src@.len() - i, 0int,
{
    let (lex, e) = match parse_name(src, i) {
        Some(x) => x,
        None => {
            return Err(CompileError::Malformed);
        },
    };
    if is_kw_anyone(&lex) {
        Ok((Conditions::Anyone, e))
    } else if is_kw_own(&lex) {
        Ok((Conditions::Own, e))
    } else if is_kw_own_student(&lex) {
        Ok((Conditions::OwnStudent, e))
    } else if is_kw_has_role(&lex) {
        let p = match expect(src, e, 40) {
            Some(x) => x,
            None => {
                return Err(CompileError::Malformed);
            },
        };
        let (rname, q) = match parse_name(src, p) {
            Some(x) => x,
            None => {
                return Err(CompileError::Malformed);
            },
        };
        let rank = match rank_lookup(roles, rname.as_slice()) {
            Some(x) => x,
            None => {
                return Err(CompileError::UnknownRole);
            },
        };
        match expect(src, q, 41) {
            Some(x) => Ok((Conditions::HasRole(rank), x)),
            None => Err(CompileError::Malformed),
        }
    } else {
        let any_kw = is_kw_any(&lex);
        let all_kw = is_kw_all(&lex);
        if any_kw || all_kw {
            let p = match expect(src, e, 40) {
                Some(x) => x,
                None => {
                    return Err(CompileError::Malformed);
                },
            };
            if i < p && p <= src.len() {
                let (kids, q) = match parse_expr_list(src, p, roles) {
                    Ok(x) => x,
                    Err(er) => {
                        return Err(er);
                    },
                };
                match expect(src, q, 41) {
                    Some(x) => if any_kw {
                        Ok((Conditions::Any(kids), x))
                    } else {
                        Ok((Conditions::All(kids), x))
                    },
                    None => Err(CompileError::Malformed),
                }
            } else {
                Err(CompileError::Malformed)
            }
        } else {
            Err(CompileError::Malformed)
        }
    }
}

/// Parse one or more comma-separated condition expressions, as
/// `spec_parse_expr_list` gives them.
fn parse_expr_list(src: &[u8], i: usize, roles: &Vec<Role>) -> (r: Result<
    (Vec<Conditions>, usize),
    CompileError,
>)
    requires
        i <= src@.len(),
    ensures
        match spec_parse_expr_list(src@, i as int, roles_view(roles@)) {
            Ok(pair) => {
                &&& r matches Ok(got)
                &&& view_conds(got.0@, 0) == pair.0
                &&& got.1 as int == pair.1
                &&& got.1 <= src@.len()
            },
            Err(e) => r == Err::<(Vec<Conditions>, usize), CompileError>(e),
        },
    decreases src@.len() - i, 1int,
{
    let (c, j) = match parse_expr(src, i, roles) {
        Ok(x) => x,
        Err(er) => {
            return Err(er);
        },
    };
    if i < j && j <= src.len() {
        match expect(src, j, 44) {
            None => {
                let mut v: Vec<Conditions> = Vec::new();
                v.push(c);
                proof {
                    lemma_view_conds_skip(v@, 1);
                    assert(v@.skip(1) =~= Seq::<Conditions>::empty());
                    assert(view_conds(v@, 0) =~= seq![view_cond(c)]);
                }
                Ok((v, j))
            },
            Some(k) => if j < k && k <= src.len() {
                let (rest, m) = match parse_expr_list(src, k, roles) {
                    Ok(x) => x,
                    Err(er) => {
                        return Err(er);
                    },
                };
                let ghost rest_view = view_conds(rest@, 0);
                let mut v = rest;
                v.insert(0, c);
                proof {
                    lemma_view_conds_skip(v@, 1);
                    assert(v@.skip(1) =~= rest@);
                    assert(v@[0] == c);
                    assert(view_conds(v@, 0) =~= seq![view_cond(c)] + rest_view);
                }
                Ok((v, m))
            } else {
                Err(CompileError::Malformed)
            },
        }
    } else {
        Err(CompileError::Malformed)
    }
}

/// Whether a role name is already declared.
pub open spec fn contains_role_name(roles: Seq<(Seq<u8>, i64)>, name: Seq<u8>) -> bool {
    exists|k: int| 0 <= k < roles.len() && #[trigger] roles[k].0 == name
}

/// Whether a rank is already given to a role.
pub open spec fn contains_rank(roles: Seq<(Seq<u8>, i64)>, rank: i64) -> bool {
    exists|k: int| 0 <= k < roles.len() && #[trigger] roles[k].1 == rank
}

/// Whether a privilege name is already declared.
pub open spec fn contains_priv(privs: Seq<(Seq<u8>, CondModel)>, name: Seq<u8>) -> bool {
    exists|k: int| 0 <= k < privs.len() && #[trigger] privs[k].0 == name
}

/// No role name is declared twice.
pub open spec fn distinct_role_names(roles: Seq<(Seq<u8>, i64)>) -> bool {
    forall|a: int, b: int|
        0 <= a < b < roles.len() ==> #[trigger] roles[a].0 != #[trigger] roles[b].0
}

/// No rank is given to two roles.
pub open spec fn distinct_ranks(roles: Seq<(Seq<u8>, i64)>) -> bool {
    forall|a: int, b: int|
        0 <= a < b < roles.len() ==> #[trigger] roles[a].1 != #[trigger] roles[b].1
}

/// No privilege name is declared twice.
pub open spec fn distinct_priv_names(privs: Seq<(Seq<u8>, CondModel)>) -> bool {
    forall|a: int, b: int|
        0 <= a < b < privs.len() ==> #[trigger] privs[a].0 != #[trigger] privs[b].0
}

/// The role list from a position on, `|`-separated, appended to the
/// roles declared so far: each entry is a fresh name, `=`, and a fresh
/// rank.
pub open spec fn spec_parse_roledefs(
    src: Seq<u8>,
    i: int,
    acc: Seq<(Seq<u8>, i64)>,
) -> Result<(Seq<(Seq<u8>, i64)>, int), CompileError>
    decreases src.len() - i when 0 <= i <= src.len()
{
    match spec_parse_name(src, i) {
        None => Err(CompileError::Malformed),
        Some((name, e)) => if contains_role_name(acc, name) {
            Err(CompileError::DuplicateRoleName)
        } else {
            match spec_expect(src, e, 61) {
                None => Err(CompileError::Malformed),
                Some(p) => match spec_parse_number(src, p) {
                    None => Err(CompileError::Malformed),
                    Some((rankv, q)) => if contains_rank(acc, rankv as i64) {
                        Err(CompileError::DuplicateRank)
                    } else {
                        match spec_expect(src, q, 124) {
                            None => Ok((acc.push((name, rankv as i64)), q)),
                            Some(k) => if i < k <= src.len() {
                                spec_parse_roledefs(src, k, acc.push((name, rankv as i64)))
                            } else {
                                Err(CompileError::Malformed)
                            },
                        }
                    },
                },
            }
        },
    }
}

/// The privilege declarations from a position on, to the end of the
/// text, appended to those declared so far: each is a bracketed fresh
/// name and the condition guarding it.
pub open spec fn spec_parse_privileges(
    src: Seq<u8>,
    i: int,
    roles: Seq<(Seq<u8>, i64)>,
    acc: Seq<(Seq<u8>, CondModel)>,
) -> Result<Seq<(Seq<u8>, CondModel)>, CompileError>
    decreases src.len() - i when 0 <= i <= src.len()
{
    if spec_skip(src, i, false) == src.len() {
        Ok(acc)
    } else {
        match spec_expect(src, i, 91) {
            None => Err(CompileError::Malformed),
            Some(p) => match spec_parse_name(src, p) {
                None => Err(CompileError::Malformed),
                Some((pname, e)) => if contains_priv(acc, pname) {
                    Err(CompileError::DuplicatePrivilege)
                } else if !(0 <= e <= src.len()) {
                    Err(CompileError::Malformed)
                } else {
                    match spec_parse_expr(src, e, roles) {
                        Err(er) => Err(er),
                        Ok((c, q)) => match spec_expect(src, q, 93) {
                            None => Err(CompileError::Malformed),
                            Some(k) => if i < k <= src.len() {
                                spec_parse_privileges(src, k, roles, acc.push((pname, c)))
                            } else {
                                Err(CompileError::Malformed)
                            },
                        },
                    }
                },
            },
        }
    }
}

/// The mathematical form of a compiled policy.
pub struct TableModel {
    /// The declared roles: name and rank, in declaration order.
    pub roles: Seq<(Seq<u8>, i64)>,
    /// The declared privileges: name and condition, in declaration order.
    pub privs: Seq<(Seq<u8>, CondModel)>,
}

/// What compiling a policy text yields: the role list in its brackets,
/// which must give exactly one role rank zero, then the privilege
/// declarations to the end of the text.
pub open spec fn spec_compile(src: Seq<u8>) -> Result<TableModel, CompileError> {
    match spec_expect(src, 0, 91) {
        None => Err(CompileError::Malformed),
        Some(p) => if !(0 <= p <= src.len()) {
            Err(CompileError::Malformed)
        } else {
            match spec_parse_roledefs(src, p, Seq::empty()) {
                Err(e) => Err(e),
                Ok((roles, q)) => match spec_expect(src, q, 93) {
                    None => Err(CompileError::Malformed),
                    Some(k) => if !contains_rank(roles, 0) {
                        Err(CompileError::MissingDefaultRole)
                    } else if !(0 <= k <= src.len()) {
                        Err(CompileError::Malformed)
                    } else {
                        match spec_parse_privileges(src, k, roles, Seq::empty()) {
                            Err(e) => Err(e),
                            Ok(privs) => Ok(TableModel { roles, privs }),
                        }
                    },
                },
            }
        },
    }
}

/// The mathematical form of compiled privileges.
pub open spec fn privs_view(ps: Seq<Privilege>) -> Seq<(Seq<u8>, CondModel)> {
    ps.map_values(|p: Privilege| (p.name@, view_cond(p.condition)))
}

/// A role list parsed from distinct declarations stays distinct.
proof fn lemma_roledefs_distinct(src: Seq<u8>, i: int, acc: Seq<(Seq<u8>, i64)>)
    requires
        0 <= i <= src.len(),
        distinct_role_names(acc),
        distinct_ranks(acc),
        spec_parse_roledefs(src, i, acc) is Ok,
    ensures
        distinct_role_names(spec_parse_roledefs(src, i, acc)->Ok_0.0),
        distinct_ranks(spec_parse_roledefs(src, i, acc)->Ok_0.0),
    decreases src.len() - i,
{
    let step = spec_parse_roledefs(src, i, acc);
    if let Some((name, e)) = spec_parse_name(src, i) {
        if !contains_role_name(acc, name) {
            if let Some(p) = spec_expect(src, e, 61) {
                if let Some((rankv, q)) = spec_parse_number(src, p) {
                    if !contains_rank(acc, rankv as i64) {
                        let acc2 = acc.push((name, rankv as i64));
                        assert(distinct_role_names(acc2));
                        assert(distinct_ranks(acc2));
                        if let Some(k) = spec_expect(src, q, 124) {
                            if i < k <= src.len() {
                                lemma_roledefs_distinct(src, k, acc2);
                            }
                        }
                    }
                }
            }
        }
    }
}

/// A privilege list parsed from distinct declarations stays distinct.
proof fn lemma_privileges_distinct(
    src: Seq<u8>,
    i: int,
    roles: Seq<(Seq<u8>, i64)>,
    acc: Seq<(Seq<u8>, CondModel)>,
)
    requires
        0 <= i <= src.len(),
        distinct_priv_names(acc),
        spec_parse_privileges(src, i, roles, acc) is Ok,
    ensures
        distinct_priv_names(spec_parse_privileges(src, i, roles, acc)->Ok_0),
    decreases src.len() - i,
{
    if spec_skip(src, i, false) == src.len() {
    } else {
        if let Some(p) = spec_expect(src, i, 91) {
            if let Some((pname, e)) = spec_parse_name(src, p) {
                if !contains_priv(acc, pname) && 0 <= e <= src.len() {
                    if let Ok((c, q)) = spec_parse_expr(src, e, roles) {
                        let acc2 = acc.push((pname, c));
                        assert(distinct_priv_names(acc2));
                        if let Some(k) = spec_expect(src, q, 93) {
                            if i < k <= src.len() {
                                lemma_privileges_distinct(src, k, roles, acc2);
                            }
                        }
                    }
                }
            }
        }
    }
}

/// Whether every `has_role` within a condition names a declared rank.
pub open spec fn cond_ranks_declared(c: CondModel, roles: Seq<(Seq<u8>, i64)>) -> bool
    decreases c,
{
    match c {
        CondModel::HasRole(r) => contains_rank(roles, r),
        CondModel::All(kids) => forall|k: int|
            0 <= k < kids.len() ==> cond_ranks_declared(#[trigger] kids[k], roles),
        CondModel::Any(kids) => forall|k: int|
            0 <= k < kids.len() ==> cond_ranks_declared(#[trigger] kids[k], roles),
        _ => true,
    }
}

/// A successful rank lookup finds a declared rank.
proof fn lemma_rank_lookup_declares(roles: Seq<(Seq<u8>, i64)>, name: Seq<u8>)
    ensures
        spec_rank_lookup(roles, name) matches Some(r) ==> contains_rank(roles, r),
    decreases roles.len(),
{
    if roles.len() > 0 {
        if roles[0].0 == name {
            assert(roles[0].1 == spec_rank_lookup(roles, name)->0);
        } else {
            lemma_rank_lookup_declares(roles.drop_first(), name);
            if let Some(r) = spec_rank_lookup(roles.drop_first(), name) {
                let k = choose|k: int|
                    0 <= k < roles.drop_first().len() && #[trigger] roles.drop_first()[k].1 == r;
                assert(roles[k + 1].1 == r);
            }
        }
    }
}

/// A parsed condition references only declared ranks: a `has_role`
/// naming an undeclared role is a compilation error, so an unknown role
/// can never surface during evaluation.
pub proof fn lemma_parse_expr_ranks_declared(src: Seq<u8>, i: int, roles: Seq<(Seq<u8>, i64)>)
    requires
        0 <= i <= src.len(),
        spec_parse_expr(src, i, roles) is Ok,
    ensures
        cond_ranks_declared(spec_parse_expr(src, i, roles)->Ok_0.0, roles),
    decreases src.len() - i, 0int,
{
    if let Some((lex, e)) = spec_parse_name(src, i) {
        if lex == kw_anyone() || lex == kw_own() || lex == kw_own_student() {
        } else if lex == kw_has_role() {
            let p = spec_expect(src, e, 40)->0;
            let scanned = spec_parse_name(src, p)->0;
            lemma_rank_lookup_declares(roles, scanned.0);
        } else if lex == kw_any() || lex == kw_all() {
            if let Some(p) = spec_expect(src, e, 40) {
                if i < p <= src.len() {
                    if spec_parse_expr_list(src, p, roles) is Ok {
                        lemma_parse_expr_list_ranks_declared(src, p, roles);
                    }
                }
            }
        }
    }
}

proof fn lemma_parse_expr_list_ranks_declared(src: Seq<u8>, i: int, roles: Seq<(Seq<u8>, i64)>)
    requires
        0 <= i <= src.len(),
        spec_parse_expr_list(src, i, roles) is Ok,
    ensures
        forall|k: int|
            0 <= k < spec_parse_expr_list(src, i, roles)->Ok_0.0.len()
                ==> cond_ranks_declared(
                #[trigger] spec_parse_expr_list(src, i, roles)->Ok_0.0[k],
                roles,
            ),
    decreases src.len() - i, 1int,
{
    let kids = spec_parse_expr_list(src, i, roles)->Ok_0.0;
    if let Ok((c, j)) = spec_parse_expr(src, i, roles) {
        lemma_parse_expr_ranks_declared(src, i, roles);
        if i < j <= src.len() {
            if let Some(k) = spec_expect(src, j, 44) {
                if j < k <= src.len() {
                    lemma_parse_expr_list_ranks_declared(src, k, roles);
                    let rest = spec_parse_expr_list(src, k, roles)->Ok_0.0;
                    assert forall|m: int| 0 <= m < kids.len() implies cond_ranks_declared(
                        #[trigger] kids[m],
                        roles,
                    ) by {
                        if m > 0 {
                            assert(kids[m] == rest[m - 1]);
                        }
                    }
                }
            } else {
                assert(kids == seq![c]);
            }
        }
    }
}

/// Every condition in a compiled policy references only declared ranks.
pub proof fn lemma_compiled_ranks_are_declared(src: Seq<u8>)
    requires
        spec_compile(src) is Ok,
    ensures
        forall|p: int|
            0 <= p < spec_compile(src)->Ok_0.privs.len() ==> cond_ranks_declared(
                #[trigger] spec_compile(src)->Ok_0.privs[p].1,
                spec_compile(src)->Ok_0.roles,
            ),
{
    let tm = spec_compile(src)->Ok_0;
    let p = spec_expect(src, 0, 91)->0;
    let (roles, q) = spec_parse_roledefs(src, p, Seq::empty())->Ok_0;
    let k = spec_expect(src, q, 93)->0;
    lemma_parse_privileges_ranks_declared(src, k, roles, Seq::empty());
}

proof fn lemma_parse_privileges_ranks_declared(
    src: Seq<u8>,
    i: int,
    roles: Seq<(Seq<u8>, i64)>,
    acc: Seq<(Seq<u8>, CondModel)>,
)
    requires
        0 <= i <= src.len(),
        spec_parse_privileges(src, i, roles, acc) is Ok,
        forall|p: int| 0 <= p < acc.len() ==> cond_ranks_declared(#[trigger] acc[p].1, roles),
    ensures
        forall|p: int|
            0 <= p < spec_parse_privileges(src, i, roles, acc)->Ok_0.len()
                ==> cond_ranks_declared(
                #[trigger] spec_parse_privileges(src, i, roles, acc)->Ok_0[p].1,
                roles,
            ),
    decreases src.len() - i,
{
    if spec_skip(src, i, false) == src.len() {
    } else {
        if let Some(p) = spec_expect(src, i, 91) {
            if let Some((pname, e)) = spec_parse_name(src, p) {
                if !contains_priv(acc, pname) && 0 <= e <= src.len() {
                    if let Ok((c, q)) = spec_parse_expr(src, e, roles) {
                        lemma_parse_expr_ranks_declared(src, e, roles);
                        if let Some(k) = spec_expect(src, q, 93) {
                            if i < k <= src.len() {
                                let acc2 = acc.push((pname, c));
                                assert forall|m: int| 0 <= m < acc2.len() implies
                                    cond_ranks_declared(#[trigger] acc2[m].1, roles) by {
                                    if m < acc.len() {
                                        assert(acc2[m] == acc[m]);
                                    }
                                }
                                lemma_parse_privileges_ranks_declared(src, k, roles, acc2);
                            }
                        }
                    }
                }
            }
        }
    }
}

/// Whether a role name is already declared, as `contains_role_name`
/// gives it.
fn contains_role_name_ex(roles: &Vec<Role>, name: &[u8]) -> (r: bool)
    ensures
        r == contains_role_name(roles_view(roles@), name@),
{
    let n = roles.len();
    for i in 0..n
        invariant
            n == roles@.len(),
            forall|j: int| 0 <= j < i ==> #[trigger] roles_view(roles@)[j].0 != name@,
    {
        if crate::roles::bytes_eq(roles[i].name.as_slice(), name) {
            proof {
                assert(roles_view(roles@)[i as int].0 == name@);
            }
            return true;
        }
        proof {
            assert(roles_view(roles@)[i as int].0 == roles@[i as int].name@);
        }
    }
    false
}

/// Whether a rank is already given to a role, as `contains_rank` gives
/// it.
fn contains_rank_ex(roles: &Vec<Role>, rank: i64) -> (r: bool)
    ensures
        r == contains_rank(roles_view(roles@), rank),
{
    let n = roles.len();
    for i in 0..n
        invariant
            n == roles@.len(),
            forall|j: int| 0 <= j < i ==> #[trigger] roles_view(roles@)[j].1 != rank,
    {
        if roles[i].rank == rank {
            proof {
                assert(roles_view(roles@)[i as int].1 == rank);
            }
            return true;
        }
        proof {
            assert(roles_view(roles@)[i as int].1 == roles@[i as int].rank);
        }
    }
    false
}

/// Whether a privilege name is already declared, as `contains_priv`
/// gives it.
fn contains_priv_ex(privs: &Vec<Privilege>, name: &[u8]) -> (r: bool)
    ensures
        r == contains_priv(privs_view(privs@), name@),
{
    let n = privs.len();
    for i in 0..n
        invariant
            n == privs@.len(),
            forall|j: int| 0 <= j < i ==> #[trigger] privs_view(privs@)[j].0 != name@,
    {
        if crate::roles::bytes_eq(privs[i].name.as_slice(), name) {
            proof {
                assert(privs_view(privs@)[i as int].0 == name@);
            }
            return true;
        }
        proof {
            assert(privs_view(privs@)[i as int].0 == privs@[i as int].name@);
        }
    }
    false
}

/// Parse the role list, as `spec_parse_roledefs` gives it.
fn parse_roledefs(src: &[u8], i: usize, acc: Vec<Role>) -> (r: Result<
    (Vec<Role>, usize),
    CompileError,
>)
    requires
        i <= src@.len(),
    ensures
        match spec_parse_roledefs(src@, i as int, roles_view(acc@)) {
            Ok(pair) => {
                &&& r matches Ok(got)
                &&& roles_view(got.0@) == pair.0
                &&& got.1 as int == pair.1
                &&& got.1 <= src@.len()
            },
            Err(e) => r == Err::<(Vec<Role>, usize), CompileError>(e),
        },
    decreases src@.len() - i,
{
    let (name, e) = match parse_name(src, i) {
        Some(x) => x,
        None => {
            return Err(CompileError::Malformed);
        },
    };
    if contains_role_name_ex(&acc, name.as_slice()) {
        return Err(CompileError::DuplicateRoleName);
    }
    let p = match expect(src, e, 61) {
        Some(x) => x,
        None => {
            return Err(CompileError::Malformed);
        },
    };
    let (rank, q) = match parse_number(src, p) {
        Some(x) => x,
        None => {
            return Err(CompileError::Malformed);
        },
    };
    if contains_rank_ex(&acc, rank) {
        return Err(CompileError::DuplicateRank);
    }
    let ghost acc_view = roles_view(acc@);
    let ghost name_view = name@;
    let mut acc2 = acc;
    acc2.push(Role { name, rank });
    proof {
        assert(roles_view(acc2@) =~= acc_view.push((name_view, rank)));
    }
    match expect(src, q, 124) {
        None => Ok((acc2, q)),
        Some(k) => if i < k && k <= src.len() {
            parse_roledefs(src, k, acc2)
        } else {
            Err(CompileError::Malformed)
        },
    }
}

/// Parse privilege declarations to the end of the text, as
/// `spec_parse_privileges` gives them.
fn parse_privileges(src: &[u8], i: usize, roles: &Vec<Role>, acc: Vec<Privilege>) -> (r: Result<
    Vec<Privilege>,
    CompileError,
>)
    requires
        i <= src@.len(),
    ensures
        match spec_parse_privileges(src@, i as int, roles_view(roles@), privs_view(acc@)) {
            Ok(ps) => {
                &&& r matches Ok(got)
                &&& privs_view(got@) == ps
            },
            Err(e) => r == Err::<Vec<Privilege>, CompileError>(e),
        },
    decreases src@.len() - i,
{
    if skip(src, i) == src.len() {
        return Ok(acc);
    }
    let p = match expect(src, i, 91) {
        Some(x) => x,
        None => {
            return Err(CompileError::Malformed);
        },
    };
    let (pname, e) = match parse_name(src, p) {
        Some(x) => x,
        None => {
            return Err(CompileError::Malformed);
        },
    };
    if contains_priv_ex(&acc, pname.as_slice()) {
        return Err(CompileError::DuplicatePrivilege);
    }
    let (c, q) = match parse_expr(src, e, roles) {
        Ok(x) => x,
        Err(er) => {
            return Err(er);
        },
    };
    let k = match expect(src, q, 93) {
        Some(x) => x,
        None => {
            return Err(CompileError::Malformed);
        },
    };
    if i < k && k <= src.len() {
        let ghost acc_view = privs_view(acc@);
        let ghost name_view = pname@;
        let ghost cond_view = view_cond(c);
        let mut acc2 = acc;
        acc2.push(Privilege { name: pname, condition: c });
        proof {
            assert(privs_view(acc2@) =~= acc_view.push((name_view, cond_view)));
        }
        parse_privileges(src, k, roles, acc2)
    } else {
        Err(CompileError::Malformed)
    }
}

/// Compile a policy text into the privilege table: the bracketed role
/// list, then the privilege declarations, to the end of the text. The
/// result is well-formed by construction: role names, ranks and
/// privilege names are unique and exactly one role has rank zero.
/// Each compilation error names the first malformation found, and a
/// table is returned if and only if the text follows the grammar.
pub fn compile(src: &[u8]) -> (r: Result<Table, CompileError>)
    ensures
        match spec_compile(src@) {
            Ok(tm) => {
                &&& r matches Ok(t)
                &&& roles_view(t.roles.roles@) == tm.roles
                &&& privs_view(t.privileges@) == tm.privs
                &&& t.wf()
            },
            Err(e) => r == Err::<Table, CompileError>(e),
        },
{
    let p = match expect(src, 0, 91) {
        Some(x) => x,
        None => {
            return Err(CompileError::Malformed);
        },
    };
    if !(p <= src.len()) {
        return Err(CompileError::Malformed);
    }
    proof {
        assert(roles_view(Seq::<Role>::empty()) =~= Seq::<(Seq<u8>, i64)>::empty());
    }
    let (roles, q) = match parse_roledefs(src, p, Vec::new()) {
        Ok(x) => x,
        Err(e) => {
            return Err(e);
        },
    };
    let k = match expect(src, q, 93) {
        Some(x) => x,
        None => {
            return Err(CompileError::Malformed);
        },
    };
    if !contains_rank_ex(&roles, 0) {
        return Err(CompileError::MissingDefaultRole);
    }
    if !(k <= src.len()) {
        return Err(CompileError::Malformed);
    }
    proof {
        assert(privs_view(Seq::<Privilege>::empty()) =~= Seq::<(Seq<u8>, CondModel)>::empty());
    }
    let privileges = match parse_privileges(src, k, &roles, Vec::new()) {
        Ok(x) => x,
        Err(e) => {
            return Err(e);
        },
    };
    let table = Table { roles: RoleTable { roles }, privileges };
    proof {
        let tm = spec_compile(src@)->Ok_0;
        lemma_roledefs_distinct(src@, p as int, Seq::empty());
        lemma_privileges_distinct(src@, k as int, tm.roles, Seq::empty());
        let rs = table.roles;
        assert forall|a: int, b: int|
            0 <= a < b < rs.roles@.len() implies #[trigger] rs.spec_ranks()[a]
            != #[trigger] rs.spec_ranks()[b] by {
            assert(roles_view(rs.roles@)[a] == tm.roles[a]);
            assert(roles_view(rs.roles@)[b] == tm.roles[b]);
            assert(tm.roles[a].1 != tm.roles[b].1);
        }
        assert forall|a: int, b: int|
            0 <= a < b < rs.roles@.len() implies #[trigger] rs.spec_names()[a]
            != #[trigger] rs.spec_names()[b] by {
            assert(roles_view(rs.roles@)[a] == tm.roles[a]);
            assert(roles_view(rs.roles@)[b] == tm.roles[b]);
            assert(tm.roles[a].0 != tm.roles[b].0);
        }
        let z = choose|z: int| 0 <= z < tm.roles.len() && #[trigger] tm.roles[z].1 == 0;
        assert(roles_view(rs.roles@)[z] == tm.roles[z]);
        assert(rs.spec_ranks()[z] == 0);
        assert forall|a: int, b: int|
            0 <= a < b < table.privileges@.len() implies #[trigger] table.spec_names()[a]
            != #[trigger] table.spec_names()[b] by {
            assert(privs_view(table.privileges@)[a] == tm.privs[a]);
            assert(privs_view(table.privileges@)[b] == tm.privs[b]);
            assert(tm.privs[a].0 != tm.privs[b].0);
        }
        assert(table.wf());
    }
    Ok(table)
}

} // verus!
