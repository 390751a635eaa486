//! The consistency rules of an update trace, and the audit that applies them.
//!
//! A trace is checked in five passes. Each pass applies a few checks to every
//! row; a check that does not hold at a row is a violation. A trace is valid
//! when no check fails anywhere. No hash is computed here: the audit only
//! compares the hashes, roles, depths and paths that the rows claim.

use crate::hash_type::branching_types;
use crate::hash_type::chain_pairs;
use crate::hash_type::opening_types;
use crate::hash_type::transition_pairs;
use crate::hash_type::HashType;
use crate::row::trace_view;
use crate::row::Row;
use crate::row::RowView;
use vstd::prelude::*;
use vstd::seq_lib::lemma_seq_concat_contains_all_elements;
use vstd::seq_lib::lemma_seq_contains_after_push;

verus! {

/// One of the five passes of the audit.
#[derive(Clone, Copy, Debug, PartialEq, Eq, Structural)]
pub enum Pass {
    /// Hashes of adjacent rows chain: a row's hash is what its parent row commits to.
    Chaining,
    /// Roles of adjacent rows follow one another legally.
    TypeChain,
    /// The role change within a row is legal.
    Transition,
    /// The hashes of a row have the shape that its roles demand.
    HashShape,
    /// Path bit, depth and key are consistent.
    Bookkeeping,
}

/// One check of the audit, named after what a failure of it means.
#[derive(Clone, Copy, Debug, PartialEq, Eq, Structural)]
pub enum Check {
    /// The row's old hash is the old value of the row before it.
    OldHashChain,
    /// The row's new hash is the new value of the row before it.
    NewHashChain,
    /// The old role may open an operation.
    OldOpeningType,
    /// The new role may open an operation.
    NewOpeningType,
    /// The old role may follow the old role of the row before it.
    OldTypeChain,
    /// The new role may follow the new role of the row before it.
    NewTypeChain,
    /// The old role may turn into the new role.
    Transition,
    /// The old hash has the shape that the old role demands.
    OldHashShape,
    /// The new hash has the shape that the new role demands.
    NewHashShape,
    /// The path is a single bit where a role demands one.
    PathBit,
    /// A row that opens an operation is at depth zero.
    OpeningDepth,
    /// A row that continues an operation is one level below the row before it.
    DepthStep,
    /// The accumulated path of a row that ends an operation is the key.
    KeyPath,
}

/// A check that failed, and the index of the row at which it failed.
#[derive(Clone, Copy, Debug, PartialEq, Eq, Structural)]
pub struct Violation {
    /// Index of the offending row in the trace.
    pub row: usize,
    /// The check that does not hold there.
    pub check: Check,
}

impl Check {
    /// The pass that applies this check.
    pub open spec fn spec_pass(self) -> Pass {
        match self {
            Check::OldHashChain | Check::NewHashChain => Pass::Chaining,
            Check::OldOpeningType | Check::NewOpeningType => Pass::TypeChain,
            Check::OldTypeChain | Check::NewTypeChain => Pass::TypeChain,
            Check::Transition => Pass::Transition,
            Check::OldHashShape | Check::NewHashShape => Pass::HashShape,
            Check::PathBit | Check::OpeningDepth | Check::DepthStep | Check::KeyPath => Pass::Bookkeeping,
        }
    }

    /// The pass that applies this check.
    #[verifier::when_used_as_spec(spec_pass)]
    pub fn pass(self) -> (pass: Pass)
        ensures
            pass == self.spec_pass(),
    {
        match self {
            Check::OldHashChain | Check::NewHashChain => Pass::Chaining,
            Check::OldOpeningType | Check::NewOpeningType => Pass::TypeChain,
            Check::OldTypeChain | Check::NewTypeChain => Pass::TypeChain,
            Check::Transition => Pass::Transition,
            Check::OldHashShape | Check::NewHashShape => Pass::HashShape,
            Check::PathBit | Check::OpeningDepth | Check::DepthStep | Check::KeyPath => Pass::Bookkeeping,
        }
    }
}

/// Whether row `i` continues the operation of the row before it.
///
/// The first row of a trace has no row before it: it continues nothing,
/// whether or not it is marked as opening an operation, and the checks that
/// compare a row with the one before it say nothing about it.
pub open spec fn continues(s: Seq<RowView>, i: int) -> bool {
    0 < i < s.len() && !s[i].is_first
}

/// Whether row `i` is the last row of its operation.
pub open spec fn ends_operation(s: Seq<RowView>, i: int) -> bool {
    i == s.len() - 1 || (0 <= i + 1 < s.len() && s[i + 1].is_first)
}

/// Whether `hash` has the shape that the role `role` demands, given the value
/// that the node commits to and the sibling hash of its row.
///
/// An empty node has the zero hash; an extended leaf has its value as its
/// hash; an extended leaf at the end of the new path has its sibling's hash.
/// Nothing is demanded of a middle node or of a leaf: whether their hashes
/// are right is for whoever computes hashes to say.
pub open spec fn shape_holds(role: HashType, hash: Seq<u8>, value: Seq<u8>, sib: Seq<u8>) -> bool {
    match role {
        HashType::Empty => hash == crate::hash::zero_bytes(),
        HashType::LeafExt => value == hash,
        HashType::LeafExtFinal => sib == hash,
        HashType::Middle => true,
        HashType::Leaf => true,
    }
}

/// Whether `check` holds at row `i` of the trace `s`.
///
/// The depth of a row that continues an operation must be the depth of the
/// row before it plus one as a number, so no row can follow one at the
/// largest depth a machine number holds. The key of a row that ends an
/// operation is read as a number, least significant byte first.
pub open spec fn check_holds(s: Seq<RowView>, i: int, check: Check) -> bool {
    let row = s[i];
    match check {
        Check::OldHashChain => continues(s, i) ==> s[i - 1].old_value == row.old_hash,
        Check::NewHashChain => continues(s, i) ==> s[i - 1].new_value == row.new_hash,
        Check::OldOpeningType => row.is_first ==> opening_types().contains(row.old_hash_type),
        Check::NewOpeningType => row.is_first ==> opening_types().contains(row.new_hash_type),
        Check::OldTypeChain => continues(s, i) ==> chain_pairs().contains(
            (s[i - 1].old_hash_type, row.old_hash_type),
        ),
        Check::NewTypeChain => continues(s, i) ==> chain_pairs().contains(
            (s[i - 1].new_hash_type, row.new_hash_type),
        ),
        Check::Transition => transition_pairs().contains((row.old_hash_type, row.new_hash_type)),
        Check::OldHashShape => shape_holds(row.old_hash_type, row.old_hash, row.old_value, row.sib),
        Check::NewHashShape => shape_holds(row.new_hash_type, row.new_hash, row.new_value, row.sib),
        Check::PathBit => branching_types().contains(row.old_hash_type)
            || branching_types().contains(row.new_hash_type) ==> row.path == 0 || row.path == 1,
        Check::OpeningDepth => row.is_first ==> row.depth == 0,
        Check::DepthStep => continues(s, i) ==> row.depth == s[i - 1].depth + 1,
        Check::KeyPath => ends_operation(s, i) ==> row.key_number() == row.path_acc,
    }
}

/// Whether `hash` has the shape that `role` demands.
fn shape_ok(
    role: HashType,
    hash: &crate::hash::Hash,
    value: &crate::hash::Hash,
    sib: &crate::hash::Hash,
) -> (ok: bool)
    ensures
        ok == shape_holds(role, hash@, value@, sib@),
{
    match role {
        HashType::Empty => *hash == crate::hash::Hash::zero(),
        HashType::LeafExt => *value == *hash,
        HashType::LeafExtFinal => *sib == *hash,
        HashType::Middle => true,
        HashType::Leaf => true,
    }
}

/// Applies one check to one row of a trace.
pub fn check_row(rows: &Vec<Row>, i: usize, check: Check) -> (ok: bool)
    requires
        i < rows.len(),
    ensures
        ok == check_holds(trace_view(rows@), i as int, check),
{
    let row = &rows[i];
    let continues_previous = i > 0 && !row.is_first;
    match check {
        Check::OldHashChain => !continues_previous || rows[i - 1].old_value == row.old_hash,
        Check::NewHashChain => !continues_previous || rows[i - 1].new_value == row.new_hash,
        Check::OldOpeningType => !row.is_first || row.old_hash_type.may_open(),
        Check::NewOpeningType => !row.is_first || row.new_hash_type.may_open(),
        Check::OldTypeChain => !continues_previous || rows[i - 1].old_hash_type.may_precede(
            row.old_hash_type,
        ),
        Check::NewTypeChain => !continues_previous || rows[i - 1].new_hash_type.may_precede(
            row.new_hash_type,
        ),
        Check::Transition => row.old_hash_type.may_become(row.new_hash_type),
        Check::OldHashShape => shape_ok(row.old_hash_type, &row.old_hash, &row.old_value, &row.sib),
        Check::NewHashShape => shape_ok(row.new_hash_type, &row.new_hash, &row.new_value, &row.sib),
        Check::PathBit => {
            if row.old_hash_type.is_branching() || row.new_hash_type.is_branching() {
                row.path.is_zero() || row.path.is_one()
            } else {
                true
            }
        },
        Check::OpeningDepth => !row.is_first || row.depth == 0,
        Check::DepthStep => {
            if continues_previous {
                match rows[i - 1].depth.checked_add(1) {
                    Some(expected) => row.depth == expected,
                    None => false,
                }
            } else {
                true
            }
        },
        Check::KeyPath => {
            if i == rows.len() - 1 || rows[i + 1].is_first {
                crate::bignat::BigNat::from(row.key) == row.path_acc
            } else {
                true
            }
        },
    }
}

/// The checks of a pass, in the order in which the pass applies them to a row.
pub open spec fn checks_of(pass: Pass) -> Seq<Check> {
    match pass {
        Pass::Chaining => seq![Check::OldHashChain, Check::NewHashChain],
        Pass::TypeChain => seq![
            Check::OldOpeningType,
            Check::NewOpeningType,
            Check::OldTypeChain,
            Check::NewTypeChain,
        ],
        Pass::Transition => seq![Check::Transition],
        Pass::HashShape => seq![Check::OldHashShape, Check::NewHashShape],
        Pass::Bookkeeping => seq![
            Check::PathBit,
            Check::OpeningDepth,
            Check::DepthStep,
            Check::KeyPath,
        ],
    }
}

/// Whether every check of `pass` holds at row `i`.
pub open spec fn row_passes(s: Seq<RowView>, i: int, pass: Pass) -> bool {
    forall|k: int| 0 <= k < checks_of(pass).len() ==> check_holds(s, i, #[trigger] checks_of(pass)[k])
}

/// Whether every check of `pass` holds at every row.
pub open spec fn pass_holds(s: Seq<RowView>, pass: Pass) -> bool {
    forall|i: int| 0 <= i < s.len() ==> #[trigger] row_passes(s, i, pass)
}

/// Whether the trace is consistent: all five passes hold.
pub open spec fn trace_valid(s: Seq<RowView>) -> bool {
    &&& pass_holds(s, Pass::Chaining)
    &&& pass_holds(s, Pass::TypeChain)
    &&& pass_holds(s, Pass::Transition)
    &&& pass_holds(s, Pass::HashShape)
    &&& pass_holds(s, Pass::Bookkeeping)
}

/// The violations that the first `n` of `checks` find at row `i`, in order.
pub open spec fn row_violations(s: Seq<RowView>, i: int, checks: Seq<Check>, n: nat) -> Seq<Violation>
    decreases n,
{
    if n == 0 {
        Seq::empty()
    } else {
        let check = checks[n - 1];
        let earlier = row_violations(s, i, checks, (n - 1) as nat);
        if check_holds(s, i, check) {
            earlier
        } else {
            earlier.push(Violation { row: i as usize, check })
        }
    }
}

/// The violations that `pass` finds at row `i`.
pub open spec fn pass_row_violations(s: Seq<RowView>, i: int, pass: Pass) -> Seq<Violation> {
    row_violations(s, i, checks_of(pass), checks_of(pass).len())
}

/// The violations that `pass` finds in the first `n` rows, row by row.
pub open spec fn pass_violations(s: Seq<RowView>, pass: Pass, n: nat) -> Seq<Violation>
    decreases n,
{
    if n == 0 {
        Seq::empty()
    } else {
        pass_violations(s, pass, (n - 1) as nat) + pass_row_violations(s, n - 1, pass)
    }
}

/// Every violation in the trace: those of the first pass over all rows, then
/// those of the second pass, and so on.
pub open spec fn trace_violations(s: Seq<RowView>) -> Seq<Violation> {
    pass_violations(s, Pass::Chaining, s.len())
        + pass_violations(s, Pass::TypeChain, s.len())
        + pass_violations(s, Pass::Transition, s.len())
        + pass_violations(s, Pass::HashShape, s.len())
        + pass_violations(s, Pass::Bookkeeping, s.len())
}

/// Applies `check` to row `i` and records a violation if it does not hold.
fn flag(rows: &Vec<Row>, i: usize, check: Check, found: &mut Vec<Violation>)
    requires
        i < rows.len(),
    ensures
        check_holds(trace_view(rows@), i as int, check) ==> final(found)@ == old(found)@,
        !check_holds(trace_view(rows@), i as int, check) ==> final(found)@ == old(found)@.push(
            (Violation { row: i, check })),
{
    if !check_row(rows, i, check) {
        found.push(Violation { row: i, check });
    }
}

/// Applies the checks of `pass` to row `i`, in order.
fn audit_row(rows: &Vec<Row>, i: usize, pass: Pass, found: &mut Vec<Violation>)
    requires
        i < rows.len(),
    ensures
        final(found)@ == old(found)@ + pass_row_violations(trace_view(rows@), i as int, pass),
{
    proof {
        reveal_with_fuel(row_violations, 5);
    }
    match pass {
        Pass::Chaining => {
            flag(rows, i, Check::OldHashChain, found);
            flag(rows, i, Check::NewHashChain, found);
        },
        Pass::TypeChain => {
            flag(rows, i, Check::OldOpeningType, found);
            flag(rows, i, Check::NewOpeningType, found);
            flag(rows, i, Check::OldTypeChain, found);
            flag(rows, i, Check::NewTypeChain, found);
        },
        Pass::Transition => {
            flag(rows, i, Check::Transition, found);
        },
        Pass::HashShape => {
            flag(rows, i, Check::OldHashShape, found);
            flag(rows, i, Check::NewHashShape, found);
        },
        Pass::Bookkeeping => {
            flag(rows, i, Check::PathBit, found);
            flag(rows, i, Check::OpeningDepth, found);
            flag(rows, i, Check::DepthStep, found);
            flag(rows, i, Check::KeyPath, found);
        },
    }
    assert(found@ =~= old(found)@ + pass_row_violations(trace_view(rows@), i as int, pass));
}

/// Runs one pass over all rows.
fn audit_pass(rows: &Vec<Row>, pass: Pass, found: &mut Vec<Violation>)
    ensures
        final(found)@ == old(found)@ + pass_violations(trace_view(rows@), pass, rows@.len()),
{
    let ghost before = found@;
    let ghost s = trace_view(rows@);
    let mut i: usize = 0;
    assert(found@ =~= before + pass_violations(s, pass, 0));
    while i < rows.len()
        invariant
            i <= rows.len(),
            s == trace_view(rows@),
            found@ == before + pass_violations(s, pass, i as nat),
        decreases rows.len() - i,
    {
        audit_row(rows, i, pass, found);
        assert(found@ =~= before + pass_violations(s, pass, (i + 1) as nat));
        i += 1;
    }
}

/// Audits a trace and returns every violation found.
///
/// All five passes run over all rows, whatever they find: the result lists the
/// violations of the first pass in row order, then those of the second pass,
/// and so on. The trace is consistent exactly when the result is empty.
pub fn violations(rows: &Vec<Row>) -> (found: Vec<Violation>)
    ensures
        found@ == trace_violations(trace_view(rows@)),
{
    let mut found: Vec<Violation> = Vec::new();
    audit_pass(rows, Pass::Chaining, &mut found);
    audit_pass(rows, Pass::TypeChain, &mut found);
    audit_pass(rows, Pass::Transition, &mut found);
    audit_pass(rows, Pass::HashShape, &mut found);
    audit_pass(rows, Pass::Bookkeeping, &mut found);
    assert(found@ =~= trace_violations(trace_view(rows@)));
    found
}

/// The first `n` of `checks` find nothing at row `i` exactly when each of them holds there.
pub proof fn lemma_row_clean(s: Seq<RowView>, i: int, checks: Seq<Check>, n: nat)
    requires
        n <= checks.len(),
    ensures
        row_violations(s, i, checks, n).len() == 0 <==> forall|k: int|
            0 <= k < n ==> check_holds(s, i, #[trigger] checks[k]),
    decreases n,
{
    if n > 0 {
        lemma_row_clean(s, i, checks, (n - 1) as nat);
        if row_violations(s, i, checks, n).len() == 0 {
            assert(check_holds(s, i, checks[n - 1]));
        }
    }
}

/// A pass finds nothing in the first `n` rows exactly when each of them passes it.
pub proof fn lemma_pass_clean(s: Seq<RowView>, pass: Pass, n: nat)
    requires
        n <= s.len(),
    ensures
        pass_violations(s, pass, n).len() == 0 <==> forall|i: int|
            0 <= i < n ==> #[trigger] row_passes(s, i, pass),
    decreases n,
{
    if n > 0 {
        lemma_pass_clean(s, pass, (n - 1) as nat);
        lemma_row_clean(s, n - 1, checks_of(pass), checks_of(pass).len());
        let earlier = pass_violations(s, pass, (n - 1) as nat);
        let last = pass_row_violations(s, n - 1, pass);
        assert(pass_violations(s, pass, n).len() == earlier.len() + last.len());
        assert(last.len() == 0 <==> row_passes(s, n - 1, pass));
        if forall|i: int| 0 <= i < n ==> #[trigger] row_passes(s, i, pass) {
            assert(row_passes(s, n - 1, pass));
            assert(earlier.len() == 0);
        }
    }
}

/// A trace is consistent exactly when its audit finds no violation.
pub proof fn lemma_valid_iff_clean(s: Seq<RowView>)
    ensures
        trace_valid(s) <==> trace_violations(s).len() == 0,
{
    lemma_pass_clean(s, Pass::Chaining, s.len());
    lemma_pass_clean(s, Pass::TypeChain, s.len());
    lemma_pass_clean(s, Pass::Transition, s.len());
    lemma_pass_clean(s, Pass::HashShape, s.len());
    lemma_pass_clean(s, Pass::Bookkeeping, s.len());
}

/// Each check is applied by its own pass.
pub proof fn lemma_check_in_pass(check: Check) -> (k: int)
    ensures
        0 <= k < checks_of(check.spec_pass()).len(),
        checks_of(check.spec_pass())[k] == check,
{
    match check {
        Check::OldHashChain => 0,
        Check::NewHashChain => 1,
        Check::OldOpeningType => 0,
        Check::NewOpeningType => 1,
        Check::OldTypeChain => 2,
        Check::NewTypeChain => 3,
        Check::Transition => 0,
        Check::OldHashShape => 0,
        Check::NewHashShape => 1,
        Check::PathBit => 0,
        Check::OpeningDepth => 1,
        Check::DepthStep => 2,
        Check::KeyPath => 3,
    }
}

/// What the first `n` of `checks` report at row `i`: exactly those among them that fail there.
pub proof fn lemma_row_violations_exact(
    s: Seq<RowView>,
    i: int,
    checks: Seq<Check>,
    n: nat,
    v: Violation,
)
    requires
        n <= checks.len(),
        0 <= i <= usize::MAX,
    ensures
        row_violations(s, i, checks, n).contains(v) <==> v.row == i && !check_holds(s, i, v.check)
            && exists|k: int| 0 <= k < n && #[trigger] checks[k] == v.check,
    decreases n,
{
    let found = row_violations(s, i, checks, n);
    if n == 0 {
        assert(!found.contains(v));
    } else {
        let earlier = row_violations(s, i, checks, (n - 1) as nat);
        let check = checks[n - 1];
        lemma_row_violations_exact(s, i, checks, (n - 1) as nat, v);
        if !check_holds(s, i, check) {
            lemma_seq_contains_after_push(earlier, Violation { row: i as usize, check }, v);
        }
        if found.contains(v) {
            if earlier.contains(v) {
                let k = choose|k: int| 0 <= k < n - 1 && #[trigger] checks[k] == v.check;
                assert(0 <= k < n && checks[k] == v.check);
            } else {
                assert(checks[n - 1] == v.check);
            }
        }
    }
}

/// What a pass reports in the first `n` rows: exactly its checks that fail there.
pub proof fn lemma_pass_violations_exact(s: Seq<RowView>, pass: Pass, n: nat, v: Violation)
    requires
        n <= s.len() <= usize::MAX,
    ensures
        pass_violations(s, pass, n).contains(v) <==> v.row < n && v.check.spec_pass() == pass
            && !check_holds(s, v.row as int, v.check),
    decreases n,
{
    if n == 0 {
        assert(!pass_violations(s, pass, n).contains(v));
    } else {
        let earlier = pass_violations(s, pass, (n - 1) as nat);
        let last = pass_row_violations(s, n - 1, pass);
        lemma_pass_violations_exact(s, pass, (n - 1) as nat, v);
        lemma_row_violations_exact(s, n - 1, checks_of(pass), checks_of(pass).len(), v);
        lemma_seq_concat_contains_all_elements(earlier, last, v);
        let k = lemma_check_in_pass(v.check);
        if last.contains(v) {
            let j = choose|j: int| 0 <= j < checks_of(pass).len() && #[trigger] checks_of(pass)[j] == v.check;
            assert(checks_of(pass)[j].spec_pass() == pass);
        }
        if v.row == n - 1 && v.check.spec_pass() == pass && !check_holds(s, n - 1, v.check) {
            assert(checks_of(pass)[k] == v.check);
        }
    }
}

/// What an audit reports: a violation is in the list exactly when its row is
/// in the trace and its check fails there.
pub proof fn lemma_violations_exact(s: Seq<RowView>, v: Violation)
    requires
        s.len() <= usize::MAX,
    ensures
        trace_violations(s).contains(v) <==> v.row < s.len() && !check_holds(s, v.row as int, v.check),
{
    let n = s.len();
    let chaining = pass_violations(s, Pass::Chaining, n);
    let type_chain = pass_violations(s, Pass::TypeChain, n);
    let transition = pass_violations(s, Pass::Transition, n);
    let hash_shape = pass_violations(s, Pass::HashShape, n);
    let bookkeeping = pass_violations(s, Pass::Bookkeeping, n);
    lemma_pass_violations_exact(s, Pass::Chaining, n, v);
    lemma_pass_violations_exact(s, Pass::TypeChain, n, v);
    lemma_pass_violations_exact(s, Pass::Transition, n, v);
    lemma_pass_violations_exact(s, Pass::HashShape, n, v);
    lemma_pass_violations_exact(s, Pass::Bookkeeping, n, v);
    lemma_seq_concat_contains_all_elements(chaining, type_chain, v);
    lemma_seq_concat_contains_all_elements(chaining + type_chain, transition, v);
    lemma_seq_concat_contains_all_elements(chaining + type_chain + transition, hash_shape, v);
    lemma_seq_concat_contains_all_elements(
        chaining + type_chain + transition + hash_shape,
        bookkeeping,
        v,
    );
}

/// The empty trace is consistent.
pub proof fn lemma_empty_trace_valid()
    ensures
        trace_valid(Seq::<RowView>::empty()),
{
}

/// A trace that fails any one pass is not consistent, whatever the other passes say.
pub proof fn lemma_failed_pass_invalidates(s: Seq<RowView>, pass: Pass)
    requires
        !pass_holds(s, pass),
    ensures
        !trace_valid(s),
{
}

/// A trace in which some check fails at some row is not consistent.
pub proof fn lemma_failed_check_invalidates(s: Seq<RowView>, i: int, check: Check)
    requires
        0 <= i < s.len(),
        !check_holds(s, i, check),
    ensures
        !trace_valid(s),
{
    let pass = check.spec_pass();
    let k = lemma_check_in_pass(check);
    assert(!check_holds(s, i, checks_of(pass)[k]));
    assert(!row_passes(s, i, pass));
}

/// Sequences of rows that can be audited.
pub trait Verify {
    /// Whether the trace is consistent.
    spec fn valid(&self) -> bool;

    /// Audits the trace: `true` when it is consistent.
    fn verify(&self) -> (ok: bool)
        ensures
            ok == self.valid(),
    ;
}

impl Verify for Vec<Row> {
    open spec fn valid(&self) -> bool {
        trace_valid(trace_view(self@))
    }

    fn verify(&self) -> (ok: bool) {
        let found = violations(self);
        proof {
            lemma_valid_iff_clean(trace_view(self@));
        }
        found.len() == 0
    }
}

} // verus!
