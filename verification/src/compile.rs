//! The rule compiler: lowers each permission's expression tree into structured
//! inference rules.
//!
//! - A unary expression emits one aliasing rule.
//! - A hierarchical expression emits one rule per type restriction of its
//!   source relation; the restrictions realize logical OR, since rules sharing
//!   one head are disjunctive under the engine's semantics.
//! - A union emits the ordered concatenation of its operands' rules.
//! - An intersection conjoins its operands' bodies: one rule per combination
//!   drawn from the cross product of the operands' alternative rule bodies,
//!   with `subject`/`resource` unified across operands and every operand's
//!   link variables renumbered to stay mutually disjoint.
//!
//! The compiler never emits a malformed rule: it fails with a `CompileError`
//! instead, and a failure for one permission never corrupts the rules already
//! produced for another.

use vstd::prelude::*;
use crate::schema::{
    HierarchicalExpression, Permission, PermissionExpression, RelationTypeRestriction, Schema,
    SetExpression, TypeDefinition, find_relation, is_predicate, spec_find_relation,
    spec_is_predicate,
};
use crate::rule::{Atom, Rule, SpecRule, Term, clone_atoms};
use crate::validate::SchemaError;

verus! {

/// Why a permission could not be compiled.
///
/// - `UnresolvedReference`: an expression names a relation or permission that
///   its type does not define. The validator reports this defect ahead of
///   time, so meeting it here signals an internal-invariant violation.
/// - `UnsafeVariable`: a hierarchical expression's source relation has no type
///   restriction, so no rule could bind the head's variables through a body.
/// - `InconsistentIntersectionArity`: an intersection has no operand, so its
///   conjoined rule would have an empty body and leave every head variable
///   unbound.
#[derive(Debug, Clone, Copy, PartialEq, Eq, Structural)]
pub enum CompileError {
    UnresolvedReference,
    UnsafeVariable,
    InconsistentIntersectionArity,
}

/// The head atom of every rule emitted for (`td`, permission `perm`).
pub open spec fn spec_head_atom(td: TypeDefinition, perm: String) -> Atom {
    Atom {
        predicate_type: td.name,
        predicate: perm,
        subject_arg: Term::Subject,
        resource_arg: Term::Resource,
    }
}

/// Renumbers a link variable upward by `off`; leaves every other term alone.
pub open spec fn shift_term(t: Term, off: int) -> Term {
    match t {
        Term::Link(i) => Term::Link((i + off) as usize),
        _ => t,
    }
}

/// Renumbers the link variables of an atom upward by `off`.
pub open spec fn shift_atom(a: Atom, off: int) -> Atom {
    Atom {
        predicate_type: a.predicate_type,
        predicate: a.predicate,
        subject_arg: shift_term(a.subject_arg, off),
        resource_arg: shift_term(a.resource_arg, off),
    }
}

/// Renumbers the link variables of a whole body upward by `off`.
pub open spec fn shift_body(b: Seq<Atom>, off: int) -> Seq<Atom> {
    b.map_values(|a: Atom| shift_atom(a, off))
}

/// The one rule a hierarchical expression emits for one type restriction of
/// its source relation: the head's `subject` reappears in the first body atom,
/// a fresh link variable joins the two body atoms, and the head's `resource`
/// reappears, identically named, in the final body atom.
pub open spec fn spec_hier_rule(
    td: TypeDefinition,
    perm: String,
    h: HierarchicalExpression,
    r: RelationTypeRestriction,
) -> SpecRule {
    SpecRule {
        head: spec_head_atom(td, perm),
        body: seq![
            Atom {
                predicate_type: r.subject_type,
                predicate: h.target_relation,
                subject_arg: Term::Subject,
                resource_arg: Term::Link(0),
            },
            Atom {
                predicate_type: td.name,
                predicate: h.source_relation,
                subject_arg: Term::Link(0),
                resource_arg: Term::Resource,
            },
        ],
    }
}

/// The rules a hierarchical expression emits for the restrictions at or after
/// index `i`, one per restriction, in restriction order.
pub open spec fn hier_rules_from(
    td: TypeDefinition,
    perm: String,
    h: HierarchicalExpression,
    rs: Seq<RelationTypeRestriction>,
    i: int,
) -> Seq<SpecRule>
    decreases rs.len() - i,
{
    if i < 0 || i >= rs.len() {
        Seq::empty()
    } else {
        seq![spec_hier_rule(td, perm, h, rs[i])] + hier_rules_from(td, perm, h, rs, i + 1)
    }
}

/// The compilation of one permission expression into its ordered rule
/// sequence, or the first error met in evaluation order.
pub open spec fn spec_compile_expr(
    td: TypeDefinition,
    perm: String,
    e: PermissionExpression,
) -> Result<Seq<SpecRule>, CompileError>
    decreases e, 1int,
{
    match e {
        PermissionExpression::UnaryExpression(name) => {
            if spec_is_predicate(td, name@) {
                Ok(
                    seq![
                        SpecRule {
                            head: spec_head_atom(td, perm),
                            body: seq![
                                Atom {
                                    predicate_type: td.name,
                                    predicate: name,
                                    subject_arg: Term::Subject,
                                    resource_arg: Term::Resource,
                                },
                            ],
                        },
                    ],
                )
            } else {
                Err(CompileError::UnresolvedReference)
            }
        },
        PermissionExpression::HierarchicalExpression(h) => {
            match spec_find_relation(td, h.source_relation@) {
                None => Err(CompileError::UnresolvedReference),
                Some(rel) => {
                    if rel.type_restrictions@.len() == 0 {
                        Err(CompileError::UnsafeVariable)
                    } else {
                        Ok(hier_rules_from(td, perm, h, rel.type_restrictions@, 0))
                    }
                },
            }
        },
        PermissionExpression::SetExpression(se) => {
            match se {
                SetExpression::Union(ops) => union_rules_from(td, perm, ops@, 0),
                SetExpression::Intersection(ops) => {
                    if ops@.len() == 0 {
                        Err(CompileError::InconsistentIntersectionArity)
                    } else {
                        match operand_rule_lists(td, perm, ops@, 0) {
                            Err(err) => Err(err),
                            Ok(lists) => Ok(
                                attach_head(
                                    spec_head_atom(td, perm),
                                    cross_upto(lists, lists.len() as int),
                                ),
                            ),
                        }
                    }
                },
            }
        },
    }
}

/// The ordered concatenation of the compilations of the operands at or after
/// index `i`, or the first error among them.
pub open spec fn union_rules_from(
    td: TypeDefinition,
    perm: String,
    ops: Seq<PermissionExpression>,
    i: int,
) -> Result<Seq<SpecRule>, CompileError>
    decreases ops, ops.len() - i,
{
    if i < 0 || i >= ops.len() {
        Ok(Seq::empty())
    } else {
        match spec_compile_expr(td, perm, ops[i]) {
            Err(err) => Err(err),
            Ok(rs) => match union_rules_from(td, perm, ops, i + 1) {
                Err(err) => Err(err),
                Ok(rest) => Ok(rs + rest),
            },
        }
    }
}

/// The list of per-operand rule sequences of the operands at or after index
/// `i`, or the first error among them.
pub open spec fn operand_rule_lists(
    td: TypeDefinition,
    perm: String,
    ops: Seq<PermissionExpression>,
    i: int,
) -> Result<Seq<Seq<SpecRule>>, CompileError>
    decreases ops, ops.len() - i,
{
    if i < 0 || i >= ops.len() {
        Ok(Seq::empty())
    } else {
        match spec_compile_expr(td, perm, ops[i]) {
            Err(err) => Err(err),
            Ok(rs) => match operand_rule_lists(td, perm, ops, i + 1) {
                Err(err) => Err(err),
                Ok(rest) => Ok(seq![rs] + rest),
            },
        }
    }
}

/// The bodies of a rule sequence, in order.
pub open spec fn rule_bodies(rs: Seq<SpecRule>) -> Seq<Seq<Atom>> {
    rs.map_values(|r: SpecRule| r.body)
}

/// One conjoined body per alternative body in `bs`, all continuing the partial
/// body `a`: the alternative's links are renumbered past the atoms of `a`, so
/// links contributed by different operands never collide.
pub open spec fn combine_one_from(a: Seq<Atom>, bs: Seq<Seq<Atom>>, j: int) -> Seq<Seq<Atom>>
    decreases bs.len() - j,
{
    if j < 0 || j >= bs.len() {
        Seq::empty()
    } else {
        seq![a + shift_body(bs[j], a.len() as int)] + combine_one_from(a, bs, j + 1)
    }
}

/// Every partial body of `accs` (at or after index `i`) continued by every
/// alternative body of `bs`, partial-body-major: the cross-product step that
/// distributes AND over OR.
pub open spec fn combine_from(accs: Seq<Seq<Atom>>, bs: Seq<Seq<Atom>>, i: int) -> Seq<Seq<Atom>>
    decreases accs.len() - i,
{
    if i < 0 || i >= accs.len() {
        Seq::empty()
    } else {
        combine_one_from(accs[i], bs, 0) + combine_from(accs, bs, i + 1)
    }
}

/// The conjoined bodies of the first `n` operand rule lists: one body per
/// combination drawn from the cross product of the operands' alternatives.
pub open spec fn cross_upto(lists: Seq<Seq<SpecRule>>, n: int) -> Seq<Seq<Atom>>
    decreases n,
{
    if n <= 0 {
        seq![Seq::<Atom>::empty()]
    } else {
        combine_from(cross_upto(lists, n - 1), rule_bodies(lists[n - 1]), 0)
    }
}

/// One rule per body, all sharing the head.
pub open spec fn attach_head(head: Atom, bodies: Seq<Seq<Atom>>) -> Seq<SpecRule> {
    bodies.map_values(|b: Seq<Atom>| SpecRule { head: head, body: b })
}

/// The mathematical view of a compiled rule vector.
pub open spec fn rules_view(v: Seq<Rule>) -> Seq<SpecRule> {
    v.map_values(|r: Rule| r@)
}

/// The mathematical view of a vector of per-operand rule vectors.
pub open spec fn lists_view(v: Seq<Vec<Rule>>) -> Seq<Seq<SpecRule>> {
    v.map_values(|l: Vec<Rule>| rules_view(l@))
}

/// The mathematical view of a vector of rule bodies.
pub open spec fn bodies_view(v: Seq<Vec<Atom>>) -> Seq<Seq<Atom>> {
    v.map_values(|b: Vec<Atom>| b@)
}

/// The mathematical view of a compilation result.
pub open spec fn compile_result_view(r: Result<Vec<Rule>, CompileError>) -> Result<
    Seq<SpecRule>,
    CompileError,
> {
    match r {
        Ok(v) => Ok(rules_view(v@)),
        Err(e) => Err(e),
    }
}

/// Whether a compiled rule keeps every link variable numbered below its body's
/// length and its body non-empty: the invariant that lets an enclosing
/// intersection renumber links without collision.
pub open spec fn rule_links_ok(r: SpecRule) -> bool {
    crate::rule::body_links_bounded(r.body) && r.body.len() >= 1
}

/// Whether every rule of a sequence satisfies `rule_links_ok`.
pub open spec fn rules_links_ok(rs: Seq<SpecRule>) -> bool {
    forall|k: int| 0 <= k < rs.len() ==> rule_links_ok(#[trigger] rs[k])
}

/// Every rule that a hierarchical expression emits has a two-atom body whose
/// only link variable is numbered 0.
proof fn lemma_hier_links_ok(
    td: TypeDefinition,
    perm: String,
    h: HierarchicalExpression,
    rs: Seq<RelationTypeRestriction>,
    i: int,
)
    ensures
        rules_links_ok(hier_rules_from(td, perm, h, rs, i)),
    decreases rs.len() - i,
{
    if 0 <= i < rs.len() {
        lemma_hier_links_ok(td, perm, h, rs, i + 1);
        assert(rule_links_ok(spec_hier_rule(td, perm, h, rs[i])));
    }
}

/// Conjoining a links-bounded partial body with links-bounded alternatives
/// yields links-bounded, non-empty bodies.
proof fn lemma_combine_one_links_ok(a: Seq<Atom>, bs: Seq<Seq<Atom>>, j: int)
    requires
        crate::rule::body_links_bounded(a),
        forall|x: int|
            0 <= x < bs.len() ==> crate::rule::body_links_bounded(#[trigger] bs[x]) && bs[x].len()
                >= 1,
    ensures
        forall|x: int|
            0 <= x < combine_one_from(a, bs, j).len() ==> crate::rule::body_links_bounded(
                #[trigger] combine_one_from(a, bs, j)[x],
            ) && combine_one_from(a, bs, j)[x].len() >= 1,
    decreases bs.len() - j,
{
    if 0 <= j < bs.len() {
        lemma_combine_one_links_ok(a, bs, j + 1);
        let c = a + shift_body(bs[j], a.len() as int);
        assert forall|y: int| 0 <= y < c.len() implies crate::rule::atom_links_below(
            #[trigger] c[y],
            c.len() as int,
        ) by {
            if y < a.len() {
                assert(crate::rule::atom_links_below(a[y], a.len() as int));
            } else {
                let src = bs[j][y - a.len()];
                assert(c[y] == shift_atom(src, a.len() as int));
                assert(crate::rule::atom_links_below(src, bs[j].len() as int));
            }
        }
        assert(combine_one_from(a, bs, j) == seq![c] + combine_one_from(a, bs, j + 1));
    }
}

/// `combine_from` preserves links-bounded, non-empty bodies.
proof fn lemma_combine_links_ok(accs: Seq<Seq<Atom>>, bs: Seq<Seq<Atom>>, i: int)
    requires
        forall|x: int| 0 <= x < accs.len() ==> crate::rule::body_links_bounded(#[trigger] accs[x]),
        forall|x: int|
            0 <= x < bs.len() ==> crate::rule::body_links_bounded(#[trigger] bs[x]) && bs[x].len()
                >= 1,
    ensures
        forall|x: int|
            0 <= x < combine_from(accs, bs, i).len() ==> crate::rule::body_links_bounded(
                #[trigger] combine_from(accs, bs, i)[x],
            ) && combine_from(accs, bs, i)[x].len() >= 1,
    decreases accs.len() - i,
{
    if 0 <= i < accs.len() {
        lemma_combine_links_ok(accs, bs, i + 1);
        lemma_combine_one_links_ok(accs[i], bs, 0);
        let first = combine_one_from(accs[i], bs, 0);
        let rest = combine_from(accs, bs, i + 1);
        assert forall|x: int|
            0 <= x < combine_from(accs, bs, i).len() implies crate::rule::body_links_bounded(
            #[trigger] combine_from(accs, bs, i)[x],
        ) && combine_from(accs, bs, i)[x].len() >= 1 by {
            if x < first.len() {
                assert(combine_from(accs, bs, i)[x] == first[x]);
            } else {
                assert(combine_from(accs, bs, i)[x] == rest[x - first.len()]);
            }
        }
    }
}

/// The cross product of links-bounded operand rule lists yields links-bounded
/// bodies, non-empty as soon as one operand took part.
proof fn lemma_cross_links_ok(lists: Seq<Seq<SpecRule>>, n: int)
    requires
        forall|i: int, j: int|
            0 <= i < lists.len() && 0 <= j < lists[i].len() ==> rule_links_ok(
                #[trigger] lists[i][j],
            ),
        n <= lists.len(),
    ensures
        forall|x: int|
            0 <= x < cross_upto(lists, n).len() ==> crate::rule::body_links_bounded(
                #[trigger] cross_upto(lists, n)[x],
            ) && (n >= 1 ==> cross_upto(lists, n)[x].len() >= 1),
    decreases n,
{
    if n > 0 {
        lemma_cross_links_ok(lists, n - 1);
        let bs = rule_bodies(lists[n - 1]);
        assert forall|x: int| 0 <= x < bs.len() implies crate::rule::body_links_bounded(
            #[trigger] bs[x],
        ) && bs[x].len() >= 1 by {
            assert(bs[x] == lists[n - 1][x].body);
            assert(rule_links_ok(lists[n - 1][x]));
        }
        lemma_combine_links_ok(cross_upto(lists, n - 1), bs, 0);
    }
}

/// Every rule that a compilation emits satisfies `rule_links_ok`.
pub proof fn lemma_compile_rules_links_ok(td: TypeDefinition, perm: String, e: PermissionExpression)
    ensures
        spec_compile_expr(td, perm, e) matches Ok(rs) ==> rules_links_ok(rs),
    decreases e, 1int,
{
    match e {
        PermissionExpression::UnaryExpression(name) => {
            if spec_is_predicate(td, name@) {
                let rs = spec_compile_expr(td, perm, e)->Ok_0;
                assert(rule_links_ok(rs[0]));
            }
        },
        PermissionExpression::HierarchicalExpression(h) => {
            match spec_find_relation(td, h.source_relation@) {
                None => {},
                Some(rel) => {
                    lemma_hier_links_ok(td, perm, h, rel.type_restrictions@, 0);
                },
            }
        },
        PermissionExpression::SetExpression(se) => {
            match se {
                SetExpression::Union(ops) => {
                    lemma_union_links_ok(td, perm, ops@, 0);
                },
                SetExpression::Intersection(ops) => {
                    if ops@.len() > 0 {
                        lemma_operand_lists_bounded(td, perm, ops@, 0);
                        match operand_rule_lists(td, perm, ops@, 0) {
                            Err(_) => {},
                            Ok(lists) => {
                                lemma_cross_links_ok(lists, lists.len() as int);
                                let rs = attach_head(
                                    spec_head_atom(td, perm),
                                    cross_upto(lists, lists.len() as int),
                                );
                                assert forall|k: int| 0 <= k < rs.len() implies rule_links_ok(
                                    #[trigger] rs[k],
                                ) by {
                                    assert(rs[k].body == cross_upto(lists, lists.len() as int)[k]);
                                }
                            },
                        }
                    }
                },
            }
        },
    }
}

/// Every rule of a union's concatenation satisfies `rule_links_ok`.
proof fn lemma_union_links_ok(
    td: TypeDefinition,
    perm: String,
    ops: Seq<PermissionExpression>,
    i: int,
)
    ensures
        union_rules_from(td, perm, ops, i) matches Ok(rs) ==> rules_links_ok(rs),
    decreases ops, ops.len() - i,
{
    if 0 <= i < ops.len() {
        lemma_compile_rules_links_ok(td, perm, ops[i]);
        lemma_union_links_ok(td, perm, ops, i + 1);
        if union_rules_from(td, perm, ops, i) is Ok {
            let rs = spec_compile_expr(td, perm, ops[i])->Ok_0;
            let rest = union_rules_from(td, perm, ops, i + 1)->Ok_0;
            assert forall|k: int| 0 <= k < (rs + rest).len() implies rule_links_ok(
                #[trigger] (rs + rest)[k],
            ) by {
                if k < rs.len() {
                    assert(rule_links_ok(rs[k]));
                } else {
                    assert((rs + rest)[k] == rest[k - rs.len()]);
                }
            }
        }
    }
}

/// Every rule of every operand's compiled list satisfies `rule_links_ok`.
proof fn lemma_operand_lists_bounded(
    td: TypeDefinition,
    perm: String,
    ops: Seq<PermissionExpression>,
    i: int,
)
    ensures
        operand_rule_lists(td, perm, ops, i) matches Ok(lists) ==> forall|x: int, j: int|
            0 <= x < lists.len() && 0 <= j < lists[x].len() ==> rule_links_ok(
                #[trigger] lists[x][j],
            ),
    decreases ops, ops.len() - i,
{
    if 0 <= i < ops.len() {
        lemma_compile_rules_links_ok(td, perm, ops[i]);
        lemma_operand_lists_bounded(td, perm, ops, i + 1);
        if operand_rule_lists(td, perm, ops, i) is Ok {
            let rs = spec_compile_expr(td, perm, ops[i])->Ok_0;
            let rest = operand_rule_lists(td, perm, ops, i + 1)->Ok_0;
            let lists = operand_rule_lists(td, perm, ops, i)->Ok_0;
            assert(lists == seq![rs] + rest);
            assert forall|x: int, j: int|
                0 <= x < lists.len() && 0 <= j < lists[x].len() implies rule_links_ok(
                #[trigger] lists[x][j],
            ) by {
                if x == 0 {
                    assert(lists[0] == rs);
                    assert(rules_links_ok(rs));
                    assert(rule_links_ok(rs[j]));
                } else {
                    assert(lists[x] == rest[x - 1]);
                }
            }
        }
    }
}
/// Small view identities used by the loop invariants below.
proof fn lemma_rules_view_push(s: Seq<Rule>, r: Rule)
    ensures
        rules_view(s.push(r)) == rules_view(s).push(r@),
{
    assert(rules_view(s.push(r)) =~= rules_view(s).push(r@));
}

proof fn lemma_rules_view_add(a: Seq<Rule>, b: Seq<Rule>)
    ensures
        rules_view(a + b) == rules_view(a) + rules_view(b),
{
    assert(rules_view(a + b) =~= rules_view(a) + rules_view(b));
}

proof fn lemma_lists_view_push(s: Seq<Vec<Rule>>, l: Vec<Rule>)
    ensures
        lists_view(s.push(l)) == lists_view(s).push(rules_view(l@)),
{
    assert(lists_view(s.push(l)) =~= lists_view(s).push(rules_view(l@)));
}

proof fn lemma_bodies_view_push(s: Seq<Vec<Atom>>, b: Vec<Atom>)
    ensures
        bodies_view(s.push(b)) == bodies_view(s).push(b@),
{
    assert(bodies_view(s.push(b)) =~= bodies_view(s).push(b@));
}

/// Compiles one permission expression of `permission` on `type_definition`
/// into the ordered rule sequence that `spec_compile_expr` defines, or the
/// first error met in evaluation order.
pub fn rules_from_permission_expression(
    type_definition: &TypeDefinition,
    permission: &Permission,
    expression: &PermissionExpression,
) -> (r: Result<Vec<Rule>, CompileError>)
    ensures
        compile_result_view(r) == spec_compile_expr(
            *type_definition,
            permission.name,
            *expression,
        ),
{
    compile_expr(type_definition, &permission.name, expression)
}

/// Recursive worker behind `rules_from_permission_expression`: dispatches on
/// the expression variant, matched exhaustively.
fn compile_expr(td: &TypeDefinition, perm: &String, e: &PermissionExpression) -> (r: Result<
    Vec<Rule>,
    CompileError,
>)
    ensures
        compile_result_view(r) == spec_compile_expr(*td, *perm, *e),
    decreases *e, 1int,
{
    match e {
        PermissionExpression::UnaryExpression(name) => compile_unary(td, perm, name),
        PermissionExpression::HierarchicalExpression(h) => compile_hier(td, perm, h),
        PermissionExpression::SetExpression(se) => {
            match se {
                SetExpression::Union(ops) => {
                    proof {
                        assert(decreases_to!(*e => *se));
                        assert(decreases_to!(*se => ops@));
                    }
                    compile_union(td, perm, ops)
                },
                SetExpression::Intersection(ops) => {
                    proof {
                        assert(decreases_to!(*e => *se));
                        assert(decreases_to!(*se => ops@));
                    }
                    compile_intersection(td, perm, ops)
                },
            }
        },
    }
}

/// Emits the one aliasing rule of a unary expression: the permission holds for
/// exactly the pairs for which the named relation or permission holds.
fn compile_unary(td: &TypeDefinition, perm: &String, name: &String) -> (r: Result<
    Vec<Rule>,
    CompileError,
>)
    ensures
        compile_result_view(r) == spec_compile_expr(
            *td,
            *perm,
            PermissionExpression::UnaryExpression(*name),
        ),
{
    if is_predicate(td, name) {
        let head = Atom {
            predicate_type: td.name.clone(),
            predicate: perm.clone(),
            subject_arg: Term::Subject,
            resource_arg: Term::Resource,
        };
        let mut body: Vec<Atom> = Vec::new();
        body.push(
            Atom {
                predicate_type: td.name.clone(),
                predicate: name.clone(),
                subject_arg: Term::Subject,
                resource_arg: Term::Resource,
            },
        );
        let rule = Rule { head, body };
        let mut out: Vec<Rule> = Vec::new();
        out.push(rule);
        proof {
            let ghost ev = PermissionExpression::UnaryExpression(*name);
            assert(rule@.body =~= spec_compile_expr(*td, *perm, ev)->Ok_0[0].body);
            assert(rules_view(out@) =~= spec_compile_expr(*td, *perm, ev)->Ok_0);
        }
        Ok(out)
    } else {
        Err(CompileError::UnresolvedReference)
    }
}

/// Emits one rule per type restriction of the hierarchical expression's source
/// relation, in restriction order.
#[verifier::loop_isolation(false)]
fn compile_hier(td: &TypeDefinition, perm: &String, h: &HierarchicalExpression) -> (r: Result<
    Vec<Rule>,
    CompileError,
>)
    ensures
        compile_result_view(r) == spec_compile_expr(
            *td,
            *perm,
            PermissionExpression::HierarchicalExpression(*h),
        ),
{
    match find_relation(td, &h.source_relation) {
        None => Err(CompileError::UnresolvedReference),
        Some(rel) => {
            if rel.type_restrictions.len() == 0 {
                Err(CompileError::UnsafeVariable)
            } else {
                let mut out: Vec<Rule> = Vec::new();
                let ghost rsv = rel.type_restrictions@;
                let n = rel.type_restrictions.len();
                proof {
                    assert(rules_view(out@) + hier_rules_from(*td, *perm, *h, rsv, 0)
                        =~= hier_rules_from(*td, *perm, *h, rsv, 0));
                }
                for i in 0..n
                    invariant
                        hier_rules_from(*td, *perm, *h, rsv, 0) == rules_view(out@)
                            + hier_rules_from(*td, *perm, *h, rsv, i as int),
                {
                    let head = Atom {
                        predicate_type: td.name.clone(),
                        predicate: perm.clone(),
                        subject_arg: Term::Subject,
                        resource_arg: Term::Resource,
                    };
                    let mut body: Vec<Atom> = Vec::new();
                    body.push(
                        Atom {
                            predicate_type: rel.type_restrictions[i].subject_type.clone(),
                            predicate: h.target_relation.clone(),
                            subject_arg: Term::Subject,
                            resource_arg: Term::Link(0),
                        },
                    );
                    body.push(
                        Atom {
                            predicate_type: td.name.clone(),
                            predicate: h.source_relation.clone(),
                            subject_arg: Term::Link(0),
                            resource_arg: Term::Resource,
                        },
                    );
                    let rule = Rule { head, body };
                    proof {
                        assert(rule@.body =~= spec_hier_rule(*td, *perm, *h, rsv[i as int]).body);
                        assert(rule@ == spec_hier_rule(*td, *perm, *h, rsv[i as int]));
                        lemma_rules_view_push(out@, rule);
                        assert(rules_view(out@).push(rule@) + hier_rules_from(
                            *td,
                            *perm,
                            *h,
                            rsv,
                            i + 1,
                        ) =~= rules_view(out@) + hier_rules_from(*td, *perm, *h, rsv, i as int));
                    }
                    out.push(rule);
                }
                proof {
                    assert(rules_view(out@) + hier_rules_from(*td, *perm, *h, rsv, n as int)
                        =~= rules_view(out@));
                }
                Ok(out)
            }
        },
    }
}

/// Emits the ordered concatenation of the operands' rules: logical OR,
/// realized because rules sharing one head are disjunctive.
#[verifier::loop_isolation(false)]
fn compile_union(td: &TypeDefinition, perm: &String, ops: &Vec<PermissionExpression>) -> (r: Result<
    Vec<Rule>,
    CompileError,
>)
    ensures
        compile_result_view(r) == union_rules_from(*td, *perm, ops@, 0),
    decreases ops@, 0int,
{
    let mut out: Vec<Rule> = Vec::new();
    let n = ops.len();
    proof {
        if union_rules_from(*td, *perm, ops@, 0) is Ok {
            assert(rules_view(out@) + union_rules_from(*td, *perm, ops@, 0)->Ok_0
                =~= union_rules_from(*td, *perm, ops@, 0)->Ok_0);
        }
    }
    for i in 0..n
        invariant
            union_rules_from(*td, *perm, ops@, 0) == (match union_rules_from(
                *td,
                *perm,
                ops@,
                i as int,
            ) {
                Err(err) => Err(err),
                Ok(rest) => Ok(rules_view(out@) + rest),
            }),
    {
        proof {
            assert(decreases_to!(ops@ => ops@[i as int]));
        }
        let sub = compile_expr(td, perm, &ops[i]);
        match sub {
            Err(err) => {
                return Err(err);
            },
            Ok(mut rs) => {
                proof {
                    lemma_rules_view_add(out@, rs@);
                    if union_rules_from(*td, *perm, ops@, i + 1) is Ok {
                        assert((rules_view(out@) + rules_view(rs@)) + union_rules_from(
                            *td,
                            *perm,
                            ops@,
                            i + 1,
                        )->Ok_0 =~= rules_view(out@) + (rules_view(rs@) + union_rules_from(
                            *td,
                            *perm,
                            ops@,
                            i + 1,
                        )->Ok_0));
                    }
                }
                out.append(&mut rs);
            },
        }
    }
    proof {
        assert(rules_view(out@) + Seq::<SpecRule>::empty() =~= rules_view(out@));
    }
    Ok(out)
}

/// Compiles every operand, then conjoins the operands' alternative bodies by
/// cross product: logical AND distributed over each operand's alternatives.
#[verifier::loop_isolation(false)]
fn compile_intersection(
    td: &TypeDefinition,
    perm: &String,
    ops: &Vec<PermissionExpression>,
) -> (r: Result<Vec<Rule>, CompileError>)
    ensures
        compile_result_view(r) == (if ops@.len() == 0 {
            Err::<Seq<SpecRule>, CompileError>(CompileError::InconsistentIntersectionArity)
        } else {
            match operand_rule_lists(*td, *perm, ops@, 0) {
                Err(err) => Err(err),
                Ok(lists) => Ok(
                    attach_head(spec_head_atom(*td, *perm), cross_upto(lists, lists.len() as int)),
                ),
            }
        }),
    decreases ops@, 0int,
{
    if ops.len() == 0 {
        return Err(CompileError::InconsistentIntersectionArity);
    }
    let mut lists: Vec<Vec<Rule>> = Vec::new();
    let n = ops.len();
    proof {
        if operand_rule_lists(*td, *perm, ops@, 0) is Ok {
            assert(lists_view(lists@) + operand_rule_lists(*td, *perm, ops@, 0)->Ok_0
                =~= operand_rule_lists(*td, *perm, ops@, 0)->Ok_0);
        }
    }
    for i in 0..n
        invariant
            operand_rule_lists(*td, *perm, ops@, 0) == (match operand_rule_lists(
                *td,
                *perm,
                ops@,
                i as int,
            ) {
                Err(err) => Err(err),
                Ok(rest) => Ok(lists_view(lists@) + rest),
            }),
    {
        proof {
            assert(decreases_to!(ops@ => ops@[i as int]));
        }
        let sub = compile_expr(td, perm, &ops[i]);
        match sub {
            Err(err) => {
                return Err(err);
            },
            Ok(rs) => {
                proof {
                    lemma_lists_view_push(lists@, rs);
                    if operand_rule_lists(*td, *perm, ops@, i + 1) is Ok {
                        assert(lists_view(lists@).push(rules_view(rs@)) + operand_rule_lists(
                            *td,
                            *perm,
                            ops@,
                            i + 1,
                        )->Ok_0 =~= lists_view(lists@) + (seq![rules_view(rs@)]
                            + operand_rule_lists(*td, *perm, ops@, i + 1)->Ok_0));
                    }
                }
                lists.push(rs);
            },
        }
    }
    proof {
        assert(lists_view(lists@) + Seq::<Seq<SpecRule>>::empty() =~= lists_view(lists@));
    }
    let ghost olists = lists_view(lists@);
    proof {
        assert(operand_rule_lists(*td, *perm, ops@, 0) == Ok::<
            Seq<Seq<SpecRule>>,
            CompileError,
        >(olists));
        lemma_operand_lists_bounded(*td, *perm, ops@, 0);
    }
    let crossed = cross_product(&lists, Ghost(olists));
    let out = attach_rules(td, perm, &crossed);
    Ok(out)
}

/// Builds the cross product of the operands' alternative bodies, renumbering
/// each operand's links past the partial body they continue.
#[verifier::loop_isolation(false)]
fn cross_product(lists: &Vec<Vec<Rule>>, Ghost(olists): Ghost<Seq<Seq<SpecRule>>>) -> (crossed:
    Vec<Vec<Atom>>)
    requires
        lists_view(lists@) == olists,
        forall|i: int, j: int|
            0 <= i < olists.len() && 0 <= j < olists[i].len() ==> rule_links_ok(
                #[trigger] olists[i][j],
            ),
    ensures
        bodies_view(crossed@) == cross_upto(olists, olists.len() as int),
{
    let mut acc: Vec<Vec<Atom>> = Vec::new();
    acc.push(Vec::new());
    proof {
        assert(bodies_view(acc@) =~= cross_upto(olists, 0));
    }
    let n = lists.len();
    for li in 0..n
        invariant
            bodies_view(acc@) == cross_upto(olists, li as int),
    {
        let ghost accv = bodies_view(acc@);
        let ghost bsv = rule_bodies(olists[li as int]);
        let mut next: Vec<Vec<Atom>> = Vec::new();
        let an = acc.len();
        proof {
            assert(bodies_view(next@) + combine_from(accv, bsv, 0) =~= combine_from(accv, bsv, 0));
        }
        for ai in 0..an
            invariant
                an == acc.len(),
                bodies_view(acc@) == accv,
                combine_from(accv, bsv, 0) == bodies_view(next@) + combine_from(
                    accv,
                    bsv,
                    ai as int,
                ),
        {
            let rn = lists[li].len();
            for ri in 0..rn
                invariant
                    an == acc.len(),
                    rn == lists@[li as int]@.len(),
                    bodies_view(acc@) == accv,
                    combine_from(accv, bsv, 0) == bodies_view(next@) + (combine_one_from(
                        accv[ai as int],
                        bsv,
                        ri as int,
                    ) + combine_from(accv, bsv, ai + 1)),
            {
                proof {
                    assert(olists[li as int] == rules_view(lists@[li as int]@));
                    assert(olists[li as int][ri as int] == lists@[li as int]@[ri as int]@);
                    assert(rule_links_ok(olists[li as int][ri as int]));
                    assert(bsv[ri as int] == olists[li as int][ri as int].body);
                    assert(lists@[li as int]@[ri as int].body@ == bsv[ri as int]);
                    assert(accv[ai as int] == acc@[ai as int]@);
                }
                let conj = conjoin(&acc[ai], &lists[li][ri].body);
                proof {
                    assert(conj@ == accv[ai as int] + shift_body(
                        bsv[ri as int],
                        accv[ai as int].len() as int,
                    ));
                    lemma_bodies_view_push(next@, conj);
                    assert(bodies_view(next@).push(conj@) + (combine_one_from(
                        accv[ai as int],
                        bsv,
                        ri + 1,
                    ) + combine_from(accv, bsv, ai + 1)) =~= bodies_view(next@) + (combine_one_from(
                        accv[ai as int],
                        bsv,
                        ri as int,
                    ) + combine_from(accv, bsv, ai + 1)));
                }
                next.push(conj);
            }
            proof {
                assert(bodies_view(next@) + (Seq::<Seq<Atom>>::empty() + combine_from(
                    accv,
                    bsv,
                    ai + 1,
                )) =~= bodies_view(next@) + combine_from(accv, bsv, ai + 1));
            }
        }
        proof {
            assert(bodies_view(next@) + combine_from(accv, bsv, an as int) =~= bodies_view(next@));
        }
        acc = next;
    }
    acc
}

/// Continues the partial body `a` with the alternative body `rb`, renumbering
/// `rb`'s links past the atoms of `a`.
#[verifier::loop_isolation(false)]
fn conjoin(a: &Vec<Atom>, rb: &Vec<Atom>) -> (c: Vec<Atom>)
    requires
        crate::rule::body_links_bounded(rb@),
    ensures
        c@ == a@ + shift_body(rb@, a@.len() as int),
{
    let mut c = clone_atoms(a);
    let off = c.len();
    let bn = rb.len();
    proof {
        assert(c@ =~= a@ + rb@.take(0));
    }
    for k in 0..bn
        invariant
            c@ == a@ + rb@.take(k as int),
    {
        let x = rb[k].clone();
        proof {
            assert(c@.push(x) =~= a@ + rb@.take(k + 1));
        }
        c.push(x);
    }
    let total = c.len();
    proof {
        assert(rb@.take(bn as int) =~= rb@);
        assert(shift_body(rb@.take(0), off as int) =~= Seq::<Atom>::empty());
        assert(c@ =~= a@ + shift_body(rb@.take(0), off as int) + rb@.skip(0));
    }
    for k in 0..bn
        invariant
            total == c.len(),
            total == off + bn,
            c@ == a@ + shift_body(rb@.take(k as int), off as int) + rb@.skip(k as int),
    {
        let pos = off + k;
        proof {
            assert(c@[pos as int] == rb@.skip(k as int)[0]);
            assert(c@[pos as int] == rb@[k as int]);
            assert(crate::rule::atom_links_below(rb@[k as int], rb@.len() as int));
        }
        let shifted = shift_exec(&c[pos], off, Ghost(total as int));
        proof {
            assert(c@.update(pos as int, shift_atom(rb@[k as int], off as int)) =~= a@
                + shift_body(rb@.take(k + 1), off as int) + rb@.skip(k + 1));
        }
        c[pos] = shifted;
    }
    proof {
        assert(shift_body(rb@.take(bn as int), off as int) =~= shift_body(rb@, off as int));
        assert(c@ =~= a@ + shift_body(rb@, off as int));
    }
    c
}

/// Attaches the head of (`td`, `perm`) to every conjoined body.
#[verifier::loop_isolation(false)]
fn attach_rules(td: &TypeDefinition, perm: &String, crossed: &Vec<Vec<Atom>>) -> (out: Vec<Rule>)
    ensures
        rules_view(out@) == attach_head(spec_head_atom(*td, *perm), bodies_view(crossed@)),
{
    let mut out: Vec<Rule> = Vec::new();
    let m = crossed.len();
    proof {
        assert(rules_view(out@) =~= attach_head(spec_head_atom(*td, *perm), bodies_view(
            crossed@,
        ).take(0)));
    }
    for bi in 0..m
        invariant
            rules_view(out@) == attach_head(
                spec_head_atom(*td, *perm),
                bodies_view(crossed@).take(bi as int),
            ),
    {
        let head = Atom {
            predicate_type: td.name.clone(),
            predicate: perm.clone(),
            subject_arg: Term::Subject,
            resource_arg: Term::Resource,
        };
        let body = clone_atoms(&crossed[bi]);
        let rule = Rule { head, body };
        proof {
            assert(rule@.head == spec_head_atom(*td, *perm));
            assert(rule@.body == bodies_view(crossed@)[bi as int]);
            lemma_rules_view_push(out@, rule);
            assert(rules_view(out@).push(rule@) =~= attach_head(
                spec_head_atom(*td, *perm),
                bodies_view(crossed@).take(bi + 1),
            ));
        }
        out.push(rule);
    }
    proof {
        assert(bodies_view(crossed@).take(m as int) =~= bodies_view(crossed@));
    }
    out
}

/// Renumbers one atom's links upward by `off`; every link of the atom is known
/// to stay below `total - off`, so the renumbering cannot overflow.
fn shift_exec(a: &Atom, off: usize, Ghost(total): Ghost<int>) -> (r: Atom)
    requires
        crate::rule::atom_links_below(*a, total - off),
        total <= usize::MAX,
    ensures
        r == shift_atom(*a, off as int),
{
    Atom {
        predicate_type: a.predicate_type.clone(),
        predicate: a.predicate.clone(),
        subject_arg: shift_term_exec(&a.subject_arg, off, Ghost(total)),
        resource_arg: shift_term_exec(&a.resource_arg, off, Ghost(total)),
    }
}

/// Renumbers one term's link upward by `off`.
fn shift_term_exec(t: &Term, off: usize, Ghost(total): Ghost<int>) -> (r: Term)
    requires
        crate::rule::term_link_below(*t, total - off),
        total <= usize::MAX,
    ensures
        r == shift_term(*t, off as int),
{
    match t {
        Term::Link(i) => Term::Link(*i + off),
        Term::Subject => Term::Subject,
        Term::Resource => Term::Resource,
        Term::Constant(c) => Term::Constant(c.clone()),
    }
}

/// The rules of one (type, permission) pair, or the error that stopped that
/// one permission. Failures are isolated: one permission's failure never
/// corrupts the rules produced for another.
#[derive(Debug, PartialEq, Eq)]
pub struct CompiledPermission {
    pub resource_type: String,
    pub permission: String,
    pub rules: Result<Vec<Rule>, CompileError>,
}

/// The mathematical model of a compiled permission.
pub struct SpecCompiledPermission {
    pub resource_type: String,
    pub permission: String,
    pub rules: Result<Seq<SpecRule>, CompileError>,
}

impl View for CompiledPermission {
    type V = SpecCompiledPermission;

    open spec fn view(&self) -> SpecCompiledPermission {
        SpecCompiledPermission {
            resource_type: self.resource_type,
            permission: self.permission,
            rules: compile_result_view(self.rules),
        }
    }
}

/// The mathematical view of a compiled-permission vector.
pub open spec fn compiled_view(v: Seq<CompiledPermission>) -> Seq<SpecCompiledPermission> {
    v.map_values(|c: CompiledPermission| c@)
}

/// The compilation of one permission of one type.
pub open spec fn spec_compiled_permission(td: TypeDefinition, p: Permission)
    -> SpecCompiledPermission {
    SpecCompiledPermission {
        resource_type: td.name,
        permission: p.name,
        rules: spec_compile_expr(td, p.name, p.expression),
    }
}

/// The compilations of the type's permissions at or after `j`.
pub open spec fn permissions_compiled_from(td: TypeDefinition, j: int) -> Seq<
    SpecCompiledPermission,
>
    decreases td.permissions@.len() - j,
{
    if j < 0 || j >= td.permissions@.len() {
        Seq::empty()
    } else {
        seq![spec_compiled_permission(td, td.permissions@[j])] + permissions_compiled_from(
            td,
            j + 1,
        )
    }
}

/// The compilations of the types at or after `i`, in schema order.
pub open spec fn schema_compiled_from(s: Schema, i: int) -> Seq<SpecCompiledPermission>
    decreases s.type_definitions@.len() - i,
{
    if i < 0 || i >= s.type_definitions@.len() {
        Seq::empty()
    } else {
        permissions_compiled_from(s.type_definitions@[i], 0) + schema_compiled_from(s, i + 1)
    }
}

/// The whole-schema compilation: one entry per (type, permission), in schema
/// order.
pub open spec fn spec_compile_schema(s: Schema) -> Seq<SpecCompiledPermission> {
    schema_compiled_from(s, 0)
}

/// Compiles every permission of every type, in schema order. Each entry
/// carries its own rules or its own error: a failure for one permission never
/// corrupts the results produced for others.
#[verifier::loop_isolation(false)]
pub fn compile_schema(s: &Schema) -> (out: Vec<CompiledPermission>)
    ensures
        compiled_view(out@) == spec_compile_schema(*s),
{
    let mut out: Vec<CompiledPermission> = Vec::new();
    let n = s.type_definitions.len();
    proof {
        assert(compiled_view(out@) + schema_compiled_from(*s, 0) =~= schema_compiled_from(*s, 0));
    }
    for i in 0..n
        invariant
            schema_compiled_from(*s, 0) == compiled_view(out@) + schema_compiled_from(
                *s,
                i as int,
            ),
    {
        let td = &s.type_definitions[i];
        let pn = td.permissions.len();
        let ghost mid = compiled_view(out@);
        proof {
            assert(mid + permissions_compiled_from(*td, 0) =~= mid + (Seq::<
                SpecCompiledPermission,
            >::empty() + permissions_compiled_from(*td, 0)));
        }
        for j in 0..pn
            invariant
                pn == td.permissions@.len(),
                schema_compiled_from(*s, 0) == compiled_view(out@) + (permissions_compiled_from(
                    *td,
                    j as int,
                ) + schema_compiled_from(*s, i + 1)),
        {
            let p = &td.permissions[j];
            let rules = rules_from_permission_expression(td, p, &p.expression);
            let cp = CompiledPermission {
                resource_type: td.name.clone(),
                permission: p.name.clone(),
                rules,
            };
            proof {
                assert(cp@ == spec_compiled_permission(*td, td.permissions@[j as int]));
                assert(compiled_view(out@.push(cp)) =~= compiled_view(out@).push(cp@));
                assert(compiled_view(out@).push(cp@) + (permissions_compiled_from(*td, j + 1)
                    + schema_compiled_from(*s, i + 1)) =~= compiled_view(out@) + (
                permissions_compiled_from(*td, j as int) + schema_compiled_from(*s, i + 1)));
            }
            out.push(cp);
        }
        proof {
            assert(compiled_view(out@) + (Seq::<SpecCompiledPermission>::empty()
                + schema_compiled_from(*s, i + 1)) =~= compiled_view(out@) + schema_compiled_from(
                *s,
                i + 1,
            ));
        }
    }
    proof {
        assert(compiled_view(out@) + schema_compiled_from(*s, n as int) =~= compiled_view(out@));
    }
    out
}

/// Validates the schema first and compiles only a schema with no defect: on
/// any defect the compiler refuses to run and the complete diagnostic list
/// comes back instead.
pub fn validate_and_compile(s: &Schema) -> (r: Result<Vec<CompiledPermission>, Vec<SchemaError>>)
    ensures
        match r {
            Ok(out) => crate::validate::spec_validate(*s).len() == 0 && compiled_view(out@)
                == spec_compile_schema(*s),
            Err(errs) => errs@ == crate::validate::spec_validate(*s) && errs@.len() > 0,
        },
{
    let errors = crate::validate::validate(s);
    if errors.len() == 0 {
        Ok(compile_schema(s))
    } else {
        Err(errors)
    }
}

} // verus!
