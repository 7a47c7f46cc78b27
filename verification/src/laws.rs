//! The laws of the validator and the compiler, each stated and proved over the
//! spec-level definitions that the executable functions' contracts are pinned
//! to.

use vstd::prelude::*;
use crate::schema::{
    HierarchicalExpression, PermissionExpression, Schema, SetExpression, TypeDefinition,
    spec_find_relation, spec_has_type, spec_is_predicate,
};
use crate::rule::{
    Atom, SpecRule, Term, atom_links_below, atom_mentions, body_mentions, is_variable, rule_safe,
    term_link_at_least,
};
use crate::compile::{
    CompileError, attach_head, combine_from, combine_one_from, cross_upto,
    hier_rules_from, operand_rule_lists, rule_bodies, rule_links_ok, shift_atom, shift_body,
    shift_term, spec_compile_expr, spec_head_atom, spec_hier_rule, union_rules_from,
};
use crate::validate::{
    SchemaError, collision_errors_from, expr_errors, exprs_errors_from, permission_errors,
    permissions_errors_from, relation_errors_from, restriction_errors_from, spec_validate,
    target_errors_from, type_errors, validate_from,
};

verus! {

// ------------------------------------------------------------------
// The unknown-type law of the validator.
// ------------------------------------------------------------------

/// Whether the diagnostic list holds an `UnknownType` error.
pub open spec fn has_unknown_type(errs: Seq<SchemaError>) -> bool {
    exists|x: int| 0 <= x < errs.len() && errs[x] is UnknownType
}

/// Whether restriction `k` of the relation names a type absent from the
/// schema.
pub open spec fn rel_defect(s: Schema, rel: crate::schema::Relation, k: int) -> bool {
    &&& 0 <= k < rel.type_restrictions@.len()
    &&& !spec_has_type(s, rel.type_restrictions@[k].subject_type@)
}

/// Whether restriction `k` of relation `j` of the type names a type absent
/// from the schema.
pub open spec fn type_defect(s: Schema, td: TypeDefinition, j: int, k: int) -> bool {
    &&& 0 <= j < td.relations@.len()
    &&& rel_defect(s, td.relations@[j], k)
}

/// Whether restriction `k` of relation `j` of type `i` names a type absent
/// from the schema.
pub open spec fn restriction_defect(s: Schema, i: int, j: int, k: int) -> bool {
    &&& 0 <= i < s.type_definitions@.len()
    &&& type_defect(s, s.type_definitions@[i], j, k)
}

proof fn lemma_hut_add(a: Seq<SchemaError>, b: Seq<SchemaError>)
    ensures
        has_unknown_type(a + b) <==> (has_unknown_type(a) || has_unknown_type(b)),
{
    if has_unknown_type(a + b) {
        let x = choose|x: int| 0 <= x < (a + b).len() && (a + b)[x] is UnknownType;
        if x < a.len() {
            assert(a[x] is UnknownType);
        } else {
            assert(b[x - a.len()] is UnknownType);
        }
    }
    if has_unknown_type(a) {
        let x = choose|x: int| 0 <= x < a.len() && a[x] is UnknownType;
        assert((a + b)[x] is UnknownType);
    }
    if has_unknown_type(b) {
        let x = choose|x: int| 0 <= x < b.len() && b[x] is UnknownType;
        assert((a + b)[a.len() + x] is UnknownType);
    }
}

proof fn lemma_restriction_errors_iff(
    s: Schema,
    td: TypeDefinition,
    rel: crate::schema::Relation,
    k: int,
)
    requires
        k >= 0,
    ensures
        has_unknown_type(restriction_errors_from(s, td, rel, k)) <==> exists|k2: int|
            k2 >= k && rel_defect(s, rel, k2),
    decreases rel.type_restrictions@.len() - k,
{
    if 0 <= k < rel.type_restrictions@.len() {
        lemma_restriction_errors_iff(s, td, rel, k + 1);
        let first: Seq<SchemaError> = if spec_has_type(
            s,
            rel.type_restrictions@[k].subject_type@,
        ) {
            Seq::empty()
        } else {
            seq![
                SchemaError::UnknownType {
                    on_type: td.name,
                    relation: rel.name,
                    subject_type: rel.type_restrictions@[k].subject_type,
                },
            ]
        };
        lemma_hut_add(first, restriction_errors_from(s, td, rel, k + 1));
        if !spec_has_type(s, rel.type_restrictions@[k].subject_type@) {
            assert(first[0] is UnknownType);
            assert(rel_defect(s, rel, k));
        }
        if exists|k2: int| k2 >= k && rel_defect(s, rel, k2) {
            let k2 = choose|k2: int| k2 >= k && rel_defect(s, rel, k2);
            if k2 == k {
                if spec_has_type(s, rel.type_restrictions@[k].subject_type@) {
                    assert(false);
                }
            } else {
                assert(k2 >= k + 1 && rel_defect(s, rel, k2));
            }
        }
    } else {
        if exists|k2: int| k2 >= k && rel_defect(s, rel, k2) {
            let k2 = choose|k2: int| k2 >= k && rel_defect(s, rel, k2);
            assert(false);
        }
    }
}

proof fn lemma_relation_errors_iff(s: Schema, td: TypeDefinition, j: int)
    requires
        j >= 0,
    ensures
        has_unknown_type(relation_errors_from(s, td, j)) <==> exists|j2: int, k: int|
            j2 >= j && type_defect(s, td, j2, k),
    decreases td.relations@.len() - j,
{
    if 0 <= j < td.relations@.len() {
        lemma_relation_errors_iff(s, td, j + 1);
        lemma_restriction_errors_iff(s, td, td.relations@[j], 0);
        lemma_hut_add(
            restriction_errors_from(s, td, td.relations@[j], 0),
            relation_errors_from(s, td, j + 1),
        );
        if has_unknown_type(restriction_errors_from(s, td, td.relations@[j], 0)) {
            let k2 = choose|k2: int| k2 >= 0 && rel_defect(s, td.relations@[j], k2);
            assert(type_defect(s, td, j, k2));
        }
        if exists|j2: int, k: int| j2 >= j && type_defect(s, td, j2, k) {
            let (j2, k) = choose|j2: int, k: int| j2 >= j && type_defect(s, td, j2, k);
            if j2 == j {
                assert(k >= 0 && rel_defect(s, td.relations@[j], k));
            } else {
                assert(j2 >= j + 1 && type_defect(s, td, j2, k));
            }
        }
    } else {
        if exists|j2: int, k: int| j2 >= j && type_defect(s, td, j2, k) {
            let (j2, k) = choose|j2: int, k: int| j2 >= j && type_defect(s, td, j2, k);
            assert(false);
        }
    }
}
proof fn lemma_collision_no_ut(td: TypeDefinition, j: int)
    ensures
        !has_unknown_type(collision_errors_from(td, j)),
    decreases td.relations@.len() - j,
{
    if 0 <= j < td.relations@.len() {
        lemma_collision_no_ut(td, j + 1);
        let first: Seq<SchemaError> = if crate::schema::spec_is_permission(
            td,
            td.relations@[j].name@,
        ) {
            seq![SchemaError::NameCollision { on_type: td.name, name: td.relations@[j].name }]
        } else {
            Seq::empty()
        };
        lemma_hut_add(first, collision_errors_from(td, j + 1));
    }
}

proof fn lemma_target_no_ut(
    s: Schema,
    perm_name: String,
    h: HierarchicalExpression,
    rs: Seq<crate::schema::RelationTypeRestriction>,
    k: int,
)
    ensures
        !has_unknown_type(target_errors_from(s, perm_name, h, rs, k)),
    decreases rs.len() - k,
{
    if 0 <= k < rs.len() {
        lemma_target_no_ut(s, perm_name, h, rs, k + 1);
        let first: Seq<SchemaError> = match crate::schema::spec_find_type(
            s,
            rs[k].subject_type@,
        ) {
            None => Seq::empty(),
            Some(target_td) => {
                if spec_is_predicate(target_td, h.target_relation@) {
                    Seq::empty()
                } else {
                    seq![
                        SchemaError::UnknownRelationOrPermission {
                            on_type: rs[k].subject_type,
                            permission: perm_name,
                            name: h.target_relation,
                        },
                    ]
                }
            },
        };
        lemma_hut_add(first, target_errors_from(s, perm_name, h, rs, k + 1));
    }
}

proof fn lemma_expr_no_ut(s: Schema, td: TypeDefinition, perm_name: String, e: PermissionExpression)
    ensures
        !has_unknown_type(expr_errors(s, td, perm_name, e)),
    decreases e, 1int,
{
    match e {
        PermissionExpression::UnaryExpression(_) => {},
        PermissionExpression::HierarchicalExpression(h) => {
            match spec_find_relation(td, h.source_relation@) {
                None => {},
                Some(rel) => {
                    if rel.type_restrictions@.len() > 0 {
                        lemma_target_no_ut(s, perm_name, h, rel.type_restrictions@, 0);
                    }
                },
            }
        },
        PermissionExpression::SetExpression(se) => {
            match se {
                SetExpression::Union(ops) => {
                    lemma_exprs_no_ut(s, td, perm_name, ops@, 0);
                },
                SetExpression::Intersection(ops) => {
                    lemma_exprs_no_ut(s, td, perm_name, ops@, 0);
                },
            }
        },
    }
}

proof fn lemma_exprs_no_ut(
    s: Schema,
    td: TypeDefinition,
    perm_name: String,
    ops: Seq<PermissionExpression>,
    i: int,
)
    ensures
        !has_unknown_type(exprs_errors_from(s, td, perm_name, ops, i)),
    decreases ops, ops.len() - i,
{
    if 0 <= i < ops.len() {
        lemma_expr_no_ut(s, td, perm_name, ops[i]);
        lemma_exprs_no_ut(s, td, perm_name, ops, i + 1);
        lemma_hut_add(
            expr_errors(s, td, perm_name, ops[i]),
            exprs_errors_from(s, td, perm_name, ops, i + 1),
        );
    }
}

proof fn lemma_permissions_no_ut(s: Schema, td: TypeDefinition, j: int)
    ensures
        !has_unknown_type(permissions_errors_from(s, td, j)),
    decreases td.permissions@.len() - j,
{
    if 0 <= j < td.permissions@.len() {
        let p = td.permissions@[j];
        lemma_expr_no_ut(s, td, p.name, p.expression);
        let cyc: Seq<SchemaError> = if crate::validate::expr_mentions(p.expression, p.name@) {
            seq![SchemaError::Cycle { on_type: td.name, permission: p.name }]
        } else {
            Seq::empty()
        };
        lemma_hut_add(cyc, expr_errors(s, td, p.name, p.expression));
        lemma_permissions_no_ut(s, td, j + 1);
        lemma_hut_add(permission_errors(s, td, p), permissions_errors_from(s, td, j + 1));
    }
}

proof fn lemma_type_errors_iff(s: Schema, td: TypeDefinition)
    ensures
        has_unknown_type(type_errors(s, td)) <==> exists|j: int, k: int| type_defect(s, td, j, k),
{
    lemma_relation_errors_iff(s, td, 0);
    lemma_collision_no_ut(td, 0);
    lemma_permissions_no_ut(s, td, 0);
    lemma_hut_add(relation_errors_from(s, td, 0), collision_errors_from(td, 0));
    lemma_hut_add(
        relation_errors_from(s, td, 0) + collision_errors_from(td, 0),
        permissions_errors_from(s, td, 0),
    );
    if has_unknown_type(type_errors(s, td)) {
        let (j2, k) = choose|j2: int, k: int| j2 >= 0 && type_defect(s, td, j2, k);
        assert(type_defect(s, td, j2, k));
    }
    if exists|j: int, k: int| type_defect(s, td, j, k) {
        let (j, k) = choose|j: int, k: int| type_defect(s, td, j, k);
        assert(j >= 0 && type_defect(s, td, j, k));
    }
}

proof fn lemma_validate_from_iff(s: Schema, i: int)
    requires
        i >= 0,
    ensures
        has_unknown_type(validate_from(s, i)) <==> exists|i2: int, j: int, k: int|
            i2 >= i && restriction_defect(s, i2, j, k),
    decreases s.type_definitions@.len() - i,
{
    if 0 <= i < s.type_definitions@.len() {
        lemma_validate_from_iff(s, i + 1);
        lemma_type_errors_iff(s, s.type_definitions@[i]);
        lemma_hut_add(type_errors(s, s.type_definitions@[i]), validate_from(s, i + 1));
        if has_unknown_type(type_errors(s, s.type_definitions@[i])) {
            let (j, k) = choose|j: int, k: int| type_defect(s, s.type_definitions@[i], j, k);
            assert(restriction_defect(s, i, j, k));
        }
        if has_unknown_type(validate_from(s, i + 1)) {
            let (i2, j, k) = choose|i2: int, j: int, k: int|
                i2 >= i + 1 && restriction_defect(s, i2, j, k);
            assert(i2 >= i && restriction_defect(s, i2, j, k));
        }
        if exists|i2: int, j: int, k: int| i2 >= i && restriction_defect(s, i2, j, k) {
            let (i2, j, k) = choose|i2: int, j: int, k: int|
                i2 >= i && restriction_defect(s, i2, j, k);
            if i2 == i {
                assert(type_defect(s, s.type_definitions@[i], j, k));
            } else {
                assert(i2 >= i + 1 && restriction_defect(s, i2, j, k));
            }
        }
    } else {
        if exists|i2: int, j: int, k: int| i2 >= i && restriction_defect(s, i2, j, k) {
            let (i2, j, k) = choose|i2: int, j: int, k: int|
                i2 >= i && restriction_defect(s, i2, j, k);
            assert(false);
        }
    }
}

/// The validator reports `UnknownType` if and only if some relation type
/// restriction names a type absent from the schema.
pub proof fn lemma_validate_reports_unknown_type(s: Schema)
    ensures
        has_unknown_type(spec_validate(s)) <==> exists|i: int, j: int, k: int|
            restriction_defect(s, i, j, k),
{
    lemma_validate_from_iff(s, 0);
    if has_unknown_type(spec_validate(s)) {
        let (i, j, k) = choose|i: int, j: int, k: int| i >= 0 && restriction_defect(s, i, j, k);
        assert(restriction_defect(s, i, j, k));
    }
    if exists|i: int, j: int, k: int| restriction_defect(s, i, j, k) {
        let (i, j, k) = choose|i: int, j: int, k: int| restriction_defect(s, i, j, k);
        assert(i >= 0 && restriction_defect(s, i, j, k));
    }
}


// ------------------------------------------------------------------
// The per-variant compilation laws.
// ------------------------------------------------------------------

/// The ordered concatenation of the operands' compiled rule sequences.
pub open spec fn concat_compiled_from(
    td: TypeDefinition,
    perm: String,
    ops: Seq<PermissionExpression>,
    i: int,
) -> Seq<SpecRule>
    decreases ops.len() - i,
{
    if i < 0 || i >= ops.len() {
        Seq::empty()
    } else {
        spec_compile_expr(td, perm, ops[i])->Ok_0 + concat_compiled_from(td, perm, ops, i + 1)
    }
}

/// For a unary expression naming a defined relation or permission, compilation
/// emits exactly one rule, whose single body atom applies the named predicate
/// to the same argument positions as the head: a direct alias.
pub proof fn lemma_unary_alias_rule(td: TypeDefinition, perm: String, name: String)
    requires
        spec_is_predicate(td, name@),
    ensures
        ({
            let r = spec_compile_expr(td, perm, PermissionExpression::UnaryExpression(name));
            &&& r is Ok
            &&& r->Ok_0.len() == 1
            &&& r->Ok_0[0].head == spec_head_atom(td, perm)
            &&& r->Ok_0[0].body.len() == 1
            &&& r->Ok_0[0].body[0].predicate_type == td.name
            &&& r->Ok_0[0].body[0].predicate == name
            &&& r->Ok_0[0].body[0].subject_arg == r->Ok_0[0].head.subject_arg
            &&& r->Ok_0[0].body[0].resource_arg == r->Ok_0[0].head.resource_arg
        }),
{
}

proof fn lemma_hier_rules_shape(
    td: TypeDefinition,
    perm: String,
    h: HierarchicalExpression,
    rs: Seq<crate::schema::RelationTypeRestriction>,
    i: int,
)
    requires
        0 <= i <= rs.len(),
    ensures
        hier_rules_from(td, perm, h, rs, i).len() == rs.len() - i,
        forall|x: int|
            0 <= x < rs.len() - i ==> #[trigger] hier_rules_from(td, perm, h, rs, i)[x]
                == spec_hier_rule(td, perm, h, rs[i + x]),
    decreases rs.len() - i,
{
    if i < rs.len() {
        lemma_hier_rules_shape(td, perm, h, rs, i + 1);
    }
}

/// For a hierarchical expression whose source relation carries restrictions
/// [t1..tn], compilation emits exactly n rules, one per restriction in order;
/// each rule's head `resource` variable reappears, identically named, as the
/// final body atom's resource argument.
pub proof fn lemma_hierarchical_rules(td: TypeDefinition, perm: String, h: HierarchicalExpression)
    requires
        spec_find_relation(td, h.source_relation@) is Some,
        spec_find_relation(td, h.source_relation@)->Some_0.type_restrictions@.len() >= 1,
    ensures
        ({
            let rs = spec_find_relation(td, h.source_relation@)->Some_0.type_restrictions@;
            let r = spec_compile_expr(
                td,
                perm,
                PermissionExpression::HierarchicalExpression(h),
            );
            &&& r is Ok
            &&& r->Ok_0.len() == rs.len()
            &&& forall|x: int|
                0 <= x < rs.len() ==> #[trigger] r->Ok_0[x] == spec_hier_rule(td, perm, h, rs[x])
            &&& forall|x: int|
                0 <= x < rs.len() ==> (#[trigger] r->Ok_0[x]).body.len() == 2
                    && r->Ok_0[x].head.resource_arg == Term::Resource
                    && r->Ok_0[x].body[1].resource_arg == Term::Resource
        }),
{
    let rs = spec_find_relation(td, h.source_relation@)->Some_0.type_restrictions@;
    lemma_hier_rules_shape(td, perm, h, rs, 0);
}

/// For a union whose operands all compile, compilation is exactly the ordered
/// concatenation of the operands' rules, no rule added or dropped.
pub proof fn lemma_union_concat(td: TypeDefinition, perm: String, ops: Vec<PermissionExpression>)
    requires
        forall|i: int|
            0 <= i < ops@.len() ==> spec_compile_expr(td, perm, #[trigger] ops@[i]) is Ok,
    ensures
        spec_compile_expr(
            td,
            perm,
            PermissionExpression::SetExpression(SetExpression::Union(ops)),
        ) == Ok::<Seq<SpecRule>, CompileError>(concat_compiled_from(td, perm, ops@, 0)),
{
    lemma_union_from_ok(td, perm, ops@, 0);
}

proof fn lemma_union_from_ok(
    td: TypeDefinition,
    perm: String,
    ops: Seq<PermissionExpression>,
    i: int,
)
    requires
        forall|x: int| 0 <= x < ops.len() ==> spec_compile_expr(td, perm, #[trigger] ops[x]) is Ok,
    ensures
        union_rules_from(td, perm, ops, i) == Ok::<Seq<SpecRule>, CompileError>(
            concat_compiled_from(td, perm, ops, i),
        ),
    decreases ops.len() - i,
{
    if 0 <= i < ops.len() {
        lemma_union_from_ok(td, perm, ops, i + 1);
    }
}

/// For an intersection of two operands that each compile to exactly one rule,
/// compilation yields exactly one rule: its head is the shared head, so the
/// `subject` and `resource` variables are unified across the operands, and its
/// body is the first operand's body followed by the second operand's body with
/// its links renumbered past the first, so the operands' link variables stay
/// disjoint: the first's stay below the first body's length and the second's
/// start at it.
pub proof fn lemma_intersection_pair(
    td: TypeDefinition,
    perm: String,
    e1: PermissionExpression,
    e2: PermissionExpression,
    ops: Vec<PermissionExpression>,
)
    requires
        ops@ =~= seq![e1, e2],
        spec_compile_expr(td, perm, e1) is Ok,
        spec_compile_expr(td, perm, e1)->Ok_0.len() == 1,
        spec_compile_expr(td, perm, e2) is Ok,
        spec_compile_expr(td, perm, e2)->Ok_0.len() == 1,
        spec_compile_expr(td, perm, e1)->Ok_0[0].body.len() + spec_compile_expr(
            td,
            perm,
            e2,
        )->Ok_0[0].body.len() <= usize::MAX,
    ensures
        ({
            let b1 = spec_compile_expr(td, perm, e1)->Ok_0[0].body;
            let b2 = spec_compile_expr(td, perm, e2)->Ok_0[0].body;
            let r = spec_compile_expr(
                td,
                perm,
                PermissionExpression::SetExpression(SetExpression::Intersection(ops)),
            );
            &&& r is Ok
            &&& r->Ok_0.len() == 1
            &&& r->Ok_0[0].head == spec_head_atom(td, perm)
            &&& r->Ok_0[0].body == b1 + shift_body(b2, b1.len() as int)
            &&& forall|x: int|
                0 <= x < b1.len() ==> atom_links_below(#[trigger] r->Ok_0[0].body[x], b1.len() as int)
            &&& forall|x: int|
                b1.len() <= x < r->Ok_0[0].body.len() ==> term_link_at_least(
                    (#[trigger] r->Ok_0[0].body[x]).subject_arg,
                    b1.len() as int,
                ) && term_link_at_least(r->Ok_0[0].body[x].resource_arg, b1.len() as int)
        }),
{
    let r1 = spec_compile_expr(td, perm, e1)->Ok_0;
    let r2 = spec_compile_expr(td, perm, e2)->Ok_0;
    let b1 = r1[0].body;
    let b2 = r2[0].body;
    assert(ops@[0] == e1 && ops@[1] == e2);
    assert(operand_rule_lists(td, perm, ops@, 2) == Ok::<Seq<Seq<SpecRule>>, CompileError>(
        Seq::empty(),
    ));
    assert(operand_rule_lists(td, perm, ops@, 1) == Ok::<Seq<Seq<SpecRule>>, CompileError>(
        seq![r2] + Seq::empty(),
    ));
    assert(operand_rule_lists(td, perm, ops@, 0) == Ok::<Seq<Seq<SpecRule>>, CompileError>(
        seq![r1] + (seq![r2] + Seq::empty()),
    ));
    let lists = operand_rule_lists(td, perm, ops@, 0)->Ok_0;
    assert(lists =~= seq![r1, r2]);
    assert(lists.len() == 2);
    // The first combination step continues the empty body with b1, shifting by
    // zero, which leaves b1 unchanged.
    let c1 = cross_upto(lists, 1);
    assert(rule_bodies(lists[0]) =~= seq![b1]);
    assert(rule_bodies(lists[1]) =~= seq![b2]);
    assert(cross_upto(lists, 0) == seq![Seq::<Atom>::empty()]);
    assert(combine_one_from(Seq::<Atom>::empty(), seq![b1], 1) =~= Seq::<Seq<Atom>>::empty());
    assert(combine_from(cross_upto(lists, 0), seq![b1], 1) =~= Seq::<Seq<Atom>>::empty());
    assert(shift_body(b1, 0) =~= b1) by {
        assert forall|x: int| 0 <= x < b1.len() implies shift_body(b1, 0)[x] == b1[x] by {
            assert(shift_body(b1, 0)[x] == shift_atom(b1[x], 0));
            assert(shift_term(b1[x].subject_arg, 0) == b1[x].subject_arg);
            assert(shift_term(b1[x].resource_arg, 0) == b1[x].resource_arg);
        }
    }
    assert(Seq::<Atom>::empty() + shift_body(b1, 0) =~= b1);
    assert(c1 =~= seq![b1]);
    let c2 = cross_upto(lists, 2);
    assert(combine_one_from(b1, seq![b2], 1) =~= Seq::<Seq<Atom>>::empty());
    assert(combine_from(c1, seq![b2], 1) =~= Seq::<Seq<Atom>>::empty());
    assert(c2 =~= seq![b1 + shift_body(b2, b1.len() as int)]);
    let conj = b1 + shift_body(b2, b1.len() as int);
    let r = spec_compile_expr(
        td,
        perm,
        PermissionExpression::SetExpression(SetExpression::Intersection(ops)),
    );
    assert(r == Ok::<Seq<SpecRule>, CompileError>(attach_head(spec_head_atom(td, perm), c2)));
    assert(r->Ok_0[0] == SpecRule { head: spec_head_atom(td, perm), body: conj });
    // Link disjointness: the first operand's links stay below b1's length
    // because every compiled rule keeps its links below its body's length; the
    // second operand's links are renumbered past b1.
    crate::compile::lemma_compile_rules_links_ok(td, perm, e1);
    crate::compile::lemma_compile_rules_links_ok(td, perm, e2);
    assert(rule_links_ok(r1[0]));
    assert(rule_links_ok(r2[0]));
    assert forall|x: int| 0 <= x < b1.len() implies atom_links_below(
        #[trigger] conj[x],
        b1.len() as int,
    ) by {
        assert(conj[x] == b1[x]);
        assert(atom_links_below(b1[x], b1.len() as int));
    }
    assert forall|x: int| b1.len() <= x < conj.len() implies term_link_at_least(
        (#[trigger] conj[x]).subject_arg,
        b1.len() as int,
    ) && term_link_at_least(conj[x].resource_arg, b1.len() as int) by {
        let y = x - b1.len();
        assert(conj[x] == shift_atom(b2[y], b1.len() as int));
        assert(atom_links_below(b2[y], b2.len() as int));
    }
}

// ------------------------------------------------------------------
// The safety law: no emitted rule leaves a head variable unbound.
// ------------------------------------------------------------------

/// Whether every body of the sequence mentions both designated variables.
pub open spec fn body_covers(b: Seq<Atom>) -> bool {
    body_mentions(b, Term::Subject) && body_mentions(b, Term::Resource)
}

proof fn lemma_shift_preserves_mention(b: Seq<Atom>, off: int, t: Term)
    requires
        t == Term::Subject || t == Term::Resource,
        body_mentions(b, t),
    ensures
        body_mentions(shift_body(b, off), t),
{
    let i = choose|i: int| 0 <= i < b.len() && atom_mentions(b[i], t);
    assert(shift_body(b, off)[i] == shift_atom(b[i], off));
    assert(atom_mentions(shift_body(b, off)[i], t));
}

proof fn lemma_hier_safe(
    td: TypeDefinition,
    perm: String,
    h: HierarchicalExpression,
    rs: Seq<crate::schema::RelationTypeRestriction>,
    i: int,
)
    ensures
        forall|x: int|
            0 <= x < hier_rules_from(td, perm, h, rs, i).len() ==> rule_safe(
                #[trigger] hier_rules_from(td, perm, h, rs, i)[x],
            ) && hier_rules_from(td, perm, h, rs, i)[x].head == spec_head_atom(td, perm),
    decreases rs.len() - i,
{
    if 0 <= i < rs.len() {
        lemma_hier_safe(td, perm, h, rs, i + 1);
        let r = spec_hier_rule(td, perm, h, rs[i]);
        assert(atom_mentions(r.body[0], Term::Subject));
        assert(atom_mentions(r.body[1], Term::Resource));
        assert(rule_safe(r));
    }
}

proof fn lemma_combine_one_covers(a: Seq<Atom>, bs: Seq<Seq<Atom>>, j: int)
    requires
        forall|x: int| 0 <= x < bs.len() ==> body_covers(#[trigger] bs[x]),
    ensures
        forall|x: int|
            0 <= x < combine_one_from(a, bs, j).len() ==> body_covers(
                #[trigger] combine_one_from(a, bs, j)[x],
            ),
    decreases bs.len() - j,
{
    if 0 <= j < bs.len() {
        lemma_combine_one_covers(a, bs, j + 1);
        let c = a + shift_body(bs[j], a.len() as int);
        lemma_shift_preserves_mention(bs[j], a.len() as int, Term::Subject);
        lemma_shift_preserves_mention(bs[j], a.len() as int, Term::Resource);
        let sb = shift_body(bs[j], a.len() as int);
        let is = choose|i: int| 0 <= i < sb.len() && atom_mentions(sb[i], Term::Subject);
        assert(c[a.len() + is] == sb[is]);
        assert(atom_mentions(c[a.len() + is], Term::Subject));
        let ir = choose|i: int| 0 <= i < sb.len() && atom_mentions(sb[i], Term::Resource);
        assert(c[a.len() + ir] == sb[ir]);
        assert(atom_mentions(c[a.len() + ir], Term::Resource));
        assert(body_covers(c));
        let rest = combine_one_from(a, bs, j + 1);
        assert forall|x: int| 0 <= x < combine_one_from(a, bs, j).len() implies body_covers(
            #[trigger] combine_one_from(a, bs, j)[x],
        ) by {
            if x == 0 {
                assert(combine_one_from(a, bs, j)[x] == c);
            } else {
                assert(combine_one_from(a, bs, j)[x] == rest[x - 1]);
            }
        }
    }
}

proof fn lemma_combine_covers(accs: Seq<Seq<Atom>>, bs: Seq<Seq<Atom>>, i: int)
    requires
        forall|x: int| 0 <= x < bs.len() ==> body_covers(#[trigger] bs[x]),
    ensures
        forall|x: int|
            0 <= x < combine_from(accs, bs, i).len() ==> body_covers(
                #[trigger] combine_from(accs, bs, i)[x],
            ),
    decreases accs.len() - i,
{
    if 0 <= i < accs.len() {
        lemma_combine_covers(accs, bs, i + 1);
        lemma_combine_one_covers(accs[i], bs, 0);
        let first = combine_one_from(accs[i], bs, 0);
        let rest = combine_from(accs, bs, i + 1);
        assert forall|x: int| 0 <= x < combine_from(accs, bs, i).len() implies body_covers(
            #[trigger] combine_from(accs, bs, i)[x],
        ) by {
            if x < first.len() {
                assert(combine_from(accs, bs, i)[x] == first[x]);
            } else {
                assert(combine_from(accs, bs, i)[x] == rest[x - first.len()]);
            }
        }
    }
}

proof fn lemma_cross_covers(lists: Seq<Seq<SpecRule>>, n: int)
    requires
        1 <= n <= lists.len(),
        forall|i: int, j: int|
            0 <= i < lists.len() && 0 <= j < lists[i].len() ==> rule_safe(#[trigger] lists[i][j])
                && lists[i][j].head.subject_arg == Term::Subject
                && lists[i][j].head.resource_arg == Term::Resource,
    ensures
        forall|x: int|
            0 <= x < cross_upto(lists, n).len() ==> body_covers(#[trigger] cross_upto(lists, n)[x]),
    decreases n,
{
    let bs = rule_bodies(lists[n - 1]);
    assert forall|x: int| 0 <= x < bs.len() implies body_covers(#[trigger] bs[x]) by {
        assert(bs[x] == lists[n - 1][x].body);
        assert(rule_safe(lists[n - 1][x]));
        assert(is_variable(Term::Subject) && is_variable(Term::Resource));
    }
    lemma_combine_covers(cross_upto(lists, n - 1), bs, 0);
}

/// Every rule a compilation emits is safe — each head variable reappears,
/// identically named, in some body atom — and carries the (type, permission)
/// head atom. A rule that would violate this is never emitted: compilation
/// fails instead.
pub proof fn lemma_compile_safe(td: TypeDefinition, perm: String, e: PermissionExpression)
    ensures
        spec_compile_expr(td, perm, e) matches Ok(rs) ==> forall|k: int|
            0 <= k < rs.len() ==> rule_safe(#[trigger] rs[k]) && rs[k].head == spec_head_atom(
                td,
                perm,
            ),
    decreases e, 1int,
{
    match e {
        PermissionExpression::UnaryExpression(name) => {
            if spec_is_predicate(td, name@) {
                let rs = spec_compile_expr(td, perm, e)->Ok_0;
                assert(atom_mentions(rs[0].body[0], Term::Subject));
                assert(atom_mentions(rs[0].body[0], Term::Resource));
                assert(rule_safe(rs[0]));
            }
        },
        PermissionExpression::HierarchicalExpression(h) => {
            match spec_find_relation(td, h.source_relation@) {
                None => {},
                Some(rel) => {
                    lemma_hier_safe(td, perm, h, rel.type_restrictions@, 0);
                },
            }
        },
        PermissionExpression::SetExpression(se) => {
            match se {
                SetExpression::Union(ops) => {
                    lemma_union_safe(td, perm, ops@, 0);
                },
                SetExpression::Intersection(ops) => {
                    if ops@.len() > 0 {
                        lemma_operand_lists_safe(td, perm, ops@, 0);
                        match operand_rule_lists(td, perm, ops@, 0) {
                            Err(_) => {},
                            Ok(lists) => {
                                lemma_operand_lists_len(td, perm, ops@, 0);
                                lemma_cross_covers(lists, lists.len() as int);
                                let rs = attach_head(
                                    spec_head_atom(td, perm),
                                    cross_upto(lists, lists.len() as int),
                                );
                                assert forall|k: int| 0 <= k < rs.len() implies rule_safe(
                                    #[trigger] rs[k],
                                ) && rs[k].head == spec_head_atom(td, perm) by {
                                    assert(rs[k].body == cross_upto(
                                        lists,
                                        lists.len() as int,
                                    )[k]);
                                    assert(body_covers(rs[k].body));
                                }
                            },
                        }
                    }
                },
            }
        },
    }
}

proof fn lemma_union_safe(td: TypeDefinition, perm: String, ops: Seq<PermissionExpression>, i: int)
    ensures
        union_rules_from(td, perm, ops, i) matches Ok(rs) ==> forall|k: int|
            0 <= k < rs.len() ==> rule_safe(#[trigger] rs[k]) && rs[k].head == spec_head_atom(
                td,
                perm,
            ),
    decreases ops, ops.len() - i,
{
    if 0 <= i < ops.len() {
        lemma_compile_safe(td, perm, ops[i]);
        lemma_union_safe(td, perm, ops, i + 1);
        if union_rules_from(td, perm, ops, i) is Ok {
            let rs = spec_compile_expr(td, perm, ops[i])->Ok_0;
            let rest = union_rules_from(td, perm, ops, i + 1)->Ok_0;
            assert forall|k: int| 0 <= k < (rs + rest).len() implies rule_safe(
                #[trigger] (rs + rest)[k],
            ) && (rs + rest)[k].head == spec_head_atom(td, perm) by {
                if k < rs.len() {
                    assert((rs + rest)[k] == rs[k]);
                } else {
                    assert((rs + rest)[k] == rest[k - rs.len()]);
                }
            }
        }
    }
}

proof fn lemma_operand_lists_safe(
    td: TypeDefinition,
    perm: String,
    ops: Seq<PermissionExpression>,
    i: int,
)
    ensures
        operand_rule_lists(td, perm, ops, i) matches Ok(lists) ==> forall|x: int, j: int|
            0 <= x < lists.len() && 0 <= j < lists[x].len() ==> rule_safe(#[trigger] lists[x][j])
                && lists[x][j].head == spec_head_atom(td, perm),
    decreases ops, ops.len() - i,
{
    if 0 <= i < ops.len() {
        lemma_compile_safe(td, perm, ops[i]);
        lemma_operand_lists_safe(td, perm, ops, i + 1);
        if operand_rule_lists(td, perm, ops, i) is Ok {
            let rs = spec_compile_expr(td, perm, ops[i])->Ok_0;
            let rest = operand_rule_lists(td, perm, ops, i + 1)->Ok_0;
            let lists = operand_rule_lists(td, perm, ops, i)->Ok_0;
            assert(lists == seq![rs] + rest);
            assert forall|x: int, j: int|
                0 <= x < lists.len() && 0 <= j < lists[x].len() implies rule_safe(
                #[trigger] lists[x][j],
            ) && lists[x][j].head == spec_head_atom(td, perm) by {
                if x == 0 {
                    assert(lists[0] == rs);
                    assert(rule_safe(rs[j]) && rs[j].head == spec_head_atom(td, perm));
                } else {
                    assert(lists[x] == rest[x - 1]);
                }
            }
        }
    }
}

proof fn lemma_operand_lists_len(
    td: TypeDefinition,
    perm: String,
    ops: Seq<PermissionExpression>,
    i: int,
)
    requires
        0 <= i <= ops.len(),
    ensures
        operand_rule_lists(td, perm, ops, i) matches Ok(lists) ==> lists.len() == ops.len() - i,
    decreases ops, ops.len() - i,
{
    if i < ops.len() {
        lemma_operand_lists_len(td, perm, ops, i + 1);
    }
}

} // verus!
